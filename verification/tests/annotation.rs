use harper_document::nominal::find_phrases;
use harper_document::{
    annotate_sentence, chars_of, Dictionary, Document, FstDictionary, NounData, Span, Token,
    TokenKind, VerbData, WordMetadata, UPOS,
};

fn noun() -> WordMetadata {
    WordMetadata {
        noun: Some(NounData { is_proper: false }),
        ..WordMetadata::unknown()
    }
}

fn verb() -> WordMetadata {
    WordMetadata {
        verb: Some(VerbData {
            is_linking: false,
            is_auxiliary: false,
        }),
        ..WordMetadata::unknown()
    }
}

fn small_dictionary() -> FstDictionary {
    let mut dictionary = FstDictionary::new();
    dictionary.add_word("cat", noun());
    dictionary.add_word("mat", noun());
    dictionary.add_word("sat", verb());
    dictionary.add_word(
        "the",
        WordMetadata {
            determiner: true,
            ..WordMetadata::unknown()
        },
    );
    dictionary
}

fn metadata(token: &Token) -> Option<WordMetadata> {
    match token.kind {
        TokenKind::Word(metadata) => metadata,
        _ => panic!("not a word"),
    }
}

#[test]
fn words_take_tags_and_marks_in_order() {
    let source = chars_of("cat, xyz sat");
    let sentence = vec![
        Token {
            span: Span::new(0, 3),
            kind: TokenKind::Word(None),
        },
        Token {
            span: Span::new(3, 4),
            kind: TokenKind::Unlintable,
        },
        Token {
            span: Span::new(4, 5),
            kind: TokenKind::Space(1),
        },
        Token {
            span: Span::new(5, 8),
            kind: TokenKind::Word(Some(noun())),
        },
        Token {
            span: Span::new(8, 9),
            kind: TokenKind::Space(1),
        },
        Token {
            span: Span::new(9, 12),
            kind: TokenKind::Word(None),
        },
    ];
    let tags = vec![Some(UPOS::PROPN), Some(UPOS::PUNCT), Some(UPOS::ADV), None];
    let marks = vec![true, false, true, false];
    let out = annotate_sentence(&sentence, &source, &small_dictionary(), &tags, &marks);
    assert_eq!(out.len(), sentence.len());
    assert_eq!(
        metadata(&out[0]),
        Some(WordMetadata {
            pos_tag: Some(UPOS::PROPN),
            np_member: Some(true),
            ..noun()
        })
    );
    assert_eq!(out[1], sentence[1]);
    assert_eq!(out[2], sentence[2]);
    assert_eq!(metadata(&out[3]), None);
    assert_eq!(
        metadata(&out[5]),
        Some(WordMetadata {
            pos_tag: Some(UPOS::VERB),
            np_member: Some(false),
            ..verb()
        })
    );
    for (annotated, token) in out.iter().zip(&sentence) {
        assert_eq!(annotated.span, token.span);
    }
}

#[test]
fn a_sole_part_of_speech_is_inferred() {
    assert_eq!(noun().infer_pos_tag(), Some(UPOS::NOUN));
    assert_eq!(verb().infer_pos_tag(), Some(UPOS::VERB));
    assert_eq!(WordMetadata::unknown().infer_pos_tag(), None);
    let both = WordMetadata {
        verb: verb().verb,
        ..noun()
    };
    assert_eq!(both.infer_pos_tag(), None);
    assert!(both.is_likely_homograph());
    assert!(!noun().is_likely_homograph());
    let proper = WordMetadata {
        noun: Some(NounData { is_proper: true }),
        ..WordMetadata::unknown()
    };
    assert_eq!(proper.infer_pos_tag(), Some(UPOS::PROPN));
}

#[test]
fn dictionaries_ignore_case() {
    let dictionary = small_dictionary();
    assert_eq!(dictionary.get_word_metadata(&chars_of("CAT")), Some(&noun()));
    assert_eq!(dictionary.get_word_metadata(&chars_of("cats")), None);
    let curated = FstDictionary::curated();
    assert!(curated.get_word_metadata(&chars_of("The")).unwrap().determiner);
    assert!(curated.get_word_metadata(&chars_of("were")).unwrap().is_linking_verb());
    assert!(curated.get_word_metadata(&chars_of("")).is_none());
}

#[test]
fn documents_are_tagged_and_chunked() {
    let document = Document::new_plain_english("The cat sat.", &small_dictionary());
    let tokens = document.get_tokens();
    let the = metadata(&tokens[0]).unwrap();
    let cat = metadata(&tokens[2]).unwrap();
    let sat = metadata(&tokens[4]).unwrap();
    assert_eq!(the.pos_tag, Some(UPOS::DET));
    assert_eq!(cat.pos_tag, Some(UPOS::NOUN));
    assert_eq!(sat.pos_tag, Some(UPOS::VERB));
    assert_eq!(cat.np_member, Some(true));
    assert_eq!(sat.np_member, Some(false));
    assert!(the.determiner && cat.noun.is_some() && sat.verb.is_some());
}

#[test]
fn words_that_are_not_known_have_no_metadata() {
    let document = Document::new_plain_english("The zyzzyva sat.", &small_dictionary());
    assert!(metadata(&document.get_tokens()[0]).is_some());
    assert_eq!(metadata(&document.get_tokens()[2]), None);
}

#[test]
fn every_sentence_is_tagged_by_itself() {
    let two = Document::new_plain_english("The cat sat. The mat sat.", &small_dictionary());
    let one = Document::new_plain_english("The cat sat.", &small_dictionary());
    for (a, b) in one.get_tokens().iter().zip(two.get_tokens()) {
        assert_eq!(a, b);
    }
}

#[test]
fn nominal_phrases_are_members_of_noun_phrases() {
    let document = Document::new_plain_english("The cat sat.", &small_dictionary());
    let phrases = document.iter_nominal_phrases();
    assert_eq!(phrases.len(), 1);
    let first = phrases[0][0].span.start;
    let last = phrases[0][phrases[0].len() - 1].span.end;
    assert_eq!(document.get_span_content_str(&Span::new(first, last)), "The cat");
    for phrase in phrases {
        assert!(!phrase[0].kind.is_whitespace());
        assert!(!phrase[phrase.len() - 1].kind.is_whitespace());
        assert!(phrase.iter().any(|token| token.kind.is_np_member()));
    }
}

#[test]
fn nominal_phrases_are_parted() {
    let word = |start: usize, end: usize, np_member: Option<bool>| Token {
        span: Span::new(start, end),
        kind: TokenKind::Word(Some(WordMetadata {
            np_member,
            ..noun()
        })),
    };
    let space = |start: usize| Token {
        span: Span::new(start, start + 1),
        kind: TokenKind::Space(1),
    };
    let tokens = vec![
        space(0),
        word(1, 2, Some(true)),
        space(2),
        word(3, 4, Some(true)),
        space(4),
        word(5, 6, Some(false)),
        space(6),
        word(7, 8, None),
        word(8, 9, Some(true)),
        space(9),
    ];
    let phrases = find_phrases(&tokens);
    assert_eq!(phrases, vec![&tokens[1..4], &tokens[8..9]]);
    assert!(find_phrases(&tokens[4..8]).is_empty());
}

#[test]
fn no_known_words_give_no_nominal_phrases() {
    let document = Document::new_plain_english("The cat sat.", &FstDictionary::new());
    assert!(document.iter_nominal_phrases().is_empty());
}
