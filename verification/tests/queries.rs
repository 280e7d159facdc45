use harper_document::{
    Document, FatStringToken, FatToken, FstDictionary, Span, TokenKind,
};

fn plain(text: &str) -> Document {
    Document::new_plain_english(text, &FstDictionary::new())
}

#[test]
fn finds_the_tokens_that_a_span_touches() {
    let document = plain("Foo bar baz");
    assert_eq!(document.token_indices_intersecting(Span::new(2, 5)), vec![0, 1, 2]);
    assert_eq!(document.token_indices_intersecting(Span::new(3, 4)), vec![1]);
    assert_eq!(document.token_indices_intersecting(Span::new(0, 11)), vec![0, 1, 2, 3, 4]);
    assert_eq!(document.token_indices_intersecting(Span::new(3, 3)), Vec::<usize>::new());
    assert_eq!(document.token_indices_intersecting(Span::new(5, 5)), vec![2]);
    assert_eq!(document.token_indices_intersecting(Span::new(11, 20)), Vec::<usize>::new());
}

#[test]
fn hands_out_the_tokens_that_a_span_touches() {
    let document = plain("Foo bar");
    let fat = document.fat_tokens_intersecting(Span::new(3, 5));
    assert_eq!(
        fat,
        vec![
            FatToken {
                content: vec![' '],
                kind: TokenKind::Space(1)
            },
            FatToken {
                content: vec!['b', 'a', 'r'],
                kind: TokenKind::Word(None)
            },
        ]
    );
}

#[test]
fn a_token_stands_at_every_character() {
    let text = "It isn't 3.5 (e.g.), etc. \u{2026}";
    let document = plain(text);
    let len = document.get_source().len();
    for at in 0..len {
        let token = document.get_token_at_char_index(at).unwrap();
        assert!(token.span.start <= at && at < token.span.end);
    }
    assert!(document.get_token_at_char_index(len).is_none());
    assert!(document.get_token_at_char_index(1000).is_none());
}

#[test]
fn a_span_of_one_character_touches_its_token() {
    let document = plain("It isn't so.");
    for at in 0..document.get_source().len() {
        let touched = document.token_indices_intersecting(Span::new_with_len(at, 1));
        assert_eq!(touched.len(), 1);
        assert_eq!(
            document.get_token(touched[0]),
            document.get_token_at_char_index(at)
        );
    }
}

#[test]
fn empty_documents_have_no_tokens() {
    let document = Document::default();
    assert_eq!(document.get_tokens().len(), 0);
    assert_eq!(document.get_full_string(), "");
    assert_eq!(document.to_string(), "");
    assert!(document.get_token_at_char_index(0).is_none());
    assert!(document.get_token(0).is_none());
    assert!(document.get_token_offset(0, 0).is_none());
    assert!(document.get_next_word_from_offset(0, 1).is_none());
    assert!(document.iter_nominal_phrases().is_empty());
}

#[test]
fn selects_tokens_by_index() {
    let document = plain("Foo bar");
    assert_eq!(document.get_token(2).unwrap().span, Span::new(4, 7));
    assert!(document.get_token(3).is_none());
    assert_eq!(document.get_token_offset(1, 0), document.get_token(1));
    assert_eq!(document.get_token_offset(0, 2), document.get_token(2));
    assert!(document.get_token_offset(usize::MAX, 1).is_none());
    assert!(document.get_token_offset(0, isize::MIN).is_none());
}

#[test]
fn selects_no_word_next_to_itself() {
    let document = plain("Foo bar baz");
    assert!(document.get_next_word_from_offset(1, 0).is_none());
    assert_eq!(
        document.get_next_word_from_offset(1, 2).unwrap().span,
        Span::new(8, 11)
    );
    assert!(document.get_next_word_from_offset(4, 1).is_none());
}

#[test]
fn selects_no_word_before_the_start_at_any_offset() {
    let document = plain(" x");
    let far = isize::MIN.unsigned_abs();
    assert!(document.get_token_offset(far, isize::MIN).unwrap().kind.is_whitespace());
    assert!(document.get_next_word_from_offset(far, isize::MIN).is_none());
    assert!(document.get_next_word_from_offset(0, isize::MAX).is_none());
    let document = plain("y x");
    assert_eq!(
        document.get_next_word_from_offset(far + 1, isize::MIN).unwrap().span,
        Span::new(0, 1)
    );
}

#[test]
fn selects_no_word_past_the_end() {
    let document = plain("Foo ");
    assert!(document.get_next_word_from_offset(0, 1).is_none());
}

#[test]
fn walks_over_the_tokens() {
    let document = plain("Foo bar");
    let spans: Vec<Span> = document.tokens().map(|token| token.span).collect();
    assert_eq!(spans, vec![Span::new(0, 3), Span::new(3, 4), Span::new(4, 7)]);
}

#[test]
fn fat_tokens_hold_their_text() {
    let document = plain("Hi you");
    let fat = document.fat_tokens();
    assert_eq!(fat.len(), 3);
    assert_eq!(fat[0].content, vec!['H', 'i']);
    assert_eq!(fat[1].content, vec![' ']);
    for (fat, token) in fat.iter().zip(document.get_tokens()) {
        assert_eq!(fat.content, document.get_span_content(&token.span));
        assert_eq!(fat.kind, token.kind);
    }
    assert_eq!(
        document.fat_string_tokens()[2],
        FatStringToken {
            content: "you".to_string(),
            kind: TokenKind::Word(None)
        }
    );
}

#[test]
fn reads_its_text_back() {
    let text = "na\u{ef}ve \"caf\u{e9}\"\n";
    let document = plain(text);
    let chars: Vec<char> = text.chars().collect();
    assert_eq!(document.get_full_string(), text);
    assert_eq!(document.get_full_content(), chars.as_slice());
    assert_eq!(document.get_source(), chars.as_slice());
    assert_eq!(document.get_span_content_str(&Span::new(7, 11)), "caf\u{e9}");
    assert_eq!(document.get_span_content(&Span::new(0, 0)).len(), 0);
}

#[test]
fn clones_are_alike() {
    let document = plain("It isn't so.");
    let copy = document.clone();
    assert_eq!(copy.get_tokens(), document.get_tokens());
    assert_eq!(copy.get_full_string(), document.get_full_string());
}
