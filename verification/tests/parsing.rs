use harper_document::{
    chars_of, Currency, Document, FstDictionary, Markdown, MarkdownOptions, Number, Parser,
    PlainEnglish, Punctuation, Span, Token, TokenKind,
};

fn kinds(tokens: &[Token]) -> Vec<TokenKind> {
    tokens.iter().map(|token| token.kind).collect()
}

#[test]
fn plain_text_is_cut_into_pieces() {
    let tokens = PlainEnglish.parse(&chars_of("It\tcost $4.50!\n\n\u{3b1}"));
    assert_eq!(
        kinds(&tokens),
        vec![
            TokenKind::Word(None),
            TokenKind::Space(1),
            TokenKind::Word(None),
            TokenKind::Space(1),
            TokenKind::Punctuation(Punctuation::Currency(Currency::Dollar)),
            TokenKind::Number(Number {
                suffix: None,
                precision: 2
            }),
            TokenKind::Punctuation(Punctuation::Bang),
            TokenKind::Newline(2),
            TokenKind::Unlintable,
        ]
    );
    assert_eq!(tokens[5].span, Span::new(9, 13));
}

#[test]
fn pieces_cover_the_text() {
    let source = chars_of("A \u{201c}b\u{201d} 3. c-d");
    let mut at = 0;
    for token in PlainEnglish.parse(&source) {
        assert_eq!(token.span.start, at);
        assert!(token.span.end > at);
        at = token.span.end;
    }
    assert_eq!(at, source.len());
}

#[test]
fn a_point_without_digits_is_a_period() {
    let tokens = PlainEnglish.parse(&chars_of("3."));
    assert_eq!(tokens.len(), 2);
    assert_eq!(tokens[1].kind, TokenKind::Punctuation(Punctuation::Period));
}

#[test]
fn fresh_quotation_marks_stand_alone() {
    for token in PlainEnglish.parse(&chars_of("\"a\"")) {
        if let TokenKind::Punctuation(Punctuation::Quote(quote)) = token.kind {
            assert_eq!(quote.twin_loc, None);
        }
    }
}

#[test]
fn code_is_not_prose() {
    let document = Document::new_markdown_default("run `ls -l` now", &FstDictionary::new());
    assert_eq!(document.get_tokens().len(), 5);
    assert_eq!(
        document.get_tokens()[2],
        Token {
            span: Span::new(4, 11),
            kind: TokenKind::Unlintable
        }
    );
    assert_eq!(document.to_string(), "run `ls -l` now");
}

#[test]
fn link_destinations_are_not_prose() {
    let text = "see [the site](a.b) now";
    let shown = Document::new_markdown_default_curated(text);
    assert_eq!(shown.get_tokens().len(), 9);
    assert_eq!(shown.get_tokens()[6].span, Span::new(13, 19));
    assert!(shown.get_tokens()[6].kind.is_unlintable());
    let hidden = Document::new_markdown_curated(
        text,
        MarkdownOptions {
            ignore_link_title: true,
        },
    );
    assert_eq!(hidden.get_tokens().len(), 5);
    assert_eq!(hidden.get_tokens()[2].span, Span::new(4, 19));
    assert_eq!(hidden.to_string(), text);
}

#[test]
fn open_markup_is_plain_text() {
    let options = MarkdownOptions {
        ignore_link_title: true,
    };
    for text in ["a ` b", "[a", "[a]", "[a](b", "](", "]"] {
        let source = chars_of(text);
        assert_eq!(Markdown::new(options).parse(&source), PlainEnglish.parse(&source));
    }
}

#[test]
fn constructors_agree() {
    let text = "You aren't in it, etc. \"Is it?\"";
    let dictionary = FstDictionary::curated();
    let document = Document::new(text, &PlainEnglish, &dictionary);
    let same = vec![
        Document::new_curated(text, &PlainEnglish),
        Document::new_plain_english(text, &dictionary),
        Document::new_plain_english_curated(text),
        Document::new_from_vec(harper_document::Lrc::new(chars_of(text)), &PlainEnglish, &dictionary),
        Document::new_markdown(text, MarkdownOptions::default(), &dictionary),
        Document::new_markdown_curated(text, MarkdownOptions::default()),
        Document::new_markdown_default(text, &dictionary),
        Document::new_markdown_default_curated(text),
    ];
    for other in same {
        assert_eq!(other.get_tokens(), document.get_tokens());
        assert_eq!(other.get_full_string(), text);
    }
}

#[test]
fn documents_print_their_text() {
    for text in [
        "",
        "e.g.",
        "We say \"i.e.\", N.S.A. et al. (.exe)... 42nd isn't 3.14\n\n\n\tFin.",
        "plan b.",
        ".c",
    ] {
        assert_eq!(Document::new_plain_english_curated(text).to_string(), text);
        assert_eq!(Document::new_markdown_default_curated(text).to_string(), text);
    }
}

#[test]
fn parsed_blanks_stay_apart() {
    let document = Document::new_plain_english_curated("a  \t b\n\nc et  al. \n d");
    for pair in document.get_tokens().windows(2) {
        assert!(!(pair[0].kind.is_space() && pair[1].kind.is_space()));
        assert!(!(pair[0].kind.is_newline() && pair[1].kind.is_newline()));
    }
}

#[test]
fn parsed_quotes_know_each_other() {
    let document = Document::new_plain_english_curated("\"a\" isn't \"b\" or \"c");
    let tokens = document.get_tokens();
    let mut pairs = 0;
    for (i, token) in tokens.iter().enumerate() {
        if let TokenKind::Punctuation(Punctuation::Quote(quote)) = token.kind {
            if let Some(other) = quote.twin_loc {
                pairs += 1;
                match tokens[other].kind {
                    TokenKind::Punctuation(Punctuation::Quote(twin)) => {
                        assert_eq!(twin.twin_loc, Some(i))
                    }
                    _ => panic!("not a quotation mark"),
                }
            }
        }
    }
    assert_eq!(pairs, 4);
}
