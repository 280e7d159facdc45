use harper_document::blank_runs::BlankRuns;
use harper_document::condense::condense;
use harper_document::{
    chars_of, Document, FstDictionary, Number, OrdinalSuffix, Punctuation, Quote, Span, Token,
    TokenKind,
};

fn token(start: usize, end: usize, kind: TokenKind) -> Token {
    Token {
        span: Span::new(start, end),
        kind,
    }
}

fn word(start: usize, end: usize) -> Token {
    token(start, end, TokenKind::Word(None))
}

fn without_runs(text: &str, tokens: Vec<Token>) -> Vec<Token> {
    let source = chars_of(text);
    let spaces = condense(&BlankRuns::Spaces, &tokens, &source);
    condense(&BlankRuns::Newlines, &spaces, &source)
}

fn plain(text: &str) -> Vec<Token> {
    let document = Document::new_plain_english(text, &FstDictionary::new());
    document.get_tokens().to_vec()
}

#[test]
fn spaces_in_a_row_become_one() {
    let out = without_runs(
        "      a",
        vec![
            token(0, 1, TokenKind::Space(1)),
            token(1, 3, TokenKind::Space(2)),
            token(3, 4, TokenKind::Space(1)),
            token(4, 6, TokenKind::Space(2)),
            word(6, 7),
        ],
    );
    assert_eq!(out, vec![token(0, 6, TokenKind::Space(6)), word(6, 7)]);
}

#[test]
fn spaces_that_do_not_touch_stay_apart() {
    let tokens = vec![
        token(0, 1, TokenKind::Space(1)),
        token(2, 3, TokenKind::Space(1)),
    ];
    assert_eq!(without_runs(" x ", tokens.clone()), tokens);
}

#[test]
fn newlines_in_a_row_become_one() {
    let out = without_runs(
        "\n\na",
        vec![
            token(0, 1, TokenKind::Newline(1)),
            token(1, 2, TokenKind::Newline(1)),
            word(2, 3),
        ],
    );
    assert_eq!(out, vec![token(0, 2, TokenKind::Newline(2)), word(2, 3)]);
}

#[test]
fn newlines_need_not_touch() {
    let out = without_runs(
        "\n>\n",
        vec![
            token(0, 1, TokenKind::Newline(1)),
            token(2, 3, TokenKind::Newline(1)),
        ],
    );
    assert_eq!(out, vec![token(0, 3, TokenKind::Newline(2))]);
}

#[test]
fn newlines_are_not_merged_over_words() {
    let tokens = vec![
        token(0, 1, TokenKind::Newline(1)),
        word(1, 2),
        token(2, 3, TokenKind::Newline(1)),
    ];
    assert_eq!(without_runs("\na\n", tokens.clone()), tokens);
}

#[test]
fn more_than_two_line_ends_part_paragraphs() {
    assert_eq!(
        plain("a\n\n\nb"),
        vec![
            word(0, 1),
            token(1, 4, TokenKind::ParagraphBreak),
            word(4, 5)
        ]
    );
    assert_eq!(
        plain("a\n\nb"),
        vec![word(0, 1), token(1, 3, TokenKind::Newline(2)), word(3, 4)]
    );
}

#[test]
fn contractions_span_all_their_parts() {
    assert_eq!(plain("isn't"), vec![word(0, 5)]);
    assert_eq!(plain("isn\u{2019}t"), vec![word(0, 5)]);
    assert_eq!(
        plain("rock'n'roll"),
        vec![
            word(0, 6),
            token(6, 7, TokenKind::Punctuation(Punctuation::Apostrophe)),
            word(7, 11)
        ]
    );
    assert_eq!(
        plain("dogs' "),
        vec![
            word(0, 4),
            token(4, 5, TokenKind::Punctuation(Punctuation::Apostrophe)),
            token(5, 6, TokenKind::Space(1))
        ]
    );
}

#[test]
fn initialisms_span_all_their_letters() {
    let space = token(4, 5, TokenKind::Space(1));
    assert_eq!(plain("e.g. this"), vec![word(0, 4), space, word(5, 9)]);
    assert_eq!(plain("e.g. "), vec![word(0, 4), space]);
    assert_eq!(plain("e.g."), vec![word(0, 4)]);
    assert_eq!(
        plain("the N.S.A."),
        vec![word(0, 3), token(3, 4, TokenKind::Space(1)), word(4, 10)]
    );
}

#[test]
fn a_letter_and_a_period_end_a_document() {
    let period = TokenKind::Punctuation(Punctuation::Period);
    assert_eq!(
        plain("plan b."),
        vec![
            word(0, 4),
            token(4, 5, TokenKind::Space(1)),
            word(5, 6),
            token(6, 7, period)
        ]
    );
    assert_eq!(plain("b."), vec![word(0, 2)]);
    assert_eq!(
        plain("b. c"),
        vec![word(0, 2), token(2, 3, TokenKind::Space(1)), word(3, 4)]
    );
    assert_eq!(plain("by. c").len(), 4);
}

#[test]
fn ordinals_know_their_suffix() {
    let ordinal = |suffix| {
        TokenKind::Number(Number {
            suffix: Some(suffix),
            precision: 0,
        })
    };
    assert_eq!(plain("1st"), vec![token(0, 3, ordinal(OrdinalSuffix::St))]);
    assert_eq!(
        plain("600nD"),
        vec![token(0, 5, ordinal(OrdinalSuffix::Nd))]
    );
    assert_eq!(plain("3RD"), vec![token(0, 3, ordinal(OrdinalSuffix::Rd))]);
    assert_eq!(plain("4th"), vec![token(0, 3, ordinal(OrdinalSuffix::Th))]);
    let bare = TokenKind::Number(Number {
        suffix: None,
        precision: 0,
    });
    assert_eq!(plain("4km"), vec![token(0, 1, bare), word(1, 3)]);
    assert_eq!(plain("4 th").len(), 3);
}

#[test]
fn periods_in_a_row_are_an_ellipsis() {
    let ellipsis = TokenKind::Punctuation(Punctuation::Ellipsis);
    let period = TokenKind::Punctuation(Punctuation::Period);
    assert_eq!(plain("...."), vec![token(0, 4, ellipsis)]);
    assert_eq!(plain(".."), vec![token(0, 2, ellipsis)]);
    assert_eq!(plain("."), vec![token(0, 1, period)]);
    assert_eq!(plain("no.").len(), 2);
}

#[test]
fn latin_phrases_take_their_period() {
    assert_eq!(plain("etc."), vec![word(0, 4)]);
    assert_eq!(plain("VS."), vec![word(0, 3)]);
    assert_eq!(plain("et al."), vec![word(0, 6)]);
    assert_eq!(plain("Et   Al."), vec![word(0, 8)]);
    assert_eq!(plain("et al").len(), 3);
    assert_eq!(plain("et. al.").len(), 5);
    assert_eq!(plain("etcetera.").len(), 2);
}

#[test]
fn extensions_span_their_letters() {
    assert_eq!(plain(".exe"), vec![token(0, 4, TokenKind::Unlintable)]);
    assert_eq!(plain(".exe ")[0], token(0, 4, TokenKind::Unlintable));
    assert_eq!(plain("an.exe").len(), 3);
    assert_eq!(plain("(.js)")[1], token(1, 4, TokenKind::Unlintable));
    assert_eq!(plain("(.js ").len(), 4);
    assert_eq!(plain(".js)").len(), 3);
}

#[test]
fn quotation_marks_know_each_other() {
    let quote = |twin_loc| TokenKind::Punctuation(Punctuation::Quote(Quote { twin_loc }));
    let out = plain("\"a\" \"b");
    assert_eq!(out[0].kind, quote(Some(2)));
    assert_eq!(out[2].kind, quote(Some(0)));
    assert_eq!(out[4].kind, quote(None));
    let out = plain("\"\"\"\"");
    let twins: Vec<TokenKind> = out.iter().map(|token| token.kind).collect();
    assert_eq!(
        twins,
        vec![quote(Some(1)), quote(Some(0)), quote(Some(3)), quote(Some(2))]
    );
}

#[test]
fn quotation_marks_are_paired_after_condensing() {
    let quote = |twin_loc| TokenKind::Punctuation(Punctuation::Quote(Quote { twin_loc }));
    let out = plain("\"isn't\"");
    assert_eq!(
        out,
        vec![
            token(0, 1, quote(Some(2))),
            word(1, 6),
            token(6, 7, quote(Some(0)))
        ]
    );
}

#[test]
fn stretches_lose_all_tokens_but_the_first() {
    let mut document = Document::new_plain_english("a b c d e", &FstDictionary::new());
    document.condense_indices(&[0, 4], 3);
    let out = document.get_tokens();
    assert_eq!(out.len(), 9 - 2 * (3 - 1));
    assert_eq!(out[0], word(0, 3));
    assert_eq!(out[1], token(3, 4, TokenKind::Space(1)));
    assert_eq!(out[2], word(4, 7));
    assert_eq!(out[4], word(8, 9));
}

#[test]
fn no_stretches_change_nothing() {
    let mut document = Document::new_plain_english("a b c", &FstDictionary::new());
    let before = document.get_tokens().to_vec();
    document.condense_indices(&[], 2);
    assert_eq!(document.get_tokens(), before.as_slice());
    document.condense_indices(&[0, 1], 1);
    assert_eq!(document.get_tokens(), before.as_slice());
}

#[test]
fn condensing_blanks_again_changes_nothing() {
    let mut document = Document::new_plain_english("a  b\n\n c", &FstDictionary::new());
    let before = document.get_tokens().to_vec();
    document.condense_spaces();
    document.condense_newlines();
    document.newlines_to_breaks();
    assert_eq!(document.get_tokens(), before.as_slice());
}

#[test]
fn condensing_ellipses_and_extensions_again_changes_nothing() {
    let mut document =
        Document::new_plain_english("Well... .c (.exe) .. no. .js", &FstDictionary::new());
    let before = document.get_tokens().to_vec();
    document.condense_ellipsis();
    document.condense_filename_extensions();
    assert_eq!(document.get_tokens(), before.as_slice());
}

#[test]
fn single_passes_do_their_own_work() {
    let mut document = Document::new_plain_english("a 'b", &FstDictionary::new());
    let before = document.get_tokens().to_vec();
    document.condense_contractions();
    document.condense_dotted_initialisms();
    document.condense_number_suffixes();
    document.condense_ellipsis();
    document.condense_latin();
    document.condense_filename_extensions();
    document.match_quotes();
    assert_eq!(document.get_tokens(), before.as_slice());
    assert_eq!(document.get_full_string(), "a 'b");
}
