use harper_document::{Document, MarkdownOptions, Span};

fn assert_condensed_contractions(text: &str, final_tok_count: usize) {
    let document = Document::new_plain_english_curated(text);

    assert_eq!(document.get_tokens().len(), final_tok_count);

    let document = Document::new_markdown_curated(text, MarkdownOptions::default());

    assert_eq!(document.get_tokens().len(), final_tok_count);
}

#[test]
fn simple_contraction() {
    assert_condensed_contractions("isn't", 1);
}

#[test]
fn simple_contraction2() {
    assert_condensed_contractions("wasn't", 1);
}

#[test]
fn simple_contraction3() {
    assert_condensed_contractions("There's", 1);
}

#[test]
fn medium_contraction() {
    assert_condensed_contractions("isn't wasn't", 3);
}

#[test]
fn medium_contraction2() {
    assert_condensed_contractions("There's no way", 5);
}

#[test]
fn selects_token_at_char_index() {
    let text = "There were three little pigs. They built three little homes.";
    let document = Document::new_plain_english_curated(text);

    let got = document.get_token_at_char_index(19).unwrap();

    assert!(got.kind.is_word());
    assert_eq!(got.span, Span::new(17, 23));
}

fn assert_token_count(source: &str, count: usize) {
    let document = Document::new_plain_english_curated(source);

    assert_eq!(document.get_tokens().len(), count);
}

#[test]
fn condenses_number_suffixes() {
    assert_token_count("1st", 1);
    assert_token_count("This is the 2nd test", 9);
    assert_token_count("This is the 3rd test", 9);
    assert_token_count(
        "It works even with weird capitalization like this: 600nD",
        18,
    );
}

#[test]
fn condenses_ie() {
    assert_token_count("There is a thing (i.e. that one)", 15);
    assert_token_count("We are trying to condense \"i.e.\"", 13);
    assert_token_count(r#"Condenses words like "i.e.", "e.g." and "N.S.A.""#, 20);
}

#[test]
fn condenses_eg() {
    assert_token_count("We are trying to condense \"e.g.\"", 13);
    assert_token_count(r#"Condenses words like "i.e.", "e.g." and "N.S.A.""#, 20);
}

#[test]
fn condenses_nsa() {
    assert_token_count(r#"Condenses words like "i.e.", "e.g." and "N.S.A.""#, 20);
}

#[test]
fn parses_ellipsis() {
    assert_token_count("...", 1);
}

#[test]
fn parses_long_ellipsis() {
    assert_token_count(".....", 1);
}

#[test]
fn parses_short_ellipsis() {
    assert_token_count("..", 1);
}

#[test]
fn selects_token_at_offset() {
    let doc = Document::new_plain_english_curated("Foo bar baz");

    let tok = doc.get_token_offset(1, -1).unwrap();

    assert_eq!(tok.span, Span::new(0, 3));
}

#[test]
fn cant_select_token_before_start() {
    let doc = Document::new_plain_english_curated("Foo bar baz");

    let tok = doc.get_token_offset(0, -1);

    assert!(tok.is_none());
}

#[test]
fn select_next_word_pos_offset() {
    let doc = Document::new_plain_english_curated("Foo bar baz");

    let bar = doc.get_next_word_from_offset(0, 1).unwrap();
    let bar = doc.get_span_content(&bar.span);
    assert_eq!(bar, ['b', 'a', 'r']);
}

#[test]
fn select_next_word_neg_offset() {
    let doc = Document::new_plain_english_curated("Foo bar baz");

    let bar = doc.get_next_word_from_offset(2, -1).unwrap();
    let bar = doc.get_span_content(&bar.span);
    assert_eq!(bar, ['F', 'o', 'o']);
}

#[test]
fn cant_select_next_word_not_from_whitespace() {
    let doc = Document::new_plain_english_curated("Foo bar baz");

    let tok = doc.get_next_word_from_offset(0, 2);

    assert!(tok.is_none());
}

#[test]
fn cant_select_next_word_before_start() {
    let doc = Document::new_plain_english_curated("Foo bar baz");

    let tok = doc.get_next_word_from_offset(0, -1);

    assert!(tok.is_none());
}

#[test]
fn cant_select_next_word_with_punctuation_instead_of_whitespace() {
    let doc = Document::new_plain_english_curated("Foo, bar, baz");

    let tok = doc.get_next_word_from_offset(0, 1);

    assert!(tok.is_none());
}

#[test]
fn cant_select_next_word_with_punctuation_after_whitespace() {
    let doc = Document::new_plain_english_curated("Foo \"bar\", baz");

    let tok = doc.get_next_word_from_offset(0, 1);

    assert!(tok.is_none());
}

#[test]
fn condenses_filename_extensions() {
    let doc = Document::new_plain_english_curated(".c and .exe and .js");
    assert!(doc.get_tokens()[0].kind.is_unlintable());
    assert!(doc.get_tokens()[4].kind.is_unlintable());
    assert!(doc.get_tokens()[8].kind.is_unlintable());
}

#[test]
fn condense_filename_extension_ok_at_start_and_end() {
    let doc = Document::new_plain_english_curated(".c and .EXE");
    assert!(doc.get_tokens().len() == 5);
    assert!(doc.get_tokens()[0].kind.is_unlintable());
    assert!(doc.get_tokens()[4].kind.is_unlintable());
}

#[test]
fn doesnt_condense_filename_extensions_with_mixed_case() {
    let doc = Document::new_plain_english_curated(".c and .Exe");
    assert!(doc.get_tokens().len() == 6);
    assert!(doc.get_tokens()[0].kind.is_unlintable());
    assert!(doc.get_tokens()[4].kind.is_punctuation());
    assert!(doc.get_tokens()[5].kind.is_word());
}

#[test]
fn doesnt_condense_filename_extensions_with_non_letters() {
    let doc = Document::new_plain_english_curated(".COM and .C0M");
    assert!(doc.get_tokens().len() == 6);
    assert!(doc.get_tokens()[0].kind.is_unlintable());
    assert!(doc.get_tokens()[4].kind.is_punctuation());
    assert!(doc.get_tokens()[5].kind.is_word());
}

#[test]
fn doesnt_condense_filename_extensions_longer_than_three() {
    let doc = Document::new_plain_english_curated(".dll and .dlls");
    assert!(doc.get_tokens().len() == 6);
    assert!(doc.get_tokens()[0].kind.is_unlintable());
    assert!(doc.get_tokens()[4].kind.is_punctuation());
    assert!(doc.get_tokens()[5].kind.is_word());
}

#[test]
fn condense_filename_extension_in_parens() {
    let doc = Document::new_plain_english_curated(
        "true for the manual installation when trying to run the executable(.exe) after a manual download",
    );
    assert!(doc.get_tokens().len() > 23);
    assert!(doc.get_tokens()[21].kind.is_open_round());
    assert!(doc.get_tokens()[22].kind.is_unlintable());
    assert!(doc.get_tokens()[23].kind.is_close_round());
}
