use harper_document::{Document, FstDictionary, Span, TokenStringExt, WordMetadata};

fn plain(text: &str) -> Document {
    Document::new_plain_english_curated(text)
}

#[test]
fn finds_words() {
    let document = plain("Hi, you two.");
    assert_eq!(document.first_word().unwrap().span, Span::new(0, 2));
    assert_eq!(document.last_word().unwrap().span, Span::new(8, 11));
    assert_eq!(document.last_word_index(), Some(5));
    assert_eq!(document.iter_word_indices(), vec![0, 3, 5]);
    assert_eq!(document.iter_words().len(), 3);
    assert_eq!(document.iter_words()[1].span, Span::new(4, 7));
}

#[test]
fn finds_nothing_where_there_is_nothing() {
    let document = plain("...");
    assert!(document.first_word().is_none());
    assert!(document.last_word().is_none());
    assert_eq!(document.last_word_index(), None);
    assert!(document.iter_word_indices().is_empty());
    assert!(document.first_sentence_word().is_none());
    assert!(plain("").span().is_none());
    assert!(plain("  ").first_non_whitespace().is_none());
}

#[test]
fn finds_marks() {
    let document = plain("a@b, 'c' | $5 \"d\" ..");
    assert_eq!(document.iter_at_indices().len(), 1);
    assert_eq!(document.iter_comma_indices().len(), 1);
    assert_eq!(document.iter_apostrophe_indices().len(), 2);
    assert_eq!(document.iter_pipes().len(), 1);
    assert_eq!(document.iter_currencys().len(), 1);
    assert_eq!(document.iter_quotes().len(), 2);
    assert_eq!(document.iter_ellipsiss().len(), 1);
    assert_eq!(document.iter_numbers().len(), 1);
    assert_eq!(
        document.last_space_index(),
        document.iter_space_indices().last().copied()
    );
    assert_eq!(
        document.first_quote(),
        document.get_token(document.iter_quote_indices()[0])
    );
    assert_eq!(document.iter_word_likes().len(), document.iter_words().len() + 1);
}

#[test]
fn finds_parts_of_speech() {
    let document = plain("They were in it and out");
    assert_eq!(document.iter_verbs().len(), 1);
    assert_eq!(document.iter_linking_verb_indices(), vec![2]);
    assert_eq!(document.iter_linking_verbs()[0].span, Span::new(5, 9));
    assert_eq!(document.iter_prepositions().len(), 1);
    assert_eq!(document.iter_conjunctions().len(), 1);
    assert!(document.first_noun().is_none());
    assert!(document.first_adjective().is_none());
    assert!(document.first_likely_homograph().is_none());
    let mut dictionary = FstDictionary::new();
    dictionary.add_word(
        "out",
        WordMetadata {
            adjective: true,
            adverb: true,
            ..WordMetadata::unknown()
        },
    );
    let document = Document::new_plain_english("in and out", &dictionary);
    assert_eq!(document.last_adjective_index(), Some(4));
    assert_eq!(document.iter_likely_homograph_indices(), vec![4]);
}

#[test]
fn spans_all_tokens() {
    assert_eq!(plain("Hi you").span(), Some(Span::new(0, 6)));
    assert_eq!(plain("Hi you").get_tokens()[1..].span(), Some(Span::new(2, 6)));
}

#[test]
fn sentences_cover_the_document() {
    let document = plain("Hi you. Who? Me!\n\n\nAnd they");
    let sentences = document.iter_sentences();
    assert_eq!(sentences.len(), 5);
    let lens: Vec<usize> = sentences.iter().map(|sentence| sentence.len()).collect();
    assert_eq!(lens, vec![4, 3, 3, 1, 3]);
    let all: Vec<_> = sentences.into_iter().flatten().copied().collect();
    assert_eq!(all.as_slice(), document.get_tokens());
}

#[test]
fn paragraphs_end_with_their_break() {
    let document = plain("a b\n\n\nc");
    let paragraphs = document.iter_paragraphs();
    assert_eq!(paragraphs.len(), 2);
    assert_eq!(paragraphs[0].len(), 4);
    assert!(paragraphs[0][3].kind.is_paragraph_break());
    assert_eq!(document.first_paragraph_break().unwrap().span, Span::new(3, 6));
}

#[test]
fn chunks_end_at_commas() {
    let document = plain("Well, you know. Yes");
    let lens: Vec<usize> = document.iter_chunks().iter().map(|chunk| chunk.len()).collect();
    assert_eq!(lens, vec![2, 5, 2]);
    assert_eq!(document.iter_chunk_terminator_indices(), vec![1, 6]);
    assert_eq!(document.iter_sentence_terminator_indices(), vec![6]);
}

#[test]
fn sentences_start_with_a_word() {
    let document = plain("  \"you\"");
    assert_eq!(document.first_non_whitespace().unwrap().span, Span::new(2, 3));
    let document = plain(" you know");
    assert_eq!(document.first_sentence_word().unwrap().span, Span::new(1, 4));
}
