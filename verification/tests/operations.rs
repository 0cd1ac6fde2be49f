use nemo::operations::{grapheme_count, index, select, OutOfBound};

#[test]
fn a_string_is_indexed_by_grapheme_clusters() {
    // "e" with a combining acute accent is one cluster of two characters.
    let text = "he\u{301}llo";
    assert_eq!(index(text, false, 0), Ok(String::from("h")));
    assert_eq!(index(text, false, 1), Ok(String::from("e\u{301}")));
    assert_eq!(index(text, false, 2), Ok(String::from("l")));
    assert_eq!(index(text, false, 4), Ok(String::from("o")));
    assert_eq!(index(text, false, 5), Err(OutOfBound { position: 5 }));
}

#[test]
fn a_line_break_of_two_characters_is_one_cluster() {
    assert_eq!(grapheme_count("a\r\nb"), 3);
    assert_eq!(index("a\r\nb", false, 1), Ok(String::from("\r\n")));
    assert_eq!(grapheme_count(""), 0);
    assert_eq!(grapheme_count("abc"), 3);
    assert_eq!(grapheme_count("a\u{310}e\u{301}o\u{308}\u{332}"), 3);
}

#[test]
fn a_negative_index_counts_back_from_the_length_in_bytes() {
    assert_eq!(index("hello", true, 1), Ok(String::from("o")));
    assert_eq!(index("hello", true, 5), Ok(String::from("h")));
    assert_eq!(index("hello", true, 0), Err(OutOfBound { position: 5 }));
    // Seven bytes, but only five clusters.
    let text = "he\u{301}llo";
    assert_eq!(text.len(), 7);
    assert_eq!(index(text, true, 7), Ok(String::from("h")));
    assert_eq!(index(text, true, 3), Ok(String::from("o")));
    assert_eq!(index(text, true, 2), Err(OutOfBound { position: 5 }));
}

#[test]
fn select_picks_by_position() {
    let clusters = vec![String::from("a"), String::from("bc")];
    assert_eq!(select(&clusters, 0), Ok(String::from("a")));
    assert_eq!(select(&clusters, 1), Ok(String::from("bc")));
    assert_eq!(select(&clusters, 2), Err(OutOfBound { position: 2 }));
    assert_eq!(select(&Vec::new(), 0), Err(OutOfBound { position: 0 }));
}
