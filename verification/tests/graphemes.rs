use ropey::Rope;
use text_coords::graphemes::grapheme_width;
use text_coords::lines::char_is_line_ending;
use text_coords::rope::line_end_char_index;
use text_coords::spans::span_within;

#[test]
fn width_of_ascii_clusters_is_one() {
    assert_eq!(grapheme_width("a"), 1);
    assert_eq!(grapheme_width(" "), 1);
    assert_eq!(grapheme_width("\t"), 1);
    assert_eq!(grapheme_width("\n"), 1);
    assert_eq!(grapheme_width("\r\n"), 1);
    assert_eq!(grapheme_width("\u{7f}"), 1);
    assert_eq!(grapheme_width("e\u{301}"), 1);
    // Only the first character decides.
    assert_eq!(grapheme_width("a今"), 1);
}

#[test]
fn width_of_other_clusters_is_their_unicode_width() {
    assert_eq!(grapheme_width("ḧ"), 1);
    assert_eq!(grapheme_width("今"), 2);
    assert_eq!(grapheme_width("Ａ"), 2);
    assert_eq!(grapheme_width("今\u{301}"), 2);
    assert_eq!(grapheme_width("कि"), 2);
    assert_eq!(grapheme_width("\u{80}"), 1);
}

#[test]
fn width_is_never_zero() {
    assert_eq!(grapheme_width("\u{301}"), 1);
    assert_eq!(grapheme_width("\u{200b}"), 1);
    assert_eq!(grapheme_width(""), 1);
}

#[test]
fn line_ending_characters() {
    assert!(char_is_line_ending('\n'));
    assert!(char_is_line_ending('\r'));
    assert!(!char_is_line_ending('a'));
    assert!(!char_is_line_ending(' '));
    assert!(!char_is_line_ending('\t'));
    assert!(!char_is_line_ending('\u{b}'));
    assert!(!char_is_line_ending('\u{c}'));
    assert!(!char_is_line_ending('\u{85}'));
    assert!(!char_is_line_ending('\u{2028}'));
    assert!(!char_is_line_ending('\u{2029}'));
}

#[test]
fn rope_lines_break_where_the_line_model_says() {
    let text = Rope::from("a\nb\rc\r\nd\u{b}e\u{c}f\u{85}g\u{2028}h\u{2029}i");
    let slice = text.slice(..);
    assert_eq!(slice.len_lines(), 4);
    assert_eq!(slice.line_to_char(1), 2);
    assert_eq!(slice.line_to_char(2), 4);
    assert_eq!(slice.line_to_char(3), 7);
    assert_eq!(slice.line_to_char(4), slice.len_chars());
    assert_eq!(slice.char_to_line(5), 2);
    assert_eq!(slice.char_to_line(6), 2);
    assert_eq!(slice.char_to_line(7), 3);
}

#[test]
fn line_end_is_before_the_line_break() {
    let text = Rope::from("ab\ncd\r\nef\rgh");
    let slice = text.slice(..);
    assert_eq!(line_end_char_index(slice, 0), 2);
    assert_eq!(line_end_char_index(slice, 1), 5);
    assert_eq!(line_end_char_index(slice, 2), 9);
    assert_eq!(line_end_char_index(slice, 3), 12);
}

#[test]
fn line_end_of_empty_lines() {
    let text = Rope::from("\n\r\n\n");
    let slice = text.slice(..);
    assert_eq!(line_end_char_index(slice, 0), 0);
    assert_eq!(line_end_char_index(slice, 1), 1);
    assert_eq!(line_end_char_index(slice, 2), 3);
    assert_eq!(line_end_char_index(slice, 3), 4);
    let text = Rope::from("");
    assert_eq!(line_end_char_index(text.slice(..), 0), 0);
}

#[test]
fn span_within_reads_off_the_other_measure() {
    let along = vec![2usize, 2, 3, 2];
    let across = vec![1usize, 1, 1, 1];
    assert_eq!(span_within(&along, &across, 0), Some(0));
    assert_eq!(span_within(&along, &across, 1), Some(0));
    assert_eq!(span_within(&along, &across, 2), Some(1));
    assert_eq!(span_within(&along, &across, 3), Some(1));
    assert_eq!(span_within(&along, &across, 4), Some(2));
    assert_eq!(span_within(&along, &across, 6), Some(2));
    assert_eq!(span_within(&along, &across, 7), Some(3));
    assert_eq!(span_within(&along, &across, 9), Some(4));
    assert_eq!(span_within(&along, &across, usize::MAX), Some(4));
    assert_eq!(span_within(&across, &along, 3), Some(7));
}

#[test]
fn span_within_of_nothing() {
    let none: Vec<usize> = Vec::new();
    assert_eq!(span_within(&none, &none, 0), Some(0));
    assert_eq!(span_within(&none, &none, 5), Some(0));
}

#[test]
fn span_within_passes_items_of_measure_zero() {
    let along = vec![0usize, 1, 0, 0];
    let across = vec![5usize, 6, 7, 8];
    assert_eq!(span_within(&along, &across, 0), Some(5));
    assert_eq!(span_within(&along, &across, 1), Some(26));
}

#[test]
fn span_within_reports_overflow() {
    let along = vec![1usize, 1, 1];
    let across = vec![usize::MAX, 1, 1];
    assert_eq!(span_within(&along, &across, 1), Some(usize::MAX));
    assert_eq!(span_within(&along, &across, 2), None);
    // A running total along the way that would overflow is past any limit.
    let along = vec![usize::MAX, 1];
    let across = vec![1usize, 1];
    assert_eq!(span_within(&along, &across, usize::MAX), Some(1));
    assert_eq!(span_within(&along, &across, usize::MAX - 1), Some(0));
}
