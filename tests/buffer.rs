use swifty_parser::position::{to_fat_chars, FatChar, PositionIndex};
use swifty_parser::text::Text;

fn index(g: usize, s: usize, b: usize, l: usize, c: usize) -> PositionIndex {
    PositionIndex { grapheme_offset: g, scalar_offset: s, byte_offset: b, line_offset: l, column_offset: c }
}

#[test]
fn tokenizer_tracks_lines_and_columns() {
    let chars = to_fat_chars("a\nb");
    assert_eq!(chars.len(), 3);
    assert_eq!(chars[0].index, index(0, 0, 0, 0, 0));
    assert_eq!(chars[1].index, index(1, 1, 1, 0, 1));
    assert_eq!(chars[2].index, index(2, 2, 2, 1, 1));
}

#[test]
fn tokenizer_offsets_never_decrease() {
    let chars = to_fat_chars("h\u{e9}llo\nw\u{f6}rld\r\n!\u{1F600}");
    for pair in chars.windows(2) {
        let (a, b) = (pair[0].index, pair[1].index);
        assert!(a.byte_offset <= b.byte_offset);
        assert!(a.scalar_offset <= b.scalar_offset);
        assert!(a.grapheme_offset <= b.grapheme_offset);
        assert!(a.line_offset <= b.line_offset);
    }
    assert_eq!(chars.last().unwrap().index.byte_offset, "h\u{e9}llo\nw\u{f6}rld\r\n".len() + 1);
}

#[test]
fn cluster_scalars_share_one_index() {
    let chars = to_fat_chars("e\u{301}x");
    assert_eq!(chars.len(), 3);
    assert_eq!(chars[0].index, chars[1].index);
    assert_eq!(chars[2].index, index(1, 2, 3, 0, 1));
}

#[test]
fn crlf_is_one_cluster() {
    let chars = to_fat_chars("\r\nz");
    assert_eq!(chars[0].index, chars[1].index);
    assert_eq!(chars[2].index, index(1, 2, 2, 1, 1));
}

#[test]
fn has_prefix_edge_cases() {
    let empty = Text::initialize_from("");
    let text = Text::initialize_from("abc");
    assert!(empty.has_prefix(""));
    assert!(!empty.has_prefix("a"));
    assert!(!text.has_prefix(""));
    assert!(text.has_prefix("ab"));
    assert!(text.has_prefix("abc"));
    assert!(!text.has_prefix("abcd"));
    assert!(!text.has_prefix("ax"));
}

#[test]
fn pop_prefix_round_trip() {
    let text = Text::initialize_from("Hello World");
    let (matched, rest) = text.pop_prefix("Hello").unwrap();
    assert_eq!(matched.render(), "Hello");
    assert_eq!(rest.render(), " World");
    assert_eq!(format!("{}{}", matched.render(), rest.render()), text.render());
    assert_eq!(rest.start_index().unwrap().byte_offset, 5);
    assert!(text.pop_prefix("World").is_none());
}

#[test]
fn take_splits_or_refuses() {
    let text = Text::initialize_from("abc");
    let (l, r) = text.take(1).unwrap();
    assert_eq!(l.render(), "a");
    assert_eq!(r.render(), "bc");
    let (l, r) = text.take(3).unwrap();
    assert_eq!(l.render(), "abc");
    assert!(r.is_empty());
    assert!(text.take(4).is_none());
}

#[test]
fn uncons_and_ends() {
    let text = Text::initialize_from("xy");
    let (first, rest) = text.uncons().unwrap();
    assert_eq!(first.value, 'x');
    assert_eq!(rest.render(), "y");
    assert_eq!(text.start().unwrap().value, 'x');
    assert_eq!(text.end().unwrap().value, 'y');
    assert_eq!(text.end_index().unwrap().scalar_offset, 1);
    assert!(Text::initialize_from("").uncons().is_none());
    assert!(Text::initialize_from("").start().is_none());
}

#[test]
fn from_iter_keeps_order() {
    let chars: Vec<FatChar> = to_fat_chars("q\u{e9}");
    let text = Text::from_iter(chars);
    assert_eq!(text.render(), "q\u{e9}");
}

#[test]
fn tokenizer_spells_source() {
    let source = "a\u{301}b\r\nc\u{1F600}";
    let chars = to_fat_chars(source);
    assert_eq!(chars.iter().map(|c| c.value).collect::<String>(), source);
    assert_eq!(chars[0].index, index(0, 0, 0, 0, 0));
    assert_eq!(Text::initialize_from(source).render(), source);
    assert!(Text::initialize_from("").is_empty());
}

#[test]
fn end_after_split_on_long_text() {
    let source: String = std::iter::repeat("ab").take(150).collect();
    let text = Text::initialize_from(&source);
    for count in [1usize, 44, 100, 256, 299] {
        let (lead, rest) = text.take(count).unwrap();
        assert_eq!(lead.end().unwrap().index.scalar_offset, count - 1);
        assert_eq!(lead.end_index().unwrap().scalar_offset, count - 1);
        assert_eq!(rest.end().unwrap().index.scalar_offset, 299);
        assert_eq!(rest.start().unwrap().index.scalar_offset, count);
    }
    let prefix: String = source.chars().take(44).collect();
    let (lead, _) = text.pop_prefix(&prefix).unwrap();
    assert_eq!(lead.end().unwrap().index.scalar_offset, 43);
}
