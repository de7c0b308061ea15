use minsk::text::SourceText;
use minsk::text::TextLine;
use minsk::text::TextSpan;

fn source(text: &str) -> SourceText {
    SourceText::from(text.chars().collect())
}

#[test]
fn source_text_includes_last_line() {
    for (text, expected_line_count) in [(".", 1), (".\r\n", 2), (".\r\n\r\n", 3)] {
        let source_text = SourceText::from(text.chars().collect());
        assert_eq!(expected_line_count, source_text.lines.len());
    }
}

#[test]
fn lines_of_dot_crlf_crlf() {
    let st = source(".\r\n\r\n");
    assert_eq!(st.lines.len(), 3);
    let expected = [(0, 1, 3), (3, 0, 2), (5, 0, 0)];
    for (line, (start, length, including)) in st.lines.iter().zip(expected) {
        assert_eq!(line.start, start);
        assert_eq!(line.length, length);
        assert_eq!(line.length_including_line_break, including);
    }
}

#[test]
fn lines_cover_whole_source() {
    for text in ["", ".", "a\nb", "a\r\nb\rc\n", "\n\n\n", "x\r", "mixed\r\nlines\nhere\r"] {
        let st = source(text);
        let total: usize = st.lines.iter().map(|l| l.length_including_line_break).sum();
        assert_eq!(total, text.chars().count());
    }
}

fn linear_scan_line_index(lines: &[TextLine], position: usize) -> usize {
    let mut index = 0;
    for (i, line) in lines.iter().enumerate() {
        if line.start <= position {
            index = i;
        }
    }
    index
}

#[test]
fn get_line_index_matches_linear_scan() {
    for text in ["", "a", "a\nbb\r\nccc\rdddd", "\r\n\r\n", "one\ntwo\nthree\n", "\rx\r\ny"] {
        let st = source(text);
        let len = text.chars().count();
        for position in 0..len + 3 {
            assert_eq!(
                st.get_line_index(position),
                linear_scan_line_index(&st.lines, position),
                "position {} in {:?}",
                position,
                text
            );
        }
    }
}

#[test]
fn get_line_index_exact_starts() {
    let st = source(".\r\n\r\n");
    assert_eq!(st.get_line_index(0), 0);
    assert_eq!(st.get_line_index(1), 0);
    assert_eq!(st.get_line_index(2), 0);
    assert_eq!(st.get_line_index(3), 1);
    assert_eq!(st.get_line_index(4), 1);
    assert_eq!(st.get_line_index(5), 2);
    assert_eq!(st.get_line_index(100), 2);
}

#[test]
fn substring_extraction() {
    let st = source("hello\nworld");
    assert_eq!(st.to_string_bounded(0, 5), "hello");
    assert_eq!(st.to_string_bounded(6, 5), "world");
    assert_eq!(st.to_string_bounded(3, 0), "");
    assert_eq!(st.to_string_spanned(TextSpan::new(2, 3)), "llo");
    let first = st.lines[0];
    assert_eq!(st.to_string_line(&first), "hello");
    assert_eq!(st.to_string_line_including_line_break(&first), "hello\n");
}

#[test]
fn as_chars_returns_buffer() {
    let st = source("ab\nc");
    let chars: Vec<char> = "ab\nc".chars().collect();
    assert_eq!(st.as_chars(), &chars[..]);
}

#[test]
fn text_span_accessors() {
    let span = TextSpan::new(3, 4);
    assert_eq!(span.start, 3);
    assert_eq!(span.length, 4);
    assert_eq!(span.end(), 7);
}

#[test]
fn text_line_accessors() {
    let st = source("ab\r\ncd");
    let line = st.lines[0];
    assert_eq!(line.span(), TextSpan::new(0, 2));
    assert_eq!(line.span_including_line_break(), TextSpan::new(0, 4));
    assert_eq!(line.end(), 2);
}
