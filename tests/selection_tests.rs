use the_dev_terminal_core::grid::Grid;
use the_dev_terminal_core::selection::{detect_url_at_position, is_whitespace, find_line_boundaries, find_word_boundaries, url_at, word_span};

fn grid_with(rows: &[&str], cols: usize) -> Grid {
    let mut g = Grid::new(cols, rows.len());
    for (r, text) in rows.iter().enumerate() {
        for (c, ch) in text.chars().enumerate() {
            g.cells[r * cols + c].ch = ch;
        }
    }
    g
}

#[test]
fn word_boundaries() {
    let g = grid_with(&["foo_bar baz", "été x"], 12);
    assert_eq!(find_word_boundaries(&g, 2, 0), (0, 6));
    assert_eq!(find_word_boundaries(&g, 9, 0), (8, 10));
    assert_eq!(find_word_boundaries(&g, 7, 0), (7, 7));
    assert_eq!(find_word_boundaries(&g, 1, 1), (0, 2));
    assert_eq!(find_word_boundaries(&g, 30, 0), (30, 30));
    assert_eq!(find_word_boundaries(&g, 0, 5), (0, 0));
}

#[test]
fn word_span_of_flags() {
    let flags = vec![false, true, true, false, true];
    assert_eq!(word_span(&flags, 1), (1, 2));
    assert_eq!(word_span(&flags, 4), (4, 4));
    assert_eq!(word_span(&flags, 0), (0, 0));
    assert_eq!(word_span(&flags, 9), (9, 9));
}

#[test]
fn line_boundaries() {
    let g = grid_with(&["ab c  ", "", " "], 6);
    assert_eq!(find_line_boundaries(&g, 0), (0, 3));
    assert_eq!(find_line_boundaries(&g, 1), (0, 0));
    assert_eq!(find_line_boundaries(&g, 2), (0, 0));
    assert_eq!(find_line_boundaries(&g, 7), (0, 0));
}

#[test]
fn url_detection() {
    let g = grid_with(&["see https://x.io/a b", "(http://y.org)"], 24);
    assert_eq!(detect_url_at_position(&g, 6, 0), Some("https://x.io/a".to_string()));
    assert_eq!(detect_url_at_position(&g, 2, 0), None);
    assert_eq!(detect_url_at_position(&g, 3, 1), Some("http://y.org".to_string()));
    assert_eq!(detect_url_at_position(&g, 3, 9), None);
}

#[test]
fn url_in_characters() {
    let t: Vec<char> = "go ftp://h/p\u{3000}x".chars().collect();
    assert_eq!(url_at(&t, 4), Some("ftp://h/p".chars().collect()));
    let f: Vec<char> = "file://tmp]".chars().collect();
    assert_eq!(url_at(&f, 0), Some("file://tmp".chars().collect()));
    assert_eq!(url_at(&f, 11), None);
}

#[test]
fn whitespace_classes() {
    for c in [' ', '\t', '\n', '\r', '\u{b}', '\u{c}', '\u{85}', '\u{a0}', '\u{2003}', '\u{3000}'] {
        assert_eq!(is_whitespace(c), c.is_whitespace());
        assert!(is_whitespace(c));
    }
    for c in ['a', '_', '\u{200b}', '\u{180e}', '0'] {
        assert_eq!(is_whitespace(c), c.is_whitespace());
    }
}
