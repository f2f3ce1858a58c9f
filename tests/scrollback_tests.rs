use the_dev_terminal_core::grid::Cell;
use the_dev_terminal_core::scrollback::{find_occurrences, search_texts, ScrollbackBuffer};

fn line(s: &str) -> Vec<Cell> {
    s.chars().map(|ch| Cell { ch, ..Cell::default() }).collect()
}

fn text(l: &[Cell]) -> String {
    l.iter().map(|c| c.ch).collect()
}

#[test]
fn pushing_past_capacity_evicts_oldest() {
    let mut sb = ScrollbackBuffer::new(3);
    for i in 0..5 {
        sb.push_line(line(&i.to_string()));
    }
    assert_eq!(sb.len(), 3);
    assert_eq!(text(&sb.line(0)), "2");
    assert_eq!(text(&sb.line(2)), "4");
    assert_eq!(sb.max_lines(), 3);
}

#[test]
fn zero_capacity_keeps_nothing() {
    let mut sb = ScrollbackBuffer::new(0);
    sb.push_line(line("a"));
    assert_eq!(sb.len(), 0);
}

#[test]
fn scrolled_view_stays_on_its_content() {
    let mut sb = ScrollbackBuffer::new(10);
    sb.push_line(line("a"));
    sb.push_line(line("b"));
    sb.scroll_up(1);
    sb.push_line(line("c"));
    assert_eq!(sb.scroll_offset(), 2);
    let full = ScrollbackBuffer::new(2);
    let mut full = full;
    full.push_line(line("a"));
    full.push_line(line("b"));
    full.scroll_to_top();
    full.push_line(line("c"));
    assert_eq!(full.scroll_offset(), 2);
}

#[test]
fn scroll_up_then_down_returns() {
    let mut sb = ScrollbackBuffer::new(10);
    for i in 0..5 {
        sb.push_line(line(&i.to_string()));
    }
    sb.scroll_up(2);
    sb.scroll_down(2);
    assert_eq!(sb.scroll_offset(), 0);
    sb.scroll_up(1);
    sb.scroll_up(3);
    sb.scroll_down(3);
    assert_eq!(sb.scroll_offset(), 1);
    // clamped at the oldest line
    sb.scroll_up(9);
    assert_eq!(sb.scroll_offset(), 5);
    sb.scroll_down(9);
    assert_eq!(sb.scroll_offset(), 0);
    assert!(sb.is_at_bottom());
    sb.page_up(4);
    assert_eq!(sb.scroll_offset(), 4);
    sb.page_down(3);
    assert_eq!(sb.scroll_offset(), 1);
    sb.scroll_to_top();
    assert_eq!(sb.scroll_offset(), 5);
    sb.scroll_to_bottom();
    assert!(sb.is_at_bottom());
}

#[test]
fn visible_lines_end_offset_lines_back() {
    let mut sb = ScrollbackBuffer::new(10);
    assert!(sb.get_visible_lines(3).is_empty());
    for i in 0..6 {
        sb.push_line(line(&i.to_string()));
    }
    let v: Vec<String> = sb.get_visible_lines(2).iter().map(|l| text(l)).collect();
    assert_eq!(v, vec!["4", "5"]);
    sb.scroll_up(2);
    let v: Vec<String> = sb.get_visible_lines(3).iter().map(|l| text(l)).collect();
    assert_eq!(v, vec!["1", "2", "3"]);
    sb.scroll_to_top();
    let v: Vec<String> = sb.get_visible_lines(2).iter().map(|l| text(l)).collect();
    assert_eq!(v, vec!["0", "1"]);
    sb.scroll_down(2);
    let v: Vec<String> = sb.get_visible_lines(10).iter().map(|l| text(l)).collect();
    assert_eq!(v, vec!["0", "1", "2", "3", "4", "5"]);
}

#[test]
fn search_finds_every_occurrence() {
    let mut sb = ScrollbackBuffer::new(10);
    sb.push_line(line("aaa b"));
    sb.push_line(line("xAa"));
    assert_eq!(sb.search("aa", true), vec![(0, 0, 2), (0, 1, 3)]);
    assert_eq!(sb.search("aa", false), vec![(0, 0, 2), (0, 1, 3), (1, 1, 3)]);
    assert_eq!(sb.search("AA", false), vec![(0, 0, 2), (0, 1, 3), (1, 1, 3)]);
    assert_eq!(sb.search("Aa", true), vec![(1, 1, 3)]);
    assert_eq!(sb.search("", true), vec![]);
    assert_eq!(sb.search("zz", false), vec![]);
}

#[test]
fn search_reads_empty_cells_as_spaces() {
    let mut sb = ScrollbackBuffer::new(10);
    let mut l = line("a b");
    l[1].ch = '\0';
    sb.push_line(l);
    assert_eq!(sb.search("a b", true), vec![(0, 0, 3)]);
}

#[test]
fn clear_drops_lines_and_scroll() {
    let mut sb = ScrollbackBuffer::new(10);
    sb.push_line(line("a"));
    sb.scroll_up(1);
    sb.clear();
    assert_eq!(sb.len(), 0);
    assert_eq!(sb.scroll_offset(), 0);
}

#[test]
fn occurrences_and_texts() {
    let t: Vec<char> = "abab".chars().collect();
    let q: Vec<char> = "ab".chars().collect();
    assert_eq!(find_occurrences(&t, &q), vec![0, 2]);
    assert_eq!(find_occurrences(&t, &vec![]), Vec::<usize>::new());
    let long: Vec<char> = "ababa".chars().collect();
    assert_eq!(find_occurrences(&q, &long), Vec::<usize>::new());
    let texts = vec![t.clone(), "xab".chars().collect()];
    assert_eq!(search_texts(&texts, &q), vec![(0, 0, 2), (0, 2, 4), (1, 1, 3)]);
}

#[test]
fn case_insensitive_offsets_count_stored_characters() {
    let mut sb = ScrollbackBuffer::new(10);
    sb.push_line(line("a\u{130}b ΣΑΣ x"));
    // U+0130 lower-cases to two characters, so it is compared as it is
    assert_eq!(sb.search("\u{130}B", false), vec![(0, 1, 3)]);
    // each character on its own: a capital sigma lower-cases to σ
    assert_eq!(sb.search("σασ", false), vec![(0, 4, 7)]);
    assert_eq!(sb.search("ΣΑΣ", false), vec![(0, 4, 7)]);
    assert_eq!(sb.search("X", false), vec![(0, 8, 9)]);
    assert_eq!(sb.search("X", true), vec![]);
}
