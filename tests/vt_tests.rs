use the_dev_terminal_core::grid::{Color, Grid};
use the_dev_terminal_core::vt::{advance_bytes, advance_bytes_with_bracketed, paste_payload, Action, Performer, VtParser};

fn feed(g: &mut Grid, bytes: &[u8]) {
    let mut p = VtParser::new();
    advance_bytes(&mut p, g, bytes);
}

const RED: Color = Color { r: 205, g: 49, b: 49 };

#[test]
fn bold_red_then_reset() {
    let mut g = Grid::new(10, 2);
    feed(&mut g, b"\x1b[1;31mA\x1b[0mB");
    assert_eq!(g.cells[0].ch, 'A');
    assert!(g.cells[0].bold);
    assert_eq!(g.cells[0].fg, RED);
    assert_eq!(g.cells[1].ch, 'B');
    assert!(!g.cells[1].bold);
    assert_eq!(g.cells[1].fg, Color::default());
}

#[test]
fn hi_newline_red_scenario() {
    let mut g = Grid::new(80, 25);
    feed(&mut g, b"Hi\r\n\x1b[31mRed\x1b[0m");
    assert_eq!((g.x, g.y), (3, 1));
    assert_eq!(g.cells[0].ch, 'H');
    assert_eq!(g.cells[1].ch, 'i');
    let red: String = (0..3).map(|c| g.cells[80 + c].ch).collect();
    assert_eq!(red, "Red");
    for c in 0..3 {
        assert_eq!(g.cells[80 + c].fg, RED);
    }
    assert_eq!(g.scrollback.len(), 0);
}

#[test]
fn sequence_split_across_chunks() {
    let mut g = Grid::new(10, 3);
    let mut p = VtParser::new();
    advance_bytes(&mut p, &mut g, b"a\x1b[3");
    advance_bytes(&mut p, &mut g, b"1mb");
    assert_eq!(g.cells[0].fg, Color::default());
    assert_eq!(g.cells[1].ch, 'b');
    assert_eq!(g.cells[1].fg, RED);
    let mut whole = Grid::new(10, 3);
    feed(&mut whole, b"a\x1b[31mb");
    assert_eq!(whole.cells, g.cells);
}

#[test]
fn utf8_split_across_chunks() {
    let mut g = Grid::new(10, 1);
    let mut p = VtParser::new();
    let bytes = "é".as_bytes();
    advance_bytes(&mut p, &mut g, &bytes[..1]);
    advance_bytes(&mut p, &mut g, &bytes[1..]);
    assert_eq!(g.cells[0].ch, 'é');
    assert_eq!(g.x, 1);
}

#[test]
fn byte_at_a_time_equals_whole_buffer() {
    let input = b"ab\x1b[2;3Hc\x1b[1;32md\te\x08f\r\ng\x1b[K";
    let mut one = Grid::new(12, 4);
    let mut p = VtParser::new();
    for b in input.iter() {
        advance_bytes(&mut p, &mut one, &[*b]);
    }
    let mut all = Grid::new(12, 4);
    feed(&mut all, input);
    assert_eq!(one.cells, all.cells);
    assert_eq!((one.x, one.y), (all.x, all.y));
}

#[test]
fn cursor_sequences() {
    let mut g = Grid::new(10, 5);
    feed(&mut g, b"\x1b[3;4H");
    assert_eq!((g.x, g.y), (3, 2));
    feed(&mut g, b"\x1b[A");
    assert_eq!(g.y, 1);
    feed(&mut g, b"\x1b[2B");
    assert_eq!(g.y, 3);
    feed(&mut g, b"\x1b[20C");
    assert_eq!(g.x, 9);
    feed(&mut g, b"\x1b[4D");
    assert_eq!(g.x, 5);
    feed(&mut g, b"\x1b[H");
    assert_eq!((g.x, g.y), (0, 0));
    feed(&mut g, b"\x1b[99;99f");
    assert_eq!((g.x, g.y), (9, 4));
}

#[test]
fn erase_sequences() {
    let mut g = Grid::new(3, 2);
    feed(&mut g, b"abcdef\x1b[2J");
    assert_eq!(g.to_string_lines(), "   \n   \n");
    assert_eq!((g.x, g.y), (0, 0));
    feed(&mut g, b"abc\x1b[1;2H\x1b[K");
    assert_eq!(g.to_string_lines(), "a  \n   \n");
}

#[test]
fn control_bytes() {
    let mut g = Grid::new(20, 3);
    feed(&mut g, b"ab\tc\x08d\ne\rf");
    assert_eq!(g.cells[8].ch, 'd');
    assert_eq!(g.cells[20].ch, 'f');
    assert_eq!(g.cells[29].ch, 'e');
    assert_eq!((g.x, g.y), (1, 1));
}

#[test]
fn unknown_sequences_are_ignored() {
    let mut g = Grid::new(10, 1);
    feed(&mut g, b"\x1b]0;title\x07a\x1bPq#0\x1b\\b\x1b[5Zc\x1b7d");
    assert_eq!(g.to_string_lines(), "abcd      \n");
}

#[test]
fn extended_color_sequences() {
    let mut g = Grid::new(4, 1);
    feed(&mut g, b"\x1b[38;5;196mx\x1b[48;2;1;2;3my");
    assert_eq!(g.cells[0].fg, Color { r: 255, g: 0, b: 0 });
    assert_eq!(g.cells[1].bg, Color { r: 1, g: 2, b: 3 });
    feed(&mut g, b"\x1b[38;2;7m");
    assert_eq!(g.current_fg, Color { r: 255, g: 0, b: 0 });
}

#[test]
fn bracketed_paste_mode_is_tracked() {
    let mut g = Grid::new(4, 1);
    let mut p = VtParser::new();
    let r = advance_bytes_with_bracketed(&mut p, &mut g, b"\x1b[?2004h", Some(false));
    assert_eq!(r, Some(true));
    let r = advance_bytes_with_bracketed(&mut p, &mut g, b"\x1b[?1;2004l", r);
    assert_eq!(r, Some(false));
    let r = advance_bytes_with_bracketed(&mut p, &mut g, b"\x1b[?25h", Some(false));
    assert_eq!(r, Some(false));
    let r = advance_bytes_with_bracketed(&mut p, &mut g, b"\x1b[?2004h", None);
    assert_eq!(r, None);
    assert_eq!(g.to_string_lines(), "    \n");
}

#[test]
fn performer_applies_actions() {
    let mut g = Grid::new(4, 2);
    let mut perf = Performer { bracketed_paste: Some(false) };
    let actions = vec![
        Action::Print('a'),
        Action::Execute(b'\n'),
        Action::Csi { params: vec![vec![2004]], intermediates: vec![b'?'], action: 'h' },
        Action::Csi { params: vec![vec![1]], intermediates: vec![], action: 'm' },
        Action::Print('b'),
    ];
    perf.perform_all(&mut g, &actions);
    assert_eq!(perf.bracketed_paste, Some(true));
    assert_eq!(g.cells[0].ch, 'a');
    assert_eq!(g.cells[5].ch, 'b');
    assert!(g.cells[5].bold);
    perf.csi_dispatch(&mut g, &vec![], &vec![], 'H');
    assert_eq!((g.x, g.y), (0, 0));
    perf.execute(&mut g, b'\t');
    assert_eq!(g.x, 3);
    perf.print(&mut g, 'z');
    assert_eq!(g.cells[3].ch, 'z');
    perf.perform(&mut g, &Action::Execute(0x07));
    assert_eq!((g.x, g.y), (0, 1));
}

#[test]
fn paste_is_wrapped_only_in_bracketed_mode() {
    assert_eq!(paste_payload(b"ls", true), b"\x1b[200~ls\x1b[201~".to_vec());
    assert_eq!(paste_payload(b"ls", false), b"ls".to_vec());
    assert_eq!(paste_payload(b"", true), b"\x1b[200~\x1b[201~".to_vec());
}
