use the_dev_terminal_core::grid::{Cell, Color, Grid};

fn blank() -> Cell {
    Cell::default()
}

fn row_string(g: &Grid, row: usize) -> String {
    g.get_text_in_region(0, row, g.cols - 1, row)
}

#[test]
fn new_grid_is_empty_with_cursor_home() {
    for (cols, rows) in [(1usize, 1usize), (80, 25), (3, 7)] {
        let g = Grid::new(cols, rows);
        assert_eq!((g.cols, g.rows), (cols, rows));
        assert_eq!((g.x, g.y), (0, 0));
        assert_eq!(g.cells.len(), cols * rows);
        assert!(g.cells.iter().all(|c| *c == blank()));
    }
}

#[test]
fn zero_dimensions_count_as_one() {
    let g = Grid::new(0, 0);
    assert_eq!((g.cols, g.rows), (1, 1));
    assert_eq!(g.cells.len(), 1);
}

#[test]
fn default_cell_and_colors() {
    let c = Cell::default();
    assert_eq!(c.ch, '\0');
    assert_eq!(c.fg, Color { r: 229, g: 229, b: 229 });
    assert_eq!(c.bg, Color { r: 0, g: 0, b: 0 });
    assert!(!c.bold && !c.italic && !c.underline);
    assert_eq!(Color::default(), Color { r: 229, g: 229, b: 229 });
    let g = Grid::new(2, 2);
    assert_eq!(g.current_bg, Color { r: 0, g: 0, b: 0 });
}

#[test]
fn cube_and_grey_colors_follow_the_formula() {
    assert_eq!(Color::from_ansi(196), Color { r: 255, g: 0, b: 0 });
    assert_eq!(Color::from_ansi(244), Color { r: 128, g: 128, b: 128 });
    assert_eq!(Color::from_ansi(16), Color { r: 0, g: 0, b: 0 });
    assert_eq!(Color::from_ansi(231), Color { r: 255, g: 255, b: 255 });
    assert_eq!(Color::from_ansi(232), Color { r: 8, g: 8, b: 8 });
    assert_eq!(Color::from_ansi(255), Color { r: 238, g: 238, b: 238 });
    assert_eq!(Color::from_ansi(1), Color { r: 205, g: 49, b: 49 });
    assert_eq!(Color::from_ansi(9), Color { r: 241, g: 76, b: 76 });
    assert_eq!(Color::from_ansi(110), Color { r: 102, g: 153, b: 204 });
}

#[test]
fn filling_a_row_wraps_once() {
    let mut g = Grid::new(5, 3);
    for (i, ch) in "abcd".chars().enumerate() {
        g.put(ch);
        assert_eq!((g.x, g.y), (i + 1, 0));
    }
    g.put('e');
    assert_eq!((g.x, g.y), (0, 1));
    assert_eq!(row_string(&g, 0), "abcde");
    assert_eq!(g.scrollback.len(), 0);
}

#[test]
fn filling_the_last_row_scrolls() {
    let mut g = Grid::new(3, 2);
    for ch in "abcdef".chars() {
        g.put(ch);
    }
    assert_eq!((g.x, g.y), (0, 1));
    assert_eq!(g.scrollback.len(), 1);
    assert_eq!(row_string(&g, 0), "def");
    assert_eq!(row_string(&g, 1), "   ");
    assert_eq!(g.scrollback.line(0).iter().map(|c| c.ch).collect::<String>(), "abc");
}

#[test]
fn wide_character_takes_two_columns() {
    let mut g = Grid::new(4, 2);
    g.put('中');
    assert_eq!((g.x, g.y), (2, 0));
    assert_eq!(g.cells[0].ch, '中');
    assert_eq!(g.cells[1].ch, '\0');
}

#[test]
fn wide_character_at_last_column_moves_to_next_row() {
    let mut g = Grid::new(4, 2);
    g.put('a');
    g.put('b');
    g.put('c');
    g.put('中');
    assert_eq!(g.cells[3].ch, '\0');
    assert_eq!(g.cells[4].ch, '中');
    assert_eq!((g.x, g.y), (2, 1));
}

#[test]
fn put_with_width_uses_given_width() {
    let mut g = Grid::new(6, 1);
    g.put_with_width('x', Some(2));
    assert_eq!(g.x, 2);
    g.put_with_width('y', None);
    assert_eq!(g.x, 3);
    g.put_with_width('z', Some(0));
    assert_eq!(g.x, 4);
}

#[test]
fn tab_moves_to_next_multiple_of_eight() {
    let mut g = Grid::new(20, 1);
    g.put('a');
    g.tab();
    assert_eq!(g.x, 8);
    assert_eq!(g.cells[3].ch, ' ');
    g.tab();
    assert_eq!(g.x, 16);
    g.tab();
    assert_eq!(g.x, 19);
    g.tab();
    assert_eq!(g.x, 19);
}

#[test]
fn backspace_stops_at_first_column() {
    let mut g = Grid::new(5, 1);
    g.put('a');
    g.backspace();
    assert_eq!(g.x, 0);
    g.backspace();
    assert_eq!(g.x, 0);
}

#[test]
fn cursor_moves_saturate() {
    let mut g = Grid::new(10, 5);
    g.cursor_position(3, 4);
    assert_eq!((g.x, g.y), (3, 2));
    g.cursor_position(0, 0);
    assert_eq!((g.x, g.y), (0, 0));
    g.cursor_position(100, 100);
    assert_eq!((g.x, g.y), (9, 4));
    g.cursor_up(2);
    assert_eq!(g.y, 2);
    g.cursor_up(10);
    assert_eq!(g.y, 0);
    g.cursor_down(3);
    assert_eq!(g.y, 3);
    g.cursor_down(usize::MAX);
    assert_eq!(g.y, 4);
    g.cursor_back(4);
    assert_eq!(g.x, 5);
    g.cursor_back(50);
    assert_eq!(g.x, 0);
    g.cursor_forward(usize::MAX);
    assert_eq!(g.x, 9);
}

fn filled(cols: usize, rows: usize) -> Grid {
    let mut g = Grid::new(cols, rows);
    for i in 0..cols * rows {
        g.cells[i].ch = (b'a' + (i % 26) as u8) as char;
    }
    g
}

#[test]
fn erase_in_display_modes() {
    let mut g = filled(3, 3);
    g.cursor_position(2, 2);
    g.erase_in_display(0);
    assert_eq!(g.get_text_in_region(0, 0, 2, 2), "abc\nd  \n   ");

    let mut g = filled(3, 3);
    g.cursor_position(2, 2);
    g.erase_in_display(1);
    assert_eq!(g.get_text_in_region(0, 0, 2, 2), "   \n  f\nghi");

    let mut g = filled(3, 3);
    g.cursor_position(2, 2);
    g.erase_in_display(2);
    assert_eq!(g.get_text_in_region(0, 0, 2, 2), "   \n   \n   ");
    assert_eq!((g.x, g.y), (0, 0));

    let mut g = filled(3, 3);
    g.erase_in_display(7);
    assert_eq!(g.get_text_in_region(0, 0, 2, 2), "abc\ndef\nghi");
}

#[test]
fn erase_in_line_modes() {
    let mut g = filled(4, 2);
    g.cursor_position(1, 2);
    g.erase_in_line(0);
    assert_eq!(row_string(&g, 0), "a   ");
    let mut g = filled(4, 2);
    g.cursor_position(1, 2);
    g.erase_in_line(1);
    assert_eq!(row_string(&g, 0), "  cd");
    let mut g = filled(4, 2);
    g.cursor_position(1, 2);
    g.erase_in_line(2);
    assert_eq!(row_string(&g, 0), "    ");
    assert_eq!(row_string(&g, 1), "efgh");
    assert_eq!((g.x, g.y), (1, 0));
}

#[test]
fn clear_helpers() {
    let mut g = filled(4, 2);
    g.clear_line(9);
    assert_eq!(row_string(&g, 1), "    ");
    g.cursor_position(1, 3);
    g.clear_bol_to_cursor();
    assert_eq!(row_string(&g, 0), "   d");
    let mut g = filled(4, 2);
    g.cursor_position(1, 3);
    g.clear_eol_from_cursor();
    assert_eq!(row_string(&g, 0), "ab  ");
    let mut g = filled(4, 2);
    g.cursor_position(2, 2);
    g.clear_eol();
    assert_eq!(row_string(&g, 1), "e   ");
    g.clear_all();
    assert!(g.cells.iter().all(|c| *c == blank()));
}

#[test]
fn line_feed_on_last_row_moves_top_row_to_scrollback() {
    let mut g = filled(2, 2);
    g.cursor_position(2, 1);
    g.lf();
    assert_eq!(g.y, 1);
    assert_eq!(g.get_text_in_region(0, 0, 1, 1), "cd\n  ");
    assert_eq!(g.scrollback.len(), 1);
    g.cr();
    assert_eq!(g.x, 0);
}

#[test]
fn to_string_lines_reads_empty_cells_as_spaces() {
    let mut g = Grid::new(3, 2);
    g.put('a');
    assert_eq!(g.to_string_lines(), "a  \n   \n");
}

#[test]
fn text_in_region_clamps_and_separates_rows() {
    let g = filled(3, 2);
    assert_eq!(g.get_text_in_region(1, 0, 2, 1), "bc\nef");
    assert_eq!(g.get_text_in_region(2, 1, 5, 1), "ffff");
    assert_eq!(g.get_text_in_region(0, 1, 0, 0), "");
    assert_eq!(g.get_text_in_region(0, 3, 1, 4), "de\nde");
}

#[test]
fn selection_bounds_orders_corners() {
    let g = Grid::new(2, 2);
    assert_eq!(g.selection_bounds((5, 1), (2, 7)), (2, 1, 5, 7));
    assert_eq!(g.selection_bounds((1, 1), (1, 1)), (1, 1, 1, 1));
}

#[test]
fn destructive_resize_clears_and_homes() {
    let mut g = filled(3, 3);
    g.cursor_position(2, 2);
    g.resize(4, 2);
    assert_eq!((g.cols, g.rows, g.x, g.y), (4, 2, 0, 0));
    assert_eq!(g.cells.len(), 8);
    assert!(g.cells.iter().all(|c| *c == blank()));
}

#[test]
fn resize_preserve_same_size_changes_nothing() {
    let mut g = filled(4, 3);
    g.cursor_position(2, 3);
    let before: Vec<Cell> = g.cells.clone();
    g.resize_preserve(4, 3);
    assert_eq!(g.cells, before);
    assert_eq!((g.cols, g.rows, g.x, g.y), (4, 3, 2, 1));
}

#[test]
fn resize_preserve_keeps_bottom_row_when_shrinking_to_one_row() {
    let mut g = Grid::new(80, 25);
    for (i, ch) in "prompt$".chars().enumerate() {
        g.cells[24 * 80 + i].ch = ch;
    }
    g.cells[0].ch = 'x';
    g.resize_preserve(80, 1);
    assert_eq!((g.cols, g.rows), (80, 1));
    assert_eq!(g.cells.len(), 80);
    assert_eq!(g.to_string_lines(), format!("prompt${}\n", " ".repeat(73)));
}

#[test]
fn resize_preserve_round_trip_keeps_bottom_right_intersection() {
    let before = filled(4, 3);
    let mut g = filled(4, 3);
    g.cursor_position(3, 4);
    g.resize_preserve(2, 2);
    assert_eq!(g.to_string_lines(), "gh\nkl\n");
    assert_eq!((g.x, g.y), (1, 1));
    g.resize_preserve(4, 3);
    for r in 1..3 {
        for c in 2..4 {
            assert_eq!(g.cells[r * 4 + c].ch, before.cells[r * 4 + c].ch);
        }
    }
    assert_eq!(g.cells[0].ch, '\0');
    assert_eq!(g.cells[4].ch, '\0');
}

#[test]
fn resize_preserve_growing_aligns_bottom_right() {
    let mut g = filled(2, 1);
    g.resize_preserve(3, 2);
    assert_eq!(g.to_string_lines(), "   \n ab\n");
}

#[test]
fn display_content_shows_scrollback_when_scrolled() {
    let mut g = Grid::new(2, 2);
    for ch in "abcdef".chars() {
        g.put(ch);
    }
    // "ab" and "cd" scrolled off; the screen shows "ef" and an empty row.
    assert_eq!(g.scrollback.len(), 2);
    assert!(!g.is_scrolled());
    assert_eq!(g.get_display_content(), "ef\n  \n");
    g.scroll_up(1);
    assert!(g.is_scrolled());
    assert_eq!(g.get_display_content(), "ab\ncd\n");
    g.scroll_up(5);
    assert_eq!(g.scrollback.scroll_offset(), 2);
    g.scroll_to_bottom();
    assert_eq!(g.scrollback.scroll_offset(), 0);
    g.page_up();
    assert_eq!(g.scrollback.scroll_offset(), 2);
    g.page_down();
    assert_eq!(g.scrollback.scroll_offset(), 0);
    g.scroll_up(2);
    g.scroll_down(1);
    assert_eq!(g.scrollback.scroll_offset(), 1);
}

#[test]
fn display_content_falls_back_to_live_rows_below_short_history() {
    let mut g = Grid::new(2, 3);
    for ch in "abcdefgh".chars() {
        g.put(ch);
    }
    // "ab" and "cd" in the scrollback; the screen shows "ef", "gh", empty
    assert_eq!(g.scrollback.len(), 2);
    assert_eq!((g.x, g.y), (0, 2));
    g.scroll_up(1);
    assert_eq!(g.get_display_content(), "ab\ncd\nef\n");
}

#[test]
fn sgr_sets_pen_for_next_characters_only() {
    let mut g = Grid::new(4, 1);
    g.put('a');
    g.apply_sgr(&vec![vec![1], vec![31]]);
    g.put('b');
    assert!(!g.cells[0].bold);
    assert!(g.cells[1].bold);
    assert_eq!(g.cells[1].fg, Color { r: 205, g: 49, b: 49 });
    g.apply_sgr(&vec![vec![0]]);
    assert!(!g.current_bold);
    assert_eq!(g.current_fg, Color::default());
}

#[test]
fn sgr_extended_colors() {
    let mut g = Grid::new(4, 1);
    g.apply_sgr(&vec![vec![38], vec![5], vec![196], vec![48], vec![2], vec![1], vec![2], vec![3]]);
    assert_eq!(g.current_fg, Color { r: 255, g: 0, b: 0 });
    assert_eq!(g.current_bg, Color { r: 1, g: 2, b: 3 });
    // an incomplete RGB form leaves the colour alone and takes the rest
    g.apply_sgr(&vec![vec![38], vec![2], vec![9], vec![9]]);
    assert_eq!(g.current_fg, Color { r: 255, g: 0, b: 0 });
    g.apply_sgr(&vec![vec![38]]);
    assert_eq!(g.current_fg, Color { r: 255, g: 0, b: 0 });
    // components wrap to their low byte
    g.apply_sgr(&vec![vec![38], vec![2], vec![300], vec![0], vec![0], vec![4]]);
    assert_eq!(g.current_fg, Color { r: 44, g: 0, b: 0 });
    assert!(g.current_underline);
}

#[test]
fn sgr_style_codes() {
    let mut g = Grid::new(2, 1);
    g.apply_sgr(&vec![vec![3], vec![4], vec![94], vec![102]]);
    assert!(g.current_italic && g.current_underline);
    assert_eq!(g.current_fg, Color { r: 59, g: 142, b: 234 });
    assert_eq!(g.current_bg, Color { r: 35, g: 209, b: 139 });
    g.apply_sgr(&vec![vec![23], vec![24], vec![39], vec![49], vec![22]]);
    assert!(!g.current_italic && !g.current_underline && !g.current_bold);
    assert_eq!(g.current_fg, Color::default());
    assert_eq!(g.current_bg, Color { r: 0, g: 0, b: 0 });
    g.apply_sgr(&vec![vec![42]]);
    assert_eq!(g.current_bg, Color { r: 13, g: 188, b: 121 });
}
