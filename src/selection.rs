use vstd::prelude::*;
use crate::grid::{string_of, Cell, Grid, GridView};
use crate::scrollback::{find_occurrences, occurrences_from};

verus! {

pub uninterp spec fn alphanumeric(c: char) -> bool;

/// Relies on `char::is_alphanumeric`: whether `c` is alphabetic or numeric
/// by Unicode's tables.
#[verifier::external_body]
fn is_alphanumeric(c: char) -> (r: bool)
    ensures
        r == alphanumeric(c),
{
    c.is_alphanumeric()
}

/// Unicode's White_Space property.
pub open spec fn white_space(c: char) -> bool {
    ||| '\u{9}' <= c <= '\u{d}'
    ||| c == ' '
    ||| c == '\u{85}'
    ||| c == '\u{a0}'
    ||| c == '\u{1680}'
    ||| '\u{2000}' <= c <= '\u{200a}'
    ||| c == '\u{2028}'
    ||| c == '\u{2029}'
    ||| c == '\u{202f}'
    ||| c == '\u{205f}'
    ||| c == '\u{3000}'
}

/// Whether `c` has Unicode's White_Space property.
pub fn is_whitespace(c: char) -> (r: bool)
    ensures
        r == white_space(c),
{
    ('\u{9}' <= c && c <= '\u{d}') || c == ' ' || c == '\u{85}' || c == '\u{a0}' || c == '\u{1680}'
        || ('\u{2000}' <= c && c <= '\u{200a}') || c == '\u{2028}' || c == '\u{2029}' || c == '\u{202f}'
        || c == '\u{205f}' || c == '\u{3000}'
}

/// A character that belongs to a word.
pub open spec fn word_char(c: char) -> bool {
    alphanumeric(c) || c == '_'
}

/// Which cells of row `row` hold a word character; none past the last row.
pub open spec fn word_flags(g: GridView, row: nat) -> Seq<bool> {
    if row < g.rows { Seq::new(g.cols, |c: int| word_char(g.cell(c, row as int).ch)) } else { Seq::empty() }
}

/// The first column of the run of `true` that ends at `col`.
pub open spec fn run_start(flags: Seq<bool>, col: int) -> int
    decreases col,
{
    if col > 0 && col - 1 < flags.len() && flags[col - 1] { run_start(flags, col - 1) } else { col }
}

/// The last column of the run of `true` that starts at `col`.
pub open spec fn run_end(flags: Seq<bool>, col: int) -> int
    decreases flags.len() - col,
{
    if 0 <= col && col + 1 < flags.len() && flags[col + 1] { run_end(flags, col + 1) } else { col }
}

/// The first and last column of the word at `col`, or `col` twice where
/// `col` holds no word character.
pub open spec fn word_bounds(flags: Seq<bool>, col: nat) -> (nat, nat) {
    if col < flags.len() && flags[col as int] {
        (run_start(flags, col as int) as nat, run_end(flags, col as int) as nat)
    } else {
        (col, col)
    }
}

/// The bounds of the run of `true` flags around `col`; see `word_bounds`.
pub fn word_span(flags: &Vec<bool>, col: usize) -> (r: (usize, usize))
    ensures
        (r.0 as nat, r.1 as nat) == word_bounds(flags@, col as nat),
{
    if col >= flags.len() || !flags[col] {
        return (col, col);
    }
    let mut start = col;
    while start > 0 && flags[start - 1]
        invariant
            start <= col < flags@.len(),
            run_start(flags@, col as int) == run_start(flags@, start as int),
        decreases start,
    {
        start -= 1;
    }
    let mut end = col;
    while end < flags.len() - 1 && flags[end + 1]
        invariant
            col <= end < flags@.len(),
            run_end(flags@, col as int) == run_end(flags@, end as int),
        decreases flags@.len() - end,
    {
        end += 1;
    }
    (start, end)
}

/// The word under (`col`, `row`), as its first and last column: a word is a
/// run of alphanumeric characters and underscores within the row. A position
/// off the grid or on another character gives `col` twice.
pub fn find_word_boundaries(grid: &Grid, col: usize, row: usize) -> (r: (usize, usize))
    requires
        grid@.wf(),
    ensures
        (r.0 as nat, r.1 as nat) == word_bounds(word_flags(grid@, row as nat), col as nat),
{
    let mut flags: Vec<bool> = Vec::new();
    if row < grid.rows {
        proof { grid.lemma_row_fits(row as int); }
        let mut c: usize = 0;
        while c < grid.cols
            invariant
                grid@.wf(),
                row < grid.rows,
                row * grid.cols + grid.cols <= grid.cells@.len() <= usize::MAX,
                c <= grid.cols,
                flags@ == word_flags(grid@, row as nat).take(c as int),
            decreases grid.cols - c,
        {
            let ch = grid.cells[row * grid.cols + c].ch;
            let w = is_alphanumeric(ch) || ch == '_';
            flags.push(w);
            c += 1;
            assert(flags@ =~= word_flags(grid@, row as nat).take(c as int));
        }
        assert(flags@ =~= word_flags(grid@, row as nat));
    } else {
        assert(flags@ =~= word_flags(grid@, row as nat));
    }
    word_span(&flags, col)
}

/// A cell that shows something: neither empty nor a space.
pub open spec fn shows_text(c: Cell) -> bool {
    c.ch != ' ' && c.ch != '\0'
}

/// The last column at or before `c` of row `row` that shows text, or 0.
pub open spec fn last_text_column(g: GridView, row: int, c: int) -> nat
    decreases c,
{
    if c <= 0 { 0 } else if shows_text(g.cell(c, row)) { c as nat } else { last_text_column(g, row, c - 1) }
}

/// The columns that the content of row `row` spans, trailing blanks left
/// out: (0, last column that shows text, or 0). Past the last row: (0, 0).
pub fn find_line_boundaries(grid: &Grid, row: usize) -> (r: (usize, usize))
    requires
        grid@.wf(),
    ensures
        r.0 == 0,
        r.1 == (if row < grid@.rows { last_text_column(grid@, row as int, grid@.cols - 1) } else { 0 }),
{
    if row >= grid.rows {
        return (0, 0);
    }
    proof { grid.lemma_row_fits(row as int); }
    let mut end_col = grid.cols - 1;
    while end_col > 0
        invariant
            grid@.wf(),
            row < grid.rows,
            row * grid.cols + grid.cols <= grid.cells@.len() <= usize::MAX,
            end_col < grid.cols,
            last_text_column(grid@, row as int, grid@.cols - 1) == last_text_column(grid@, row as int, end_col as int),
        ensures
            end_col == 0 || shows_text(grid@.cell(end_col as int, row as int)),
            last_text_column(grid@, row as int, grid@.cols - 1) == last_text_column(grid@, row as int, end_col as int),
        decreases end_col,
    {
        let ch = grid.cells[row * grid.cols + end_col].ch;
        if ch != ' ' && ch != '\0' {
            break;
        }
        end_col -= 1;
    }
    (0, end_col)
}

/// The characters of `cells` that are not empty, in order.
pub open spec fn shown_chars(cells: Seq<Cell>) -> Seq<char>
    decreases cells.len(),
{
    if cells.len() == 0 {
        Seq::empty()
    } else {
        let rest = shown_chars(cells.drop_last());
        if cells.last().ch != '\0' { rest.push(cells.last().ch) } else { rest }
    }
}

/// The schemes that start a link, in the order they are tried.
pub open spec fn url_prefix(k: int) -> Seq<char> {
    if k == 0 { seq!['h', 't', 't', 'p', ':', '/', '/'] }
    else if k == 1 { seq!['h', 't', 't', 'p', 's', ':', '/', '/'] }
    else if k == 2 { seq!['f', 't', 'p', ':', '/', '/'] }
    else { seq!['f', 'i', 'l', 'e', ':', '/', '/'] }
}

/// A character that ends a link.
pub open spec fn ends_url(c: char) -> bool {
    white_space(c) || c == '"' || c == '\'' || c == '>' || c == ')' || c == ']'
}

/// The first position at or after `i` that ends a link, or the end.
pub open spec fn url_end(t: Seq<char>, i: int) -> int
    decreases t.len() - i,
{
    if i < 0 || i >= t.len() { t.len() as int } else if ends_url(t[i]) { i } else { url_end(t, i + 1) }
}

/// The link found by trying the schemes from `k` on: for each, its first
/// occurrence in `t`, taken where `col` lies between it and the end of `t`;
/// the link runs to the first character that ends one.
pub open spec fn url_from(t: Seq<char>, col: nat, k: int) -> Option<Seq<char>>
    decreases 4 - k,
{
    if k < 0 || k >= 4 {
        None
    } else {
        let occ = occurrences_from(t, url_prefix(k), 0);
        if occ.len() > 0 && occ[0] <= col < t.len() {
            Some(t.subrange(occ[0] as int, url_end(t, occ[0] as int)))
        } else {
            url_from(t, col, k + 1)
        }
    }
}

/// The text of row `row` without its empty cells; nothing past the last row.
pub open spec fn row_chars(g: GridView, row: nat) -> Seq<char> {
    if row < g.rows { shown_chars(g.row(row as int)) } else { Seq::empty() }
}

fn url_prefix_chars(k: usize) -> (r: Vec<char>)
    ensures
        r@ == url_prefix(k as int),
{
    let r = if k == 0 {
        vec!['h', 't', 't', 'p', ':', '/', '/']
    } else if k == 1 {
        vec!['h', 't', 't', 'p', 's', ':', '/', '/']
    } else if k == 2 {
        vec!['f', 't', 'p', ':', '/', '/']
    } else {
        vec!['f', 'i', 'l', 'e', ':', '/', '/']
    };
    assert(r@ =~= url_prefix(k as int));
    r
}

/// The link under column `col` of the characters `text`, if any; see
/// `url_from`.
pub fn url_at(text: &Vec<char>, col: usize) -> (r: Option<Vec<char>>)
    ensures
        match r {
            Some(u) => url_from(text@, col as nat, 0) == Some(u@),
            None => url_from(text@, col as nat, 0) is None,
        },
{
    let mut k: usize = 0;
    while k < 4
        invariant
            k <= 4,
            url_from(text@, col as nat, 0) == url_from(text@, col as nat, k as int),
        decreases 4 - k,
    {
        let prefix = url_prefix_chars(k);
        let occ = find_occurrences(text, &prefix);
        if occ.len() > 0 && occ[0] <= col && col < text.len() {
            let start = occ[0];
            let mut end = start;
            while end < text.len() && !(is_whitespace(text[end]) || text[end] == '"' || text[end] == '\''
                || text[end] == '>' || text[end] == ')' || text[end] == ']')
                invariant
                    start <= end <= text@.len(),
                    url_end(text@, start as int) == url_end(text@, end as int),
                decreases text@.len() - end,
            {
                end += 1;
            }
            let mut url: Vec<char> = Vec::new();
            let mut i = start;
            while i < end
                invariant
                    start <= i <= end <= text@.len(),
                    url@ == text@.subrange(start as int, i as int),
                decreases end - i,
            {
                url.push(text[i]);
                i += 1;
                assert(url@ =~= text@.subrange(start as int, i as int));
            }
            return Some(url);
        }
        k += 1;
    }
    None
}

/// The link (http, https, ftp or file) in row `row` at column `col`, if any;
/// the row is read without its empty cells; see `url_from`.
pub fn detect_url_at_position(grid: &Grid, col: usize, row: usize) -> (r: Option<String>)
    requires
        grid@.wf(),
    ensures
        match r {
            Some(u) => url_from(row_chars(grid@, row as nat), col as nat, 0) == Some(u@),
            None => url_from(row_chars(grid@, row as nat), col as nat, 0) is None,
        },
{
    let mut text: Vec<char> = Vec::new();
    if row < grid.rows {
        proof { grid.lemma_row_fits(row as int); }
        let mut c: usize = 0;
        while c < grid.cols
            invariant
                grid@.wf(),
                row < grid.rows,
                row * grid.cols + grid.cols <= grid.cells@.len() <= usize::MAX,
                c <= grid.cols,
                text@ == shown_chars(grid@.row(row as int).take(c as int)),
            decreases grid.cols - c,
        {
            let ch = grid.cells[row * grid.cols + c].ch;
            if ch != '\0' {
                text.push(ch);
            }
            assert(grid@.row(row as int).take(c + 1).drop_last() =~= grid@.row(row as int).take(c as int));
            c += 1;
        }
        assert(grid@.row(row as int).take(c as int) =~= grid@.row(row as int));
    }
    match url_at(&text, col) {
        Some(u) => Some(string_of(&u)),
        None => None,
    }
}

} // verus!
