use vstd::prelude::*;
use std::collections::VecDeque;
use crate::grid::Cell;

verus! {

/// What a scrollback buffer holds: its lines, oldest first, the most lines it
/// keeps, and how many lines the view is scrolled back from the newest.
pub struct ScrollbackView {
    pub lines: Seq<Seq<Cell>>,
    pub max_lines: nat,
    pub offset: nat,
}

pub open spec fn lines_view(v: Seq<Vec<Cell>>) -> Seq<Seq<Cell>> {
    v.map_values(|l: Vec<Cell>| l@)
}

pub open spec fn min_nat(a: nat, b: nat) -> nat {
    if a <= b { a } else { b }
}

/// `a - b`, or zero where `b` is larger.
pub open spec fn sat_sub(a: nat, b: nat) -> nat {
    if a >= b { (a - b) as nat } else { 0 }
}

impl ScrollbackView {
    /// Never more lines than the capacity, and never scrolled past the oldest.
    pub open spec fn wf(self) -> bool {
        &&& self.lines.len() <= self.max_lines
        &&& self.offset <= self.lines.len()
    }

    pub open spec fn len(self) -> nat {
        self.lines.len()
    }

    /// Appends `line`, evicting the oldest line when full. A scrolled view
    /// moves back by one line so that it keeps showing the same content,
    /// but never past the oldest line.
    pub open spec fn push(self, line: Seq<Cell>) -> ScrollbackView {
        if self.max_lines == 0 {
            self
        } else {
            let kept = if self.lines.len() >= self.max_lines { self.lines.drop_first() } else { self.lines };
            let lines = kept.push(line);
            ScrollbackView {
                lines,
                max_lines: self.max_lines,
                offset: if self.offset > 0 { min_nat(self.offset + 1, lines.len()) } else { 0 },
            }
        }
    }

    /// Index of the first line shown in a viewport of `height` lines.
    pub open spec fn visible_start(self, height: nat) -> nat {
        if self.offset >= self.lines.len() {
            0
        } else {
            let end = (self.lines.len() - self.offset) as nat;
            (end - min_nat(height, end)) as nat
        }
    }

    /// The lines of a viewport of `height` lines whose last line stands
    /// `offset` lines before the newest, oldest first; a viewport taller than
    /// the history above that point takes the lines after it too.
    pub open spec fn visible(self, height: nat) -> Seq<Seq<Cell>> {
        let start = self.visible_start(height);
        self.lines.subrange(start as int, min_nat(start + height, self.lines.len()) as int)
    }

    pub open spec fn with_offset(self, offset: nat) -> ScrollbackView {
        ScrollbackView { offset, ..self }
    }

    pub open spec fn scroll_up(self, n: nat) -> ScrollbackView {
        self.with_offset(min_nat(self.offset + n, self.lines.len()))
    }

    pub open spec fn scroll_down(self, n: nat) -> ScrollbackView {
        self.with_offset(sat_sub(self.offset, n))
    }
}

/// The buffer after pushing `ls` in order.
pub open spec fn push_all(sb: ScrollbackView, ls: Seq<Seq<Cell>>) -> ScrollbackView
    decreases ls.len(),
{
    if ls.len() == 0 { sb } else { push_all(sb, ls.drop_last()).push(ls.last()) }
}

/// Pushing keeps the newest lines, at most the capacity of them, in the
/// order they came, the oldest leaving first: after pushing more lines than
/// the capacity, exactly the capacity remains, the newest being the last
/// line pushed.
pub proof fn lemma_push_keeps_newest(sb: ScrollbackView, ls: Seq<Seq<Cell>>)
    requires
        sb.wf(),
    ensures
        push_all(sb, ls).wf(),
        push_all(sb, ls).max_lines == sb.max_lines,
        push_all(sb, ls).lines == (sb.lines + ls).subrange(
            sat_sub(sb.lines.len() + ls.len(), sb.max_lines) as int,
            (sb.lines.len() + ls.len()) as int,
        ),
        ls.len() > sb.max_lines ==> push_all(sb, ls).lines.len() == sb.max_lines,
        ls.len() > sb.max_lines && sb.max_lines >= 1 ==> push_all(sb, ls).lines.last() == ls.last(),
    decreases ls.len(),
{
    if ls.len() == 0 {
        assert((sb.lines + ls).subrange(sat_sub(sb.lines.len() + ls.len(), sb.max_lines) as int, (sb.lines.len() + ls.len()) as int) =~= sb.lines);
    } else {
        let prev = ls.drop_last();
        lemma_push_keeps_newest(sb, prev);
        let p = push_all(sb, prev);
        let all = sb.lines + ls;
        assert(sb.lines + prev =~= all.take(all.len() - 1));
        if sb.max_lines == 0 {
            assert(all.subrange(sat_sub(all.len(), 0) as int, all.len() as int) =~= Seq::<Seq<Cell>>::empty());
        } else if p.lines.len() >= p.max_lines {
            assert(push_all(sb, ls).lines =~= all.subrange(sat_sub(all.len(), sb.max_lines) as int, all.len() as int));
        } else {
            assert(push_all(sb, ls).lines =~= all.subrange(sat_sub(all.len(), sb.max_lines) as int, all.len() as int));
        }
    }
}

/// Scrolling back `k` lines and then forward `k` lines returns to where the
/// view was, unless scrolling back stopped at the oldest line; then it ends
/// `k` lines forward of the oldest, or on the live screen. The offset stays
/// within the history throughout.
pub proof fn lemma_scroll_round_trip(sb: ScrollbackView, k: nat)
    requires
        sb.wf(),
    ensures
        sb.scroll_up(k).wf(),
        sb.scroll_up(k).scroll_down(k).wf(),
        sb.scroll_up(k).scroll_down(k).offset == (if sb.offset + k <= sb.lines.len() {
            sb.offset
        } else {
            sat_sub(sb.lines.len(), k)
        }),
        sb.scroll_up(k).scroll_down(k).lines == sb.lines,
        sb.scroll_up(k).scroll_down(k).max_lines == sb.max_lines,
{
}

/// Does `q` occur in `t` at position `p`?
pub open spec fn occurs_at(t: Seq<char>, q: Seq<char>, p: int) -> bool {
    0 <= p && p + q.len() <= t.len() && t.subrange(p, p + q.len()) == q
}

/// The positions at or after `p` where a non-empty `q` occurs in `t`, in
/// increasing order; overlapping occurrences all count.
pub open spec fn occurrences_from(t: Seq<char>, q: Seq<char>, p: int) -> Seq<usize>
    decreases t.len() - p,
{
    if q.len() == 0 || p < 0 || p + q.len() > t.len() {
        Seq::empty()
    } else {
        let rest = occurrences_from(t, q, p + 1);
        if occurs_at(t, q, p) { seq![p as usize] + rest } else { rest }
    }
}

/// Every match of `q` in `texts`, line by line: (line index, start, end),
/// the offsets counted in characters.
pub open spec fn matches_in_lines(texts: Seq<Seq<char>>, q: Seq<char>) -> Seq<(usize, usize, usize)>
    decreases texts.len(),
{
    if texts.len() == 0 {
        Seq::empty()
    } else {
        let last = (texts.len() - 1) as int;
        matches_in_lines(texts.take(last), q) + occurrences_from(texts[last], q, 0).map_values(
            |p: usize| (last as usize, p, (p + q.len()) as usize),
        )
    }
}

/// The text of a line: an empty cell reads as a space.
pub open spec fn line_text(line: Seq<Cell>) -> Seq<char> {
    line.map_values(|c: Cell| crate::grid::display_char(c.ch))
}

pub uninterp spec fn char_lower(c: char) -> Seq<char>;

/// Relies on `char::to_lowercase`: the lower case of `c` by Unicode's
/// tables, one or more characters; it depends on `c` alone.
#[verifier::external_body]
fn char_to_lowercase(c: char) -> (r: Vec<char>)
    ensures
        r@ == char_lower(c),
{
    c.to_lowercase().collect()
}

/// A character lower-cased on its own; one whose lower case takes more
/// than one character stays as it is, so that a text keeps its length.
pub open spec fn fold_char(c: char) -> char {
    let l = char_lower(c);
    if l.len() == 1 { l[0] } else { c }
}

/// The text that a search looks in, or for: lower-cased character by
/// character unless the search is case sensitive. Either way it has the
/// length of `s`, so positions in it are positions in `s`.
pub open spec fn search_form(s: Seq<char>, case_sensitive: bool) -> Seq<char> {
    if case_sensitive { s } else { s.map_values(|c: char| fold_char(c)) }
}

/// `s` lower-cased character by character; see `fold_char`.
fn fold_chars(s: &Vec<char>) -> (r: Vec<char>)
    ensures
        r@ == s@.map_values(|c: char| fold_char(c)),
{
    let mut r: Vec<char> = Vec::new();
    let mut i: usize = 0;
    while i < s.len()
        invariant
            i <= s@.len(),
            r@ == s@.take(i as int).map_values(|c: char| fold_char(c)),
        decreases s@.len() - i,
    {
        let l = char_to_lowercase(s[i]);
        let c = if l.len() == 1 { l[0] } else { s[i] };
        r.push(c);
        i += 1;
        assert(r@ =~= s@.take(i as int).map_values(|c: char| fold_char(c)));
    }
    assert(s@.take(i as int) =~= s@);
    r
}

/// A bounded history of lines that scrolled off the screen, with a scroll
/// position.
pub struct ScrollbackBuffer {
    lines: VecDeque<Vec<Cell>>,
    max_lines: usize,
    /// Lines scrolled back from the newest (0: the live screen is shown).
    scroll_offset: usize,
}

impl View for ScrollbackBuffer {
    type V = ScrollbackView;

    closed spec fn view(&self) -> ScrollbackView {
        ScrollbackView {
            lines: lines_view(self.lines@),
            max_lines: self.max_lines as nat,
            offset: self.scroll_offset as nat,
        }
    }
}

fn copy_line(line: &Vec<Cell>) -> (r: Vec<Cell>)
    ensures
        r@ == line@,
{
    let mut r: Vec<Cell> = Vec::new();
    let mut i: usize = 0;
    while i < line.len()
        invariant
            i <= line@.len(),
            r@ == line@.take(i as int),
        decreases line@.len() - i,
    {
        r.push(line[i]);
        i += 1;
        assert(r@ =~= line@.take(i as int));
    }
    assert(r@ =~= line@);
    r
}

/// Every occurrence of a non-empty `query` in `text`, in increasing order.
pub fn find_occurrences(text: &Vec<char>, query: &Vec<char>) -> (r: Vec<usize>)
    ensures
        r@ == occurrences_from(text@, query@, 0),
{
    let mut r: Vec<usize> = Vec::new();
    if query.len() == 0 || query.len() > text.len() {
        return r;
    }
    let last = text.len() - query.len();
    let mut p: usize = 0;
    while p <= last
        invariant
            0 < query@.len() <= text@.len() <= usize::MAX,
            last == text@.len() - query@.len(),
            p <= last + 1,
            occurrences_from(text@, query@, 0) == r@ + occurrences_from(text@, query@, p as int),
        decreases last + 1 - p,
    {
        let mut j: usize = 0;
        let mut hit = true;
        while j < query.len()
            invariant
                0 < query@.len() <= text@.len() <= usize::MAX,
                p <= last,
                p + query@.len() <= text@.len(),
                last == text@.len() - query@.len(),
                j <= query@.len(),
                hit == (text@.subrange(p as int, p + j) =~= query@.take(j as int)),
            decreases query@.len() - j,
        {
            if text[p + j] != query[j] {
                hit = false;
            }
            proof {
                if hit {
                    assert(text@.subrange(p as int, p + j + 1) =~= query@.take(j + 1));
                } else {
                    assert(text@.subrange(p as int, p + j + 1)[j as int] != query@.take(j + 1)[j as int]
                        || text@.subrange(p as int, p + j) != query@.take(j as int));
                    if text@.subrange(p as int, p + j + 1) =~= query@.take(j + 1) {
                        assert(text@.subrange(p as int, p + j) =~= text@.subrange(p as int, p + j + 1).take(j as int));
                        assert(query@.take(j as int) =~= query@.take(j + 1).take(j as int));
                    }
                }
            }
            j += 1;
        }
        assert(query@.take(query@.len() as int) =~= query@);
        assert(hit == occurs_at(text@, query@, p as int));
        if hit {
            r.push(p);
        }
        proof {
            assert(occurrences_from(text@, query@, p as int) == (if occurs_at(text@, query@, p as int) {
                seq![p as usize] + occurrences_from(text@, query@, p + 1)
            } else {
                occurrences_from(text@, query@, p + 1)
            }));
            if hit {
                assert(r@ + occurrences_from(text@, query@, p + 1) =~= r@.drop_last() + (seq![p as usize] + occurrences_from(text@, query@, p + 1)));
            }
        }
        p += 1;
    }
    r
}


/// Every match of `query` in `texts`, line by line: (line index, start, end),
/// in characters.
pub fn search_texts(texts: &Vec<Vec<char>>, query: &Vec<char>) -> (r: Vec<(usize, usize, usize)>)
    ensures
        r@ == matches_in_lines(texts@.map_values(|t: Vec<char>| t@), query@),
{
    let ghost tv = texts@.map_values(|t: Vec<char>| t@);
    let mut r: Vec<(usize, usize, usize)> = Vec::new();
    let mut i: usize = 0;
    while i < texts.len()
        invariant
            i <= texts@.len(),
            tv == texts@.map_values(|t: Vec<char>| t@),
            r@ == matches_in_lines(tv.take(i as int), query@),
        decreases texts@.len() - i,
    {
        let found = find_occurrences(&texts[i], query);
        let ghost before = r@;
        assert(tv[i as int] == texts@[i as int]@);
        let text_len = texts[i].len();
        let mut k: usize = 0;
        while k < found.len()
            invariant
                i < texts@.len(),
                tv.len() == texts@.len(),
                tv[i as int].len() <= usize::MAX,
                k <= found@.len(),
                found@ == occurrences_from(tv[i as int], query@, 0),
                r@ == before + found@.take(k as int).map_values(
                    |p: usize| (i, p, (p + query@.len()) as usize),
                ),
            decreases found@.len() - k,
        {
            let p = found[k];
            proof {
                lemma_occurrence_bound(tv[i as int], query@, 0, k as int);
            }
            r.push((i, p, p + query.len()));
            k += 1;
            assert(found@.take(k as int) =~= found@.take(k - 1).push(p));
            assert(r@ =~= before + found@.take(k as int).map_values(
                |p: usize| (i, p, (p + query@.len()) as usize),
            ));
        }
        proof {
            assert(found@.take(k as int) =~= found@);
            assert(tv.take(i + 1).take(i as int) =~= tv.take(i as int));
        }
        i += 1;
    }
    assert(tv.take(i as int) =~= tv);
    r
}

/// An occurrence ends within the text, so its end fits in a `usize` too.
proof fn lemma_occurrence_bound(t: Seq<char>, q: Seq<char>, p: int, k: int)
    requires
        0 <= k < occurrences_from(t, q, p).len(),
        t.len() <= usize::MAX,
    ensures
        occurrences_from(t, q, p)[k] + q.len() <= t.len(),
        occurrences_from(t, q, p)[k] >= p,
    decreases t.len() - p,
{
    if q.len() == 0 || p < 0 || p + q.len() > t.len() {
    } else {
        if occurs_at(t, q, p) {
            if k > 0 {
                lemma_occurrence_bound(t, q, p + 1, k - 1);
            }
        } else {
            lemma_occurrence_bound(t, q, p + 1, k);
        }
    }
}

impl ScrollbackBuffer {
    /// An empty buffer that keeps at most `max_lines` lines.
    pub fn new(max_lines: usize) -> (r: ScrollbackBuffer)
        ensures
            r@ == (ScrollbackView { lines: Seq::empty(), max_lines: max_lines as nat, offset: 0 }),
            r@.wf(),
    {
        let r = ScrollbackBuffer { lines: VecDeque::new(), max_lines, scroll_offset: 0 };
        assert(r@.lines =~= Seq::<Seq<Cell>>::empty());
        r
    }

    /// Appends a line that left the screen; see `ScrollbackView::push`.
    pub fn push_line(&mut self, line: Vec<Cell>)
        requires
            old(self)@.wf(),
        ensures
            final(self)@ == old(self)@.push(line@),
            final(self)@.wf(),
    {
        if self.max_lines == 0 {
            return;
        }
        let ghost l0 = self.lines@;
        if self.lines.len() >= self.max_lines {
            self.lines.pop_front();
            assert(lines_view(self.lines@) =~= lines_view(l0).drop_first());
        }
        let ghost l1 = self.lines@;
        self.lines.push_back(line);
        assert(lines_view(self.lines@) =~= lines_view(l1).push(line@));
        if self.scroll_offset > 0 {
            self.scroll_offset = if self.scroll_offset < self.lines.len() {
                self.scroll_offset + 1
            } else {
                self.lines.len()
            };
        }
    }

    /// The lines of a viewport `viewport_height` lines tall at the current
    /// scroll position; see `ScrollbackView::visible`.
    pub fn get_visible_lines(&self, viewport_height: usize) -> (r: Vec<Vec<Cell>>)
        requires
            self@.wf(),
        ensures
            lines_view(r@) == self@.visible(viewport_height as nat),
    {
        let total = self.lines.len();
        let mut r: Vec<Vec<Cell>> = Vec::new();
        if total == 0 {
            assert(lines_view(r@) =~= self@.visible(viewport_height as nat));
            return r;
        }
        let start = if self.scroll_offset >= total {
            0
        } else {
            let end = total - self.scroll_offset;
            end - if viewport_height < end { viewport_height } else { end }
        };
        let end = if viewport_height < total - start { start + viewport_height } else { total };
        let ghost want = self@.visible(viewport_height as nat);
        assert(start == self@.visible_start(viewport_height as nat));
        let mut i = start;
        while i < end
            invariant
                start <= i <= end <= total,
                total == self@.lines.len(),
                self@.lines.len() == self.lines@.len(),
                want == self@.lines.subrange(start as int, end as int),
                lines_view(r@) == self@.lines.subrange(start as int, i as int),
            decreases end - i,
        {
            let line = copy_line(&self.lines[i]);
            assert(self@.lines[i as int] == self.lines@[i as int]@);
            let ghost prev = r@;
            r.push(line);
            assert(lines_view(r@) =~= lines_view(prev).push(line@));
            i += 1;
            assert(lines_view(r@) =~= self@.lines.subrange(start as int, i as int));
        }
        r
    }

    /// Scrolls `n` lines back, no further than the oldest line.
    pub fn scroll_up(&mut self, n: usize)
        requires
            old(self)@.wf(),
        ensures
            final(self)@ == old(self)@.scroll_up(n as nat),
            final(self)@.wf(),
    {
        let max_scroll = self.lines.len();
        self.scroll_offset = if n < max_scroll - self.scroll_offset {
            self.scroll_offset + n
        } else {
            max_scroll
        };
    }

    /// Scrolls `n` lines forward, no further than the live screen.
    pub fn scroll_down(&mut self, n: usize)
        requires
            old(self)@.wf(),
        ensures
            final(self)@ == old(self)@.scroll_down(n as nat),
            final(self)@.wf(),
    {
        self.scroll_offset = if self.scroll_offset >= n { self.scroll_offset - n } else { 0 };
    }

    /// Scrolls back to the oldest line.
    pub fn scroll_to_top(&mut self)
        requires
            old(self)@.wf(),
        ensures
            final(self)@ == old(self)@.with_offset(old(self)@.lines.len()),
            final(self)@.wf(),
    {
        self.scroll_offset = self.lines.len();
    }

    /// Returns to the live screen.
    pub fn scroll_to_bottom(&mut self)
        requires
            old(self)@.wf(),
        ensures
            final(self)@ == old(self)@.with_offset(0),
            final(self)@.wf(),
    {
        self.scroll_offset = 0;
    }

    /// Scrolls back by one viewport.
    pub fn page_up(&mut self, viewport_height: usize)
        requires
            old(self)@.wf(),
        ensures
            final(self)@ == old(self)@.scroll_up(viewport_height as nat),
            final(self)@.wf(),
    {
        self.scroll_up(viewport_height);
    }

    /// Scrolls forward by one viewport.
    pub fn page_down(&mut self, viewport_height: usize)
        requires
            old(self)@.wf(),
        ensures
            final(self)@ == old(self)@.scroll_down(viewport_height as nat),
            final(self)@.wf(),
    {
        self.scroll_down(viewport_height);
    }

    pub fn is_at_bottom(&self) -> (r: bool)
        ensures
            r == (self@.offset == 0),
    {
        self.scroll_offset == 0
    }

    /// How many lines the view is scrolled back.
    pub fn scroll_offset(&self) -> (r: usize)
        ensures
            r as nat == self@.offset,
    {
        self.scroll_offset
    }

    /// The most lines the buffer keeps.
    pub fn max_lines(&self) -> (r: usize)
        ensures
            r as nat == self@.max_lines,
    {
        self.max_lines
    }

    /// Drops every line and returns to the live screen.
    pub fn clear(&mut self)
        ensures
            final(self)@ == (ScrollbackView { lines: Seq::empty(), max_lines: old(self)@.max_lines, offset: 0 }),
    {
        self.lines.clear();
        self.scroll_offset = 0;
        assert(self@.lines =~= Seq::<Seq<Cell>>::empty());
    }

    pub fn len(&self) -> (r: usize)
        ensures
            r as nat == self@.lines.len(),
    {
        self.lines.len()
    }

    /// The line at `i`, oldest first.
    pub fn line(&self, i: usize) -> (r: Vec<Cell>)
        requires
            i < self@.lines.len(),
        ensures
            r@ == self@.lines[i as int],
    {
        copy_line(&self.lines[i])
    }

    /// Every match of `query` in the stored lines: (line index, start, end),
    /// in characters of the stored line, an empty cell reading as a space.
    /// Unless the search is case sensitive, both sides are lower-cased
    /// character by character first (see `fold_char`), which keeps lengths:
    /// a match ends the query's length after its start. An empty query
    /// matches nowhere.
    pub fn search(&self, query: &str, case_sensitive: bool) -> (r: Vec<(usize, usize, usize)>)
        ensures
            r@ == matches_in_lines(
                self@.lines.map_values(|l: Seq<Cell>| search_form(line_text(l), case_sensitive)),
                search_form(query@, case_sensitive),
            ),
    {
        let n = query.unicode_len();
        let mut q: Vec<char> = Vec::new();
        let mut k: usize = 0;
        while k < n
            invariant
                n == query@.len(),
                k <= n,
                q@ == query@.take(k as int),
            decreases n - k,
        {
            q.push(query.get_char(k));
            k += 1;
            assert(q@ =~= query@.take(k as int));
        }
        assert(q@ =~= query@);
        let q = if case_sensitive { q } else { fold_chars(&q) };
        let ghost want = self@.lines.map_values(|l: Seq<Cell>| search_form(line_text(l), case_sensitive));
        let mut texts: Vec<Vec<char>> = Vec::new();
        let mut i: usize = 0;
        while i < self.lines.len()
            invariant
                i <= self@.lines.len(),
                self@.lines.len() == self.lines@.len(),
                want == self@.lines.map_values(|l: Seq<Cell>| search_form(line_text(l), case_sensitive)),
                texts@.map_values(|t: Vec<char>| t@) == want.take(i as int),
            decreases self@.lines.len() - i,
        {
            let line = &self.lines[i];
            assert(self@.lines[i as int] == self.lines@[i as int]@);
            let mut t: Vec<char> = Vec::new();
            let mut c: usize = 0;
            while c < line.len()
                invariant
                    c <= line@.len(),
                    i < self@.lines.len(),
                    line@ == self@.lines[i as int],
                    t@ == line_text(line@).take(c as int),
                decreases line@.len() - c,
            {
                let ch = line[c].ch;
                t.push(if ch == '\0' { ' ' } else { ch });
                c += 1;
                assert(t@ =~= line_text(line@).take(c as int));
            }
            assert(t@ =~= line_text(line@));
            let t = if case_sensitive { t } else { fold_chars(&t) };
            assert(want[i as int] == t@);
            let ghost prev = texts@;
            texts.push(t);
            assert(texts@.map_values(|t: Vec<char>| t@) =~= prev.map_values(|t: Vec<char>| t@).push(want[i as int]));
            i += 1;
            assert(texts@.map_values(|t: Vec<char>| t@) =~= want.take(i as int));
        }
        assert(want.take(i as int) =~= want);
        search_texts(&texts, &q)
    }
}

} // verus!
