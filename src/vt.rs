use vstd::prelude::*;
use crate::grid::{display_width, params_view, sgr, Grid, GridView};

verus! {

/// `vte::Parser`, the decoder of the byte stream, carried as an opaque value.
#[verifier::external_type_specification]
#[verifier::external_body]
pub struct ExParser<const N: usize>(vte::Parser<N>);

/// `vte::Params`, the parameters of a control sequence, read only through
/// `params_to_vec`.
#[verifier::external_type_specification]
#[verifier::external_body]
pub struct ExParams(vte::Params);

/// Relies on `vte::Parser::new`: a parser in its ground state.
pub assume_specification[ vte::Parser::new ]() -> vte::Parser;

/// One decoded element of the byte stream.
pub enum Action {
    /// A printable character.
    Print(char),
    /// A C0 or C1 control byte.
    Execute(u8),
    /// A control sequence `ESC [ intermediates params action`; each parameter
    /// holds its value and any sub-parameters.
    Csi { params: Vec<Vec<u16>>, intermediates: Vec<u8>, action: char },
}

pub enum ActionView {
    Print(char),
    Execute(u8),
    Csi { params: Seq<Seq<u16>>, intermediates: Seq<u8>, action: char },
}

impl View for Action {
    type V = ActionView;

    open spec fn view(&self) -> ActionView {
        match self {
            Action::Print(c) => ActionView::Print(*c),
            Action::Execute(b) => ActionView::Execute(*b),
            Action::Csi { params, intermediates, action } => ActionView::Csi {
                params: params_view(params@),
                intermediates: intermediates@,
                action: *action,
            },
        }
    }
}

/// The first value of parameter `i`, or `default` where it is missing.
pub open spec fn param_or(ps: Seq<Seq<u16>>, i: int, default: nat) -> nat {
    if 0 <= i < ps.len() && ps[i].len() > 0 { ps[i][0] as nat } else { default }
}

/// A count for a cursor move: the first value of parameter `i`, where a
/// missing or empty (zero) parameter counts as one.
pub open spec fn count_param(ps: Seq<Seq<u16>>, i: int) -> nat {
    let v = param_or(ps, i, 1);
    if v == 0 { 1 } else { v }
}

/// Whether any value of any parameter is `n`.
pub open spec fn mentions(ps: Seq<Seq<u16>>, n: u16) -> bool {
    exists|i: int, j: int| 0 <= i < ps.len() && 0 <= j < ps[i].len() && ps[i][j] == n
}

/// A control byte: line feed, carriage return, tab, backspace; others do
/// nothing.
pub open spec fn execute_effect(g: GridView, byte: u8) -> GridView {
    if byte == 0x0a { g.line_feed() }
    else if byte == 0x0d { g.carriage_return() }
    else if byte == 0x09 { g.tab() }
    else if byte == 0x08 { g.backspace() }
    else { g }
}

/// A control sequence, with the bracketed-paste flag (`None` where it is
/// not tracked). `ESC [ ? ... h` / `l` sets / clears the flag where mode
/// 2004 is among the parameters; other private modes are ignored. Otherwise
/// the final character selects: J erase in display, K erase in line, H and f
/// cursor position, A B C D cursor moves, m graphic rendition; a missing
/// parameter counts as 0 for J and K and as 1 for the others, and a move by
/// 0 moves by 1 (the decoder reports an empty parameter as 0). Any other
/// sequence does nothing.
pub open spec fn csi_effect(
    g: GridView,
    bp: Option<bool>,
    ps: Seq<Seq<u16>>,
    inter: Seq<u8>,
    c: char,
) -> (GridView, Option<bool>) {
    if inter == seq![0x3fu8] {
        if (c == 'h' || c == 'l') && mentions(ps, 2004) && bp is Some {
            (g, Some(c == 'h'))
        } else {
            (g, bp)
        }
    } else if c == 'J' {
        (g.erase_in_display(param_or(ps, 0, 0)), bp)
    } else if c == 'K' {
        (g.erase_in_line(param_or(ps, 0, 0)), bp)
    } else if c == 'H' || c == 'f' {
        (g.cursor_position(param_or(ps, 0, 1), param_or(ps, 1, 1)), bp)
    } else if c == 'A' {
        (g.cursor_up(count_param(ps, 0)), bp)
    } else if c == 'B' {
        (g.cursor_down(count_param(ps, 0)), bp)
    } else if c == 'C' {
        (g.cursor_forward(count_param(ps, 0)), bp)
    } else if c == 'D' {
        (g.cursor_back(count_param(ps, 0)), bp)
    } else if c == 'm' {
        (g.with_pen(sgr(g.pen, ps)), bp)
    } else {
        (g, bp)
    }
}

/// The effect of one action on the grid and the bracketed-paste flag.
pub open spec fn perform(g: GridView, bp: Option<bool>, a: ActionView) -> (GridView, Option<bool>) {
    match a {
        ActionView::Print(c) => (g.put(c, display_width(c)), bp),
        ActionView::Execute(b) => (execute_effect(g, b), bp),
        ActionView::Csi { params, intermediates, action } => csi_effect(g, bp, params, intermediates, action),
    }
}

/// The effect of the actions in order.
pub open spec fn perform_all(g: GridView, bp: Option<bool>, acts: Seq<ActionView>) -> (GridView, Option<bool>)
    decreases acts.len(),
{
    if acts.len() == 0 {
        (g, bp)
    } else {
        let (g1, b1) = perform_all(g, bp, acts.drop_last());
        perform(g1, b1, acts.last())
    }
}

/// Relies on `vte::Params::iter`: each parameter with its sub-parameters.
#[verifier::external_body]
fn params_to_vec(p: &vte::Params) -> Vec<Vec<u16>> {
    p.iter().map(|s| s.to_vec()).collect()
}

/// Collects what the parser decodes.
pub struct ActionQueue {
    pub actions: Vec<Action>,
}

impl vte::Perform for ActionQueue {
    fn print(&mut self, c: char) {
        self.actions.push(Action::Print(c));
    }

    fn execute(&mut self, byte: u8) {
        self.actions.push(Action::Execute(byte));
    }

    fn csi_dispatch(&mut self, params: &vte::Params, intermediates: &[u8], _ignore: bool, action: char) {
        let params = params_to_vec(params);
        let intermediates = vstd::slice::slice_to_vec(intermediates);
        self.actions.push(Action::Csi { params, intermediates, action });
    }
}

pub open spec fn actions_view(acts: Seq<Action>) -> Seq<ActionView> {
    acts.map_values(|a: Action| a@)
}

pub uninterp spec fn vt_step(fed: Seq<u8>, byte: u8) -> Seq<ActionView>;

/// What the parser emits on `bytes` after it was fed `fed` since it was
/// made: what each byte emits, in order.
pub open spec fn vt_actions(fed: Seq<u8>, bytes: Seq<u8>) -> Seq<ActionView>
    decreases bytes.len(),
{
    if bytes.len() == 0 {
        Seq::empty()
    } else {
        let before = bytes.drop_last();
        vt_actions(fed, before) + vt_step(fed + before, bytes.last())
    }
}

/// Relies on `vte::Parser::advance`: feeds one byte to the parser, which
/// keeps any unfinished sequence for the next byte, and returns what it
/// decoded. A parser made by `vte::Parser::new` decodes deterministically, so
/// what it emits depends only on the bytes fed to it so far, which
/// `history` records; this call leaves the record alone.
#[verifier::external_body]
fn decode_byte(parser: &mut VtParser, byte: u8) -> (r: Vec<Action>)
    ensures
        actions_view(r@) == vt_step(old(parser).history(), byte),
        final(parser).history() == old(parser).history(),
{
    let mut queue = ActionQueue { actions: Vec::new() };
    parser.parser.advance(&mut queue, byte);
    queue.actions
}

/// The byte-level decoding state of a session, kept across chunks so that a
/// sequence split between two chunks decodes as if it came in one.
pub struct VtParser {
    parser: vte::Parser,
    fed: Ghost<Seq<u8>>,
}

impl VtParser {
    /// The bytes fed to the parser since it was made.
    pub closed spec fn history(&self) -> Seq<u8> {
        self.fed@
    }

    /// A parser in its ground state, fed nothing yet.
    pub fn new() -> (r: VtParser)
        ensures
            r.history() == Seq::<u8>::empty(),
    {
        VtParser { parser: vte::Parser::new(), fed: Ghost(Seq::empty()) }
    }

    /// Feeds one byte, returning what it decodes; see `vt_step`.
    fn step(&mut self, byte: u8) -> (r: Vec<Action>)
        ensures
            actions_view(r@) == vt_step(old(self).history(), byte),
            final(self).history() == old(self).history().push(byte),
    {
        let r = decode_byte(self, byte);
        self.fed = Ghost(self.fed@.push(byte));
        r
    }
}

/// Applies decoded actions to a grid, tracking the bracketed-paste flag
/// (`None` where nobody watches it).
pub struct Performer {
    pub bracketed_paste: Option<bool>,
}

impl Performer {
    /// Prints `c` at the cursor.
    pub fn print(&mut self, g: &mut Grid, c: char)
        requires
            old(g)@.wf(),
        ensures
            final(g)@ == old(g)@.put(c, display_width(c)),
            final(g)@.wf(),
            final(self).bracketed_paste == old(self).bracketed_paste,
    {
        g.put(c);
    }

    /// Carries out a control byte; see `execute_effect`.
    pub fn execute(&mut self, g: &mut Grid, byte: u8)
        requires
            old(g)@.wf(),
        ensures
            final(g)@ == execute_effect(old(g)@, byte),
            final(g)@.wf(),
            final(self).bracketed_paste == old(self).bracketed_paste,
    {
        if byte == 0x0a {
            g.lf();
        } else if byte == 0x0d {
            g.cr();
        } else if byte == 0x09 {
            g.tab();
        } else if byte == 0x08 {
            g.backspace();
        }
    }

    /// Carries out a control sequence; see `csi_effect`.
    pub fn csi_dispatch(&mut self, g: &mut Grid, params: &Vec<Vec<u16>>, intermediates: &Vec<u8>, c: char)
        requires
            old(g)@.wf(),
        ensures
            (final(g)@, final(self).bracketed_paste) == csi_effect(
                old(g)@,
                old(self).bracketed_paste,
                params_view(params@),
                intermediates@,
                c,
            ),
            final(g)@.wf(),
    {
        let ghost ps = params_view(params@);
        if intermediates.len() == 1 && intermediates[0] == 0x3f {
            assert(intermediates@ =~= seq![0x3fu8]);
            if (c == 'h' || c == 'l') && self.bracketed_paste.is_some() {
                let mut found = false;
                let mut i: usize = 0;
                while i < params.len()
                    invariant
                        ps == params_view(params@),
                        i <= params@.len(),
                        found ==> mentions(ps, 2004),
                        !found ==> forall|a: int, b: int| 0 <= a < i && 0 <= b < ps[a].len() ==> ps[a][b] != 2004,
                    decreases params@.len() - i,
                {
                    let p = &params[i];
                    assert(p@ == ps[i as int]);
                    let mut j: usize = 0;
                    while j < p.len()
                        invariant
                            ps == params_view(params@),
                            i < params@.len(),
                            p@ == ps[i as int],
                            j <= p@.len(),
                            found ==> mentions(ps, 2004),
                            !found ==> forall|a: int, b: int| 0 <= a < i && 0 <= b < ps[a].len() ==> ps[a][b] != 2004,
                            !found ==> forall|b: int| 0 <= b < j ==> ps[i as int][b] != 2004,
                        decreases p@.len() - j,
                    {
                        if p[j] == 2004 {
                            found = true;
                        }
                        j += 1;
                    }
                    i += 1;
                }
                if found {
                    self.bracketed_paste = Some(c == 'h');
                }
            }
            return;
        }
        proof {
            if intermediates@ == seq![0x3fu8] {
                assert(intermediates@.len() == 1);
            }
        }
        let first = if params.len() > 0 && params[0].len() > 0 { Some(params[0][0]) } else { None };
        let second = if params.len() > 1 && params[1].len() > 0 { Some(params[1][0]) } else { None };
        proof {
            if params@.len() > 0 {
                assert(params@[0]@ == ps[0]);
            }
            if params@.len() > 1 {
                assert(params@[1]@ == ps[1]);
            }
        }
        let zero_default: u16 = match first {
            Some(n) => n,
            None => 0,
        };
        let one_default: usize = match first {
            Some(n) => n as usize,
            None => 1,
        };
        let count: usize = match first {
            Some(n) => if n == 0 { 1 } else { n as usize },
            None => 1,
        };
        if c == 'J' {
            g.erase_in_display(zero_default);
        } else if c == 'K' {
            g.erase_in_line(zero_default);
        } else if c == 'H' || c == 'f' {
            let col: usize = match second {
                Some(n) => n as usize,
                None => 1,
            };
            g.cursor_position(one_default, col);
        } else if c == 'A' {
            g.cursor_up(count);
        } else if c == 'B' {
            g.cursor_down(count);
        } else if c == 'C' {
            g.cursor_forward(count);
        } else if c == 'D' {
            g.cursor_back(count);
        } else if c == 'm' {
            g.apply_sgr(params);
        }
    }

    /// Carries out one action; see `perform`.
    pub fn perform(&mut self, g: &mut Grid, a: &Action)
        requires
            old(g)@.wf(),
        ensures
            (final(g)@, final(self).bracketed_paste) == perform(old(g)@, old(self).bracketed_paste, a@),
            final(g)@.wf(),
    {
        match a {
            Action::Print(c) => self.print(g, *c),
            Action::Execute(b) => self.execute(g, *b),
            Action::Csi { params, intermediates, action } => self.csi_dispatch(g, params, intermediates, *action),
        }
    }

    /// Carries out the actions in order; see `perform_all`.
    pub fn perform_all(&mut self, g: &mut Grid, actions: &Vec<Action>)
        requires
            old(g)@.wf(),
        ensures
            (final(g)@, final(self).bracketed_paste) == perform_all(
                old(g)@,
                old(self).bracketed_paste,
                actions@.map_values(|a: Action| a@),
            ),
            final(g)@.wf(),
    {
        let ghost acts = actions@.map_values(|a: Action| a@);
        let mut i: usize = 0;
        while i < actions.len()
            invariant
                acts == actions@.map_values(|a: Action| a@),
                i <= actions@.len(),
                g@.wf(),
                (g@, self.bracketed_paste) == perform_all(old(g)@, old(self).bracketed_paste, acts.take(i as int)),
            decreases actions@.len() - i,
        {
            self.perform(g, &actions[i]);
            assert(acts.take(i + 1).drop_last() =~= acts.take(i as int));
            i += 1;
        }
        assert(acts.take(i as int) =~= acts);
    }
}

/// Decodes `bytes` with `parser` and applies what they hold to `g`, with the
/// bracketed-paste flag `bracketed_paste` (`None`: not tracked); returns the
/// flag afterwards. The grid and the flag end as the actions that the parser
/// emits on `bytes`, applied in order, leave them.
pub fn advance_bytes_with_bracketed(
    parser: &mut VtParser,
    g: &mut Grid,
    bytes: &[u8],
    bracketed_paste: Option<bool>,
) -> (r: Option<bool>)
    requires
        old(g)@.wf(),
    ensures
        (final(g)@, r) == perform_all(old(g)@, bracketed_paste, vt_actions(old(parser).history(), bytes@)),
        final(parser).history() == old(parser).history() + bytes@,
        final(g)@.wf(),
{
    let mut performer = Performer { bracketed_paste };
    let ghost fed0 = parser.history();
    let mut i: usize = 0;
    assert(fed0 + bytes@.take(0) =~= fed0);
    while i < bytes.len()
        invariant
            i <= bytes@.len(),
            g@.wf(),
            fed0 == old(parser).history(),
            parser.history() == fed0 + bytes@.take(i as int),
            (g@, performer.bracketed_paste) == perform_all(
                old(g)@,
                bracketed_paste,
                vt_actions(fed0, bytes@.take(i as int)),
            ),
        decreases bytes@.len() - i,
    {
        let ghost acts = vt_actions(fed0, bytes@.take(i as int));
        let actions = parser.step(bytes[i]);
        performer.perform_all(g, &actions);
        proof {
            let more = actions_view(actions@);
            lemma_perform_all_append(old(g)@, bracketed_paste, acts, more);
            let next = bytes@.take(i + 1);
            assert(next.drop_last() =~= bytes@.take(i as int));
            assert(parser.history() =~= fed0 + next);
        }
        i += 1;
    }
    assert(bytes@.take(i as int) =~= bytes@);
    performer.bracketed_paste
}

/// Decodes `bytes` with `parser` and applies what they hold to `g`;
/// bracketed paste is not tracked.
pub fn advance_bytes(parser: &mut VtParser, g: &mut Grid, bytes: &[u8])
    requires
        old(g)@.wf(),
    ensures
        final(g)@ == perform_all(old(g)@, None, vt_actions(old(parser).history(), bytes@)).0,
        final(parser).history() == old(parser).history() + bytes@,
        final(g)@.wf(),
{
    advance_bytes_with_bracketed(parser, g, bytes, None);
}

/// Feeding two chunks one after the other decodes as feeding them as one:
/// a sequence split between chunks is not lost.
pub proof fn lemma_chunks_decode_as_one(fed: Seq<u8>, a: Seq<u8>, b: Seq<u8>)
    ensures
        vt_actions(fed, a + b) == vt_actions(fed, a) + vt_actions(fed + a, b),
    decreases b.len(),
{
    if b.len() == 0 {
        assert(a + b =~= a);
        assert(vt_actions(fed, a) + Seq::<ActionView>::empty() =~= vt_actions(fed, a));
    } else {
        let ab = a + b;
        assert(ab.drop_last() =~= a + b.drop_last());
        assert(ab.last() == b.last());
        assert(fed + ab.drop_last() =~= (fed + a) + b.drop_last());
        lemma_chunks_decode_as_one(fed, a, b.drop_last());
        assert(vt_actions(fed, ab) =~= vt_actions(fed, a) + vt_actions(fed + a, b));
    }
}

/// Two chunks fed in turn leave the grid and the flag as the two chunks fed
/// at once.
pub proof fn lemma_split_feed_is_whole_feed(g: GridView, bp: Option<bool>, fed: Seq<u8>, a: Seq<u8>, b: Seq<u8>)
    ensures
        perform_all(g, bp, vt_actions(fed, a + b)) == ({
            let (g1, b1) = perform_all(g, bp, vt_actions(fed, a));
            perform_all(g1, b1, vt_actions(fed + a, b))
        }),
{
    lemma_chunks_decode_as_one(fed, a, b);
    lemma_perform_all_append(g, bp, vt_actions(fed, a), vt_actions(fed + a, b));
}

/// The bytes that paste `data` into the shell: wrapped in `ESC [ 200 ~` and
/// `ESC [ 201 ~` while bracketed paste is on, as they are otherwise.
pub open spec fn pasted(data: Seq<u8>, bracketed: bool) -> Seq<u8> {
    if bracketed {
        seq![0x1bu8, 0x5bu8, 0x32u8, 0x30u8, 0x30u8, 0x7eu8] + data + seq![0x1bu8, 0x5bu8, 0x32u8, 0x30u8, 0x31u8, 0x7eu8]
    } else {
        data
    }
}

/// The bytes to send for a paste of `data`; see `pasted`.
pub fn paste_payload(data: &[u8], bracketed: bool) -> (r: Vec<u8>)
    ensures
        r@ == pasted(data@, bracketed),
{
    let mut r: Vec<u8> = Vec::new();
    if bracketed {
        r = vec![0x1bu8, 0x5bu8, 0x32u8, 0x30u8, 0x30u8, 0x7eu8];
    }
    let ghost start = r@;
    let mut i: usize = 0;
    while i < data.len()
        invariant
            i <= data@.len(),
            r@ == start + data@.take(i as int),
        decreases data@.len() - i,
    {
        r.push(data[i]);
        i += 1;
        assert(r@ =~= start + data@.take(i as int));
    }
    assert(data@.take(i as int) =~= data@);
    if bracketed {
        let ghost mid = r@;
        r.push(0x1b);
        r.push(0x5b);
        r.push(0x32);
        r.push(0x30);
        r.push(0x31);
        r.push(0x7e);
        assert(r@ =~= mid + seq![0x1bu8, 0x5bu8, 0x32u8, 0x30u8, 0x31u8, 0x7eu8]);
    } else {
        assert(start =~= Seq::<u8>::empty());
        assert(r@ =~= data@);
    }
    r
}

/// Applying two runs of actions one after the other is applying the run of
/// both.
pub proof fn lemma_perform_all_append(g: GridView, bp: Option<bool>, a: Seq<ActionView>, b: Seq<ActionView>)
    ensures
        perform_all(g, bp, a + b) == ({
            let (g1, b1) = perform_all(g, bp, a);
            perform_all(g1, b1, b)
        }),
    decreases b.len(),
{
    if b.len() == 0 {
        assert(a + b =~= a);
    } else {
        assert((a + b).drop_last() =~= a + b.drop_last());
        lemma_perform_all_append(g, bp, a, b.drop_last());
    }
}

} // verus!
