//! The interactive viewer's state machine: a scroll offset and an
//! exit flag driven by key presses, and the ordered sequence of
//! styled lines that a terminal front end lays out.
//!
//! The viewer itself performs no terminal work: a front end blocks on
//! the next event, applies exactly one transition through
//! [`App::handle_event`], redraws once from [`render_lines`], and
//! stops as soon as the exit flag is set.

use vstd::prelude::*;

use crate::entry::Entry;
use crate::entry::EntryModel;
use crate::entry::Section;
use crate::entry::clone_bytes;
use crate::entry::copy_range;
use crate::entry::label_bytes;
use crate::entry::label_spec;

verus! {

/// A pressed key, as the viewer understands it.
#[derive(Clone, Copy, Debug, PartialEq, Eq, Structural)]
pub enum KeyCode {
    Char(char),
    Down,
    Up,
    Other,
}

/// A terminal event. Only key presses drive transitions; mouse and
/// resize events are deliberate no-ops.
#[derive(Clone, Copy, Debug, PartialEq, Eq, Structural)]
pub enum Event {
    Key { code: KeyCode, press: bool },
    Mouse,
    Resize,
}

/// The scroll offset after one more step down: saturating, with no
/// upper clamp against the content length.
pub open spec fn sat_inc(x: u16) -> u16 {
    if x == u16::MAX {
        x
    } else {
        (x + 1) as u16
    }
}

/// The scroll offset after one more step up: floored at zero.
pub open spec fn sat_dec(x: u16) -> u16 {
    if x == 0 {
        0u16
    } else {
        (x - 1) as u16
    }
}

/// The transition of one key press: `j` or Down scrolls down, `k` or
/// Up scrolls up, `q` or `Q` exits, anything else changes nothing.
pub open spec fn key_step(scroll: u16, exit: bool, key: KeyCode) -> (u16, bool) {
    match key {
        KeyCode::Char(c) => if c == 'j' {
            (sat_inc(scroll), exit)
        } else if c == 'k' {
            (sat_dec(scroll), exit)
        } else if c == 'q' || c == 'Q' {
            (scroll, true)
        } else {
            (scroll, exit)
        },
        KeyCode::Down => (sat_inc(scroll), exit),
        KeyCode::Up => (sat_dec(scroll), exit),
        KeyCode::Other => (scroll, exit),
    }
}

/// The transition of one event: a key press steps as [`key_step`];
/// a key release, a mouse event or a resize changes nothing.
pub open spec fn event_step(scroll: u16, exit: bool, ev: Event) -> (u16, bool) {
    match ev {
        Event::Key { code, press } => if press {
            key_step(scroll, exit, code)
        } else {
            (scroll, exit)
        },
        Event::Mouse => (scroll, exit),
        Event::Resize => (scroll, exit),
    }
}

/// The state run by the viewer over the entry it displays. Initial
/// state: running, scroll offset zero.
pub struct App<'a> {
    pub entry: &'a Entry,
    pub scroll_state: u16,
    pub exit: bool,
}

impl<'a> App<'a> {
    /// A fresh viewer over `entry`: offset zero, still running.
    pub fn new(entry: &'a Entry) -> (r: Self)
        ensures
            r.entry == entry,
            r.scroll_state == 0,
            !r.exit,
    {
        Self { entry, scroll_state: 0, exit: false }
    }

    /// Applies one key press, exactly as [`key_step`] describes.
    pub fn handle_key_event(&mut self, key: KeyCode)
        ensures
            (final(self).scroll_state, final(self).exit) == key_step(
                old(self).scroll_state,
                old(self).exit,
                key,
            ),
            final(self).entry == old(self).entry,
    {
        match key {
            KeyCode::Char(c) => {
                if c == 'j' {
                    self.scroll_state = self.scroll_state.saturating_add(1);
                } else if c == 'k' {
                    self.scroll_state = self.scroll_state.saturating_sub(1);
                } else if c == 'q' || c == 'Q' {
                    self.exit = true;
                }
            },
            KeyCode::Down => {
                self.scroll_state = self.scroll_state.saturating_add(1);
            },
            KeyCode::Up => {
                self.scroll_state = self.scroll_state.saturating_sub(1);
            },
            KeyCode::Other => {},
        }
    }

    /// Applies one event, exactly as [`event_step`] describes: only
    /// a key press changes the state.
    pub fn handle_event(&mut self, ev: Event)
        ensures
            (final(self).scroll_state, final(self).exit) == event_step(
                old(self).scroll_state,
                old(self).exit,
                ev,
            ),
            final(self).entry == old(self).entry,
    {
        match ev {
            Event::Key { code, press } => {
                if press {
                    self.handle_key_event(code);
                }
            },
            Event::Mouse => {},
            Event::Resize => {},
        }
    }
}

// ---------------------------------------------------------------
// Scrolling laws
// ---------------------------------------------------------------

/// The state after a whole sequence of key presses.
pub open spec fn run_keys(scroll: u16, exit: bool, keys: Seq<KeyCode>) -> (u16, bool)
    decreases keys.len(),
{
    if keys.len() == 0 {
        (scroll, exit)
    } else {
        let st = key_step(scroll, exit, keys[0]);
        run_keys(st.0, st.1, keys.drop_first())
    }
}

/// One step down never lowers the offset; one step up never lowers
/// it below zero and never raises it.
pub proof fn lemma_scroll_step_bounds(scroll: u16, exit: bool, key: KeyCode)
    ensures
        (key == KeyCode::Down || key == KeyCode::Char('j')) ==> key_step(
            scroll,
            exit,
            key,
        ).0 >= scroll,
        (key == KeyCode::Up || key == KeyCode::Char('k')) ==> key_step(scroll, exit, key).0
            <= scroll,
{
}

/// Under repeated Down (or `j`) presses the offset sequence is
/// monotone: it never decreases.
pub proof fn lemma_scroll_down_monotone(scroll: u16, exit: bool, keys: Seq<KeyCode>)
    requires
        forall|i: int|
            0 <= i < keys.len() ==> keys[i] == KeyCode::Down || keys[i] == KeyCode::Char('j'),
    ensures
        run_keys(scroll, exit, keys).0 >= scroll,
    decreases keys.len(),
{
    if keys.len() > 0 {
        let st = key_step(scroll, exit, keys[0]);
        lemma_scroll_down_monotone(st.0, st.1, keys.drop_first());
    }
}

/// Under repeated Up (or `k`) presses from offset zero, the offset
/// stays at zero: it never goes below.
pub proof fn lemma_scroll_up_floor(exit: bool, keys: Seq<KeyCode>)
    requires
        forall|i: int|
            0 <= i < keys.len() ==> keys[i] == KeyCode::Up || keys[i] == KeyCode::Char('k'),
    ensures
        run_keys(0u16, exit, keys).0 == 0,
    decreases keys.len(),
{
    if keys.len() > 0 {
        let st = key_step(0u16, exit, keys[0]);
        lemma_scroll_up_floor(st.1, keys.drop_first());
    }
}

/// The quit key moves any state to the exited state and leaves the
/// offset untouched, whatever its value.
pub proof fn lemma_quit_exits(scroll: u16, exit: bool, c: char)
    requires
        c == 'q' || c == 'Q',
    ensures
        key_step(scroll, exit, KeyCode::Char(c)) == (scroll, true),
{
}

// ---------------------------------------------------------------
// Rendering
// ---------------------------------------------------------------

/// One line of the rendered block: its text, and whether it is drawn
/// as a heading (bold and underlined) or as plain body text.
pub struct StyledLine {
    pub heading: bool,
    pub text: Vec<u8>,
}

impl View for StyledLine {
    type V = (bool, Seq<u8>);

    open spec fn view(&self) -> (bool, Seq<u8>) {
        (self.heading, self.text@)
    }
}

/// The models of a sequence of styled lines.
pub open spec fn styled_views(ls: Seq<StyledLine>) -> Seq<(bool, Seq<u8>)> {
    ls.map_values(|l: StyledLine| l@)
}

/// The first position at or after `from` holding a line feed, or the
/// length of `s`.
pub open spec fn nl_from(s: Seq<u8>, from: int) -> int
    recommends
        0 <= from <= s.len(),
    decreases s.len() - from when 0 <= from <= s.len()
{
    if from >= s.len() {
        from
    } else if s[from] != '\n' as u8 {
        nl_from(s, from + 1)
    } else {
        from
    }
}

/// A scanner never moves backwards nor past the end.
pub proof fn lemma_nl_from_bounds(s: Seq<u8>, from: int)
    requires
        0 <= from <= s.len(),
    ensures
        from <= nl_from(s, from) <= s.len(),
    decreases s.len() - from,
{
    if from < s.len() && s[from] != '\n' as u8 {
        lemma_nl_from_bounds(s, from + 1);
    }
}

/// `nl_from` lands on the first line feed.
pub proof fn lemma_nl_from_is(s: Seq<u8>, from: int, j: int)
    requires
        0 <= from <= j <= s.len(),
        forall|k: int| from <= k < j ==> s[k] != '\n' as u8,
        j < s.len() ==> s[j] == '\n' as u8,
    ensures
        nl_from(s, from) == j,
    decreases j - from,
{
    if from < j {
        lemma_nl_from_is(s, from + 1, j);
    }
}

/// One line of `s` starting at `from` and ending before the line
/// feed at `m`, with a single carriage return before the line feed
/// dropped.
pub open spec fn chomp(s: Seq<u8>, from: int, m: int) -> Seq<u8> {
    if m > from && s[m - 1] == '\r' as u8 {
        s.subrange(from, m - 1)
    } else {
        s.subrange(from, m)
    }
}

/// The lines of `s` from `from` on: split at line feeds, one
/// carriage return dropped before each, the final segment kept only
/// when non-empty.
pub open spec fn split_from(s: Seq<u8>, from: int) -> Seq<Seq<u8>>
    recommends
        0 <= from <= s.len(),
    decreases s.len() - from when 0 <= from <= s.len() via split_from_decreases
{
    if from >= s.len() {
        seq![]
    } else {
        let m = nl_from(s, from);
        if m >= s.len() {
            seq![s.subrange(from, s.len() as int)]
        } else {
            seq![chomp(s, from, m)] + split_from(s, m + 1)
        }
    }
}

#[via_fn]
proof fn split_from_decreases(s: Seq<u8>, from: int) {
    if 0 <= from < s.len() {
        lemma_nl_from_bounds(s, from);
    }
}

/// The lines of a whole body.
pub open spec fn lines_spec(s: Seq<u8>) -> Seq<Seq<u8>> {
    split_from(s, 0)
}

/// The models of a sequence of line vectors.
pub open spec fn line_views(ls: Seq<Vec<u8>>) -> Seq<Seq<u8>> {
    ls.map_values(|l: Vec<u8>| l@)
}

/// Splits a body into its lines, exactly as [`lines_spec`] says.
pub fn split_lines(v: &Vec<u8>) -> (r: Vec<Vec<u8>>)
    ensures
        line_views(r@) == lines_spec(v@),
{
    let mut out: Vec<Vec<u8>> = Vec::new();
    let mut pos: usize = 0;
    while pos < v.len()
        invariant
            pos <= v@.len(),
            lines_spec(v@) == line_views(out@) + split_from(v@, pos as int),
        decreases v@.len() - pos,
    {
        let ghost out0 = out@;
        let ghost pos0 = pos as int;
        let m = scan_nl(v, pos);
        if m == v.len() {
            let line = copy_range(v, pos, m);
            out.push(line);
            pos = m;
            proof {
                assert(split_from(v@, pos0) == seq![v@.subrange(pos0, v@.len() as int)]);
                assert(line_views(out@) =~= line_views(out0) + seq![v@.subrange(
                    pos0,
                    v@.len() as int,
                )]);
                assert(line_views(out0) + split_from(v@, pos0) =~= line_views(out@)
                    + split_from(v@, pos as int));
            }
        } else {
            let line = if m > pos && v[m - 1] == '\r' as u8 {
                copy_range(v, pos, m - 1)
            } else {
                copy_range(v, pos, m)
            };
            out.push(line);
            pos = m + 1;
            proof {
                assert(line@ == chomp(v@, pos0, m as int));
                assert(split_from(v@, pos0) == seq![chomp(v@, pos0, m as int)] + split_from(
                    v@,
                    pos as int,
                ));
                assert(line_views(out@) =~= line_views(out0) + seq![line@]);
                assert(line_views(out0) + split_from(v@, pos0) =~= line_views(out@)
                    + split_from(v@, pos as int));
            }
        }
    }
    proof {
        assert(split_from(v@, pos as int) =~= Seq::<Seq<u8>>::empty());
        assert(line_views(out@) + split_from(v@, pos as int) =~= line_views(out@));
    }
    out
}

/// The first line feed of `v` at or after `from`.
fn scan_nl(v: &Vec<u8>, from: usize) -> (r: usize)
    requires
        from <= v@.len(),
    ensures
        r == nl_from(v@, from as int),
        from <= r <= v@.len(),
{
    let mut i = from;
    while i < v.len() && v[i] != '\n' as u8
        invariant
            from <= i <= v@.len(),
            forall|k: int| from <= k < i ==> v@[k] != '\n' as u8,
        decreases v@.len() - i,
    {
        i = i + 1;
    }
    proof {
        lemma_nl_from_is(v@, from as int, i as int);
    }
    i
}

/// The body lines of one section, in plain style.
pub open spec fn body_lines(s: Seq<u8>) -> Seq<(bool, Seq<u8>)> {
    lines_spec(s).map_values(|l: Seq<u8>| (false, l))
}

/// The rendered form of one validated section: its fixed label as a
/// heading, its body lines, and a blank separator line.
pub open spec fn section_render(sec: Section, body: Seq<u8>) -> Seq<(bool, Seq<u8>)> {
    seq![(true, label_spec(sec))] + body_lines(body) + seq![(false, Seq::<u8>::empty())]
}

/// The heading the `extra` section displays: its own first line, or
/// nothing when it has none — the same duplication the serializer
/// performs.
pub open spec fn extra_heading(extra: Seq<u8>) -> Seq<u8> {
    if lines_spec(extra).len() == 0 {
        Seq::empty()
    } else {
        lines_spec(extra)[0]
    }
}

/// The body lines of the `extra` section: all its lines but the
/// first, which serves as its heading.
pub open spec fn extra_body(extra: Seq<u8>) -> Seq<(bool, Seq<u8>)> {
    if lines_spec(extra).len() == 0 {
        seq![]
    } else {
        body_lines(extra).drop_first()
    }
}

/// The whole rendered block: the five sections in order, each a
/// heading line followed by plain body lines, with one blank
/// separator line after each of the first four.
pub open spec fn render_spec(m: EntryModel) -> Seq<(bool, Seq<u8>)> {
    section_render(Section::Tldr, m.tldr) + section_render(Section::Info, m.info)
        + section_render(Section::CommonUses, m.common_uses) + section_render(
        Section::Resources,
        m.resources,
    ) + seq![(true, extra_heading(m.extra))] + extra_body(m.extra)
}

/// Appends the rendered form of one validated section to `out`.
fn push_section_render(out: &mut Vec<StyledLine>, sec: Section, body: &Vec<u8>)
    ensures
        styled_views(final(out)@) == styled_views(old(out)@) + section_render(sec, body@),
{
    let ghost v0 = styled_views(out@);
    out.push(StyledLine { heading: true, text: label_bytes(sec) });
    assert(styled_views(out@) =~= v0 + seq![(true, label_spec(sec))]);
    let lines = split_lines(body);
    let ghost v1 = styled_views(out@);
    let mut i: usize = 0;
    while i < lines.len()
        invariant
            i <= lines@.len(),
            line_views(lines@) == lines_spec(body@),
            styled_views(out@) =~= v1 + body_lines(body@).take(i as int),
        decreases lines@.len() - i,
    {
        let ghost prev = out@;
        out.push(StyledLine { heading: false, text: clone_bytes(&lines[i]) });
        proof {
            assert(body_lines(body@)[i as int] == (false, lines_spec(body@)[i as int]));
            assert(lines_spec(body@)[i as int] == line_views(lines@)[i as int]);
            assert(styled_views(out@) =~= styled_views(prev) + seq![(
                false,
                lines@[i as int]@,
            )]);
            assert(styled_views(out@) =~= v1 + body_lines(body@).take(i + 1 as int));
        }
        i = i + 1;
    }
    proof {
        assert(body_lines(body@).take(lines@.len() as int) =~= body_lines(body@));
    }
    let ghost prev = out@;
    out.push(StyledLine { heading: false, text: Vec::new() });
    proof {
        assert(styled_views(out@) =~= styled_views(prev) + seq![(false, Seq::<u8>::empty())]);
        assert(styled_views(out@) =~= styled_views(old(out)@) + section_render(sec, body@));
    }
}

/// Builds the ordered sequence of styled lines that displays `e`,
/// exactly as [`render_spec`] says.
pub fn render_lines(e: &Entry) -> (r: Vec<StyledLine>)
    ensures
        styled_views(r@) == render_spec(e@),
{
    let mut out: Vec<StyledLine> = Vec::new();
    push_section_render(&mut out, Section::Tldr, &e.tldr);
    push_section_render(&mut out, Section::Info, &e.info);
    push_section_render(&mut out, Section::CommonUses, &e.common_uses);
    push_section_render(&mut out, Section::Resources, &e.resources);
    let ghost v4 = styled_views(out@);
    let lines = split_lines(&e.extra);
    if lines.len() == 0 {
        out.push(StyledLine { heading: true, text: Vec::new() });
        proof {
            assert(extra_heading(e.extra@) == Seq::<u8>::empty());
            assert(styled_views(out@) =~= v4 + seq![(true, extra_heading(e.extra@))]
                + extra_body(e.extra@));
        }
    } else {
        out.push(StyledLine { heading: true, text: clone_bytes(&lines[0]) });
        assert(styled_views(out@) =~= v4 + seq![(true, extra_heading(e.extra@))]);
        let ghost v5 = styled_views(out@);
        let mut i: usize = 1;
        while i < lines.len()
            invariant
                1 <= i <= lines@.len(),
                line_views(lines@) == lines_spec(e.extra@),
                styled_views(out@) =~= v5 + extra_body(e.extra@).take(i - 1),
            decreases lines@.len() - i,
        {
            let ghost prev = out@;
            out.push(StyledLine { heading: false, text: clone_bytes(&lines[i]) });
            proof {
                assert(extra_body(e.extra@)[i - 1] == body_lines(e.extra@)[i as int]);
                assert(body_lines(e.extra@)[i as int] == (false, lines_spec(e.extra@)[i as int]));
                assert(lines_spec(e.extra@)[i as int] == line_views(lines@)[i as int]);
                assert(styled_views(out@) =~= styled_views(prev) + seq![(
                    false,
                    lines@[i as int]@,
                )]);
                assert(styled_views(out@) =~= v5 + extra_body(e.extra@).take(i as int));
            }
            i = i + 1;
        }
        proof {
            assert(extra_body(e.extra@).take(lines@.len() - 1) =~= extra_body(e.extra@));
        }
    }
    proof {
        assert(styled_views(out@) =~= render_spec(e@));
    }
    out
}

} // verus!
