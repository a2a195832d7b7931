//! The parser: a total conversion of raw edited text into an
//! [`Entry`] or a typed format error.
//!
//! A heading line is `#`, one or more spaces or tabs, a label running
//! to the end of the line, and a line terminator. The parser expects
//! the four validated headings in their fixed order; after each one,
//! the section body runs up to (not including) the next occurrence of
//! the two-byte marker `"# "`. After the fourth body it consumes
//! exactly that marker, and the whole remainder of the input becomes
//! the `extra` section. The marker is a raw two-byte substring: a
//! body that contains `"# "` in its prose is truncated there. That is
//! a known limitation of the format, kept for compatibility.

use vstd::prelude::*;

use crate::entry::Entry;
use crate::entry::EntryModel;
use crate::entry::Section;
use crate::entry::copy_range;
use crate::entry::label_bytes;
use crate::entry::label_spec;
use crate::entry::section_table;
use crate::entry::trim_copy;
use crate::entry::trim_end_bytes;
use crate::entry::trim_end_spec;

verus! {

/// Why a buffer of edited text is not a well-formed entry.
#[derive(Clone, Copy, Debug, PartialEq, Eq, Structural)]
pub enum FormatError {
    /// The heading expected for this section is absent: the text at
    /// this position is not a well-formed heading line, or its
    /// trimmed label is not the expected one.
    MissingHeading(Section),
    /// The search for the `"# "` marker that ends this section's body
    /// reached the end of the input.
    UnterminatedSection(Section),
}

// ---------------------------------------------------------------
// Byte classes and scanners
// ---------------------------------------------------------------

/// A space or a tab: what may separate `#` from the heading label.
pub open spec fn is_space_tab(b: u8) -> bool {
    b == ' ' as u8 || b == '\t' as u8
}

/// Whitespace that may precede the very first heading.
pub open spec fn is_multispace(b: u8) -> bool {
    b == ' ' as u8 || b == '\t' as u8 || b == '\n' as u8 || b == '\r' as u8
}

/// A byte that terminates a heading label.
pub open spec fn is_line_break(b: u8) -> bool {
    b == '\n' as u8 || b == '\r' as u8
}

/// The first position at or after `from` holding a byte that is not
/// leading whitespace, or the length of `s`.
pub open spec fn multispace_end(s: Seq<u8>, from: int) -> int
    recommends
        0 <= from <= s.len(),
    decreases s.len() - from when 0 <= from <= s.len()
{
    if from >= s.len() {
        from
    } else if is_multispace(s[from]) {
        multispace_end(s, from + 1)
    } else {
        from
    }
}

/// The first position at or after `from` holding a byte that is not a
/// space or tab, or the length of `s`.
pub open spec fn space_tab_end(s: Seq<u8>, from: int) -> int
    recommends
        0 <= from <= s.len(),
    decreases s.len() - from when 0 <= from <= s.len()
{
    if from >= s.len() {
        from
    } else if is_space_tab(s[from]) {
        space_tab_end(s, from + 1)
    } else {
        from
    }
}

/// The first position at or after `from` holding a line break, or the
/// length of `s`.
pub open spec fn line_break_from(s: Seq<u8>, from: int) -> int
    recommends
        0 <= from <= s.len(),
    decreases s.len() - from when 0 <= from <= s.len()
{
    if from >= s.len() {
        from
    } else if !is_line_break(s[from]) {
        line_break_from(s, from + 1)
    } else {
        from
    }
}

/// Whether the two-byte section marker `"# "` stands at position `i`.
pub open spec fn is_marker_at(s: Seq<u8>, i: int) -> bool {
    &&& 0 <= i
    &&& i + 1 < s.len()
    &&& s[i] == '#' as u8
    &&& s[i + 1] == ' ' as u8
}

/// The first position at or after `from` where the marker `"# "`
/// stands, or the length of `s` when there is none.
pub open spec fn marker_from(s: Seq<u8>, from: int) -> int
    recommends
        0 <= from <= s.len(),
    decreases s.len() - from when 0 <= from <= s.len()
{
    if from + 1 >= s.len() {
        s.len() as int
    } else if is_marker_at(s, from) {
        from
    } else {
        marker_from(s, from + 1)
    }
}

/// Whether the marker `"# "` occurs anywhere at or after `from`.
pub open spec fn has_marker(s: Seq<u8>, from: int) -> bool {
    marker_from(s, from) < s.len()
}

/// Whether the marker `"# "` occurs anywhere in `s`.
pub open spec fn contains_marker(s: Seq<u8>) -> bool {
    exists|i: int| is_marker_at(s, i)
}

// ---------------------------------------------------------------
// Scanner characterizations
// ---------------------------------------------------------------

/// `multispace_end` lands on the first non-whitespace position.
pub proof fn lemma_multispace_end_is(s: Seq<u8>, from: int, j: int)
    requires
        0 <= from <= j <= s.len(),
        forall|k: int| from <= k < j ==> is_multispace(s[k]),
        j < s.len() ==> !is_multispace(s[j]),
    ensures
        multispace_end(s, from) == j,
    decreases j - from,
{
    if from < j {
        lemma_multispace_end_is(s, from + 1, j);
    }
}

/// `space_tab_end` lands on the first position that is not a space or
/// tab.
pub proof fn lemma_space_tab_end_is(s: Seq<u8>, from: int, j: int)
    requires
        0 <= from <= j <= s.len(),
        forall|k: int| from <= k < j ==> is_space_tab(s[k]),
        j < s.len() ==> !is_space_tab(s[j]),
    ensures
        space_tab_end(s, from) == j,
    decreases j - from,
{
    if from < j {
        lemma_space_tab_end_is(s, from + 1, j);
    }
}

/// `line_break_from` lands on the first line break.
pub proof fn lemma_line_break_from_is(s: Seq<u8>, from: int, j: int)
    requires
        0 <= from <= j <= s.len(),
        forall|k: int| from <= k < j ==> !is_line_break(s[k]),
        j < s.len() ==> is_line_break(s[j]),
    ensures
        line_break_from(s, from) == j,
    decreases j - from,
{
    if from < j {
        lemma_line_break_from_is(s, from + 1, j);
    }
}

/// `marker_from` lands on the first occurrence of the marker.
pub proof fn lemma_marker_from_is(s: Seq<u8>, from: int, j: int)
    requires
        0 <= from <= j <= s.len(),
        forall|k: int| from <= k < j ==> !is_marker_at(s, k),
        j < s.len() ==> is_marker_at(s, j),
    ensures
        marker_from(s, from) == j,
    decreases j - from,
{
    if from < j {
        lemma_marker_from_is(s, from + 1, j);
    } else if j + 1 >= s.len() && j < s.len() {
        assert(!is_marker_at(s, j));
    }
}

/// A scanner never moves backwards nor past the end.
pub proof fn lemma_space_tab_end_bounds(s: Seq<u8>, from: int)
    requires
        0 <= from <= s.len(),
    ensures
        from <= space_tab_end(s, from) <= s.len(),
    decreases s.len() - from,
{
    if from < s.len() && is_space_tab(s[from]) {
        lemma_space_tab_end_bounds(s, from + 1);
    }
}

/// A scanner never moves backwards nor past the end.
pub proof fn lemma_line_break_from_bounds(s: Seq<u8>, from: int)
    requires
        0 <= from <= s.len(),
    ensures
        from <= line_break_from(s, from) <= s.len(),
    decreases s.len() - from,
{
    if from < s.len() && !is_line_break(s[from]) {
        lemma_line_break_from_bounds(s, from + 1);
    }
}

/// A well-formed heading line lies inside the input, and ends after
/// the position where it starts.
pub proof fn lemma_heading_end_bounds(s: Seq<u8>, p: int)
    requires
        heading_ok(s, p),
    ensures
        p + 1 < heading_end(s, p) <= s.len(),
{
    lemma_space_tab_end_bounds(s, p + 1);
    lemma_line_break_from_bounds(s, space_tab_end(s, p + 1));
}

/// Where `marker_from` lands, the marker stands; before it, none
/// does.
pub proof fn lemma_marker_from_props(s: Seq<u8>, from: int)
    requires
        0 <= from <= s.len(),
    ensures
        from <= marker_from(s, from) <= s.len(),
        marker_from(s, from) < s.len() ==> is_marker_at(s, marker_from(s, from)),
        forall|k: int| from <= k < marker_from(s, from) ==> !is_marker_at(s, k),
    decreases s.len() - from,
{
    if from + 1 >= s.len() {
        assert forall|k: int| from <= k < marker_from(s, from) implies !is_marker_at(s, k) by {
            assert(k + 1 >= s.len());
        }
    } else if !is_marker_at(s, from) {
        lemma_marker_from_props(s, from + 1);
    }
}

// ---------------------------------------------------------------
// Executable scanners
// ---------------------------------------------------------------

fn is_multispace_byte(b: u8) -> (r: bool)
    ensures
        r == is_multispace(b),
{
    b == ' ' as u8 || b == '\t' as u8 || b == '\n' as u8 || b == '\r' as u8
}

fn is_space_tab_byte(b: u8) -> (r: bool)
    ensures
        r == is_space_tab(b),
{
    b == ' ' as u8 || b == '\t' as u8
}

fn is_line_break_byte(b: u8) -> (r: bool)
    ensures
        r == is_line_break(b),
{
    b == '\n' as u8 || b == '\r' as u8
}

fn scan_multispace(v: &Vec<u8>, from: usize) -> (r: usize)
    requires
        from <= v@.len(),
    ensures
        r == multispace_end(v@, from as int),
        from <= r <= v@.len(),
{
    let mut i = from;
    while i < v.len() && is_multispace_byte(v[i])
        invariant
            from <= i <= v@.len(),
            forall|k: int| from <= k < i ==> is_multispace(v@[k]),
        decreases v@.len() - i,
    {
        i = i + 1;
    }
    proof {
        lemma_multispace_end_is(v@, from as int, i as int);
    }
    i
}

fn scan_space_tab(v: &Vec<u8>, from: usize) -> (r: usize)
    requires
        from <= v@.len(),
    ensures
        r == space_tab_end(v@, from as int),
        from <= r <= v@.len(),
{
    let mut i = from;
    while i < v.len() && is_space_tab_byte(v[i])
        invariant
            from <= i <= v@.len(),
            forall|k: int| from <= k < i ==> is_space_tab(v@[k]),
        decreases v@.len() - i,
    {
        i = i + 1;
    }
    proof {
        lemma_space_tab_end_is(v@, from as int, i as int);
    }
    i
}

fn scan_line_break(v: &Vec<u8>, from: usize) -> (r: usize)
    requires
        from <= v@.len(),
    ensures
        r == line_break_from(v@, from as int),
        from <= r <= v@.len(),
{
    let mut i = from;
    while i < v.len() && !is_line_break_byte(v[i])
        invariant
            from <= i <= v@.len(),
            forall|k: int| from <= k < i ==> !is_line_break(v@[k]),
        decreases v@.len() - i,
    {
        i = i + 1;
    }
    proof {
        lemma_line_break_from_is(v@, from as int, i as int);
    }
    i
}

/// The position of the next `"# "` marker at or after `from`, or the
/// input length when no marker remains.
pub fn find_marker(v: &Vec<u8>, from: usize) -> (r: usize)
    requires
        from <= v@.len(),
    ensures
        r == marker_from(v@, from as int),
        from <= r <= v@.len(),
{
    let mut i = from;
    while i < v.len() && i + 1 < v.len() && !(v[i] == '#' as u8 && v[i + 1] == ' ' as u8)
        invariant
            from <= i <= v@.len(),
            forall|k: int| from <= k < i ==> !is_marker_at(v@, k),
        decreases v@.len() - i,
    {
        i = i + 1;
    }
    if i < v.len() && i + 1 < v.len() {
        proof {
            lemma_marker_from_is(v@, from as int, i as int);
        }
        i
    } else {
        proof {
            assert forall|k: int| from <= k < v@.len() implies !is_marker_at(v@, k) by {
                if k >= i {
                    assert(k + 1 >= v@.len());
                }
            }
            lemma_marker_from_is(v@, from as int, v@.len() as int);
        }
        v.len()
    }
}

// ---------------------------------------------------------------
// Headings
// ---------------------------------------------------------------

/// Whether a well-formed heading line stands at position `p`: `#`,
/// one or more spaces or tabs, a label running to the line break, and
/// a line feed (a carriage return must be followed by one).
pub open spec fn heading_ok(s: Seq<u8>, p: int) -> bool {
    let q = space_tab_end(s, p + 1);
    let m = line_break_from(s, q);
    &&& 0 <= p < s.len()
    &&& s[p] == '#' as u8
    &&& q > p + 1
    &&& m < s.len()
    &&& (s[m] == '\n' as u8 || (m + 1 < s.len() && s[m + 1] == '\n' as u8))
}

/// The raw label of the heading at `p`: everything between the
/// spaces after `#` and the line break, trailing spaces included.
pub open spec fn heading_label(s: Seq<u8>, p: int) -> Seq<u8> {
    s.subrange(space_tab_end(s, p + 1), line_break_from(s, space_tab_end(s, p + 1)))
}

/// The first position after the heading line at `p`.
pub open spec fn heading_end(s: Seq<u8>, p: int) -> int {
    let m = line_break_from(s, space_tab_end(s, p + 1));
    if s[m] == '\n' as u8 {
        m + 1
    } else {
        m + 2
    }
}

/// Whether the heading at `p` is well formed and its trimmed label is
/// the one expected for `sec`.
pub open spec fn heading_matches(s: Seq<u8>, p: int, sec: Section) -> bool {
    heading_ok(s, p) && trim_end_spec(heading_label(s, p)) == label_spec(sec)
}

/// Reads the heading line at position `p`: its raw label and the
/// position just after its line terminator.
pub fn parse_heading(input: &Vec<u8>, p: usize) -> (r: Option<(Vec<u8>, usize)>)
    requires
        p <= input@.len(),
    ensures
        match r {
            Some(v) => {
                &&& heading_ok(input@, p as int)
                &&& v.0@ == heading_label(input@, p as int)
                &&& v.1 == heading_end(input@, p as int)
                &&& p < v.1 <= input@.len()
            },
            None => !heading_ok(input@, p as int),
        },
{
    if p >= input.len() || input[p] != '#' as u8 {
        return None;
    }
    let q = scan_space_tab(input, p + 1);
    if q == p + 1 {
        return None;
    }
    let m = scan_line_break(input, q);
    if m >= input.len() {
        return None;
    }
    let label = copy_range(input, q, m);
    if input[m] == '\n' as u8 {
        Some((label, m + 1))
    } else if m + 1 < input.len() && input[m + 1] == '\n' as u8 {
        Some((label, m + 2))
    } else {
        None
    }
}

// ---------------------------------------------------------------
// The parse, one section at a time
// ---------------------------------------------------------------

/// One step of the parse: the heading expected for `sec` at position
/// `p`, then the body running to the next `"# "` marker. On success,
/// the trimmed body and the marker position.
pub open spec fn parse_section_spec(s: Seq<u8>, p: int, sec: Section) -> Result<
    (Seq<u8>, int),
    FormatError,
> {
    if !heading_matches(s, p, sec) {
        Err(FormatError::MissingHeading(sec))
    } else if !has_marker(s, heading_end(s, p)) {
        Err(FormatError::UnterminatedSection(sec))
    } else {
        Ok(
            (
                trim_end_spec(s.subrange(heading_end(s, p), marker_from(s, heading_end(s, p)))),
                marker_from(s, heading_end(s, p)),
            ),
        )
    }
}

/// The parse of the sections listed in `secs`, starting at `p`: the
/// trimmed bodies in order and the position of the marker that ended
/// the last one, or the error of the first section that failed.
pub open spec fn parse_sections(s: Seq<u8>, p: int, secs: Seq<Section>) -> Result<
    (Seq<Seq<u8>>, int),
    FormatError,
>
    decreases secs.len(),
{
    if secs.len() == 0 {
        Ok((seq![], p))
    } else {
        match parse_section_spec(s, p, secs[0]) {
            Ok(bq) => match parse_sections(s, bq.1, secs.drop_first()) {
                Ok(rest) => Ok((seq![bq.0] + rest.0, rest.1)),
                Err(e) => Err(e),
            },
            Err(e) => Err(e),
        }
    }
}

/// What parsing a whole buffer yields: leading whitespace is skipped,
/// the four validated sections are read in order, the `"# "` marker
/// after the fourth body is consumed, and the remainder — trimmed
/// only at its very end — becomes `extra`. The entry's name is
/// supplied by the caller, never read from the text.
pub open spec fn parse_spec(s: Seq<u8>, name: Seq<u8>) -> Result<EntryModel, FormatError> {
    match parse_sections(s, multispace_end(s, 0), section_table()) {
        Ok(bp) => Ok(
            EntryModel {
                name: name,
                tldr: bp.0[0],
                info: bp.0[1],
                common_uses: bp.0[2],
                resources: bp.0[3],
                extra: trim_end_spec(s.subrange(bp.1 + 2, s.len() as int)),
            },
        ),
        Err(e) => Err(e),
    }
}

/// The model of a parse result: the entry is replaced by its view.
pub open spec fn result_view(r: Result<Entry, FormatError>) -> Result<EntryModel, FormatError> {
    match r {
        Ok(e) => Ok(e@),
        Err(x) => Err(x),
    }
}

/// Whether the trimmed label equals the one expected for `sec`.
fn label_matches(label: &Vec<u8>, sec: Section) -> (r: bool)
    ensures
        r == (trim_end_spec(label@) == label_spec(sec)),
{
    let t = trim_end_bytes(label);
    let expected = label_bytes(sec);
    bytes_eq(&t, &expected)
}

/// Whether two byte vectors hold the same bytes.
fn bytes_eq(a: &Vec<u8>, b: &Vec<u8>) -> (r: bool)
    ensures
        r == (a@ == b@),
{
    if a.len() != b.len() {
        return false;
    }
    let mut i: usize = 0;
    while i < a.len()
        invariant
            a@.len() == b@.len(),
            i <= a@.len(),
            forall|k: int| 0 <= k < i ==> a@[k] == b@[k],
        decreases a@.len() - i,
    {
        if a[i] != b[i] {
            return false;
        }
        i = i + 1;
    }
    proof {
        assert(a@ =~= b@);
    }
    true
}

/// The executable table of validated sections, in their fixed order.
fn section_table_vec() -> (r: Vec<Section>)
    ensures
        r@ == section_table(),
{
    let mut r: Vec<Section> = Vec::new();
    r.push(Section::Tldr);
    r.push(Section::Info);
    r.push(Section::CommonUses);
    r.push(Section::Resources);
    assert(r@ =~= section_table());
    r
}

// ---------------------------------------------------------------
// Stage bookkeeping: where each section's parse starts, and whether
// every section before it succeeded
// ---------------------------------------------------------------

/// The position at which the parse of section `n` of `secs` starts,
/// assuming all earlier sections succeeded.
pub open spec fn stage_pos(s: Seq<u8>, p: int, secs: Seq<Section>, n: int) -> int
    decreases n when n >= 0
{
    if n <= 0 {
        p
    } else {
        match parse_section_spec(s, stage_pos(s, p, secs, n - 1), secs[n - 1]) {
            Ok(bq) => bq.1,
            Err(_) => stage_pos(s, p, secs, n - 1),
        }
    }
}

/// Whether the first `n` sections of `secs` parse successfully.
pub open spec fn stages_ok(s: Seq<u8>, p: int, secs: Seq<Section>, n: int) -> bool
    decreases n when n >= 0
{
    n <= 0 || (stages_ok(s, p, secs, n - 1) && parse_section_spec(
        s,
        stage_pos(s, p, secs, n - 1),
        secs[n - 1],
    ) is Ok)
}

/// The trimmed body that section `n` contributes when it succeeds.
pub open spec fn stage_body(s: Seq<u8>, p: int, secs: Seq<Section>, n: int) -> Seq<u8> {
    match parse_section_spec(s, stage_pos(s, p, secs, n), secs[n]) {
        Ok(bq) => bq.0,
        Err(_) => Seq::empty(),
    }
}

/// A success of the first `n` sections is a success of any fewer.
pub proof fn lemma_stages_ok_mono(s: Seq<u8>, p: int, secs: Seq<Section>, m: int, n: int)
    requires
        0 <= m <= n,
        stages_ok(s, p, secs, n),
    ensures
        stages_ok(s, p, secs, m),
    decreases n,
{
    if m < n {
        lemma_stages_ok_mono(s, p, secs, m, n - 1);
    }
}

/// Peeling the first successful section shifts the stage bookkeeping
/// onto the remaining table.
proof fn lemma_stage_shift(s: Seq<u8>, p: int, secs: Seq<Section>, n: int)
    requires
        secs.len() > 0,
        1 <= n <= secs.len(),
        parse_section_spec(s, p, secs[0]) is Ok,
    ensures
        stage_pos(s, p, secs, n) == stage_pos(
            s,
            parse_section_spec(s, p, secs[0])->Ok_0.1,
            secs.drop_first(),
            n - 1,
        ),
        stages_ok(s, p, secs, n) == stages_ok(
            s,
            parse_section_spec(s, p, secs[0])->Ok_0.1,
            secs.drop_first(),
            n - 1,
        ),
    decreases n,
{
    let q = parse_section_spec(s, p, secs[0])->Ok_0.1;
    let dp = secs.drop_first();
    if n == 1 {
        assert(stage_pos(s, p, secs, 0) == p);
        assert(stages_ok(s, p, secs, 0));
        assert(stage_pos(s, q, dp, 0) == q);
        assert(stages_ok(s, q, dp, 0));
    } else {
        lemma_stage_shift(s, p, secs, n - 1);
        assert(dp[n - 2] == secs[n - 1]);
    }
}

/// When every section of `secs` succeeds, the parse succeeds, ends at
/// the last stage position, and yields exactly the stage bodies.
pub proof fn lemma_sections_ok(s: Seq<u8>, p: int, secs: Seq<Section>)
    requires
        stages_ok(s, p, secs, secs.len() as int),
    ensures
        parse_sections(s, p, secs) is Ok,
        parse_sections(s, p, secs)->Ok_0.1 == stage_pos(s, p, secs, secs.len() as int),
        parse_sections(s, p, secs)->Ok_0.0.len() == secs.len(),
        forall|i: int|
            0 <= i < secs.len() ==> parse_sections(s, p, secs)->Ok_0.0[i] == stage_body(
                s,
                p,
                secs,
                i,
            ),
    decreases secs.len(),
{
    if secs.len() > 0 {
        lemma_stages_ok_mono(s, p, secs, 1, secs.len() as int);
        let q = parse_section_spec(s, p, secs[0])->Ok_0.1;
        let dp = secs.drop_first();
        lemma_stage_shift(s, p, secs, secs.len() as int);
        lemma_sections_ok(s, q, dp);
        assert forall|i: int| 0 <= i < secs.len() implies parse_sections(s, p, secs)->Ok_0.0[i]
            == stage_body(s, p, secs, i) by {
            if i >= 1 {
                lemma_stage_shift(s, p, secs, i);
                assert(dp[i - 1] == secs[i]);
                assert(parse_sections(s, q, dp)->Ok_0.0[i - 1] == stage_body(s, q, dp, i - 1));
            }
        }
    }
}

/// When some section fails while all before it succeed, the whole
/// parse reports exactly that section's error.
pub proof fn lemma_sections_err(s: Seq<u8>, p: int, secs: Seq<Section>, n: int)
    requires
        0 <= n < secs.len(),
        stages_ok(s, p, secs, n),
        parse_section_spec(s, stage_pos(s, p, secs, n), secs[n]) is Err,
    ensures
        parse_sections(s, p, secs) is Err,
        parse_sections(s, p, secs)->Err_0 == parse_section_spec(
            s,
            stage_pos(s, p, secs, n),
            secs[n],
        )->Err_0,
    decreases n,
{
    if n == 0 {
        assert(parse_section_spec(s, p, secs[0]) is Err);
    } else {
        lemma_stages_ok_mono(s, p, secs, 1, n);
        let q = parse_section_spec(s, p, secs[0])->Ok_0.1;
        let dp = secs.drop_first();
        lemma_stage_shift(s, p, secs, n);
        assert(dp[n - 1] == secs[n]);
        lemma_sections_err(s, q, dp, n - 1);
    }
}

/// A successful parse means every section succeeded.
pub proof fn lemma_sections_stages(s: Seq<u8>, p: int, secs: Seq<Section>)
    requires
        parse_sections(s, p, secs) is Ok,
    ensures
        stages_ok(s, p, secs, secs.len() as int),
    decreases secs.len(),
{
    if secs.len() > 0 {
        let q = parse_section_spec(s, p, secs[0])->Ok_0.1;
        let dp = secs.drop_first();
        lemma_sections_stages(s, q, dp);
        lemma_stage_shift(s, p, secs, secs.len() as int);
    }
}

// ---------------------------------------------------------------
// What the parser reports, and when
// ---------------------------------------------------------------

/// For input whose sections before the `n`th parse cleanly but whose
/// `n`th expected heading is absent — not a well-formed heading line,
/// or a label other than the expected one — the parser reports
/// `MissingHeading` naming exactly that section, never another error.
pub proof fn lemma_missing_heading(s: Seq<u8>, name: Seq<u8>, n: int)
    requires
        0 <= n < 4,
        stages_ok(s, multispace_end(s, 0), section_table(), n),
        !heading_matches(
            s,
            stage_pos(s, multispace_end(s, 0), section_table(), n),
            section_table()[n],
        ),
    ensures
        parse_spec(s, name) == Err::<EntryModel, FormatError>(
            FormatError::MissingHeading(section_table()[n]),
        ),
{
    let p0 = multispace_end(s, 0);
    assert(section_table().len() == 4);
    assert(parse_section_spec(s, stage_pos(s, p0, section_table(), n), section_table()[n])
        == Err::<(Seq<u8>, int), FormatError>(FormatError::MissingHeading(section_table()[n])));
    lemma_sections_err(s, p0, section_table(), n);
}

/// For input whose `n`th expected heading is present but whose body
/// never reaches a terminating `"# "` before the end of the input,
/// the parser reports `UnterminatedSection` naming exactly that
/// section.
pub proof fn lemma_unterminated_section(s: Seq<u8>, name: Seq<u8>, n: int)
    requires
        0 <= n < 4,
        stages_ok(s, multispace_end(s, 0), section_table(), n),
        heading_matches(
            s,
            stage_pos(s, multispace_end(s, 0), section_table(), n),
            section_table()[n],
        ),
        !has_marker(
            s,
            heading_end(s, stage_pos(s, multispace_end(s, 0), section_table(), n)),
        ),
    ensures
        parse_spec(s, name) == Err::<EntryModel, FormatError>(
            FormatError::UnterminatedSection(section_table()[n]),
        ),
{
    let p0 = multispace_end(s, 0);
    assert(section_table().len() == 4);
    assert(parse_section_spec(s, stage_pos(s, p0, section_table(), n), section_table()[n])
        == Err::<(Seq<u8>, int), FormatError>(
        FormatError::UnterminatedSection(section_table()[n]),
    ));
    lemma_sections_err(s, p0, section_table(), n);
}

/// Whenever the parse succeeds, the `"# "` marker that followed the
/// Resources body stands where the last stage ended, and `extra` is
/// the full remainder of the input after those two bytes, trimmed
/// only at its very end.
pub proof fn lemma_extra_is_remainder(s: Seq<u8>, name: Seq<u8>)
    requires
        parse_spec(s, name) is Ok,
    ensures
        is_marker_at(s, stage_pos(s, multispace_end(s, 0), section_table(), 4)),
        parse_spec(s, name)->Ok_0.extra == trim_end_spec(
            s.subrange(
                stage_pos(s, multispace_end(s, 0), section_table(), 4) + 2,
                s.len() as int,
            ),
        ),
{
    let p0 = multispace_end(s, 0);
    assert(parse_sections(s, p0, section_table()) is Ok);
    lemma_sections_stages(s, p0, section_table());
    lemma_sections_ok(s, p0, section_table());
    let p3 = stage_pos(s, p0, section_table(), 3);
    assert(stages_ok(s, p0, section_table(), 4));
    assert(parse_section_spec(s, p3, section_table()[3]) is Ok);
    assert(heading_ok(s, p3));
    lemma_heading_end_bounds(s, p3);
    lemma_marker_from_props(s, heading_end(s, p3));
    assert(stage_pos(s, p0, section_table(), 4) == marker_from(s, heading_end(s, p3)));
}

// ---------------------------------------------------------------
// The executable parser
// ---------------------------------------------------------------

/// Parses a whole buffer of edited text into an entry named
/// `application_name`, or reports which expected section failed and
/// how. Total: no input makes it panic.
pub fn parse_entry(input: &Vec<u8>, application_name: &Vec<u8>) -> (r: Result<Entry, FormatError>)
    ensures
        result_view(r) == parse_spec(input@, application_name@),
{
    let ghost s = input@;
    let table = section_table_vec();
    let mut pos = scan_multispace(input, 0);
    let ghost p0 = pos as int;
    let mut bodies: Vec<Vec<u8>> = Vec::new();
    let mut k: usize = 0;
    while k < 4
        invariant
            s == input@,
            table@ == section_table(),
            k == bodies@.len(),
            k <= 4,
            pos <= s.len(),
            p0 == multispace_end(s, 0),
            stages_ok(s, p0, section_table(), k as int),
            pos == stage_pos(s, p0, section_table(), k as int),
            forall|j: int|
                0 <= j < k ==> bodies@[j]@ == stage_body(s, p0, section_table(), j),
        decreases 4 - k,
    {
        let sec = table[k];
        let ghost stage_start = pos as int;
        match parse_heading(input, pos) {
            None => {
                proof {
                    assert(parse_section_spec(s, stage_start, sec) == Err::<(Seq<u8>, int), FormatError>(
                        FormatError::MissingHeading(sec),
                    ));
                    lemma_sections_err(s, p0, section_table(), k as int);
                }
                return Err(FormatError::MissingHeading(sec));
            },
            Some((label, body_start)) => {
                if !label_matches(&label, sec) {
                    proof {
                        assert(parse_section_spec(s, stage_start, sec) == Err::<
                            (Seq<u8>, int),
                            FormatError,
                        >(FormatError::MissingHeading(sec)));
                        lemma_sections_err(s, p0, section_table(), k as int);
                    }
                    return Err(FormatError::MissingHeading(sec));
                }
                let m = find_marker(input, body_start);
                if m == input.len() {
                    proof {
                        assert(parse_section_spec(s, stage_start, sec) == Err::<
                            (Seq<u8>, int),
                            FormatError,
                        >(FormatError::UnterminatedSection(sec)));
                        lemma_sections_err(s, p0, section_table(), k as int);
                    }
                    return Err(FormatError::UnterminatedSection(sec));
                }
                let body = trim_copy(input, body_start, m);
                bodies.push(body);
                pos = m;
                proof {
                    assert(parse_section_spec(s, stage_start, sec) is Ok);
                    assert(stage_pos(s, p0, section_table(), k + 1) == pos as int);
                    assert(stages_ok(s, p0, section_table(), k + 1));
                    assert(bodies@[k as int]@ == stage_body(s, p0, section_table(), k as int));
                }
                k = k + 1;
            },
        }
    }
    proof {
        lemma_sections_ok(s, p0, section_table());
        let p3 = stage_pos(s, p0, section_table(), 3);
        assert(stages_ok(s, p0, section_table(), 4));
        assert(parse_section_spec(s, p3, section_table()[3]) is Ok);
        assert(heading_ok(s, p3));
        lemma_heading_end_bounds(s, p3);
        lemma_marker_from_props(s, heading_end(s, p3));
        assert(pos as int == marker_from(s, heading_end(s, p3)));
    }
    assert(is_marker_at(s, pos as int));
    let in_len = input.len();
    let extra = trim_copy(input, pos + 2, in_len);
    let ghost bs = bodies@;
    let resources = bodies.pop().unwrap();
    let common_uses = bodies.pop().unwrap();
    let info = bodies.pop().unwrap();
    let tldr = bodies.pop().unwrap();
    let r = Entry {
        name: copy_range(application_name, 0, application_name.len()),
        tldr,
        info,
        common_uses,
        resources,
        extra,
    };
    proof {
        assert(application_name@.subrange(0, application_name@.len() as int)
            =~= application_name@);
        assert(tldr == bs[0] && info == bs[1] && common_uses == bs[2] && resources == bs[3]);
        let sections = parse_sections(s, p0, section_table());
        assert(sections is Ok);
        assert(sections->Ok_0.0[0] == stage_body(s, p0, section_table(), 0));
        assert(sections->Ok_0.0[1] == stage_body(s, p0, section_table(), 1));
        assert(sections->Ok_0.0[2] == stage_body(s, p0, section_table(), 2));
        assert(sections->Ok_0.0[3] == stage_body(s, p0, section_table(), 3));
        assert(sections->Ok_0.1 == stage_pos(s, p0, section_table(), 4));
        assert(bs[0]@ == stage_body(s, p0, section_table(), 0));
        assert(bs[1]@ == stage_body(s, p0, section_table(), 1));
        assert(bs[2]@ == stage_body(s, p0, section_table(), 2));
        assert(bs[3]@ == stage_body(s, p0, section_table(), 3));
        let model = parse_spec(s, application_name@)->Ok_0;
        assert(model.tldr == sections->Ok_0.0[0] && model.info == sections->Ok_0.0[1]
            && model.common_uses == sections->Ok_0.0[2] && model.resources
            == sections->Ok_0.0[3]);
        assert(model.extra == trim_end_spec(s.subrange(pos + 2, s.len() as int)));
        assert(r@ =~= model);
    }
    Ok(r)
}

} // verus!
