//! The document model: an entry with five ordered text sections, and
//! its canonical textual serialization.

use vstd::prelude::*;
use vstd::string::StrSliceExecFns;
use vstd::string::StringSliceAdditionalSpecFns;

verus! {

/// One of the four fixed, validated sections of an entry. The fifth
/// section (`extra`) is a catch-all and carries no expected label.
#[derive(Clone, Copy, Debug, PartialEq, Eq, Structural)]
pub enum Section {
    Tldr,
    Info,
    CommonUses,
    Resources,
}

/// The expected heading label of a validated section, as bytes.
pub open spec fn label_spec(sec: Section) -> Seq<u8> {
    match sec {
        Section::Tldr => seq!['T' as u8, 'L' as u8, 'D' as u8, 'R' as u8],
        Section::Info => seq!['I' as u8, 'n' as u8, 'f' as u8, 'o' as u8],
        Section::CommonUses => seq![
            'C' as u8, 'o' as u8, 'm' as u8, 'm' as u8, 'o' as u8, 'n' as u8, ' ' as u8, 'U' as u8, 's' as u8, 'e' as u8, 's' as u8,
        ],
        Section::Resources => seq!['R' as u8, 'e' as u8, 's' as u8, 'o' as u8, 'u' as u8, 'r' as u8, 'c' as u8, 'e' as u8, 's' as u8],
    }
}

/// The fixed order in which the validated sections appear.
pub open spec fn section_table() -> Seq<Section> {
    seq![Section::Tldr, Section::Info, Section::CommonUses, Section::Resources]
}

/// Whitespace for the purpose of trimming section bodies.
pub open spec fn is_ws(b: u8) -> bool {
    b == ' ' as u8 || b == '\t' as u8 || b == '\n' as u8 || b == '\r' as u8 || b == 0x0b || b == 0x0c
}

/// The body with all trailing whitespace removed.
pub open spec fn trim_end_spec(s: Seq<u8>) -> Seq<u8>
    decreases s.len(),
{
    if s.len() == 0 {
        s
    } else if is_ws(s.last()) {
        trim_end_spec(s.drop_last())
    } else {
        s
    }
}

/// A reference note for one application: the name it is stored under
/// and five ordered text sections, kept as raw bytes of line-oriented
/// text.
#[derive(Clone, Debug, PartialEq, Eq)]
pub struct Entry {
    pub name: Vec<u8>,
    pub tldr: Vec<u8>,
    pub info: Vec<u8>,
    pub common_uses: Vec<u8>,
    pub resources: Vec<u8>,
    pub extra: Vec<u8>,
}

/// The mathematical model of an [`Entry`]: the same six fields as byte
/// sequences.
#[verifier::ext_equal]
pub struct EntryModel {
    pub name: Seq<u8>,
    pub tldr: Seq<u8>,
    pub info: Seq<u8>,
    pub common_uses: Seq<u8>,
    pub resources: Seq<u8>,
    pub extra: Seq<u8>,
}

impl View for Entry {
    type V = EntryModel;

    open spec fn view(&self) -> EntryModel {
        EntryModel {
            name: self.name@,
            tldr: self.tldr@,
            info: self.info@,
            common_uses: self.common_uses@,
            resources: self.resources@,
            extra: self.extra@,
        }
    }
}

/// The canonical heading line of a validated section:
/// `"# "`, the label, a trailing space, and a line feed.
pub open spec fn heading_line_spec(sec: Section) -> Seq<u8> {
    seq!['#' as u8, ' ' as u8] + label_spec(sec) + seq![' ' as u8, '\n' as u8]
}

/// One canonical block: the heading line, the trimmed body, and the
/// blank separator line.
pub open spec fn block_spec(sec: Section, body: Seq<u8>) -> Seq<u8> {
    heading_line_spec(sec) + trim_end_spec(body) + seq!['\n' as u8, '\n' as u8]
}

/// The canonical textual form of an entry: the four validated blocks
/// in order, then `"# "` followed by the trimmed `extra` section,
/// whose own first line serves as the fifth heading.
pub open spec fn canonical_spec(m: EntryModel) -> Seq<u8> {
    block_spec(Section::Tldr, m.tldr) + block_spec(Section::Info, m.info) + block_spec(
        Section::CommonUses,
        m.common_uses,
    ) + block_spec(Section::Resources, m.resources) + seq!['#' as u8, ' ' as u8] + trim_end_spec(m.extra)
}

/// Trimming a value that does not end in whitespace changes nothing.
pub proof fn lemma_trim_end_no_ws(s: Seq<u8>)
    requires
        s.len() == 0 || !is_ws(s.last()),
    ensures
        trim_end_spec(s) == s,
{
}

/// A whitespace byte appended at the end is trimmed away.
pub proof fn lemma_trim_end_ws_suffix(s: Seq<u8>, b: u8)
    requires
        is_ws(b),
    ensures
        trim_end_spec(s + seq![b]) == trim_end_spec(s),
{
    assert((s + seq![b]).last() == b);
    assert((s + seq![b]).drop_last() =~= s);
}

/// Whether a byte counts as trimmable whitespace.
pub fn is_ws_byte(b: u8) -> (r: bool)
    ensures
        r == is_ws(b),
{
    b == ' ' as u8 || b == '\t' as u8 || b == '\n' as u8 || b == '\r' as u8 || b == 0x0b || b
        == 0x0c
}

/// A fresh copy of `v[lo..hi]`.
pub fn copy_range(v: &Vec<u8>, lo: usize, hi: usize) -> (r: Vec<u8>)
    requires
        lo <= hi <= v@.len(),
    ensures
        r@ == v@.subrange(lo as int, hi as int),
{
    let mut r: Vec<u8> = Vec::new();
    let mut i: usize = lo;
    while i < hi
        invariant
            lo <= i <= hi <= v@.len(),
            r@ == v@.subrange(lo as int, i as int),
        decreases hi - i,
    {
        r.push(v[i]);
        assert(v@.subrange(lo as int, i + 1 as int) =~= v@.subrange(lo as int, i as int) + seq![
            v@[i as int],
        ]);
        i = i + 1;
    }
    r
}

/// A fresh copy of `v[lo..hi]` with trailing whitespace removed.
pub fn trim_copy(v: &Vec<u8>, lo: usize, hi: usize) -> (r: Vec<u8>)
    requires
        lo <= hi <= v@.len(),
    ensures
        r@ == trim_end_spec(v@.subrange(lo as int, hi as int)),
{
    let mut end: usize = hi;
    while end > lo && is_ws_byte(v[end - 1])
        invariant
            lo <= end <= hi <= v@.len(),
            trim_end_spec(v@.subrange(lo as int, hi as int)) == trim_end_spec(
                v@.subrange(lo as int, end as int),
            ),
        decreases end,
    {
        assert(v@.subrange(lo as int, end as int).last() == v@[end - 1]);
        assert(v@.subrange(lo as int, end as int).drop_last() =~= v@.subrange(
            lo as int,
            end - 1,
        ));
        end = end - 1;
    }
    if end > lo {
        assert(v@.subrange(lo as int, end as int).last() == v@[end - 1]);
        assert(trim_end_spec(v@.subrange(lo as int, end as int)) == v@.subrange(
            lo as int,
            end as int,
        ));
    }
    copy_range(v, lo, end)
}

/// A fresh copy of all of `v`.
pub fn clone_bytes(v: &Vec<u8>) -> (r: Vec<u8>)
    ensures
        r@ == v@,
{
    let r = copy_range(v, 0, v.len());
    assert(v@.subrange(0, v@.len() as int) =~= v@);
    r
}

/// `v` with trailing whitespace removed.
pub fn trim_end_bytes(v: &Vec<u8>) -> (r: Vec<u8>)
    ensures
        r@ == trim_end_spec(v@),
{
    let r = trim_copy(v, 0, v.len());
    assert(v@.subrange(0, v@.len() as int) =~= v@);
    r
}

/// Appends a copy of `v` to `out`.
pub fn push_bytes(out: &mut Vec<u8>, v: &Vec<u8>)
    ensures
        final(out)@ == old(out)@ + v@,
{
    let mut i: usize = 0;
    while i < v.len()
        invariant
            i <= v@.len(),
            out@ == old(out)@ + v@.subrange(0, i as int),
        decreases v@.len() - i,
    {
        out.push(v[i]);
        assert(v@.subrange(0, i + 1 as int) =~= v@.subrange(0, i as int) + seq![v@[i as int]]);
        i = i + 1;
    }
    assert(v@.subrange(0, v@.len() as int) =~= v@);
}

/// Appends the expected heading label of `sec` to `out`.
fn push_label(out: &mut Vec<u8>, sec: Section)
    ensures
        final(out)@ == old(out)@ + label_spec(sec),
{
    match sec {
        Section::Tldr => {
            out.push('T' as u8);
            out.push('L' as u8);
            out.push('D' as u8);
            out.push('R' as u8);
            assert(out@ =~= old(out)@ + label_spec(Section::Tldr));
        },
        Section::Info => {
            out.push('I' as u8);
            out.push('n' as u8);
            out.push('f' as u8);
            out.push('o' as u8);
            assert(out@ =~= old(out)@ + label_spec(Section::Info));
        },
        Section::CommonUses => {
            out.push('C' as u8);
            out.push('o' as u8);
            out.push('m' as u8);
            out.push('m' as u8);
            out.push('o' as u8);
            out.push('n' as u8);
            out.push(' ' as u8);
            out.push('U' as u8);
            out.push('s' as u8);
            out.push('e' as u8);
            out.push('s' as u8);
            assert(out@ =~= old(out)@ + label_spec(Section::CommonUses));
        },
        Section::Resources => {
            out.push('R' as u8);
            out.push('e' as u8);
            out.push('s' as u8);
            out.push('o' as u8);
            out.push('u' as u8);
            out.push('r' as u8);
            out.push('c' as u8);
            out.push('e' as u8);
            out.push('s' as u8);
            assert(out@ =~= old(out)@ + label_spec(Section::Resources));
        },
    }
}

/// The expected heading label of `sec` as a fresh vector.
pub fn label_bytes(sec: Section) -> (r: Vec<u8>)
    ensures
        r@ == label_spec(sec),
{
    let mut r: Vec<u8> = Vec::new();
    push_label(&mut r, sec);
    assert(r@ =~= label_spec(sec));
    r
}

/// Appends one canonical block (heading line, trimmed body, blank
/// separator) to `out`.
fn push_block(out: &mut Vec<u8>, sec: Section, body: &Vec<u8>)
    ensures
        final(out)@ == old(out)@ + block_spec(sec, body@),
{
    out.push('#' as u8);
    out.push(' ' as u8);
    push_label(out, sec);
    out.push(' ' as u8);
    out.push('\n' as u8);
    let t = trim_end_bytes(body);
    push_bytes(out, &t);
    out.push('\n' as u8);
    out.push('\n' as u8);
    assert(out@ =~= old(out)@ + block_spec(sec, body@));
}

/// The canonical textual form of `e`, as specified by
/// [`canonical_spec`].
pub fn serialize(e: &Entry) -> (r: Vec<u8>)
    ensures
        r@ == canonical_spec(e@),
{
    let mut out: Vec<u8> = Vec::new();
    push_block(&mut out, Section::Tldr, &e.tldr);
    push_block(&mut out, Section::Info, &e.info);
    push_block(&mut out, Section::CommonUses, &e.common_uses);
    push_block(&mut out, Section::Resources, &e.resources);
    out.push('#' as u8);
    out.push(' ' as u8);
    let t = trim_end_bytes(&e.extra);
    push_bytes(&mut out, &t);
    assert(out@ =~= canonical_spec(e@));
    out
}

impl Entry {
    /// The canonical textual form of this entry, consumed into bytes.
    pub fn into_bytes(self) -> (r: Vec<u8>)
        ensures
            r@ == canonical_spec(self@),
    {
        serialize(&self)
    }
}

impl Default for Entry {
    /// The compiled-in template that seeds a first-time edit.
    fn default() -> (r: Entry)
        ensures
            r.name@ == ("name").spec_bytes(),
            r.tldr@ == ("\n What the application does in one to two sentences").spec_bytes(),
            r.info@ == (
            "More information, generally useful tips and tricks\n- could\n- use\n- a\n- list"
            ).spec_bytes(),
            r.common_uses@ == (
            "\n## All of these can use subheadings\n\n`woman-e <app>`\nexamples with text explaining what they do"
            ).spec_bytes(),
            r.resources@ == ("\nAny links?\nhttps://github.com/woonters/woman").spec_bytes(),
            r.extra@ == (
            "Extra\nAnything can go here, you can even edit the word 'Extra'"
            ).spec_bytes(),
    {
        Entry {
            name: ("name").as_bytes_vec(),
            tldr: ("\n What the application does in one to two sentences").as_bytes_vec(),
            info: (
            "More information, generally useful tips and tricks\n- could\n- use\n- a\n- list"
            ).as_bytes_vec(),
            common_uses: (
            "\n## All of these can use subheadings\n\n`woman-e <app>`\nexamples with text explaining what they do"
            ).as_bytes_vec(),
            resources: ("\nAny links?\nhttps://github.com/woonters/woman").as_bytes_vec(),
            extra: ("Extra\nAnything can go here, you can even edit the word 'Extra'").as_bytes_vec(),
        }
    }
}

} // verus!
