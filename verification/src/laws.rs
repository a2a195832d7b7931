//! The round-trip laws: parsing the canonical form of an entry gives
//! the entry back, and re-serializing it reproduces the bytes.

use vstd::prelude::*;

use crate::entry::EntryModel;
use crate::entry::Section;
use crate::entry::block_spec;
use crate::entry::canonical_spec;
use crate::entry::heading_line_spec;
use crate::entry::is_ws;
use crate::entry::label_spec;
use crate::entry::lemma_trim_end_no_ws;
use crate::entry::lemma_trim_end_ws_suffix;
use crate::entry::section_table;
use crate::entry::trim_end_spec;
use crate::parser::FormatError;
use crate::parser::contains_marker;
use crate::parser::heading_end;
use crate::parser::heading_label;
use crate::parser::heading_matches;
use crate::parser::heading_ok;
use crate::parser::is_line_break;
use crate::parser::is_marker_at;
use crate::parser::is_space_tab;
use crate::parser::lemma_line_break_from_is;
use crate::parser::lemma_marker_from_is;
use crate::parser::lemma_sections_ok;
use crate::parser::lemma_space_tab_end_is;
use crate::parser::line_break_from;
use crate::parser::marker_from;
use crate::parser::multispace_end;
use crate::parser::parse_section_spec;
use crate::parser::parse_sections;
use crate::parser::parse_spec;
use crate::parser::space_tab_end;
use crate::parser::stage_body;
use crate::parser::stage_pos;
use crate::parser::stages_ok;

verus! {

/// An entry round-trips exactly when no section hides a `"# "`
/// marker in its prose and every section already carries no trailing
/// whitespace — the form in which the parser itself always produces
/// entries.
pub open spec fn round_trip_ready(m: EntryModel) -> bool {
    &&& m.tldr == trim_end_spec(m.tldr) && !contains_marker(m.tldr)
    &&& m.info == trim_end_spec(m.info) && !contains_marker(m.info)
    &&& m.common_uses == trim_end_spec(m.common_uses) && !contains_marker(m.common_uses)
    &&& m.resources == trim_end_spec(m.resources) && !contains_marker(m.resources)
    &&& m.extra == trim_end_spec(m.extra) && !contains_marker(m.extra)
}

/// An expected label never holds a space or tab first, whitespace
/// last, or a line break anywhere.
proof fn lemma_label_wf(sec: Section)
    ensures
        1 <= label_spec(sec).len(),
        !is_space_tab(label_spec(sec)[0]),
        !is_ws(label_spec(sec).last()),
        forall|k: int|
            0 <= k < label_spec(sec).len() ==> !is_line_break(#[trigger] label_spec(sec)[k])
                && !is_marker_at(label_spec(sec), k),
{
    match sec {
        Section::Tldr => {
            assert forall|k: int| 0 <= k < label_spec(sec).len() implies !is_line_break(
                #[trigger] label_spec(sec)[k],
            ) && !is_marker_at(label_spec(sec), k) by {}
        },
        Section::Info => {
            assert forall|k: int| 0 <= k < label_spec(sec).len() implies !is_line_break(
                #[trigger] label_spec(sec)[k],
            ) && !is_marker_at(label_spec(sec), k) by {}
        },
        Section::CommonUses => {
            assert forall|k: int| 0 <= k < label_spec(sec).len() implies !is_line_break(
                #[trigger] label_spec(sec)[k],
            ) && !is_marker_at(label_spec(sec), k) by {}
        },
        Section::Resources => {
            assert forall|k: int| 0 <= k < label_spec(sec).len() implies !is_line_break(
                #[trigger] label_spec(sec)[k],
            ) && !is_marker_at(label_spec(sec), k) by {}
        },
    }
}

/// At a position where the input continues with the canonical
/// heading line of `sec`, a marker-free trimmed body, the blank
/// separator, and then another `"# "`, the parse of that one section
/// succeeds and captures exactly that body.
proof fn lemma_parse_section_at(s: Seq<u8>, p: int, sec: Section, body: Seq<u8>, rest: Seq<u8>)
    requires
        0 <= p <= s.len(),
        s.skip(p) =~= heading_line_spec(sec) + body + seq!['\n' as u8, '\n' as u8] + rest,
        body == trim_end_spec(body),
        !contains_marker(body),
        rest.len() >= 2,
        rest[0] == '#' as u8,
        rest[1] == ' ' as u8,
    ensures
        parse_section_spec(s, p, sec) is Ok,
        parse_section_spec(s, p, sec)->Ok_0.0 == body,
        parse_section_spec(s, p, sec)->Ok_0.1 == p + heading_line_spec(sec).len() + body.len()
            + 2,
{
    lemma_label_wf(sec);
    let hl = heading_line_spec(sec);
    let ll = label_spec(sec).len() as int;
    let nn = seq!['\n' as u8, '\n' as u8];
    let cat = hl + body + nn + rest;
    assert(hl.len() == ll + 4);
    assert(s.len() == p + cat.len());

    // Translate positions of `s` into positions of the concatenation.
    assert forall|i: int| 0 <= i < cat.len() implies s[p + i] == #[trigger] cat[i] by {
        assert(s.skip(p)[i] == s[p + i]);
    }
    // The four regions of the concatenation.
    assert(cat[0] == '#' as u8);
    assert(cat[1] == ' ' as u8);
    assert forall|k: int| 0 <= k < ll implies #[trigger] cat[2 + k] == label_spec(sec)[k] by {
        assert(hl[2 + k] == label_spec(sec)[k]);
    }
    assert(cat[2 + ll] == ' ' as u8);
    assert(cat[3 + ll] == '\n' as u8);
    assert forall|k: int| 0 <= k < body.len() implies #[trigger] cat[hl.len() + k]
        == body[k] by {}
    let hb = hl.len() as int + body.len() as int;
    assert(cat[hb] == '\n' as u8);
    assert(cat[hb + 1] == '\n' as u8);
    assert forall|k: int| 0 <= k < rest.len() implies #[trigger] cat[hl.len() + body.len() + 2
        + k] == rest[k] by {}

    // The heading line parses: `#`, one space, the label up to the
    // line feed.
    assert(s[p + 0] == '#' as u8);
    assert(s[p + 1] == ' ' as u8);
    assert(s[p + 2] == cat[2]);
    lemma_space_tab_end_is(s, p + 1, p + 2);
    assert forall|k: int| p + 2 <= k < p + 3 + ll implies !is_line_break(s[k]) by {
        let i = k - p;
        assert(s[p + i] == cat[i]);
        if i < 2 + ll {
            assert(cat[2 + (i - 2)] == label_spec(sec)[i - 2]);
        } else {
            assert(cat[2 + ll] == ' ' as u8);
        }
    }
    assert(s[p + (3 + ll)] == cat[3 + ll]);
    lemma_line_break_from_is(s, p + 2, p + 3 + ll);
    assert(heading_ok(s, p));
    assert(heading_label(s, p) =~= label_spec(sec) + seq![' ' as u8]) by {
        assert forall|j: int| 0 <= j < 1 + ll implies #[trigger] s.subrange(p + 2, p + 3 + ll)[j]
            == (label_spec(sec) + seq![' ' as u8])[j] by {
            assert(s[p + (2 + j)] == cat[2 + j]);
            if j < ll {
                assert(cat[2 + j] == label_spec(sec)[j]);
            }
        }
    }
    lemma_trim_end_ws_suffix(label_spec(sec), ' ' as u8);
    lemma_trim_end_no_ws(label_spec(sec));
    assert(heading_matches(s, p, sec));
    assert(heading_end(s, p) == p + hl.len());

    // The body runs to the first `"# "`, which is the one that opens
    // `rest`.
    let bodyst = p + hl.len() as int;
    let mk = bodyst + body.len() as int + 2;
    assert(s[p + (hb + 2)] == cat[hb + 2]);
    assert(s[p + (hb + 3)] == cat[hb + 3]);
    assert(is_marker_at(s, mk));
    assert forall|k: int| bodyst <= k < mk implies !is_marker_at(s, k) by {
        let j = k - bodyst;
        assert(s[p + (hl.len() + j)] == cat[hl.len() + j]);
        if j < body.len() {
            assert(s[k] == body[j]);
            if j + 1 < body.len() {
                assert(s[p + (hl.len() + j + 1)] == cat[hl.len() + (j + 1)]);
                assert(s[k + 1] == body[j + 1]);
                if is_marker_at(s, k) {
                    assert(is_marker_at(body, j));
                    assert(contains_marker(body));
                }
            } else {
                assert(s[p + hb] == cat[hb]);
                assert(s[k + 1] == '\n' as u8);
            }
        } else {
            assert(s[k] == '\n' as u8);
        }
    }
    lemma_marker_from_is(s, bodyst, mk);
    assert(marker_from(s, bodyst) == mk);

    assert(s.subrange(bodyst, mk) =~= body + nn) by {
        assert forall|j: int| 0 <= j < body.len() + 2 implies s.subrange(bodyst, mk)[j] == (body
            + nn)[j] by {
            assert(s[p + (hl.len() + j)] == cat[hl.len() + j]);
        }
    }
    assert((body + nn) =~= (body + seq!['\n' as u8]) + seq!['\n' as u8]);
    lemma_trim_end_ws_suffix(body + seq!['\n' as u8], '\n' as u8);
    lemma_trim_end_ws_suffix(body, '\n' as u8);
    assert(trim_end_spec(s.subrange(bodyst, mk)) == body);
}

/// Parsing the canonical form of an entry yields that entry back,
/// field by field, provided no section hides a `"# "` marker and
/// every section is already trimmed of trailing whitespace. An entry
/// with an untrimmed section — `tldr` of `"foo "`, say — comes back
/// trimmed instead, which is why the hypothesis is needed.
pub proof fn lemma_round_trip(m: EntryModel)
    requires
        round_trip_ready(m),
    ensures
        parse_spec(canonical_spec(m), m.name) == Ok::<EntryModel, FormatError>(m),
{
    let s = canonical_spec(m);
    let tbl = section_table();
    let nn = seq!['\n' as u8, '\n' as u8];
    let b0 = block_spec(Section::Tldr, m.tldr);
    let b1 = block_spec(Section::Info, m.info);
    let b2 = block_spec(Section::CommonUses, m.common_uses);
    let b3 = block_spec(Section::Resources, m.resources);
    let tail = seq!['#' as u8, ' ' as u8] + m.extra;
    assert(b0 == heading_line_spec(Section::Tldr) + m.tldr + nn);
    assert(b1 == heading_line_spec(Section::Info) + m.info + nn);
    assert(b2 == heading_line_spec(Section::CommonUses) + m.common_uses + nn);
    assert(b3 == heading_line_spec(Section::Resources) + m.resources + nn);
    assert(s =~= b0 + b1 + b2 + b3 + tail);
    let p1 = b0.len() as int;
    let p2 = p1 + b1.len() as int;
    let p3 = p2 + b2.len() as int;
    let p4 = p3 + b3.len() as int;

    assert(tail[0] == '#' as u8 && tail[1] == ' ' as u8);
    let rest0 = b1 + b2 + b3 + tail;
    let rest1 = b2 + b3 + tail;
    let rest2 = b3 + tail;
    assert(rest0[0] == '#' as u8 && rest0[1] == ' ' as u8);
    assert(rest1[0] == '#' as u8 && rest1[1] == ' ' as u8);
    assert(rest2[0] == '#' as u8 && rest2[1] == ' ' as u8);

    assert(s.skip(0) =~= heading_line_spec(Section::Tldr) + m.tldr + nn + rest0);
    lemma_parse_section_at(s, 0, Section::Tldr, m.tldr, rest0);
    assert(parse_section_spec(s, 0, Section::Tldr)->Ok_0.1 == p1);

    assert(s.skip(p1) =~= heading_line_spec(Section::Info) + m.info + nn + rest1);
    lemma_parse_section_at(s, p1, Section::Info, m.info, rest1);
    assert(parse_section_spec(s, p1, Section::Info)->Ok_0.1 == p2);

    assert(s.skip(p2) =~= heading_line_spec(Section::CommonUses) + m.common_uses + nn + rest2);
    lemma_parse_section_at(s, p2, Section::CommonUses, m.common_uses, rest2);
    assert(parse_section_spec(s, p2, Section::CommonUses)->Ok_0.1 == p3);

    assert(s.skip(p3) =~= heading_line_spec(Section::Resources) + m.resources + nn + tail);
    lemma_parse_section_at(s, p3, Section::Resources, m.resources, tail);
    assert(parse_section_spec(s, p3, Section::Resources)->Ok_0.1 == p4);

    // No leading whitespace stands before the first heading.
    assert(s[0] == '#' as u8);
    assert(multispace_end(s, 0) == 0);

    // Chain the four stages.
    assert(stage_pos(s, 0, tbl, 0) == 0 && stages_ok(s, 0, tbl, 0));
    assert(tbl[0] == Section::Tldr);
    assert(stage_pos(s, 0, tbl, 1) == p1 && stages_ok(s, 0, tbl, 1));
    assert(tbl[1] == Section::Info);
    assert(stage_pos(s, 0, tbl, 2) == p2 && stages_ok(s, 0, tbl, 2));
    assert(tbl[2] == Section::CommonUses);
    assert(stage_pos(s, 0, tbl, 3) == p3 && stages_ok(s, 0, tbl, 3));
    assert(tbl[3] == Section::Resources);
    assert(stage_pos(s, 0, tbl, 4) == p4 && stages_ok(s, 0, tbl, 4));
    lemma_sections_ok(s, 0, tbl);
    let sections = parse_sections(s, 0, tbl);
    assert(sections is Ok);
    assert(sections->Ok_0.0[0] == stage_body(s, 0, tbl, 0));
    assert(sections->Ok_0.0[1] == stage_body(s, 0, tbl, 1));
    assert(sections->Ok_0.0[2] == stage_body(s, 0, tbl, 2));
    assert(sections->Ok_0.0[3] == stage_body(s, 0, tbl, 3));
    assert(sections->Ok_0.0[0] == m.tldr);
    assert(sections->Ok_0.0[1] == m.info);
    assert(sections->Ok_0.0[2] == m.common_uses);
    assert(sections->Ok_0.0[3] == m.resources);
    assert(sections->Ok_0.1 == p4);

    // What follows the final marker is exactly the trimmed `extra`.
    assert(s.subrange(p4 + 2, s.len() as int) =~= m.extra) by {
        assert forall|j: int| 0 <= j < m.extra.len() implies s.subrange(
            p4 + 2,
            s.len() as int,
        )[j] == m.extra[j] by {
            assert(s[p4 + 2 + j] == tail[2 + j]);
        }
    }
    assert(parse_spec(s, m.name)->Ok_0 =~= m);
    assert(parse_spec(s, m.name) is Ok);
}

/// Serializing, parsing, and serializing again reproduces the very
/// same bytes: the canonical form is a fixed point of the round
/// trip, under the same hypothesis as [`lemma_round_trip`].
pub proof fn lemma_serialize_idempotent(m: EntryModel)
    requires
        round_trip_ready(m),
    ensures
        canonical_spec(parse_spec(canonical_spec(m), m.name)->Ok_0) == canonical_spec(m),
{
    lemma_round_trip(m);
}

} // verus!
