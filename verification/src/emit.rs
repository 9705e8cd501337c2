//! The directory emitter: renders the two generated artifacts as text.
//!
//! The enumeration artifact lists every building tag as a variant; the table
//! artifact lists one descriptor per beacon record, each entry preceded by
//! the conditional-compilation guard of its tag.  Both render functions walk
//! the grouped directory in group order, so a well-formed (sorted) directory
//! yields the artifacts in lexicographic tag order, and the output is a pure
//! function of the directory's content.

use vstd::prelude::*;
use crate::records::{BeaconModel, GroupedDirectory, TagGroup, models};
use crate::text::{dec_str, push_dec_u16};

verus! {

/// One tag paired with the models of its records.
pub type GroupModel = (Seq<char>, Seq<BeaconModel>);

/// The models of a sequence of groups.
pub open spec fn group_models(gs: Seq<TagGroup>) -> Seq<GroupModel> {
    gs.map_values(|g: TagGroup| (g.tag@, models(g.records@)))
}

/// The fixed head of the enumeration artifact.
pub open spec fn buildings_header() -> Seq<char> {
    "\nuse strum_macros::AsRefStr;\n\n#[derive(Debug, Clone, AsRefStr)]\npub enum Building {\n"@
}

/// The fixed tail of the enumeration artifact.
pub open spec fn buildings_footer() -> Seq<char> {
    "\n}\n\n"@
}

/// One variant line of the enumeration artifact.
pub open spec fn variant_line(t: Seq<char>) -> Seq<char> {
    "    "@ + t + ",\n"@
}

/// The variant lines for a sequence of tags, in order.
pub open spec fn variant_lines(tags: Seq<Seq<char>>) -> Seq<char>
    decreases tags.len(),
{
    if tags.len() == 0 {
        Seq::empty()
    } else {
        variant_lines(tags.drop_last()) + variant_line(tags.last())
    }
}

/// The whole enumeration artifact for a sequence of tags.
pub open spec fn buildings_module(tags: Seq<Seq<char>>) -> Seq<char> {
    buildings_header() + variant_lines(tags) + buildings_footer()
}

/// The fixed head of the table artifact.
pub open spec fn beacons_header() -> Seq<char> {
    "\n\npub static BEACONS: &[Beacon] = &[\n"@
}

/// The fixed tail of the table artifact.
pub open spec fn beacons_footer() -> Seq<char> {
    "];\n"@
}

/// The conditional-compilation guard line naming one tag.
pub open spec fn guard_line(t: Seq<char>) -> Seq<char> {
    "    #[cfg(feature = \""@ + t + "\")]\n"@
}

/// The descriptor text for one beacon record.
pub open spec fn descriptor_text(m: BeaconModel) -> Seq<char> {
    "    Beacon {\n        id: Id { uuid: ETH_UUID, major: "@ + dec_str(m.major as nat)
        + ", minor: "@ + dec_str(m.minor as nat) + " },\n        position: Position { lat: "@
        + m.lat + ", lon: "@ + m.lon + " },\n        location: Location { building: Building::"@
        + m.building + ", floor: \""@ + m.floor + "\", room: \""@ + m.room
        + "\" },\n    },\n\n"@
}

/// One table entry: the guard for the record's tag, then the descriptor.
pub open spec fn entry_text(t: Seq<char>, m: BeaconModel) -> Seq<char> {
    guard_line(t) + descriptor_text(m)
}

/// The entries of one group, in record order, each guarded.
pub open spec fn group_entries(t: Seq<char>, ms: Seq<BeaconModel>) -> Seq<char>
    decreases ms.len(),
{
    if ms.len() == 0 {
        Seq::empty()
    } else {
        group_entries(t, ms.drop_last()) + entry_text(t, ms.last())
    }
}

/// The table body: the entries of every group, in group order.
pub open spec fn table_body(gs: Seq<GroupModel>) -> Seq<char>
    decreases gs.len(),
{
    if gs.len() == 0 {
        Seq::empty()
    } else {
        table_body(gs.drop_last()) + group_entries(gs.last().0, gs.last().1)
    }
}

/// The whole table artifact for a sequence of group models.
pub open spec fn beacons_module(gs: Seq<GroupModel>) -> Seq<char> {
    beacons_header() + table_body(gs) + beacons_footer()
}

/// The flat list of (tag, record) pairs the table renders, in order.
pub open spec fn table_entries(gs: Seq<GroupModel>) -> Seq<(Seq<char>, BeaconModel)>
    decreases gs.len(),
{
    if gs.len() == 0 {
        Seq::empty()
    } else {
        table_entries(gs.drop_last()) + gs.last().1.map_values(
            |m: BeaconModel| (gs.last().0, m),
        )
    }
}

/// The concatenated text of a flat list of guarded entries.
pub open spec fn entries_text(es: Seq<(Seq<char>, BeaconModel)>) -> Seq<char>
    decreases es.len(),
{
    if es.len() == 0 {
        Seq::empty()
    } else {
        entries_text(es.drop_last()) + entry_text(es.last().0, es.last().1)
    }
}

/// Extending the tag prefix by one appends that tag's variant line.
proof fn lemma_variant_lines_take(tags: Seq<Seq<char>>, i: int)
    requires
        0 <= i < tags.len(),
    ensures
        variant_lines(tags.take(i + 1)) == variant_lines(tags.take(i)) + variant_line(tags[i]),
{
    assert(tags.take(i + 1).drop_last() =~= tags.take(i));
    assert(tags.take(i + 1).last() == tags[i]);
}

/// Extending the record prefix by one appends that record's entry.
proof fn lemma_group_entries_take(t: Seq<char>, ms: Seq<BeaconModel>, j: int)
    requires
        0 <= j < ms.len(),
    ensures
        group_entries(t, ms.take(j + 1)) == group_entries(t, ms.take(j)) + entry_text(t, ms[j]),
{
    assert(ms.take(j + 1).drop_last() =~= ms.take(j));
    assert(ms.take(j + 1).last() == ms[j]);
}

/// Extending the group prefix by one appends that group's entries.
proof fn lemma_table_body_take(gs: Seq<GroupModel>, i: int)
    requires
        0 <= i < gs.len(),
    ensures
        table_body(gs.take(i + 1)) == table_body(gs.take(i)) + group_entries(gs[i].0, gs[i].1),
{
    assert(gs.take(i + 1).drop_last() =~= gs.take(i));
    assert(gs.take(i + 1).last() == gs[i]);
}

/// Renders the enumeration artifact: one variant per tag, in group order.
pub fn render_buildings(d: &GroupedDirectory) -> (s: String)
    ensures
        s@ == buildings_module(d.tags()),
{
    let ghost tags = d.tags();
    let mut s = String::new();
    s.append(
        "\nuse strum_macros::AsRefStr;\n\n#[derive(Debug, Clone, AsRefStr)]\npub enum Building {\n",
    );
    proof {
        assert(s@ =~= buildings_header() + variant_lines(tags.take(0)));
    }
    let n = d.groups.len();
    let mut i: usize = 0;
    while i < n
        invariant
            n == d.groups@.len(),
            tags == d.tags(),
            tags.len() == n,
            i <= n,
            s@ == buildings_header() + variant_lines(tags.take(i as int)),
        decreases n - i,
    {
        s.append("    ");
        s.append(d.groups[i].tag.as_str());
        s.append(",\n");
        proof {
            lemma_variant_lines_take(tags, i as int);
            assert(tags[i as int] == d.groups@[i as int].tag@);
            assert(s@ =~= buildings_header() + variant_lines(tags.take(i as int + 1)));
        }
        i += 1;
    }
    s.append("\n}\n\n");
    proof {
        assert(tags.take(n as int) =~= tags);
        assert(s@ =~= buildings_module(tags));
    }
    s
}

/// Renders the table artifact: every record's guarded descriptor, groups in
/// group order, records in input order within a group.
#[verifier::rlimit(50)]
pub fn render_beacons(d: &GroupedDirectory) -> (s: String)
    ensures
        s@ == beacons_module(group_models(d.groups@)),
{
    let ghost gms = group_models(d.groups@);
    let mut s = String::new();
    s.append("\n\npub static BEACONS: &[Beacon] = &[\n");
    proof {
        assert(s@ =~= beacons_header() + table_body(gms.take(0)));
    }
    let n = d.groups.len();
    let mut i: usize = 0;
    while i < n
        invariant
            n == d.groups@.len(),
            gms == group_models(d.groups@),
            gms.len() == n,
            i <= n,
            s@ == beacons_header() + table_body(gms.take(i as int)),
        decreases n - i,
    {
        let g = &d.groups[i];
        let ghost t = g.tag@;
        let ghost ms = models(g.records@);
        proof {
            assert(gms[i as int] == (t, ms));
            assert(s@ =~= beacons_header() + table_body(gms.take(i as int)) + group_entries(
                t,
                ms.take(0),
            ));
        }
        let cnt = g.records.len();
        let mut j: usize = 0;
        while j < cnt
            invariant
                cnt == g.records@.len(),
                ms == models(g.records@),
                ms.len() == cnt,
                t == g.tag@,
                j <= cnt,
                gms == group_models(d.groups@),
                i < gms.len(),
                gms[i as int] == (t, ms),
                s@ == beacons_header() + table_body(gms.take(i as int)) + group_entries(
                    t,
                    ms.take(j as int),
                ),
            decreases cnt - j,
        {
            let r = &g.records[j];
            let ghost m = r@;
            let ghost s0 = s@;
            s.append("    #[cfg(feature = \"");
            s.append(g.tag.as_str());
            s.append("\")]\n");
            proof {
                assert(s@ =~= s0 + guard_line(t));
            }
            let ghost s1 = s@;
            s.append("    Beacon {\n        id: Id { uuid: ETH_UUID, major: ");
            push_dec_u16(&mut s, r.major);
            s.append(", minor: ");
            push_dec_u16(&mut s, r.minor);
            s.append(" },\n        position: Position { lat: ");
            s.append(r.lat.as_str());
            s.append(", lon: ");
            s.append(r.lon.as_str());
            s.append(" },\n        location: Location { building: Building::");
            s.append(r.building.as_str());
            s.append(", floor: \"");
            s.append(r.floor.as_str());
            s.append("\", room: \"");
            s.append(r.room.as_str());
            s.append("\" },\n    },\n\n");
            proof {
                assert(s@ =~= s1 + descriptor_text(m));
                assert(s@ =~= s0 + entry_text(t, m));
                lemma_group_entries_take(t, ms, j as int);
                assert(ms[j as int] == m);
                assert(s@ =~= beacons_header() + table_body(gms.take(i as int)) + group_entries(
                    t,
                    ms.take(j as int + 1),
                ));
            }
            j += 1;
        }
        proof {
            assert(ms.take(cnt as int) =~= ms);
            lemma_table_body_take(gms, i as int);
            assert(s@ =~= beacons_header() + table_body(gms.take(i as int + 1)));
        }
        i += 1;
    }
    s.append("];\n");
    proof {
        assert(gms.take(n as int) =~= gms);
        assert(s@ =~= beacons_module(gms));
    }
    s
}

} // verus!
