//! The laws the directory compiler keeps across runs: canonical, deterministic
//! artifacts; a tag set shared exactly by the enumeration, the table guards
//! and the manifest flags; and every table entry guarded.

use vstd::prelude::*;
use crate::emit::{GroupModel, beacons_footer, beacons_header, beacons_module, buildings_module,
    entries_text, entry_text, group_entries, group_models, table_body, table_entries};
use crate::manifest::features_section;
use crate::records::{BeaconModel, GroupedDirectory, builtin_tag, contains_building};
use crate::text::{lex_lt, lemma_lex_asym, lemma_lex_irrefl};

verus! {

/// Strictly increasing tag order.
pub open spec fn sorted_strict(ts: Seq<Seq<char>>) -> bool {
    forall|i: int, j: int| 0 <= i < j < ts.len() ==> lex_lt(#[trigger] ts[i], #[trigger] ts[j])
}

/// A sequence membership matches the directory's tag membership.
pub proof fn lemma_tags_membership(d: GroupedDirectory)
    ensures
        forall|t: Seq<char>| #[trigger] d.tags().contains(t) <==> d.has_tag(t),
{
    assert forall|t: Seq<char>| #[trigger] d.tags().contains(t) <==> d.has_tag(t) by {
        if d.tags().contains(t) {
            let i = choose|i: int| 0 <= i < d.tags().len() && d.tags()[i] == t;
            assert(d.groups@[i].tag@ == t);
        }
        if d.has_tag(t) {
            let j = choose|j: int|
                0 <= j < d.groups@.len() && (#[trigger] d.groups@[j]).tag@ == t;
            assert(d.tags()[j] == t);
        }
    }
}

/// Two strictly sorted sequences with the same members are equal.
proof fn lemma_sorted_unique(a: Seq<Seq<char>>, b: Seq<Seq<char>>)
    requires
        sorted_strict(a),
        sorted_strict(b),
        forall|t: Seq<char>|
            #![trigger a.contains(t)]
            #![trigger b.contains(t)]
            a.contains(t) <==> b.contains(t),
    ensures
        a == b,
    decreases a.len(),
{
    if a.len() == 0 {
        if b.len() > 0 {
            assert(b.contains(b[0]));
            assert(a.contains(b[0]));
            assert(false);
        }
        assert(a =~= b);
    } else {
        assert(a.contains(a[0]));
        assert(b.contains(a[0]));
        let i = choose|i: int| 0 <= i < b.len() && b[i] == a[0];
        assert(a.contains(b[0]));
        let j = choose|j: int| 0 <= j < a.len() && a[j] == b[0];
        if a[0] != b[0] {
            assert(i != 0 && j != 0);
            assert(lex_lt(b[0], b[i]));
            assert(lex_lt(a[0], a[j]));
            lemma_lex_asym(a[0], b[0]);
            assert(false);
        }
        let a1 = a.drop_first();
        let b1 = b.drop_first();
        assert forall|t: Seq<char>|
            #![trigger a1.contains(t)]
            #![trigger b1.contains(t)]
            a1.contains(t) <==> b1.contains(t) by {
            if a1.contains(t) {
                let k = choose|k: int| 0 <= k < a1.len() && a1[k] == t;
                assert(a[k + 1] == t);
                assert(a.contains(t));
                assert(lex_lt(a[0], t));
                lemma_lex_irrefl(t);
                assert(b.contains(t));
                let k2 = choose|k2: int| 0 <= k2 < b.len() && b[k2] == t;
                assert(k2 != 0);
                assert(b1[k2 - 1] == t);
                assert(b1.contains(t));
            }
            if b1.contains(t) {
                let k = choose|k: int| 0 <= k < b1.len() && b1[k] == t;
                assert(b[k + 1] == t);
                assert(b.contains(t));
                assert(lex_lt(b[0], t));
                lemma_lex_irrefl(t);
                assert(a.contains(t));
                let k2 = choose|k2: int| 0 <= k2 < a.len() && a[k2] == t;
                assert(k2 != 0);
                assert(a1[k2 - 1] == t);
                assert(a1.contains(t));
            }
        }
        lemma_sorted_unique(a1, b1);
        assert(a.len() == b.len());
        assert forall|k: int| 0 <= k < a.len() implies a[k] == b[k] by {
            if k > 0 {
                assert(a1[k - 1] == a[k]);
                assert(b1[k - 1] == b[k]);
                assert(a1[k - 1] == b1[k - 1]);
            }
        }
        assert(a =~= b);
    }
}

/// Determinism of the emitted artifacts: two well-formed directories with
/// the same tags and the same records per tag render byte-identical
/// enumeration, table and feature-list texts.  The sorted, duplicate-free
/// group order makes the directory a canonical form, so the artifacts depend
/// on the directory's content alone.
pub proof fn lemma_artifacts_deterministic(d1: GroupedDirectory, d2: GroupedDirectory)
    requires
        d1.wf(),
        d2.wf(),
        forall|t: Seq<char>|
            #![trigger d1.has_tag(t)]
            #![trigger d2.has_tag(t)]
            d1.has_tag(t) <==> d2.has_tag(t),
        forall|t: Seq<char>| #[trigger] d1.has_tag(t) ==> d1.records_of(t) == d2.records_of(t),
    ensures
        d1.tags() == d2.tags(),
        group_models(d1.groups@) == group_models(d2.groups@),
        buildings_module(d1.tags()) == buildings_module(d2.tags()),
        beacons_module(group_models(d1.groups@)) == beacons_module(group_models(d2.groups@)),
        features_section(d1.tags()) == features_section(d2.tags()),
{
    assert(sorted_strict(d1.tags())) by {
        assert forall|i: int, j: int| 0 <= i < j < d1.tags().len() implies lex_lt(
            #[trigger] d1.tags()[i],
            #[trigger] d1.tags()[j],
        ) by {
            assert(d1.tags()[i] == d1.groups@[i].tag@);
            assert(d1.tags()[j] == d1.groups@[j].tag@);
        }
    }
    assert(sorted_strict(d2.tags())) by {
        assert forall|i: int, j: int| 0 <= i < j < d2.tags().len() implies lex_lt(
            #[trigger] d2.tags()[i],
            #[trigger] d2.tags()[j],
        ) by {
            assert(d2.tags()[i] == d2.groups@[i].tag@);
            assert(d2.tags()[j] == d2.groups@[j].tag@);
        }
    }
    lemma_tags_membership(d1);
    lemma_tags_membership(d2);
    assert forall|t: Seq<char>|
        #![trigger d1.tags().contains(t)]
        #![trigger d2.tags().contains(t)]
        d1.tags().contains(t) <==> d2.tags().contains(t) by {
        assert(d1.tags().contains(t) <==> d1.has_tag(t));
        assert(d2.tags().contains(t) <==> d2.has_tag(t));
    }
    lemma_sorted_unique(d1.tags(), d2.tags());
    assert(d1.tags().len() == d1.groups@.len());
    assert(d2.tags().len() == d2.groups@.len());
    assert(d1.groups@.len() == d2.groups@.len());
    assert forall|i: int| 0 <= i < d1.groups@.len() implies #[trigger] group_models(d1.groups@)[i]
        == group_models(d2.groups@)[i] by {
        let t = d1.groups@[i].tag@;
        assert(d1.tags()[i] == t);
        assert(d2.tags()[i] == t);
        assert(d2.groups@[i].tag@ == t);
        d1.lemma_records_of(i);
        d2.lemma_records_of(i);
        assert(d1.has_tag(t));
    }
    assert(group_models(d1.groups@) =~= group_models(d2.groups@));
}

/// Tag set completeness: a directory whose tag membership is the distinct
/// upstream building values plus the built-in tag has, as the set of its
/// tags, exactly that set.  The enumeration's variants, the table's guards
/// and the manifest's flags are all drawn from this one tag sequence.
pub proof fn lemma_tag_set_completeness(records: Seq<BeaconModel>, d: GroupedDirectory)
    requires
        forall|t: Seq<char>| #[trigger] d.has_tag(t) <==> (contains_building(records, t) || t
            == builtin_tag()),
    ensures
        d.tags().to_set() == Set::new(
            |t: Seq<char>| contains_building(records, t) || t == builtin_tag(),
        ),
{
    lemma_tags_membership(d);
    assert(d.tags().to_set() =~= Set::new(
        |t: Seq<char>| contains_building(records, t) || t == builtin_tag(),
    ));
}

/// The entry texts distribute over concatenation.
proof fn lemma_entries_text_concat(
    a: Seq<(Seq<char>, BeaconModel)>,
    b: Seq<(Seq<char>, BeaconModel)>,
)
    ensures
        entries_text(a + b) == entries_text(a) + entries_text(b),
    decreases b.len(),
{
    if b.len() == 0 {
        assert(a + b =~= a);
        assert(entries_text(a) + entries_text(b) =~= entries_text(a));
    } else {
        assert((a + b).drop_last() =~= a + b.drop_last());
        assert((a + b).last() == b.last());
        lemma_entries_text_concat(a, b.drop_last());
        assert(entries_text(a) + entries_text(b.drop_last()) + entry_text(
            b.last().0,
            b.last().1,
        ) =~= entries_text(a) + entries_text(b));
    }
}

/// One group's entries are the entry texts of its records, each paired with
/// the group's tag.
proof fn lemma_group_entries_as_entries(t: Seq<char>, ms: Seq<BeaconModel>)
    ensures
        group_entries(t, ms) == entries_text(ms.map_values(|m: BeaconModel| (t, m))),
    decreases ms.len(),
{
    let es = ms.map_values(|m: BeaconModel| (t, m));
    if ms.len() == 0 {
        assert(es =~= Seq::<(Seq<char>, BeaconModel)>::empty());
    } else {
        lemma_group_entries_as_entries(t, ms.drop_last());
        assert(es.drop_last() =~= ms.drop_last().map_values(|m: BeaconModel| (t, m)));
        assert(es.last() == (t, ms.last()));
    }
}

/// The table body is the concatenation of the flat entry list's texts, and
/// every entry's tag is a tag of the group sequence.
proof fn lemma_table_structure(gs: Seq<GroupModel>)
    ensures
        table_body(gs) == entries_text(table_entries(gs)),
        forall|k: int|
            0 <= k < table_entries(gs).len() ==> gs.map_values(|g: GroupModel| g.0).contains(
                (#[trigger] table_entries(gs)[k]).0,
            ),
    decreases gs.len(),
{
    if gs.len() == 0 {
    } else {
        lemma_table_structure(gs.drop_last());
        let g = gs.last();
        let mapped = g.1.map_values(|m: BeaconModel| (g.0, m));
        lemma_entries_text_concat(table_entries(gs.drop_last()), mapped);
        lemma_group_entries_as_entries(g.0, g.1);
        assert(table_body(gs) == entries_text(table_entries(gs)));
        let tagseq = gs.map_values(|g2: GroupModel| g2.0);
        let tagseq0 = gs.drop_last().map_values(|g2: GroupModel| g2.0);
        assert forall|k: int| 0 <= k < table_entries(gs).len() implies tagseq.contains(
            (#[trigger] table_entries(gs)[k]).0,
        ) by {
            let pre = table_entries(gs.drop_last());
            if k < pre.len() {
                assert(table_entries(gs)[k] == pre[k]);
                assert(tagseq0.contains(pre[k].0));
                let j = choose|j: int| 0 <= j < tagseq0.len() && tagseq0[j] == pre[k].0;
                assert(tagseq[j] == pre[k].0);
            } else {
                assert(table_entries(gs)[k] == mapped[k - pre.len()]);
                assert(mapped[k - pre.len()].0 == g.0);
                assert(tagseq[gs.len() - 1] == g.0);
            }
        }
    }
}

/// Guard correctness: the rendered table is exactly one guarded descriptor
/// per entry — no descriptor stands without its guard — and every guard
/// names a tag of the directory, the same tags that become the enumeration's
/// variants and the manifest's flags.
pub proof fn lemma_guard_correctness(d: GroupedDirectory)
    ensures
        beacons_module(group_models(d.groups@)) == beacons_header() + entries_text(
            table_entries(group_models(d.groups@)),
        ) + beacons_footer(),
        forall|k: int|
            0 <= k < table_entries(group_models(d.groups@)).len() ==> d.tags().contains(
                (#[trigger] table_entries(group_models(d.groups@))[k]).0,
            ),
{
    let gs = group_models(d.groups@);
    lemma_table_structure(gs);
    assert(gs.map_values(|g: GroupModel| g.0) =~= d.tags());
}

} // verus!
