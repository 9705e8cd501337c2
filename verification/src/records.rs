//! Raw beacon records, the grouped directory, and the grouping transform
//! with its built-in override.
//!
//! A record's coordinates travel as the decimal text received from upstream,
//! so the emitted artifacts reproduce them with no rounding.  The grouped
//! directory keeps its groups sorted strictly by tag, which makes the
//! representation canonical: two directories with the same per-tag contents
//! are the same value, and everything rendered from them is byte-identical.

use vstd::prelude::*;
use crate::text::{lex_lt, str_lt, lemma_lex_connex, lemma_lex_irrefl, lemma_lex_trans,
    tag_views};

verus! {

/// One beacon record as decoded from the upstream inventory payload.
pub struct RawBeacon {
    pub major: u16,
    pub minor: u16,
    pub lat: String,
    pub lon: String,
    pub building: String,
    pub floor: String,
    pub room: String,
}

/// The mathematical shape of a beacon record.
pub ghost struct BeaconModel {
    pub major: u16,
    pub minor: u16,
    pub lat: Seq<char>,
    pub lon: Seq<char>,
    pub building: Seq<char>,
    pub floor: Seq<char>,
    pub room: Seq<char>,
}

impl View for RawBeacon {
    type V = BeaconModel;

    open spec fn view(&self) -> BeaconModel {
        BeaconModel {
            major: self.major,
            minor: self.minor,
            lat: self.lat@,
            lon: self.lon@,
            building: self.building@,
            floor: self.floor@,
            room: self.room@,
        }
    }
}

impl Clone for RawBeacon {
    fn clone(&self) -> (r: Self)
        ensures
            r == *self,
    {
        RawBeacon {
            major: self.major,
            minor: self.minor,
            lat: self.lat.clone(),
            lon: self.lon.clone(),
            building: self.building.clone(),
            floor: self.floor.clone(),
            room: self.room.clone(),
        }
    }
}

/// The models of a sequence of records.
pub open spec fn models(rs: Seq<RawBeacon>) -> Seq<BeaconModel> {
    rs.map_values(|r: RawBeacon| r@)
}

/// Holds when some record in `ms` carries the building tag `t`.
pub open spec fn contains_building(ms: Seq<BeaconModel>, t: Seq<char>) -> bool {
    exists|k: int| 0 <= k < ms.len() && (#[trigger] ms[k]).building == t
}

/// The predicate selecting the records of one building tag.
pub open spec fn with_building(t: Seq<char>) -> spec_fn(BeaconModel) -> bool {
    |m: BeaconModel| m.building == t
}

/// The records of `ms` carrying tag `t`, in their order in `ms`.
pub open spec fn grouped_records(ms: Seq<BeaconModel>, t: Seq<char>) -> Seq<BeaconModel> {
    ms.filter(with_building(t))
}

/// Appending one element extends a filtered sequence by that element exactly
/// when the predicate accepts it.
proof fn lemma_filter_push<A>(s: Seq<A>, pred: spec_fn(A) -> bool, x: A)
    ensures
        s.push(x).filter(pred) == if pred(x) {
            s.filter(pred).push(x)
        } else {
            s.filter(pred)
        },
{
    reveal(Seq::filter);
    assert(s.push(x).drop_last() =~= s);
    assert(s.push(x).last() == x);
}

/// A filter that accepts no element yields the empty sequence.
proof fn lemma_filter_none<A>(s: Seq<A>, pred: spec_fn(A) -> bool)
    requires
        forall|i: int| 0 <= i < s.len() ==> !pred(#[trigger] s[i]),
    ensures
        s.filter(pred) == Seq::<A>::empty(),
    decreases s.len(),
{
    reveal(Seq::filter);
    if s.len() > 0 {
        assert(!pred(s[s.len() - 1]));
        lemma_filter_none(s.drop_last(), pred);
    } else {
        assert(s =~= Seq::<A>::empty());
    }
}

/// One tag's group: the tag and its records in input order.
pub struct TagGroup {
    pub tag: String,
    pub records: Vec<RawBeacon>,
}

/// Holds when some group in `gs` carries the tag `t`.
pub open spec fn groups_contain(gs: Seq<TagGroup>, t: Seq<char>) -> bool {
    exists|j: int| 0 <= j < gs.len() && (#[trigger] gs[j]).tag@ == t
}

/// The grouped directory: building tag to records, groups sorted strictly by
/// tag.
pub struct GroupedDirectory {
    pub groups: Vec<TagGroup>,
}

impl GroupedDirectory {
    /// The tags of the directory, in group order.
    pub open spec fn tags(self) -> Seq<Seq<char>> {
        self.groups@.map_values(|g: TagGroup| g.tag@)
    }

    /// Well-formed: the groups stand in strictly increasing tag order, so
    /// each tag occurs at most once.
    pub open spec fn wf(self) -> bool {
        forall|i: int, j: int|
            0 <= i < j < self.groups@.len() ==> lex_lt(
                (#[trigger] self.groups@[i]).tag@,
                (#[trigger] self.groups@[j]).tag@,
            )
    }

    /// Whether the directory has a group for tag `t`.
    pub open spec fn has_tag(self, t: Seq<char>) -> bool {
        groups_contain(self.groups@, t)
    }

    /// The index of the group with tag `t`, where one exists.
    pub open spec fn index_of_tag(self, t: Seq<char>) -> int {
        choose|j: int| 0 <= j < self.groups@.len() && (#[trigger] self.groups@[j]).tag@ == t
    }

    /// The records of the group with tag `t`.
    pub open spec fn records_of(self, t: Seq<char>) -> Seq<BeaconModel> {
        models(self.groups@[self.index_of_tag(t)].records@)
    }

    /// The directory's tags as strings, in group order: sorted, for a
    /// well-formed directory, and ready for the manifest synchronizer and
    /// the run's diagnostics.
    pub fn tag_strings(&self) -> (v: Vec<String>)
        ensures
            tag_views(v@) == self.tags(),
    {
        let mut v: Vec<String> = Vec::new();
        let n = self.groups.len();
        let mut i: usize = 0;
        proof {
            assert(tag_views(v@) =~= self.tags().take(0));
        }
        while i < n
            invariant
                i <= n,
                n == self.groups@.len(),
                tag_views(v@) == self.tags().take(i as int),
            decreases n - i,
        {
            let ghost v0 = v@;
            v.push(self.groups[i].tag.clone());
            proof {
                assert(v0.len() == tag_views(v0).len());
                assert(v0.len() == i);
                assert(v@ =~= v0.push(self.groups@[i as int].tag));
                assert(v@[i as int]@ == self.tags()[i as int]);
                assert forall|k: int| 0 <= k < i implies #[trigger] tag_views(v@)[k] == tag_views(
                    v0,
                )[k] by {
                    assert(v@[k] == v0[k]);
                }
                assert(tag_views(v@) =~= self.tags().take(i as int + 1));
            }
            i += 1;
        }
        proof {
            assert(self.tags().take(n as int) =~= self.tags());
        }
        v
    }

    /// In a well-formed directory, any group carrying tag `t` holds exactly
    /// `records_of(t)`.
    pub proof fn lemma_records_of(self, j: int)
        requires
            self.wf(),
            0 <= j < self.groups@.len(),
        ensures
            self.has_tag(self.groups@[j].tag@),
            self.records_of(self.groups@[j].tag@) == models(self.groups@[j].records@),
    {
        let t = self.groups@[j].tag@;
        assert(groups_contain(self.groups@, t));
        let i = self.index_of_tag(t);
        assert(0 <= i < self.groups@.len() && self.groups@[i].tag@ == t);
        if i != j {
            if i < j {
                assert(lex_lt(self.groups@[i].tag@, self.groups@[j].tag@));
            } else {
                assert(lex_lt(self.groups@[j].tag@, self.groups@[i].tag@));
            }
            lemma_lex_irrefl(t);
        }
    }
}

/// Finds the first position whose tag is not below `tag`.
fn find_slot(groups: &Vec<TagGroup>, tag: &str) -> (p: usize)
    ensures
        p <= groups@.len(),
        forall|i: int| 0 <= i < p ==> lex_lt((#[trigger] groups@[i]).tag@, tag@),
        p < groups@.len() ==> !lex_lt(groups@[p as int].tag@, tag@),
{
    let mut p: usize = 0;
    while p < groups.len()
        invariant
            p <= groups@.len(),
            forall|i: int| 0 <= i < p ==> lex_lt((#[trigger] groups@[i]).tag@, tag@),
        decreases groups@.len() - p,
    {
        if !str_lt(groups[p].tag.as_str(), tag) {
            return p;
        }
        p += 1;
    }
    p
}

/// The upstream payload: the decoded sequence of raw beacon records.
pub struct BeaconResponse {
    pub beacons: Vec<RawBeacon>,
}

impl BeaconResponse {
    /// Partitions the records by their own `building` field.  Every record
    /// lands in exactly one group, keyed by its tag, in input order; the
    /// groups come out sorted strictly by tag.
    pub fn get_beacons(self) -> (r: GroupedDirectory)
        ensures
            r.wf(),
            forall|t: Seq<char>| #[trigger] r.has_tag(t) <==> contains_building(
                models(self.beacons@),
                t,
            ),
            forall|t: Seq<char>| #[trigger] r.has_tag(t) ==> r.records_of(t) == grouped_records(
                models(self.beacons@),
                t,
            ),
    {
        let ghost input = self.beacons@;
        let n = self.beacons.len();
        let mut groups: Vec<TagGroup> = Vec::new();
        let mut k: usize = 0;
        while k < n
            invariant
                n == input.len(),
                self.beacons@ == input,
                k <= n,
                forall|i: int, j: int|
                    0 <= i < j < groups@.len() ==> lex_lt(
                        (#[trigger] groups@[i]).tag@,
                        (#[trigger] groups@[j]).tag@,
                    ),
                forall|j: int|
                    0 <= j < groups@.len() ==> contains_building(
                        models(input.take(k as int)),
                        (#[trigger] groups@[j]).tag@,
                    ),
                forall|i: int|
                    0 <= i < k ==> groups_contain(groups@, (#[trigger] input[i])@.building),
                forall|j: int|
                    0 <= j < groups@.len() ==> models((#[trigger] groups@[j]).records@)
                        == grouped_records(models(input.take(k as int)), groups@[j].tag@),
            decreases n - k,
        {
            let rec = self.beacons[k].clone();
            let ghost m = rec@;
            let ghost pre = models(input.take(k as int));
            let ghost post = models(input.take(k as int + 1));
            proof {
                assert(input.take(k as int + 1) =~= input.take(k as int).push(input[k as int]));
                assert(post =~= pre.push(m));
                assert forall|t: Seq<char>| t != m.building implies #[trigger] grouped_records(
                    post,
                    t,
                ) == grouped_records(pre, t) by {
                    lemma_filter_push(pre, with_building(t), m);
                }
                lemma_filter_push(pre, with_building(m.building), m);
                assert(grouped_records(post, m.building) == grouped_records(
                    pre,
                    m.building,
                ).push(m));
            }
            let p = find_slot(&groups, rec.building.as_str());
            let mut matched = false;
            if p < groups.len() {
                if groups[p].tag == rec.building {
                    matched = true;
                }
            }
            let ghost old_groups = groups@;
            if matched {
                let mut g = groups.remove(p);
                g.records.push(rec);
                let ghost gprime = g;
                groups.insert(p, g);
                proof {
                    assert(groups@ =~= old_groups.update(p as int, gprime));
                    assert(gprime.tag@ == m.building);
                    assert(models(gprime.records@) =~= models(
                        old_groups[p as int].records@,
                    ).push(m));
                    assert forall|j: int|
                        0 <= j < old_groups.len() && j != p implies (
                    #[trigger] old_groups[j]).tag@ != m.building by {
                        if j < p as int {
                            if old_groups[j].tag@ == m.building {
                                lemma_lex_irrefl(m.building);
                            }
                        } else {
                            if old_groups[j].tag@ == m.building {
                                assert(lex_lt(old_groups[p as int].tag@, old_groups[j].tag@));
                                lemma_lex_irrefl(m.building);
                            }
                        }
                    }
                    assert forall|j: int| 0 <= j < groups@.len() implies models(
                        (#[trigger] groups@[j]).records@,
                    ) == grouped_records(post, groups@[j].tag@) by {
                        if j == p as int {
                            assert(models(groups@[j].records@) == grouped_records(
                                pre,
                                m.building,
                            ).push(m));
                        } else {
                            assert(groups@[j] == old_groups[j]);
                        }
                    }
                    assert forall|j: int| 0 <= j < groups@.len() implies contains_building(
                        post,
                        (#[trigger] groups@[j]).tag@,
                    ) by {
                        if j == p as int {
                            assert(post[pre.len() as int].building == m.building);
                        } else {
                            let t = old_groups[j].tag@;
                            assert(contains_building(pre, t));
                            let i = choose|i: int|
                                0 <= i < pre.len() && (#[trigger] pre[i]).building == t;
                            assert(post[i].building == t);
                        }
                    }
                    assert forall|i: int| 0 <= i < k + 1 implies groups_contain(
                        groups@,
                        (#[trigger] input[i])@.building,
                    ) by {
                        if i < k {
                            let t = input[i]@.building;
                            assert(groups_contain(old_groups, t));
                            let j = choose|j: int|
                                0 <= j < old_groups.len() && (#[trigger] old_groups[j]).tag@ == t;
                            assert((groups@[j]).tag@ == t);
                        } else {
                            assert((groups@[p as int]).tag@ == m.building);
                        }
                    }
                }
            } else {
                let tag_copy = rec.building.clone();
                let mut recs: Vec<RawBeacon> = Vec::new();
                recs.push(rec);
                groups.insert(p, TagGroup { tag: tag_copy, records: recs });
                proof {
                    let gnew = groups@[p as int];
                    assert(groups@ == old_groups.insert(p as int, gnew));
                    assert(gnew.tag@ == m.building);
                    assert(models(gnew.records@) =~= seq![m]);
                    assert forall|j: int|
                        0 <= j < groups@.len() && j != p implies #[trigger] groups@[j]
                        == old_groups[if j < p { j } else { j - 1 }] by {}
                    // No existing group carries the new record's tag.
                    assert forall|j: int| 0 <= j < old_groups.len() implies (
                    #[trigger] old_groups[j]).tag@ != m.building by {
                        if j < p as int {
                            if old_groups[j].tag@ == m.building {
                                lemma_lex_irrefl(m.building);
                            }
                        } else if j > p as int {
                            if old_groups[j].tag@ == m.building {
                                assert(lex_lt(old_groups[p as int].tag@, old_groups[j].tag@));
                            }
                        }
                    }
                    // The new tag stands strictly below every group at or
                    // after the insertion point.
                    assert forall|j: int| p <= j < old_groups.len() implies lex_lt(
                        m.building,
                        (#[trigger] old_groups[j]).tag@,
                    ) by {
                        lemma_lex_connex_or(old_groups[p as int].tag@, m.building);
                        if j > p as int {
                            lemma_lex_trans(
                                m.building,
                                old_groups[p as int].tag@,
                                old_groups[j].tag@,
                            );
                        }
                    }
                    assert forall|i: int, j: int| 0 <= i < j < groups@.len() implies lex_lt(
                        (#[trigger] groups@[i]).tag@,
                        (#[trigger] groups@[j]).tag@,
                    ) by {
                        if j == p as int {
                            assert(groups@[i] == old_groups[i]);
                        } else if i == p as int {
                            assert(groups@[j] == old_groups[j - 1]);
                        } else if i < p as int && j > p as int {
                            assert(groups@[i] == old_groups[i]);
                            assert(groups@[j] == old_groups[j - 1]);
                            if i < j - 1 {
                            } else {
                                assert(i == j - 1);
                                assert((p as int) < j);
                                assert(false);
                            }
                        }
                    }
                    // No already-processed record carries the new tag.
                    if contains_building(pre, m.building) {
                        let i = choose|i: int|
                            0 <= i < pre.len() && (#[trigger] pre[i]).building == m.building;
                        assert(pre[i] == input[i]@);
                        assert(groups_contain(old_groups, input[i]@.building));
                        let j = choose|j: int|
                            0 <= j < old_groups.len() && (#[trigger] old_groups[j]).tag@
                                == m.building;
                        assert(false);
                    }
                    lemma_filter_none(pre, with_building(m.building));
                    assert forall|j: int| 0 <= j < groups@.len() implies models(
                        (#[trigger] groups@[j]).records@,
                    ) == grouped_records(post, groups@[j].tag@) by {
                        if j == p as int {
                            assert(grouped_records(post, m.building) =~= seq![m]);
                        } else {
                            let jo = if j < p {
                                j
                            } else {
                                j - 1
                            };
                            assert(groups@[j] == old_groups[jo]);
                            assert(groups@[j].tag@ != m.building);
                        }
                    }
                    assert forall|j: int| 0 <= j < groups@.len() implies contains_building(
                        post,
                        (#[trigger] groups@[j]).tag@,
                    ) by {
                        if j == p as int {
                            assert(post[pre.len() as int].building == m.building);
                        } else {
                            let jo = if j < p {
                                j
                            } else {
                                j - 1
                            };
                            let t = old_groups[jo].tag@;
                            assert(contains_building(pre, t));
                            let i = choose|i: int|
                                0 <= i < pre.len() && (#[trigger] pre[i]).building == t;
                            assert(post[i].building == t);
                        }
                    }
                    assert forall|i: int| 0 <= i < k + 1 implies groups_contain(
                        groups@,
                        (#[trigger] input[i])@.building,
                    ) by {
                        if i < k {
                            let t = input[i]@.building;
                            assert(groups_contain(old_groups, t));
                            let j = choose|j: int|
                                0 <= j < old_groups.len() && (#[trigger] old_groups[j]).tag@ == t;
                            let jn = if j < p {
                                j
                            } else {
                                j + 1
                            };
                            assert((groups@[jn]).tag@ == t);
                        } else {
                            assert((groups@[p as int]).tag@ == m.building);
                        }
                    }
                }
            }
            k += 1;
        }
        proof {
            assert(input.take(n as int) =~= input);
        }
        let r = GroupedDirectory { groups };
        proof {
            assert forall|t: Seq<char>| #[trigger] r.has_tag(t) implies contains_building(
                models(input),
                t,
            ) && r.records_of(t) == grouped_records(models(input), t) by {
                let j = choose|j: int| 0 <= j < r.groups@.len() && (#[trigger] r.groups@[j]).tag@
                    == t;
                r.lemma_records_of(j);
            }
            assert forall|t: Seq<char>| contains_building(models(input), t) implies r.has_tag(
                t,
            ) by {
                let i = choose|i: int| 0 <= i < models(input).len() && (#[trigger] models(
                    input,
                )[i]).building == t;
                assert(input[i]@.building == t);
            }
        }
        r
    }
}

/// Two sequences are ordered one way or the other, or equal.
proof fn lemma_lex_connex_or(a: Seq<char>, b: Seq<char>)
    ensures
        lex_lt(a, b) || lex_lt(b, a) || a == b,
{
    if !lex_lt(a, b) && !lex_lt(b, a) {
        lemma_lex_connex(a, b);
    }
}

/// The one building tag whose group is pinned by the built-in override.
pub open spec fn builtin_tag() -> Seq<char> {
    "SON"@
}

/// The three fixed override descriptors for the built-in tag.
pub open spec fn override_models() -> Seq<BeaconModel> {
    seq![
        BeaconModel {
            major: 99,
            minor: 16,
            lat: "47.539442"@,
            lon: "8.293186"@,
            building: "SON"@,
            floor: "A"@,
            room: "31"@,
        },
        BeaconModel {
            major: 99,
            minor: 17,
            lat: "47.539474"@,
            lon: "8.293205"@,
            building: "SON"@,
            floor: "A"@,
            room: "31"@,
        },
        BeaconModel {
            major: 99,
            minor: 20,
            lat: "47.539487"@,
            lon: "8.293172"@,
            building: "SON"@,
            floor: "A"@,
            room: "31"@,
        },
    ]
}

/// Builds the fixed literal override records for the built-in tag.
pub fn builtin_override_records() -> (v: Vec<RawBeacon>)
    ensures
        models(v@) == override_models(),
{
    let mut v: Vec<RawBeacon> = Vec::new();
    v.push(
        RawBeacon {
            major: 99,
            minor: 16,
            lat: String::from_str("47.539442"),
            lon: String::from_str("8.293186"),
            building: String::from_str("SON"),
            floor: String::from_str("A"),
            room: String::from_str("31"),
        },
    );
    v.push(
        RawBeacon {
            major: 99,
            minor: 17,
            lat: String::from_str("47.539474"),
            lon: String::from_str("8.293205"),
            building: String::from_str("SON"),
            floor: String::from_str("A"),
            room: String::from_str("31"),
        },
    );
    v.push(
        RawBeacon {
            major: 99,
            minor: 20,
            lat: String::from_str("47.539487"),
            lon: String::from_str("8.293172"),
            building: String::from_str("SON"),
            floor: String::from_str("A"),
            room: String::from_str("31"),
        },
    );
    proof {
        assert(models(v@) =~= override_models());
    }
    v
}

/// Sets the built-in tag's group to the fixed override records, discarding
/// whatever the upstream payload carried for that tag, and reports whether
/// non-empty upstream data was discarded.
pub fn apply_builtin_override(d: GroupedDirectory) -> (res: (GroupedDirectory, bool))
    requires
        d.wf(),
    ensures
        res.0.wf(),
        forall|t: Seq<char>| #[trigger] res.0.has_tag(t) <==> (d.has_tag(t) || t == builtin_tag()),
        res.0.records_of(builtin_tag()) == override_models(),
        forall|t: Seq<char>|
            t != builtin_tag() && d.has_tag(t) ==> #[trigger] res.0.records_of(t)
                == d.records_of(t),
        res.1 <==> (d.has_tag(builtin_tag()) && d.records_of(builtin_tag()).len() > 0),
{
    let ghost d0 = d;
    let mut groups = d.groups;
    let son = String::from_str("SON");
    let p = find_slot(&groups, son.as_str());
    let mut matched = false;
    if p < groups.len() {
        if groups[p].tag == son {
            matched = true;
        }
    }
    proof {
        // A group carrying the built-in tag can only stand at the slot.
        if d0.has_tag(builtin_tag()) {
            let j = choose|j: int|
                0 <= j < d0.groups@.len() && (#[trigger] d0.groups@[j]).tag@ == builtin_tag();
            if j < p as int {
                lemma_lex_irrefl(builtin_tag());
            } else if j > p as int {
                assert(lex_lt(d0.groups@[p as int].tag@, d0.groups@[j].tag@));
            }
            assert(j == p as int);
            assert(matched);
            d0.lemma_records_of(j);
        }
    }
    let g = TagGroup { tag: son, records: builtin_override_records() };
    let ghost old_groups = groups@;
    let mut discarded = false;
    if matched {
        let old_g = groups.remove(p);
        if old_g.records.len() > 0 {
            discarded = true;
        }
        groups.insert(p, g);
        let r = GroupedDirectory { groups };
        proof {
            assert(r.groups@ =~= old_groups.update(p as int, r.groups@[p as int]));
            assert(r.groups@[p as int].tag@ == builtin_tag());
            assert(models(r.groups@[p as int].records@) == override_models());
            assert forall|j: int| 0 <= j < r.groups@.len() implies (#[trigger] r.groups@[j]).tag@
                == old_groups[j].tag@ by {}
            assert forall|t: Seq<char>| #[trigger] r.has_tag(t) <==> d0.has_tag(t) by {
                if groups_contain(r.groups@, t) {
                    let j = choose|j: int|
                        0 <= j < r.groups@.len() && (#[trigger] r.groups@[j]).tag@ == t;
                    assert(old_groups[j].tag@ == t);
                }
                if groups_contain(old_groups, t) {
                    let j = choose|j: int|
                        0 <= j < old_groups.len() && (#[trigger] old_groups[j]).tag@ == t;
                    assert(r.groups@[j].tag@ == t);
                }
            }
            r.lemma_records_of(p as int);
            assert forall|t: Seq<char>| t != builtin_tag() && d0.has_tag(t) implies #[trigger] r
                .records_of(t) == d0.records_of(t) by {
                let j = d0.index_of_tag(t);
                assert(0 <= j < old_groups.len() && old_groups[j].tag@ == t);
                assert(j != p as int);
                d0.lemma_records_of(j);
                r.lemma_records_of(j);
                assert(r.groups@[j] == old_groups[j]);
            }
        }
        (r, discarded)
    } else {
        groups.insert(p, g);
        let r = GroupedDirectory { groups };
        proof {
            assert(r.groups@ == old_groups.insert(p as int, r.groups@[p as int]));
            let gnew = r.groups@[p as int];
            assert(gnew.tag@ == builtin_tag());
            assert(models(gnew.records@) == override_models());
            assert forall|j: int|
                0 <= j < r.groups@.len() && j != p implies #[trigger] r.groups@[j]
                == old_groups[if j < p { j } else { j - 1 }] by {}
            assert forall|j: int| 0 <= j < old_groups.len() implies (
            #[trigger] old_groups[j]).tag@ != builtin_tag() by {
                if j < p as int {
                    if old_groups[j].tag@ == builtin_tag() {
                        lemma_lex_irrefl(builtin_tag());
                    }
                } else if j > p as int {
                    if old_groups[j].tag@ == builtin_tag() {
                        assert(lex_lt(old_groups[p as int].tag@, old_groups[j].tag@));
                    }
                }
            }
            assert forall|j: int| p <= j < old_groups.len() implies lex_lt(
                builtin_tag(),
                (#[trigger] old_groups[j]).tag@,
            ) by {
                lemma_lex_connex_or(old_groups[p as int].tag@, builtin_tag());
                if j > p as int {
                    lemma_lex_trans(builtin_tag(), old_groups[p as int].tag@, old_groups[j].tag@);
                }
            }
            assert forall|i: int, j: int| 0 <= i < j < r.groups@.len() implies lex_lt(
                (#[trigger] r.groups@[i]).tag@,
                (#[trigger] r.groups@[j]).tag@,
            ) by {
                if j == p as int {
                    assert(r.groups@[i] == old_groups[i]);
                } else if i == p as int {
                    assert(r.groups@[j] == old_groups[j - 1]);
                } else if i < p as int && j > p as int {
                    assert(r.groups@[i] == old_groups[i]);
                    assert(r.groups@[j] == old_groups[j - 1]);
                    if i == j - 1 {
                        assert((p as int) < j);
                        assert(false);
                    }
                }
            }
            assert forall|t: Seq<char>| #[trigger] r.has_tag(t) <==> (d0.has_tag(t) || t
                == builtin_tag()) by {
                if groups_contain(r.groups@, t) && t != builtin_tag() {
                    let j = choose|j: int|
                        0 <= j < r.groups@.len() && (#[trigger] r.groups@[j]).tag@ == t;
                    assert(j != p as int);
                    let jo = if j < p {
                        j
                    } else {
                        j - 1
                    };
                    assert(old_groups[jo].tag@ == t);
                }
                if groups_contain(old_groups, t) {
                    let j = choose|j: int|
                        0 <= j < old_groups.len() && (#[trigger] old_groups[j]).tag@ == t;
                    let jn = if j < p {
                        j
                    } else {
                        j + 1
                    };
                    assert(r.groups@[jn].tag@ == t);
                }
                assert(r.groups@[p as int].tag@ == builtin_tag());
            }
            r.lemma_records_of(p as int);
            assert forall|t: Seq<char>| t != builtin_tag() && d0.has_tag(t) implies #[trigger] r
                .records_of(t) == d0.records_of(t) by {
                let j = d0.index_of_tag(t);
                assert(0 <= j < old_groups.len() && old_groups[j].tag@ == t);
                let jn = if j < p {
                    j
                } else {
                    j + 1
                };
                d0.lemma_records_of(j);
                r.lemma_records_of(jn);
                assert(r.groups@[jn] == old_groups[j]);
            }
        }
        (r, discarded)
    }
}

/// The grouped directory for one upstream payload: the records partitioned
/// by building tag, with the built-in override applied last.  The second
/// result reports whether the override discarded non-empty upstream data.
pub fn build_directory(records: Vec<RawBeacon>) -> (res: (GroupedDirectory, bool))
    ensures
        res.0.wf(),
        forall|t: Seq<char>| #[trigger] res.0.has_tag(t) <==> (contains_building(
            models(records@),
            t,
        ) || t == builtin_tag()),
        res.0.records_of(builtin_tag()) == override_models(),
        forall|t: Seq<char>|
            t != builtin_tag() && #[trigger] res.0.has_tag(t) ==> res.0.records_of(t)
                == grouped_records(models(records@), t),
        res.1 <==> contains_building(models(records@), builtin_tag()),
{
    let resp = BeaconResponse { beacons: records };
    let d = resp.get_beacons();
    proof {
        if d.has_tag(builtin_tag()) {
            let ms = models(records@);
            let i = choose|i: int| 0 <= i < ms.len() && (#[trigger] ms[i]).building
                == builtin_tag();
            Seq::lemma_filter_contains(ms, with_building(builtin_tag()), i);
            assert(grouped_records(ms, builtin_tag()).len() > 0);
        }
    }
    apply_builtin_override(d)
}

} // verus!
