//! The aggregation view over parsed records: entries are grouped by
//! (title, season), a group is finished when any of its records is, and
//! groups can be filtered or searched by name.

use vstd::prelude::*;

use crate::datatype::Metadata;

verus! {

/// The reporting mode a caller selects.
#[derive(Clone, Copy, Debug, PartialEq, Eq, Structural)]
pub enum Mode {
    UnFinished,
    Query,
    All,
}

/// The lowercase folding of a text; a function of the characters alone.
pub uninterp spec fn lower_of(s: Seq<char>) -> Seq<char>;

/// Relies on `str::to_lowercase`: the folding depends on the characters
/// alone.
#[verifier::external_body]
fn lowercase(s: &str) -> (r: String)
    ensures
        r@ == lower_of(s@),
{
    s.to_lowercase()
}

/// `needle` occurs contiguously inside `hay`.
pub open spec fn has_substr(hay: Seq<char>, needle: Seq<char>) -> bool {
    exists|i: int|
        0 <= i <= hay.len() - needle.len() && #[trigger] hay.subrange(i, i + needle.len())
            == needle
}

/// Whether `needle` matches `hay` at position `i`.
fn matches_at(hay: &str, needle: &str, i: usize) -> (r: bool)
    requires
        i + needle@.len() <= hay@.len(),
    ensures
        r == (hay@.subrange(i as int, i + needle@.len()) == needle@),
{
    let hn = hay.unicode_len();
    let nn = needle.unicode_len();
    let mut j: usize = 0;
    while j < nn
        invariant
            0 <= j <= nn,
            nn == needle@.len(),
            hn == hay@.len(),
            i + nn <= hn,
            forall|j2: int| 0 <= j2 < j ==> hay@[i + j2] == needle@[j2],
        decreases nn - j,
    {
        if hay.get_char(i + j) != needle.get_char(j) {
            proof {
                assert(hay@.subrange(i as int, i + needle@.len())[j as int] == hay@[i + j]);
            }
            return false;
        }
        j += 1;
    }
    proof {
        assert(hay@.subrange(i as int, i + needle@.len()) =~= needle@);
    }
    true
}

/// Naive substring search.
fn contains_sub(hay: &str, needle: &str) -> (r: bool)
    ensures
        r == has_substr(hay@, needle@),
{
    let hn = hay.unicode_len();
    let nn = needle.unicode_len();
    if nn > hn {
        return false;
    }
    if nn == 0 {
        proof {
            assert(hay@.subrange(0int, 0int + needle@.len() as int) =~= needle@);
        }
        return true;
    }
    let mut i: usize = 0;
    while i <= hn - nn
        invariant
            0 <= i,
            1 <= nn <= hn,
            hn == hay@.len(),
            nn == needle@.len(),
            forall|i2: int|
                0 <= i2 < i ==> #[trigger] hay@.subrange(i2, i2 + needle@.len()) != needle@,
        decreases hn - i,
    {
        if matches_at(hay, needle, i) {
            return true;
        }
        i += 1;
    }
    false
}

/// Aggregated state of one (title, season) group.
pub struct StatsInfo {
    pub name: String,
    pub season: Option<u16>,
    pub watched_times: u16,
    pub b_finished: bool,
    pub related_entry: Vec<Metadata>,
}

/// The two group lists agree element by element.
pub open spec fn likes(a: Seq<StatsInfo>, b: Seq<StatsInfo>) -> bool {
    a.len() == b.len() && forall|j: int| 0 <= j < a.len() ==> info_like(#[trigger] a[j], b[j])
}

/// A record belongs to the group keyed by `name` and `season`.
pub open spec fn same_group(m: Metadata, name: Seq<char>, season: Option<u16>) -> bool {
    m.name@ == name && m.season == season
}

/// Some record of `l` in this group is finished.
pub open spec fn group_finished(l: Seq<Metadata>, name: Seq<char>, season: Option<u16>) -> bool {
    exists|i: int| 0 <= i < l.len() && same_group(#[trigger] l[i], name, season) && l[i].b_finished
}

/// Some record of `l` belongs to this group.
pub open spec fn group_present(l: Seq<Metadata>, name: Seq<char>, season: Option<u16>) -> bool {
    exists|i: int| 0 <= i < l.len() && same_group(#[trigger] l[i], name, season)
}

/// The records are ordered by their line position.
pub open spec fn sorted_by_index(l: Seq<Metadata>) -> bool {
    forall|i: int, j: int|
        0 <= i < j < l.len() ==> (#[trigger] l[i]).index <= (#[trigger] l[j]).index
}

/// Sorts records ascending by line position: repeatedly moves the
/// earliest minimal-position record over, so equal positions keep their
/// relative order.
fn sort_by_index(input: Vec<Metadata>) -> (r: Vec<Metadata>)
    ensures
        sorted_by_index(r@),
        r@.to_multiset() == input@.to_multiset(),
{
    broadcast use vstd::seq_lib::group_to_multiset_ensures;
    broadcast use vstd::multiset::group_multiset_axioms;

    let ghost input_ms = input@.to_multiset();
    let mut rest = input;
    let mut out: Vec<Metadata> = Vec::new();
    while rest.len() > 0
        invariant
            sorted_by_index(out@),
            forall|a: int, b: int|
                0 <= a < out@.len() && 0 <= b < rest@.len() ==> (#[trigger] out@[a]).index <= (
                #[trigger] rest@[b]).index,
            out@.to_multiset().add(rest@.to_multiset()) == input_ms,
        decreases rest@.len(),
    {
        let mut mi: usize = 0;
        let mut k: usize = 1;
        while k < rest.len()
            invariant
                0 <= mi < k <= rest@.len(),
                forall|j: int| 0 <= j < k ==> (rest@[mi as int]).index <= (#[trigger] rest@[j]).index,
            decreases rest@.len() - k,
        {
            if rest[k].index < rest[mi].index {
                mi = k;
            }
            k += 1;
        }
        let ghost pre = rest@;
        let ghost pre_out = out@;
        let x = rest.remove(mi);
        out.push(x);
        proof {
            broadcast use vstd::seq_lib::group_to_multiset_ensures;
            broadcast use vstd::multiset::group_multiset_axioms;

            assert(x == pre[mi as int]);
            assert(rest@ == pre.remove(mi as int));
            assert(out@ == pre_out.push(x));
            assert(pre.remove(mi as int).to_multiset() == pre.to_multiset().remove(x));
            assert(pre_out.push(x).to_multiset() =~= pre_out.to_multiset().insert(x));
            assert(rest@.to_multiset() == pre.to_multiset().remove(x));
            assert(out@.to_multiset() == pre_out.to_multiset().insert(x));
            assert(pre.contains(x));
            assert(pre.to_multiset().count(x) > 0);
            assert(out@.to_multiset().add(rest@.to_multiset()) =~= input_ms) by {
                assert forall|y: Metadata|
                    out@.to_multiset().add(rest@.to_multiset()).count(y) == input_ms.count(
                        y,
                    ) by {
                    assert(pre_out.to_multiset().add(pre.to_multiset()).count(y) == input_ms.count(
                        y,
                    ));
                }
            }
            assert forall|a: int, b: int|
                0 <= a < out@.len() && 0 <= b < rest@.len() implies (#[trigger] out@[a]).index <= (
            #[trigger] rest@[b]).index by {
                if b < mi {
                    assert(rest@[b] == pre[b]);
                } else {
                    assert(rest@[b] == pre[b + 1]);
                }
                if a < pre_out.len() {
                    assert(out@[a] == pre_out[a]);
                } else {
                    assert(out@[a] == x);
                }
            }
            assert forall|i: int, j: int| 0 <= i < j < out@.len() implies (
            #[trigger] out@[i]).index <= (#[trigger] out@[j]).index by {
                if j == out@.len() - 1 {
                    assert(out@[i] == pre_out[i]);
                    assert(out@[j] == x);
                    assert(pre_out[i].index <= pre[mi as int].index);
                }
            }
        }
    }
    out
}

/// The position of the first record of this group, counted from the
/// front of the list.
pub open spec fn first_occ(l: Seq<Metadata>, name: Seq<char>, season: Option<u16>) -> int
    decreases l.len(),
{
    if l.len() == 0 {
        0
    } else if same_group(l[0], name, season) {
        0
    } else {
        1 + first_occ(l.drop_first(), name, season)
    }
}

proof fn lemma_first_occ_present(l: Seq<Metadata>, name: Seq<char>, season: Option<u16>)
    requires
        group_present(l, name, season),
    ensures
        0 <= first_occ(l, name, season) < l.len(),
        same_group(l[first_occ(l, name, season)], name, season),
    decreases l.len(),
{
    if l.len() > 0 && !same_group(l[0], name, season) {
        let t = l.drop_first();
        let i = choose|i: int| 0 <= i < l.len() && same_group(#[trigger] l[i], name, season);
        assert(t[i - 1] == l[i]);
        assert(group_present(t, name, season));
        lemma_first_occ_present(t, name, season);
        assert(l[1 + first_occ(t, name, season)] == t[first_occ(t, name, season)]);
    }
}

proof fn lemma_first_occ_push(l: Seq<Metadata>, name: Seq<char>, season: Option<u16>, m: Metadata)
    requires
        group_present(l, name, season),
    ensures
        first_occ(l.push(m), name, season) == first_occ(l, name, season),
    decreases l.len(),
{
    let lp = l.push(m);
    assert(lp[0] == l[0]);
    if !same_group(l[0], name, season) {
        let t = l.drop_first();
        let i = choose|i: int| 0 <= i < l.len() && same_group(#[trigger] l[i], name, season);
        assert(t[i - 1] == l[i]);
        assert(group_present(t, name, season));
        lemma_first_occ_push(t, name, season, m);
        assert(lp.drop_first() =~= t.push(m));
    }
}

proof fn lemma_first_occ_new(l: Seq<Metadata>, name: Seq<char>, season: Option<u16>, m: Metadata)
    requires
        !group_present(l, name, season),
        same_group(m, name, season),
    ensures
        first_occ(l.push(m), name, season) == l.len(),
    decreases l.len(),
{
    let lp = l.push(m);
    if l.len() == 0 {
        assert(lp[0] == m);
    } else {
        assert(lp[0] == l[0]);
        assert(!same_group(l[0], name, season));
        let t = l.drop_first();
        assert forall|i: int| 0 <= i < t.len() implies !same_group(#[trigger] t[i], name, season) by {
            assert(t[i] == l[i + 1]);
        }
        lemma_first_occ_new(t, name, season, m);
        assert(lp.drop_first() =~= t.push(m));
    }
}

/// The groups stand in order of their first appearance in the entries.
pub open spec fn groups_in_first_occurrence_order(
    l: Seq<Metadata>,
    groups: Seq<StatsInfo>,
) -> bool {
    forall|g1: int, g2: int|
        0 <= g1 < g2 < groups.len() ==> first_occ(l, (#[trigger] groups[g1]).name@, groups[g1].season)
            < first_occ(l, (#[trigger] groups[g2]).name@, groups[g2].season)
}

/// The grouped view over one run's records.
pub struct Stats {
    metadata_list: Vec<Metadata>,
    statsinfo_list: Vec<StatsInfo>,
}

/// The groups hold exactly the input's (title, season) pairs, without
/// duplicates, and a group is finished exactly when some record of the
/// input in that group is.
pub open spec fn groups_ok(l: Seq<Metadata>, groups: Seq<StatsInfo>) -> bool {
    &&& forall|g1: int, g2: int|
        0 <= g1 < g2 < groups.len() ==> !same_group_pair(#[trigger] groups[g1], #[trigger] groups[g2])
    &&& forall|g: int|
        0 <= g < groups.len() ==> group_present(l, (#[trigger] groups[g]).name@, groups[g].season)
    &&& forall|i: int|
        0 <= i < l.len() ==> exists|g: int|
            0 <= g < groups.len() && same_group(#[trigger] l[i], (#[trigger] groups[g]).name@, groups[g].season)
    &&& forall|g: int|
        0 <= g < groups.len() ==> (#[trigger] groups[g]).b_finished == group_finished(
            l,
            groups[g].name@,
            groups[g].season,
        )
}

/// Two group entries carry the same (title, season) key.
pub open spec fn same_group_pair(a: StatsInfo, b: StatsInfo) -> bool {
    a.name@ == b.name@ && a.season == b.season
}

/// Copies a list of records.
fn duplicate_records(v: &Vec<Metadata>) -> (r: Vec<Metadata>)
    ensures
        r@ == v@,
{
    let mut out: Vec<Metadata> = Vec::new();
    let mut i: usize = 0;
    while i < v.len()
        invariant
            0 <= i <= v@.len(),
            out@.len() == i,
            forall|j: int| 0 <= j < i ==> out@[j] == v@[j],
        decreases v@.len() - i,
    {
        out.push(v[i].duplicate());
        i += 1;
    }
    proof {
        assert(out@ =~= v@);
    }
    out
}

/// Two group entries agree on every field, their record lists compared
/// by content.
pub open spec fn info_like(a: StatsInfo, b: StatsInfo) -> bool {
    &&& a.name == b.name
    &&& a.season == b.season
    &&& a.watched_times == b.watched_times
    &&& a.b_finished == b.b_finished
    &&& a.related_entry@ == b.related_entry@
}

impl StatsInfo {
    /// A copy that agrees on every field; unlike a derived clone, its
    /// contract says so.
    pub fn duplicate(&self) -> (r: Self)
        ensures
            info_like(r, *self),
    {
        StatsInfo {
            name: self.name.clone(),
            season: self.season,
            watched_times: self.watched_times,
            b_finished: self.b_finished,
            related_entry: duplicate_records(&self.related_entry),
        }
    }
}

/// Copies a list of groups, element by element.
fn duplicate_groups(v: &Vec<StatsInfo>) -> (r: Vec<StatsInfo>)
    ensures
        r@.len() == v@.len(),
        forall|j: int| 0 <= j < v@.len() ==> info_like(#[trigger] r@[j], v@[j]),
{
    let mut out: Vec<StatsInfo> = Vec::new();
    let mut i: usize = 0;
    while i < v.len()
        invariant
            0 <= i <= v@.len(),
            out@.len() == i,
            forall|j: int| 0 <= j < i ==> info_like(#[trigger] out@[j], v@[j]),
        decreases v@.len() - i,
    {
        out.push(v[i].duplicate());
        i += 1;
    }
    out
}

/// Compares two optional season numbers.
fn season_eq(a: Option<u16>, b: Option<u16>) -> (r: bool)
    ensures
        r == (a == b),
{
    match (a, b) {
        (None, None) => true,
        (Some(x), Some(y)) => x == y,
        _ => false,
    }
}

/// Finds the group keyed like the record, if one exists.
fn find_group(groups: &Vec<StatsInfo>, name: &String, season: Option<u16>) -> (r: Option<usize>)
    ensures
        match r {
            Some(g) => g < groups@.len() && same_group_key(groups@[g as int], name@, season),
            None => forall|g: int|
                0 <= g < groups@.len() ==> !same_group_key(#[trigger] groups@[g], name@, season),
        },
{
    let mut g: usize = 0;
    while g < groups.len()
        invariant
            0 <= g <= groups@.len(),
            forall|g2: int|
                0 <= g2 < g ==> !same_group_key(#[trigger] groups@[g2], name@, season),
        decreases groups@.len() - g,
    {
        if groups[g].name == *name && season_eq(groups[g].season, season) {
            return Some(g);
        }
        g += 1;
    }
    None
}

/// A group entry carries this (title, season) key.
pub open spec fn same_group_key(g: StatsInfo, name: Seq<char>, season: Option<u16>) -> bool {
    g.name@ == name && g.season == season
}

/// Replaces the finished flag of one group, leaving its other fields and
/// every other group unchanged.
fn or_group_finished(groups: &mut Vec<StatsInfo>, g: usize, fin: bool)
    requires
        g < old(groups)@.len(),
    ensures
        final(groups)@.len() == old(groups)@.len(),
        final(groups)@[g as int].name == old(groups)@[g as int].name,
        final(groups)@[g as int].season == old(groups)@[g as int].season,
        final(groups)@[g as int].watched_times == old(groups)@[g as int].watched_times,
        final(groups)@[g as int].related_entry@ == old(groups)@[g as int].related_entry@,
        final(groups)@[g as int].b_finished == (old(groups)@[g as int].b_finished || fin),
        forall|g2: int|
            0 <= g2 < old(groups)@.len() && g2 != g ==> final(groups)@[g2] == old(groups)@[g2],
{
    let updated = StatsInfo {
        name: groups[g].name.clone(),
        season: groups[g].season,
        watched_times: groups[g].watched_times,
        b_finished: groups[g].b_finished || fin,
        related_entry: duplicate_records(&groups[g].related_entry),
    };
    groups[g] = updated;
}

impl Stats {
    /// The records this view was built over.
    pub closed spec fn spec_entries(self) -> Seq<Metadata> {
        self.metadata_list@
    }

    /// The aggregated groups, in order of first appearance.
    pub closed spec fn spec_groups(self) -> Seq<StatsInfo> {
        self.statsinfo_list@
    }

    /// The grouping agrees with the records.
    pub open spec fn wf(self) -> bool {
        groups_ok(self.spec_entries(), self.spec_groups())
    }

    /// Sorts the records ascending by line position, then groups them by
    /// (title, season) in order of first appearance; a group is finished
    /// when any of its records is.
    pub fn new(metadata_list: Vec<Metadata>) -> (r: Self)
        ensures
            r.spec_entries().to_multiset() == metadata_list@.to_multiset(),
            sorted_by_index(r.spec_entries()),
            r.wf(),
            groups_in_first_occurrence_order(r.spec_entries(), r.spec_groups()),
            forall|g: int|
                0 <= g < r.spec_groups().len() ==> (#[trigger] r.spec_groups()[g]).watched_times
                    == 0,
    {
        let sorted_list = sort_by_index(metadata_list);
        let mut statsinfo_list: Vec<StatsInfo> = Vec::new();
        let mut i: usize = 0;
        while i < sorted_list.len()
            invariant
                0 <= i <= sorted_list@.len(),
                groups_ok(sorted_list@.subrange(0, i as int), statsinfo_list@),
                groups_in_first_occurrence_order(
                    sorted_list@.subrange(0, i as int),
                    statsinfo_list@,
                ),
                forall|g: int|
                    0 <= g < statsinfo_list@.len() ==> (
                    #[trigger] statsinfo_list@[g]).watched_times == 0,
            decreases sorted_list@.len() - i,
        {
            let ghost pre_list = sorted_list@.subrange(0, i as int);
            let ghost cur_list = sorted_list@.subrange(0, i + 1);
            let ghost pre_groups = statsinfo_list@;
            let ghost m = sorted_list@[i as int];
            proof {
                assert(cur_list =~= pre_list.push(m));
            }
            let metadata = &sorted_list[i];
            match find_group(&statsinfo_list, &metadata.name, metadata.season) {
                None => {
                    let entry = StatsInfo {
                        name: metadata.name.clone(),
                        season: metadata.season,
                        watched_times: 0,
                        b_finished: metadata.b_finished,
                        related_entry: duplicate_records_one(metadata),
                    };
                    statsinfo_list.push(entry);
                    proof {
                        lemma_groups_step_new(pre_list, pre_groups, m, entry);
                        lemma_no_group_no_presence(pre_list, pre_groups, m.name@, m.season);
                        let new_groups = statsinfo_list@;
                        assert forall|g1: int, g2: int|
                            0 <= g1 < g2 < new_groups.len() implies first_occ(
                            cur_list,
                            (#[trigger] new_groups[g1]).name@,
                            new_groups[g1].season,
                        ) < first_occ(
                            cur_list,
                            (#[trigger] new_groups[g2]).name@,
                            new_groups[g2].season,
                        ) by {
                            assert(new_groups[g1] == pre_groups[g1]);
                            assert(group_present(pre_list, pre_groups[g1].name@, pre_groups[g1].season));
                            lemma_first_occ_present(
                                pre_list,
                                pre_groups[g1].name@,
                                pre_groups[g1].season,
                            );
                            lemma_first_occ_push(
                                pre_list,
                                pre_groups[g1].name@,
                                pre_groups[g1].season,
                                m,
                            );
                            if g2 < pre_groups.len() {
                                assert(new_groups[g2] == pre_groups[g2]);
                                lemma_first_occ_push(
                                    pre_list,
                                    pre_groups[g2].name@,
                                    pre_groups[g2].season,
                                    m,
                                );
                            } else {
                                assert(new_groups[g2] == entry);
                                lemma_first_occ_new(pre_list, entry.name@, entry.season, m);
                            }
                        }
                    }
                },
                Some(g) => {
                    or_group_finished(&mut statsinfo_list, g, metadata.b_finished);
                    proof {
                        lemma_groups_step_known(pre_list, pre_groups, m, statsinfo_list@, g as int);
                        let new_groups = statsinfo_list@;
                        assert forall|g1: int, g2: int|
                            0 <= g1 < g2 < new_groups.len() implies first_occ(
                            cur_list,
                            (#[trigger] new_groups[g1]).name@,
                            new_groups[g1].season,
                        ) < first_occ(
                            cur_list,
                            (#[trigger] new_groups[g2]).name@,
                            new_groups[g2].season,
                        ) by {
                            assert(new_groups[g1].name@ == pre_groups[g1].name@
                                && new_groups[g1].season == pre_groups[g1].season);
                            assert(new_groups[g2].name@ == pre_groups[g2].name@
                                && new_groups[g2].season == pre_groups[g2].season);
                            assert(group_present(pre_list, pre_groups[g1].name@, pre_groups[g1].season));
                            assert(group_present(pre_list, pre_groups[g2].name@, pre_groups[g2].season));
                            lemma_first_occ_push(
                                pre_list,
                                pre_groups[g1].name@,
                                pre_groups[g1].season,
                                m,
                            );
                            lemma_first_occ_push(
                                pre_list,
                                pre_groups[g2].name@,
                                pre_groups[g2].season,
                                m,
                            );
                        }
                    }
                },
            }
            i += 1;
        }
        proof {
            assert(sorted_list@.subrange(0, sorted_list@.len() as int) =~= sorted_list@);
        }
        Stats { metadata_list: sorted_list, statsinfo_list }
    }

    /// Every group, in order of first appearance.
    pub fn stats_all(&self) -> (r: Vec<StatsInfo>)
        ensures
            r@.len() == self.spec_groups().len(),
            forall|j: int|
                0 <= j < self.spec_groups().len() ==> info_like(
                    #[trigger] r@[j],
                    self.spec_groups()[j],
                ),
    {
        duplicate_groups(&self.statsinfo_list)
    }

    /// The groups not yet finished, in order.
    pub fn stats_unfinished(&self) -> (r: Vec<StatsInfo>)
        ensures
            likes(r@, self.spec_groups().filter(|g: StatsInfo| !g.b_finished)),
    {
        let mut result: Vec<StatsInfo> = Vec::new();
        let mut i: usize = 0;
        while i < self.statsinfo_list.len()
            invariant
                0 <= i <= self.statsinfo_list@.len(),
                self.statsinfo_list@ == self.spec_groups(),
                likes(
                    result@,
                    self.spec_groups().subrange(0, i as int).filter(|g: StatsInfo| !g.b_finished),
                ),
            decreases self.statsinfo_list@.len() - i,
        {
            let ghost pre = self.spec_groups().subrange(0, i as int);
            let ghost cur = self.spec_groups().subrange(0, i + 1);
            proof {
                reveal(Seq::filter);
                assert(cur.drop_last() =~= pre);
                assert(cur.last() == self.spec_groups()[i as int]);
            }
            if !self.statsinfo_list[i].b_finished {
                result.push(self.statsinfo_list[i].duplicate());
            }
            i += 1;
        }
        proof {
            assert(self.spec_groups().subrange(0, self.spec_groups().len() as int)
                =~= self.spec_groups());
        }
        result
    }

    /// The groups whose folded title contains the folded query, in order.
    pub fn query_by_name(&self, name: &str) -> (r: Vec<StatsInfo>)
        ensures
            likes(
                r@,
                self.spec_groups().filter(
                    |g: StatsInfo| has_substr(lower_of(g.name@), lower_of(name@)),
                ),
            ),
    {
        let needle = lowercase(name);
        let mut result: Vec<StatsInfo> = Vec::new();
        let mut i: usize = 0;
        while i < self.statsinfo_list.len()
            invariant
                0 <= i <= self.statsinfo_list@.len(),
                self.statsinfo_list@ == self.spec_groups(),
                needle@ == lower_of(name@),
                likes(
                    result@,
                    self.spec_groups().subrange(0, i as int).filter(
                        |g: StatsInfo| has_substr(lower_of(g.name@), lower_of(name@)),
                    ),
                ),
            decreases self.statsinfo_list@.len() - i,
        {
            let ghost pre = self.spec_groups().subrange(0, i as int);
            let ghost cur = self.spec_groups().subrange(0, i + 1);
            proof {
                reveal(Seq::filter);
                assert(cur.drop_last() =~= pre);
                assert(cur.last() == self.spec_groups()[i as int]);
            }
            let hay = lowercase(self.statsinfo_list[i].name.as_str());
            if contains_sub(hay.as_str(), needle.as_str()) {
                result.push(self.statsinfo_list[i].duplicate());
            }
            i += 1;
        }
        proof {
            assert(self.spec_groups().subrange(0, self.spec_groups().len() as int)
                =~= self.spec_groups());
        }
        result
    }

    /// The view a reporting mode selects: unfinished groups, a search by
    /// name, or every group.
    pub fn select(&self, mode: Mode, query_name: &str) -> (r: Vec<StatsInfo>)
        ensures
            mode == Mode::UnFinished ==> likes(
                r@,
                self.spec_groups().filter(|g: StatsInfo| !g.b_finished),
            ),
            mode == Mode::Query ==> likes(
                r@,
                self.spec_groups().filter(
                    |g: StatsInfo| has_substr(lower_of(g.name@), lower_of(query_name@)),
                ),
            ),
            mode == Mode::All ==> likes(r@, self.spec_groups()),
    {
        match mode {
            Mode::UnFinished => self.stats_unfinished(),
            Mode::Query => self.query_by_name(query_name),
            Mode::All => self.stats_all(),
        }
    }
}

proof fn lemma_no_group_no_presence(
    l: Seq<Metadata>,
    groups: Seq<StatsInfo>,
    name: Seq<char>,
    season: Option<u16>,
)
    requires
        groups_ok(l, groups),
        forall|g: int| 0 <= g < groups.len() ==> !same_group_key(#[trigger] groups[g], name, season),
    ensures
        !group_present(l, name, season),
{
    if group_present(l, name, season) {
        let i = choose|i: int| 0 <= i < l.len() && same_group(#[trigger] l[i], name, season);
        let g = choose|g: int|
            0 <= g < groups.len() && same_group(l[i], (#[trigger] groups[g]).name@, groups[g].season);
        assert(same_group_key(groups[g], name, season));
    }
}

/// A one-record list for a fresh group.
fn duplicate_records_one(m: &Metadata) -> (r: Vec<Metadata>)
    ensures
        r@.len() == 1,
        r@[0] == *m,
{
    let mut out: Vec<Metadata> = Vec::new();
    out.push(m.duplicate());
    out
}

proof fn lemma_groups_step_new(
    pre: Seq<Metadata>,
    groups: Seq<StatsInfo>,
    m: Metadata,
    entry: StatsInfo,
)
    requires
        groups_ok(pre, groups),
        forall|g: int| 0 <= g < groups.len() ==> !same_group_key(#[trigger] groups[g], m.name@, m.season),
        entry.name@ == m.name@,
        entry.season == m.season,
        entry.b_finished == m.b_finished,
    ensures
        groups_ok(pre.push(m), groups.push(entry)),
{
    let l = pre.push(m);
    let gs = groups.push(entry);
    assert forall|g1: int, g2: int| 0 <= g1 < g2 < gs.len() implies !same_group_pair(
        #[trigger] gs[g1],
        #[trigger] gs[g2],
    ) by {
        if g2 < groups.len() {
            assert(gs[g1] == groups[g1]);
            assert(gs[g2] == groups[g2]);
        } else {
            assert(gs[g2] == entry);
            assert(gs[g1] == groups[g1]);
            assert(!same_group_key(groups[g1], m.name@, m.season));
        }
    }
    assert forall|g: int| 0 <= g < gs.len() implies group_present(
        l,
        (#[trigger] gs[g]).name@,
        gs[g].season,
    ) by {
        if g < groups.len() {
            assert(gs[g] == groups[g]);
            let i = choose|i: int|
                0 <= i < pre.len() && same_group(#[trigger] pre[i], groups[g].name@, groups[g].season);
            assert(same_group(l[i], gs[g].name@, gs[g].season));
        } else {
            assert(gs[g] == entry);
            assert(same_group(l[l.len() - 1], entry.name@, entry.season));
        }
    }
    assert forall|i: int| 0 <= i < l.len() implies exists|g: int|
        0 <= g < gs.len() && same_group(#[trigger] l[i], (#[trigger] gs[g]).name@, gs[g].season) by {
        if i < pre.len() {
            assert(l[i] == pre[i]);
            let g = choose|g: int|
                0 <= g < groups.len() && same_group(pre[i], (#[trigger] groups[g]).name@, groups[g].season);
            assert(same_group(l[i], (gs[g]).name@, gs[g].season));
        } else {
            assert(l[i] == m);
            assert(same_group(l[i], (gs[gs.len() - 1]).name@, gs[gs.len() - 1].season));
        }
    }
    assert forall|g: int| 0 <= g < gs.len() implies (#[trigger] gs[g]).b_finished == group_finished(
        l,
        gs[g].name@,
        gs[g].season,
    ) by {
        if g < groups.len() {
            assert(gs[g] == groups[g]);
            if group_finished(pre, groups[g].name@, groups[g].season) {
                let i = choose|i: int|
                    0 <= i < pre.len() && same_group(#[trigger] pre[i], groups[g].name@, groups[g].season)
                        && pre[i].b_finished;
                assert(same_group(l[i], gs[g].name@, gs[g].season) && l[i].b_finished);
            } else {
                if group_finished(l, gs[g].name@, gs[g].season) {
                    let i = choose|i: int|
                        0 <= i < l.len() && same_group(#[trigger] l[i], gs[g].name@, gs[g].season)
                            && l[i].b_finished;
                    if i < pre.len() {
                        assert(same_group(pre[i], groups[g].name@, groups[g].season)
                            && pre[i].b_finished);
                    } else {
                        assert(l[i] == m);
                        assert(!same_group_key(groups[g], m.name@, m.season));
                    }
                    assert(false);
                }
            }
        } else {
            assert(gs[g] == entry);
            if m.b_finished {
                assert(same_group(l[l.len() - 1], entry.name@, entry.season)
                    && l[l.len() - 1].b_finished);
            } else {
                if group_finished(l, entry.name@, entry.season) {
                    let i = choose|i: int|
                        0 <= i < l.len() && same_group(#[trigger] l[i], entry.name@, entry.season)
                            && l[i].b_finished;
                    if i < pre.len() {
                        assert(group_present(pre, entry.name@, entry.season));
                        let g2 = choose|g2: int|
                            0 <= g2 < groups.len() && same_group(
                                pre[i],
                                (#[trigger] groups[g2]).name@,
                                groups[g2].season,
                            );
                        assert(same_group_key(groups[g2], m.name@, m.season));
                        assert(false);
                    } else {
                        assert(l[i] == m);
                    }
                    assert(false);
                }
            }
        }
    }
}

proof fn lemma_groups_step_known(
    pre: Seq<Metadata>,
    groups: Seq<StatsInfo>,
    m: Metadata,
    updated: Seq<StatsInfo>,
    g: int,
)
    requires
        groups_ok(pre, groups),
        0 <= g < groups.len(),
        same_group_key(groups[g], m.name@, m.season),
        updated.len() == groups.len(),
        updated[g].name == groups[g].name,
        updated[g].season == groups[g].season,
        updated[g].b_finished == (groups[g].b_finished || m.b_finished),
        forall|g2: int| 0 <= g2 < groups.len() && g2 != g ==> updated[g2] == groups[g2],
    ensures
        groups_ok(pre.push(m), updated),
{
    let l = pre.push(m);
    assert forall|g1: int, g2: int| 0 <= g1 < g2 < updated.len() implies !same_group_pair(
        #[trigger] updated[g1],
        #[trigger] updated[g2],
    ) by {
        assert(!same_group_pair(groups[g1], groups[g2]));
        assert(updated[g1].name@ == groups[g1].name@ && updated[g1].season == groups[g1].season);
        assert(updated[g2].name@ == groups[g2].name@ && updated[g2].season == groups[g2].season);
    }
    assert forall|g2: int| 0 <= g2 < updated.len() implies group_present(
        l,
        (#[trigger] updated[g2]).name@,
        updated[g2].season,
    ) by {
        let i = choose|i: int|
            0 <= i < pre.len() && same_group(#[trigger] pre[i], groups[g2].name@, groups[g2].season);
        assert(same_group(l[i], updated[g2].name@, updated[g2].season));
    }
    assert forall|i: int| 0 <= i < l.len() implies exists|g2: int|
        0 <= g2 < updated.len() && same_group(
            #[trigger] l[i],
            (#[trigger] updated[g2]).name@,
            updated[g2].season,
        ) by {
        if i < pre.len() {
            let g2 = choose|g2: int|
                0 <= g2 < groups.len() && same_group(pre[i], (#[trigger] groups[g2]).name@, groups[g2].season);
            assert(updated[g2].name@ == groups[g2].name@ && updated[g2].season
                == groups[g2].season);
            assert(same_group(l[i], updated[g2].name@, updated[g2].season));
        } else {
            assert(l[i] == m);
            assert(same_group(l[i], updated[g].name@, updated[g].season));
        }
    }
    assert forall|g2: int| 0 <= g2 < updated.len() implies (
    #[trigger] updated[g2]).b_finished == group_finished(l, updated[g2].name@, updated[g2].season) by {
        if g2 == g {
            if updated[g2].b_finished {
                if groups[g].b_finished {
                    let i = choose|i: int|
                        0 <= i < pre.len() && same_group(#[trigger] pre[i], groups[g].name@, groups[g].season)
                            && pre[i].b_finished;
                    assert(same_group(l[i], updated[g].name@, updated[g].season)
                        && l[i].b_finished);
                } else {
                    assert(m.b_finished);
                    assert(same_group(l[l.len() - 1], updated[g].name@, updated[g].season)
                        && l[l.len() - 1].b_finished);
                }
            } else {
                if group_finished(l, updated[g2].name@, updated[g2].season) {
                    let i = choose|i: int|
                        0 <= i < l.len() && same_group(
                            #[trigger] l[i],
                            updated[g2].name@,
                            updated[g2].season,
                        ) && l[i].b_finished;
                    if i < pre.len() {
                        assert(same_group(pre[i], groups[g].name@, groups[g].season)
                            && pre[i].b_finished);
                    } else {
                        assert(l[i] == m);
                    }
                    assert(false);
                }
            }
        } else {
            assert(updated[g2] == groups[g2]);
            if group_finished(pre, groups[g2].name@, groups[g2].season) {
                let i = choose|i: int|
                    0 <= i < pre.len() && same_group(#[trigger] pre[i], groups[g2].name@, groups[g2].season)
                        && pre[i].b_finished;
                assert(same_group(l[i], updated[g2].name@, updated[g2].season) && l[i].b_finished);
            } else {
                if group_finished(l, updated[g2].name@, updated[g2].season) {
                    let i = choose|i: int|
                        0 <= i < l.len() && same_group(
                            #[trigger] l[i],
                            updated[g2].name@,
                            updated[g2].season,
                        ) && l[i].b_finished;
                    if i < pre.len() {
                        assert(same_group(pre[i], groups[g2].name@, groups[g2].season)
                            && pre[i].b_finished);
                    } else {
                        assert(l[i] == m);
                        assert(same_group_key(groups[g], m.name@, m.season));
                        assert(same_group_pair(groups[g2], groups[g]) || same_group_pair(
                            groups[g],
                            groups[g2],
                        ));
                    }
                    assert(false);
                }
            }
        }
    }
}

} // verus!
