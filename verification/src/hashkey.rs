//! Cache-key construction: the 64-bit content hash over one line and the
//! full active pattern set, so that any configuration edit changes the
//! hashed text of every line's key.

use vstd::prelude::*;

use crate::datatype::views;

verus! {

/// The 64-bit digest of the UTF-8 bytes of a text; a function of the text
/// alone, stable across processes and machines.
pub uninterp spec fn xxh3_of(s: Seq<char>) -> u64;

/// Relies on `xxhash_rust::xxh3::xxh3_64`: the 64-bit digest of the UTF-8
/// bytes of `s` depends on those bytes alone.
#[verifier::external_body]
fn xxh3_hash(s: &str) -> (r: u64)
    ensures
        r == xxh3_of(s@),
{
    xxhash_rust::xxh3::xxh3_64(s.as_bytes())
}

/// The separator joined between patterns when forming key material.
pub open spec fn spec_sep() -> Seq<char> {
    "###"@
}

/// The elements of `l` joined by the pattern separator.
pub open spec fn join_sep(l: Seq<Seq<char>>) -> Seq<char>
    decreases l.len(),
{
    if l.len() == 0 {
        Seq::empty()
    } else if l.len() == 1 {
        l[0]
    } else {
        l[0] + spec_sep() + join_sep(l.drop_first())
    }
}

/// The pattern part of the hashed text: every active pattern, extraction
/// list first, then finished list, joined by the separator.
pub open spec fn key_material(pats: Seq<Seq<char>>, fins: Seq<Seq<char>>) -> Seq<char> {
    join_sep(pats + fins)
}

/// The cache key of a line under the active pattern sets.
pub open spec fn cache_key(line: Seq<char>, pats: Seq<Seq<char>>, fins: Seq<Seq<char>>) -> u64 {
    xxh3_of(line + key_material(pats, fins))
}

proof fn lemma_join_snoc(l: Seq<Seq<char>>, x: Seq<char>)
    ensures
        join_sep(l.push(x)) == if l.len() == 0 {
            x
        } else {
            join_sep(l) + spec_sep() + x
        },
    decreases l.len(),
{
    let lp = l.push(x);
    if l.len() == 0 {
        assert(lp.len() == 1);
        assert(lp[0] == x);
    } else {
        assert(lp[0] == l[0]);
        assert(lp.drop_first() =~= l.drop_first().push(x));
        lemma_join_snoc(l.drop_first(), x);
        if l.len() == 1 {
            assert(join_sep(lp) == l[0] + spec_sep() + x);
            assert(join_sep(l) == l[0]);
        } else {
            assert(join_sep(lp) == l[0] + spec_sep() + (join_sep(l.drop_first()) + spec_sep()
                + x));
            assert(join_sep(l) + spec_sep() + x == (l[0] + spec_sep() + join_sep(l.drop_first()))
                + spec_sep() + x);
            assert(l[0] + spec_sep() + (join_sep(l.drop_first()) + spec_sep() + x) =~= (l[0]
                + spec_sep() + join_sep(l.drop_first())) + spec_sep() + x);
        }
    }
}

/// Builds the pattern part of the hashed text: both pattern lists joined
/// by the separator.
pub fn build_key_material(
    reg_pattern_list: &Vec<String>,
    finished_reg_pattern_list: &Vec<String>,
) -> (r: String)
    ensures
        r@ == key_material(views(reg_pattern_list@), views(finished_reg_pattern_list@)),
{
    let ghost all = views(reg_pattern_list@) + views(finished_reg_pattern_list@);
    let mut acc = String::new();
    let ghost mut count: int = 0;
    let mut i: usize = 0;
    while i < reg_pattern_list.len()
        invariant
            0 <= i <= reg_pattern_list.len(),
            count == i,
            all == views(reg_pattern_list@) + views(finished_reg_pattern_list@),
            acc@ == join_sep(all.subrange(0, count)),
        decreases reg_pattern_list.len() - i,
    {
        proof {
            assert(all[count] == reg_pattern_list@[i as int]@);
            assert(all.subrange(0, count + 1) =~= all.subrange(0, count).push(all[count]));
            lemma_join_snoc(all.subrange(0, count), all[count]);
        }
        if i > 0 {
            acc.append("###");
        }
        acc.append(reg_pattern_list[i].as_str());
        proof {
            reveal_strlit("###");
            assert(acc@ == join_sep(all.subrange(0, count + 1)));
            count = count + 1;
        }
        i += 1;
    }
    let mut j: usize = 0;
    while j < finished_reg_pattern_list.len()
        invariant
            0 <= j <= finished_reg_pattern_list.len(),
            count == reg_pattern_list@.len() + j,
            all == views(reg_pattern_list@) + views(finished_reg_pattern_list@),
            acc@ == join_sep(all.subrange(0, count)),
        decreases finished_reg_pattern_list.len() - j,
    {
        proof {
            assert(all[count] == finished_reg_pattern_list@[j as int]@);
            assert(all.subrange(0, count + 1) =~= all.subrange(0, count).push(all[count]));
            lemma_join_snoc(all.subrange(0, count), all[count]);
        }
        if reg_pattern_list.len() > 0 || j > 0 {
            acc.append("###");
        }
        acc.append(finished_reg_pattern_list[j].as_str());
        proof {
            reveal_strlit("###");
            assert(acc@ == join_sep(all.subrange(0, count + 1)));
            count = count + 1;
        }
        j += 1;
    }
    proof {
        assert(all.subrange(0, count) =~= all);
    }
    acc
}

/// Computes one line's cache key: the digest of the line followed by the
/// pattern material.
pub fn compute_cache_key(line: &str, material: &String) -> (r: u64)
    ensures
        r == xxh3_of(line@ + material@),
{
    let mut hashed = line.to_owned();
    hashed.append(material.as_str());
    xxh3_hash(hashed.as_str())
}

proof fn lemma_append_cancel(a: Seq<char>, x: Seq<char>, y: Seq<char>)
    ensures
        a + x == a + y ==> x == y,
{
    if a + x == a + y {
        assert((a + x).len() == a.len() + x.len());
        assert((a + y).len() == a.len() + y.len());
        assert(x.len() == y.len());
        assert forall|i: int| 0 <= i < x.len() implies x[i] == y[i] by {
            assert((a + x)[a.len() + i] == x[i]);
            assert((a + y)[a.len() + i] == y[i]);
        }
        assert(x =~= y);
    }
}

proof fn lemma_head_cancel(a: Seq<char>, b: Seq<char>, t: Seq<char>)
    requires
        a.len() == b.len(),
        a + t == b + t,
    ensures
        a == b,
{
    assert forall|i: int| 0 <= i < a.len() implies a[i] == b[i] by {
        assert((a + t)[i] == a[i]);
        assert((b + t)[i] == b[i]);
    }
    assert(a =~= b);
}

proof fn lemma_join_single_change(l1: Seq<Seq<char>>, l2: Seq<Seq<char>>, k: int)
    requires
        l1.len() == l2.len(),
        0 <= k < l1.len(),
        l1[k] != l2[k],
        forall|j: int| 0 <= j < l1.len() && j != k ==> l1[j] == l2[j],
    ensures
        join_sep(l1) != join_sep(l2),
    decreases l1.len(),
{
    if k == 0 {
        if l1.len() == 1 {
            assert(join_sep(l1) == l1[0]);
            assert(join_sep(l2) == l2[0]);
        } else {
            assert(l1.drop_first() =~= l2.drop_first());
            let tail = spec_sep() + join_sep(l1.drop_first());
            assert(join_sep(l1) =~= l1[0] + tail);
            assert(join_sep(l2) =~= l2[0] + tail);
            if l1[0].len() == l2[0].len() {
                if join_sep(l1) == join_sep(l2) {
                    lemma_head_cancel(l1[0], l2[0], tail);
                }
            } else {
                assert(join_sep(l1).len() != join_sep(l2).len());
            }
        }
    } else {
        assert(l1[0] == l2[0]);
        let t1 = l1.drop_first();
        let t2 = l2.drop_first();
        assert(t1[k - 1] == l1[k]);
        assert(t2[k - 1] == l2[k]);
        assert forall|j: int| 0 <= j < t1.len() && j != k - 1 implies t1[j] == t2[j] by {
            assert(t1[j] == l1[j + 1]);
            assert(t2[j] == l2[j + 1]);
        }
        lemma_join_single_change(t1, t2, k - 1);
        let head = l1[0] + spec_sep();
        assert(join_sep(l1) =~= head + join_sep(t1));
        assert(join_sep(l2) =~= head + join_sep(t2));
        lemma_append_cancel(head, join_sep(t1), join_sep(t2));
    }
}

/// Law: changing any single pattern string, in either list, changes the
/// text hashed to form every line's cache key, so previously cached
/// entries are no longer addressed by it. (The digest itself is an
/// outside function; what is shown is that its input differs.)
pub proof fn lemma_cache_key_sensitivity(
    line: Seq<char>,
    pats1: Seq<Seq<char>>,
    fins1: Seq<Seq<char>>,
    pats2: Seq<Seq<char>>,
    fins2: Seq<Seq<char>>,
    k: int,
)
    requires
        (pats1 + fins1).len() == (pats2 + fins2).len(),
        0 <= k < (pats1 + fins1).len(),
        (pats1 + fins1)[k] != (pats2 + fins2)[k],
        forall|j: int| 0 <= j < (pats1 + fins1).len() && j != k ==> (pats1 + fins1)[j] == (pats2
            + fins2)[j],
    ensures
        line + key_material(pats1, fins1) != line + key_material(pats2, fins2),
{
    lemma_join_single_change(pats1 + fins1, pats2 + fins2, k);
    lemma_append_cancel(line, key_material(pats1, fins1), key_material(pats2, fins2));
}

} // verus!
