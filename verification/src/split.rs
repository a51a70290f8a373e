//! The planner's second pass: splitting a wave so that targets that
//! declare a conflict with each other, or contend for a resource that one
//! of them holds exclusively, never share a wave.
//!
//! Targets are named by their position in id order. Each target of a
//! wave, in order, joins the first sub-wave with which it is compatible,
//! or opens a new one after the others.

use vstd::prelude::*;
use crate::resource::AccessMode;
use crate::plan_laws::{increasing, lemma_split_shape};
use crate::target::{Target, TargetId};

verus! {

/// Target `v` lists the id of target `w` among its `conflicts`.
pub open spec fn declares_conflict(s: Seq<(TargetId, Target)>, v: int, w: int) -> bool {
    exists|j: int|
        0 <= j < s[v].1.conflicts@.len() && (#[trigger] s[v].1.conflicts@[j])@ == s[w].0@
}

/// Targets `v` and `w` reference the same resource id, at least one of
/// the two references asking for exclusive access.
pub open spec fn contends(s: Seq<(TargetId, Target)>, v: int, w: int) -> bool {
    exists|a: int, b: int|
        0 <= a < s[v].1.resources@.len() && 0 <= b < s[w].1.resources@.len() && (#[trigger] s[v].1.resources@[a]).resource_id@
            == (#[trigger] s[w].1.resources@[b]).resource_id@ && (s[v].1.resources@[a].access
            == AccessMode::Exclusive || s[w].1.resources@[b].access == AccessMode::Exclusive)
}

/// Target `v` may join a sub-wave holding `w`: neither lists the other
/// among its `conflicts`, and they do not contend for a resource.
pub open spec fn compatible(s: Seq<(TargetId, Target)>, v: int, w: int) -> bool {
    !declares_conflict(s, v, w) && !declares_conflict(s, w, v) && !contends(s, v, w)
}

/// Targets `v` and `w` are kept apart by a declared conflict: one of them
/// lists the other.
pub open spec fn in_conflict(s: Seq<(TargetId, Target)>, v: int, w: int) -> bool {
    declares_conflict(s, v, w) || declares_conflict(s, w, v)
}

/// Target `v` may join the sub-wave `sub`.
pub open spec fn fits(s: Seq<(TargetId, Target)>, v: int, sub: Seq<usize>) -> bool {
    forall|i: int| 0 <= i < sub.len() ==> compatible(s, v, #[trigger] sub[i] as int)
}

/// The first of the first `m` sub-waves that target `v` fits, or `-1`.
pub open spec fn first_fit(s: Seq<(TargetId, Target)>, v: int, subs: Seq<Seq<usize>>, m: nat) -> int
    decreases m,
{
    if m == 0 {
        -1
    } else {
        let r = first_fit(s, v, subs, (m - 1) as nat);
        if r >= 0 {
            r
        } else if fits(s, v, subs[m - 1]) {
            m - 1
        } else {
            -1
        }
    }
}

/// The sub-waves after target `v` is placed: appended to the first
/// sub-wave it fits, or alone in a new last sub-wave.
pub open spec fn place(s: Seq<(TargetId, Target)>, subs: Seq<Seq<usize>>, v: usize) -> Seq<Seq<usize>> {
    let f = first_fit(s, v as int, subs, subs.len());
    if f >= 0 {
        subs.update(f, subs[f].push(v))
    } else {
        subs.push(seq![v])
    }
}

/// The sub-waves after the first `m` targets of `wave` are placed.
pub open spec fn split_upto(s: Seq<(TargetId, Target)>, wave: Seq<usize>, m: nat) -> Seq<Seq<usize>>
    decreases m,
{
    if m == 0 {
        seq![]
    } else {
        place(s, split_upto(s, wave, (m - 1) as nat), wave[m - 1])
    }
}

/// The sub-waves of `wave`.
pub open spec fn split_wave(s: Seq<(TargetId, Target)>, wave: Seq<usize>) -> Seq<Seq<usize>> {
    split_upto(s, wave, wave.len())
}

/// The sub-waves of the first `m` waves, in order.
pub open spec fn split_all_upto(s: Seq<(TargetId, Target)>, waves: Seq<Seq<usize>>, m: nat) -> Seq<
    Seq<usize>,
>
    decreases m,
{
    if m == 0 {
        seq![]
    } else {
        split_all_upto(s, waves, (m - 1) as nat) + split_wave(s, waves[m - 1])
    }
}

/// Every wave split, the sub-waves of each wave in order.
pub open spec fn split_all(s: Seq<(TargetId, Target)>, waves: Seq<Seq<usize>>) -> Seq<Seq<usize>> {
    split_all_upto(s, waves, waves.len())
}

/// The views of a vector of index vectors.
pub open spec fn index_waves(v: Seq<Vec<usize>>) -> Seq<Seq<usize>> {
    v.map_values(|w: Vec<usize>| w@)
}

/// Whether the id list `ids` holds `id`.
fn lists_id(ids: &Vec<TargetId>, id: &TargetId) -> (r: bool)
    ensures
        r == exists|j: int| 0 <= j < ids@.len() && (#[trigger] ids@[j])@ == id@,
{
    let mut j: usize = 0;
    while j < ids.len()
        invariant
            j <= ids@.len(),
            forall|l: int| 0 <= l < j ==> (#[trigger] ids@[l])@ != id@,
        decreases ids@.len() - j,
    {
        if ids[j].0 == id.0 {
            return true;
        }
        j = j + 1;
    }
    false
}

/// Whether target `v` and a member of `members` are in conflict: one of
/// the two lists the other among its `conflicts`.
fn has_direct_conflict(s: &[(TargetId, Target)], v: usize, members: &Vec<usize>) -> (r: bool)
    requires
        v < s@.len(),
        forall|i: int| 0 <= i < members@.len() ==> #[trigger] members@[i] < s@.len(),
    ensures
        r == exists|i: int| 0 <= i < members@.len() && in_conflict(s@, v as int, #[trigger] members@[i] as int),
{
    let mut i: usize = 0;
    while i < members.len()
        invariant
            i <= members@.len(),
            v < s@.len(),
            forall|i: int| 0 <= i < members@.len() ==> #[trigger] members@[i] < s@.len(),
            forall|k: int| 0 <= k < i ==> !in_conflict(s@, v as int, #[trigger] members@[k] as int),
        decreases members@.len() - i,
    {
        let w = members[i];
        let mine = lists_id(&s[v].1.conflicts, &s[w].0);
        let theirs = lists_id(&s[w].1.conflicts, &s[v].0);
        if mine || theirs {
            proof {
                assert(in_conflict(s@, v as int, members@[i as int] as int));
            }
            return true;
        }
        i = i + 1;
    }
    false
}

/// Whether target `v` contends with a member of `members` for a resource.
fn has_resource_contention(s: &[(TargetId, Target)], v: usize, members: &Vec<usize>) -> (r: bool)
    requires
        v < s@.len(),
        forall|i: int| 0 <= i < members@.len() ==> #[trigger] members@[i] < s@.len(),
    ensures
        r == exists|i: int| 0 <= i < members@.len() && contends(s@, v as int, #[trigger] members@[i] as int),
{
    let mine = &s[v].1.resources;
    let mut i: usize = 0;
    while i < members.len()
        invariant
            i <= members@.len(),
            v < s@.len(),
            mine@ == s@[v as int].1.resources@,
            forall|i: int| 0 <= i < members@.len() ==> #[trigger] members@[i] < s@.len(),
            forall|k: int| 0 <= k < i ==> !contends(s@, v as int, #[trigger] members@[k] as int),
        decreases members@.len() - i,
    {
        let w = members[i];
        let theirs = &s[w].1.resources;
        let mut a: usize = 0;
        while a < mine.len()
            invariant
                a <= mine@.len(),
                i < members@.len(),
                w == members@[i as int],
                w < s@.len(),
                v < s@.len(),
                mine@ == s@[v as int].1.resources@,
                theirs@ == s@[w as int].1.resources@,
                forall|x: int, y: int|
                    0 <= x < a && 0 <= y < theirs@.len() ==> !((#[trigger] mine@[x]).resource_id@
                        == (#[trigger] theirs@[y]).resource_id@ && (mine@[x].access
                        == AccessMode::Exclusive || theirs@[y].access == AccessMode::Exclusive)),
            decreases mine@.len() - a,
        {
            let mut b: usize = 0;
            while b < theirs.len()
                invariant
                    a < mine@.len(),
                    b <= theirs@.len(),
                    i < members@.len(),
                    w == members@[i as int],
                    w < s@.len(),
                    v < s@.len(),
                    mine@ == s@[v as int].1.resources@,
                    theirs@ == s@[w as int].1.resources@,
                    forall|y: int|
                        0 <= y < b ==> !((mine@[a as int]).resource_id@ == (#[trigger] theirs@[y]).resource_id@
                            && (mine@[a as int].access == AccessMode::Exclusive || theirs@[y].access
                            == AccessMode::Exclusive)),
                decreases theirs@.len() - b,
            {
                let x = &mine[a];
                let y = &theirs[b];
                if x.resource_id.0 == y.resource_id.0 && (x.access == AccessMode::Exclusive || y.access
                    == AccessMode::Exclusive) {
                    proof {
                        assert(contends(s@, v as int, members@[i as int] as int));
                    }
                    return true;
                }
                b = b + 1;
            }
            a = a + 1;
        }
        proof {
            assert(!contends(s@, v as int, w as int));
        }
        i = i + 1;
    }
    false
}

/// Whether target `v` may join the sub-wave `members`.
fn fits_members(s: &[(TargetId, Target)], v: usize, members: &Vec<usize>) -> (r: bool)
    requires
        v < s@.len(),
        forall|i: int| 0 <= i < members@.len() ==> #[trigger] members@[i] < s@.len(),
    ensures
        r == fits(s@, v as int, members@),
{
    let c = has_direct_conflict(s, v, members);
    let d = has_resource_contention(s, v, members);
    proof {
        if !c && !d {
            assert forall|i: int| 0 <= i < members@.len() implies compatible(
                s@,
                v as int,
                #[trigger] members@[i] as int,
            ) by {}
        }
        if c {
            let i = choose|i: int|
                0 <= i < members@.len() && in_conflict(s@, v as int, #[trigger] members@[i] as int);
            assert(!compatible(s@, v as int, members@[i] as int));
        }
        if d {
            let i = choose|i: int|
                0 <= i < members@.len() && contends(s@, v as int, #[trigger] members@[i] as int);
            assert(!compatible(s@, v as int, members@[i] as int));
        }
    }
    !c && !d
}

/// Once a fitting sub-wave is found among a prefix, longer prefixes find
/// the same one.
proof fn lemma_first_fit_stable(s: Seq<(TargetId, Target)>, v: int, subs: Seq<Seq<usize>>, a: nat, b: nat)
    requires
        a <= b,
        first_fit(s, v, subs, a) >= 0,
    ensures
        first_fit(s, v, subs, b) == first_fit(s, v, subs, a),
    decreases b - a,
{
    if b > a {
        lemma_first_fit_stable(s, v, subs, a, (b - 1) as nat);
    }
}

/// Splits one wave: each target, in order, joins the first sub-wave it
/// fits, or opens a new one.
fn split_one(s: &[(TargetId, Target)], wave: &Vec<usize>) -> (subs: Vec<Vec<usize>>)
    requires
        forall|i: int| 0 <= i < wave@.len() ==> #[trigger] wave@[i] < s@.len(),
    ensures
        index_waves(subs@) == split_wave(s@, wave@),
        forall|k: int, i: int|
            0 <= k < subs@.len() && 0 <= i < subs@[k]@.len() ==> #[trigger] subs@[k]@[i] < s@.len(),
{
    let mut subs: Vec<Vec<usize>> = Vec::new();
    let mut t: usize = 0;
    while t < wave.len()
        invariant
            t <= wave@.len(),
            forall|i: int| 0 <= i < wave@.len() ==> #[trigger] wave@[i] < s@.len(),
            index_waves(subs@) == split_upto(s@, wave@, t as nat),
            forall|k: int, i: int|
                0 <= k < subs@.len() && 0 <= i < subs@[k]@.len() ==> #[trigger] subs@[k]@[i] < s@.len(),
        decreases wave@.len() - t,
    {
        let v = wave[t];
        let ghost old_subs = index_waves(subs@);
        let mut idx: usize = 0;
        while idx < subs.len() && !fits_members(s, v, &subs[idx])
            invariant
                idx <= subs@.len(),
                v < s@.len(),
                old_subs == index_waves(subs@),
                forall|k: int, i: int|
                    0 <= k < subs@.len() && 0 <= i < subs@[k]@.len() ==> #[trigger] subs@[k]@[i] < s@.len(),
                first_fit(s@, v as int, old_subs, idx as nat) == -1,
            decreases subs@.len() - idx,
        {
            idx = idx + 1;
        }
        if idx < subs.len() {
            proof {
                assert(old_subs[idx as int] == subs@[idx as int]@);
                assert(first_fit(s@, v as int, old_subs, (idx + 1) as nat) == idx);
                lemma_first_fit_stable(s@, v as int, old_subs, (idx + 1) as nat, old_subs.len());
            }
            let mut w = subs[idx].clone();
            proof {
                assert(w@ =~= subs@[idx as int]@);
            }
            w.push(v);
            subs.set(idx, w);
            proof {
                assert(index_waves(subs@) =~= old_subs.update(idx as int, old_subs[idx as int].push(v)));
            }
        } else {
            let mut fresh: Vec<usize> = Vec::new();
            fresh.push(v);
            proof {
                assert(fresh@ =~= seq![v]);
            }
            subs.push(fresh);
            proof {
                assert(index_waves(subs@) =~= old_subs.push(seq![v]));
            }
        }
        proof {
            assert forall|k: int, i: int|
                0 <= k < subs@.len() && 0 <= i < subs@[k]@.len() implies #[trigger] subs@[k]@[i] < s@.len() by {
                assert(index_waves(subs@)[k] == subs@[k]@);
                if k < old_subs.len() {
                    assert(old_subs[k] == index_waves(subs@)[k] || (k == idx && index_waves(subs@)[k]
                        == old_subs[k].push(v)));
                }
            }
        }
        t = t + 1;
    }
    subs
}

/// Splits every wave and concatenates the sub-waves, keeping the order of
/// the waves. The waves come in id order (the planner sorts each level),
/// and each sub-wave keeps that order, so every sub-wave is sorted.
pub(crate) fn split_conflicting_waves(s: &[(TargetId, Target)], waves: Vec<Vec<usize>>) -> (r: Vec<Vec<usize>>)
    requires
        forall|k: int, i: int|
            0 <= k < waves@.len() && 0 <= i < waves@[k]@.len() ==> #[trigger] waves@[k]@[i] < s@.len(),
        forall|k: int| 0 <= k < waves@.len() ==> increasing(#[trigger] waves@[k]@),
    ensures
        index_waves(r@) == split_all(s@, index_waves(waves@)),
        forall|k: int, i: int| 0 <= k < r@.len() && 0 <= i < r@[k]@.len() ==> #[trigger] r@[k]@[i] < s@.len(),
        forall|k: int| 0 <= k < r@.len() ==> (#[trigger] r@[k]@).len() > 0 && increasing(r@[k]@),
{
    let ghost iw = index_waves(waves@);
    let mut result: Vec<Vec<usize>> = Vec::new();
    let mut k: usize = 0;
    while k < waves.len()
        invariant
            k <= waves@.len(),
            iw == index_waves(waves@),
            forall|k: int, i: int|
                0 <= k < waves@.len() && 0 <= i < waves@[k]@.len() ==> #[trigger] waves@[k]@[i] < s@.len(),
            index_waves(result@) == split_all_upto(s@, iw, k as nat),
            forall|k: int, i: int|
                0 <= k < result@.len() && 0 <= i < result@[k]@.len() ==> #[trigger] result@[k]@[i] < s@.len(),
            forall|k: int| 0 <= k < waves@.len() ==> increasing(#[trigger] waves@[k]@),
            forall|j: int| 0 <= j < result@.len() ==> (#[trigger] result@[j]@).len() > 0 && increasing(result@[j]@),
        decreases waves@.len() - k,
    {
        proof {
            assert forall|i: int| 0 <= i < waves@[k as int]@.len() implies #[trigger] waves@[k as int]@[i]
                < s@.len() by {}
        }
        let mut subs = split_one(s, &waves[k]);
        proof {
            lemma_split_shape(s@, waves@[k as int]@, waves@[k as int]@.len());
            assert forall|j: int| 0 <= j < subs@.len() implies (#[trigger] subs@[j]@).len() > 0 && increasing(
                subs@[j]@,
            ) by {
                assert(index_waves(subs@)[j] == subs@[j]@);
            }
        }
        let ghost before = result@;
        let ghost added = subs@;
        result.append(&mut subs);
        proof {
            assert(result@ =~= before + added);
            assert(index_waves(result@) =~= index_waves(before) + index_waves(added));
            assert(iw[k as int] == waves@[k as int]@);
            assert forall|j: int, i: int|
                0 <= j < result@.len() && 0 <= i < result@[j]@.len() implies #[trigger] result@[j]@[i] < s@.len() by {
                if j >= before.len() {
                    assert(result@[j] == added[j - before.len()]);
                } else {
                    assert(result@[j] == before[j]);
                }
            }
            assert forall|j: int| 0 <= j < result@.len() implies (#[trigger] result@[j]@).len() > 0 && increasing(
                result@[j]@,
            ) by {
                if j >= before.len() {
                    assert(result@[j] == added[j - before.len()]);
                } else {
                    assert(result@[j] == before[j]);
                }
            }
        }
        k = k + 1;
    }
    result
}

} // verus!
