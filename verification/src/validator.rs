//! Pipeline validation.
//!
//! [`validate`] checks that every `requires` and `conflicts` reference
//! names a target of the pipeline, and that no resource id is declared
//! twice. The reference check, [`check_references`], is shared with the
//! planner, which runs it before it builds the dependency graph.

use vstd::prelude::*;
use crate::error::{KilnError, KilnErrorKind, ReferenceRelation};
use crate::resource::Resource;
use crate::target::{Pipeline, Target, TargetId, TargetMap, has_key};

verus! {

/// The position of the first id among the first `m` of `ids` that is not
/// a key of `s`, or `-1`.
pub open spec fn first_unknown_upto(s: Seq<(TargetId, Target)>, ids: Seq<TargetId>, m: nat) -> int
    decreases m,
{
    if m == 0 {
        -1
    } else {
        let r = first_unknown_upto(s, ids, (m - 1) as nat);
        if r >= 0 {
            r
        } else if !has_key(s, ids[m - 1]@) {
            m - 1
        } else {
            -1
        }
    }
}

/// The position of the first id of `ids` that is not a key of `s`, or `-1`.
pub open spec fn first_unknown(s: Seq<(TargetId, Target)>, ids: Seq<TargetId>) -> int {
    first_unknown_upto(s, ids, ids.len())
}

/// Whether every `requires` and `conflicts` entry of `t` is a key of `s`.
pub open spec fn refs_known(s: Seq<(TargetId, Target)>, t: Target) -> bool {
    first_unknown(s, t.requires@) < 0 && first_unknown(s, t.conflicts@) < 0
}

/// The position of the first of the first `m` entries of `s` whose target
/// names an unknown id, or `-1`.
pub open spec fn first_bad_target(s: Seq<(TargetId, Target)>, m: nat) -> int
    decreases m,
{
    if m == 0 {
        -1
    } else {
        let r = first_bad_target(s, (m - 1) as nat);
        if r >= 0 {
            r
        } else if !refs_known(s, s[m - 1].1) {
            m - 1
        } else {
            -1
        }
    }
}

/// Whether every reference of every target of `s` names a target of `s`.
pub open spec fn all_refs_known(s: Seq<(TargetId, Target)>) -> bool {
    first_bad_target(s, s.len()) < 0
}

/// The first unknown reference, scanning targets in id order and, within
/// a target, its `requires` before its `conflicts`: the unknown id, the
/// id of the target naming it, and the relation.
pub open spec fn unknown_reference(s: Seq<(TargetId, Target)>) -> Option<
    (Seq<char>, Seq<char>, ReferenceRelation),
> {
    let i = first_bad_target(s, s.len());
    if i < 0 {
        None
    } else {
        let t = s[i].1;
        let r = first_unknown(s, t.requires@);
        if r >= 0 {
            Some((t.requires@[r]@, s[i].0@, ReferenceRelation::Requires))
        } else {
            Some((t.conflicts@[first_unknown(s, t.conflicts@)]@, s[i].0@, ReferenceRelation::Conflicts))
        }
    }
}

/// Whether `e` is the unknown-reference error for `x`.
pub open spec fn is_unknown_reference_error(
    e: KilnError,
    x: (Seq<char>, Seq<char>, ReferenceRelation),
) -> bool {
    e.kind() matches KilnErrorKind::UnknownTargetReference { target, referenced_by, relation } && (
    target@, referenced_by@, relation) == x
}

/// What [`first_unknown_upto`] finds: an unknown id before which all
/// ids are known, or none at all.
pub proof fn lemma_first_unknown(s: Seq<(TargetId, Target)>, ids: Seq<TargetId>, m: nat)
    requires
        m <= ids.len(),
    ensures
        -1 <= first_unknown_upto(s, ids, m) < m,
        first_unknown_upto(s, ids, m) >= 0 ==> !has_key(s, ids[first_unknown_upto(s, ids, m)]@),
        forall|j: int|
            0 <= j < m && (first_unknown_upto(s, ids, m) < 0 || j < first_unknown_upto(s, ids, m))
                ==> has_key(s, #[trigger] ids[j]@),
    decreases m,
{
    if m > 0 {
        lemma_first_unknown(s, ids, (m - 1) as nat);
    }
}

/// What [`first_bad_target`] finds: a target with an unknown reference
/// before which all targets are fine, or none at all.
pub proof fn lemma_first_bad_target(s: Seq<(TargetId, Target)>, m: nat)
    requires
        m <= s.len(),
    ensures
        -1 <= first_bad_target(s, m) < m,
        first_bad_target(s, m) >= 0 ==> !refs_known(s, s[first_bad_target(s, m)].1),
        forall|j: int|
            0 <= j < m && (first_bad_target(s, m) < 0 || j < first_bad_target(s, m)) ==> refs_known(
                s,
                #[trigger] s[j].1,
            ),
    decreases m,
{
    if m > 0 {
        lemma_first_bad_target(s, (m - 1) as nat);
    }
}

/// Scans `ids` for the first id that is not a target of `targets`.
fn find_unknown(targets: &TargetMap, ids: &Vec<TargetId>) -> (r: Option<usize>)
    ensures
        r matches Some(j) ==> j == first_unknown(targets@, ids@) && j < ids@.len(),
        r is None ==> first_unknown(targets@, ids@) < 0,
{
    let mut j: usize = 0;
    while j < ids.len()
        invariant
            j <= ids@.len(),
            first_unknown_upto(targets@, ids@, j as nat) < 0,
        decreases ids@.len() - j,
    {
        if !targets.contains(&ids[j]) {
            proof {
                lemma_first_unknown(targets@, ids@, ids@.len());
                let f = first_unknown_upto(targets@, ids@, (j + 1) as nat);
                assert(f == j);
                assert forall|m: nat| j + 1 <= m <= ids@.len() implies first_unknown_upto(
                    targets@,
                    ids@,
                    m,
                ) == j by {
                    lemma_first_unknown_stable(targets@, ids@, (j + 1) as nat, m);
                }
            }
            return Some(j);
        }
        j = j + 1;
    }
    None
}

/// Once an unknown id is found in a prefix, longer prefixes find the same one.
proof fn lemma_first_unknown_stable(s: Seq<(TargetId, Target)>, ids: Seq<TargetId>, a: nat, b: nat)
    requires
        a <= b,
        first_unknown_upto(s, ids, a) >= 0,
    ensures
        first_unknown_upto(s, ids, b) == first_unknown_upto(s, ids, a),
    decreases b - a,
{
    if b > a {
        lemma_first_unknown_stable(s, ids, a, (b - 1) as nat);
    }
}

/// Once a bad target is found in a prefix, longer prefixes find the same one.
proof fn lemma_first_bad_target_stable(s: Seq<(TargetId, Target)>, a: nat, b: nat)
    requires
        a <= b,
        first_bad_target(s, a) >= 0,
    ensures
        first_bad_target(s, b) == first_bad_target(s, a),
    decreases b - a,
{
    if b > a {
        lemma_first_bad_target_stable(s, a, (b - 1) as nat);
    }
}

/// Checks that every `requires` and `conflicts` entry names a target of
/// `targets`. Fails with the first unknown reference, scanning targets in
/// id order and `requires` before `conflicts`.
pub fn check_references(targets: &TargetMap) -> (r: Result<(), KilnError>)
    ensures
        r is Ok <==> unknown_reference(targets@) is None,
        r matches Err(e) ==> is_unknown_reference_error(e, unknown_reference(targets@)->0),
{
    let entries = targets.as_slice();
    let mut i: usize = 0;
    while i < entries.len()
        invariant
            entries@ == targets@,
            i <= entries@.len(),
            first_bad_target(targets@, i as nat) < 0,
        decreases entries@.len() - i,
    {
        let id = &entries[i].0;
        let t = &entries[i].1;
        let bad_req = find_unknown(targets, &t.requires);
        let bad = match bad_req {
            Some(j) => Some((t.requires[j].as_str(), ReferenceRelation::Requires)),
            None => match find_unknown(targets, &t.conflicts) {
                Some(j) => Some((t.conflicts[j].as_str(), ReferenceRelation::Conflicts)),
                None => None,
            },
        };
        match bad {
            Some((missing, relation)) => {
                proof {
                    assert(first_bad_target(targets@, (i + 1) as nat) == i);
                    lemma_first_bad_target_stable(targets@, (i + 1) as nat, targets@.len());
                }
                return Err(KilnError::unknown_target_reference(missing, id.as_str(), relation));
            },
            None => {},
        }
        i = i + 1;
    }
    Ok(())
}

/// The position of the first resource among the first `m` whose id was
/// already declared by an earlier resource, or `-1`.
pub open spec fn first_duplicate_upto(rs: Seq<Resource>, m: nat) -> int
    decreases m,
{
    if m == 0 {
        -1
    } else {
        let r = first_duplicate_upto(rs, (m - 1) as nat);
        if r >= 0 {
            r
        } else if exists|i: int| 0 <= i < m - 1 && (#[trigger] rs[i]).id@ == rs[m - 1].id@ {
            m - 1
        } else {
            -1
        }
    }
}

/// The position of the first resource whose id repeats an earlier one, or `-1`.
pub open spec fn first_duplicate(rs: Seq<Resource>) -> int {
    first_duplicate_upto(rs, rs.len())
}

proof fn lemma_first_duplicate_stable(rs: Seq<Resource>, a: nat, b: nat)
    requires
        a <= b,
        first_duplicate_upto(rs, a) >= 0,
    ensures
        first_duplicate_upto(rs, b) == first_duplicate_upto(rs, a),
    decreases b - a,
{
    if b > a {
        lemma_first_duplicate_stable(rs, a, (b - 1) as nat);
    }
}

/// What `first_duplicate_upto` finds among the first `m` resources: `-1`
/// exactly when their ids are pairwise distinct, else the first position
/// whose id repeats an earlier one.
proof fn lemma_first_duplicate_upto(rs: Seq<Resource>, m: nat)
    requires
        m <= rs.len(),
    ensures
        first_duplicate_upto(rs, m) < 0 <==> forall|a: int, b: int|
            0 <= a < b < m ==> (#[trigger] rs[a]).id@ != (#[trigger] rs[b]).id@,
        first_duplicate_upto(rs, m) >= 0 ==> ({
            let d = first_duplicate_upto(rs, m);
            &&& d < m
            &&& exists|a: int| 0 <= a < d && (#[trigger] rs[a]).id@ == rs[d].id@
            &&& forall|a: int, b: int| 0 <= a < b < d ==> (#[trigger] rs[a]).id@ != (#[trigger] rs[b]).id@
        }),
    decreases m,
{
    if m > 0 {
        lemma_first_duplicate_upto(rs, (m - 1) as nat);
        let r = first_duplicate_upto(rs, (m - 1) as nat);
        if r < 0 {
            if exists|i: int| 0 <= i < m - 1 && (#[trigger] rs[i]).id@ == rs[m - 1].id@ {
                let i = choose|i: int| 0 <= i < m - 1 && (#[trigger] rs[i]).id@ == rs[m - 1].id@;
                assert(!(forall|a: int, b: int| 0 <= a < b < m ==> (#[trigger] rs[a]).id@ != (#[trigger] rs[b]).id@)) by {
                    assert(rs[i].id@ == rs[m - 1].id@);
                }
            } else {
                assert forall|a: int, b: int| 0 <= a < b < m implies (#[trigger] rs[a]).id@ != (#[trigger] rs[b]).id@ by {
                    if b == m - 1 {
                        assert(!(0 <= a < m - 1 && rs[a].id@ == rs[m - 1].id@));
                    }
                }
            }
        } else {
            let a0 = choose|a: int| 0 <= a < r && (#[trigger] rs[a]).id@ == rs[r].id@;
            assert(!(forall|a: int, b: int| 0 <= a < b < m ==> (#[trigger] rs[a]).id@ != (#[trigger] rs[b]).id@)) by {
                assert(rs[a0].id@ == rs[r].id@);
            }
        }
    }
}

/// Law: a pipeline's resource ids are compared pairwise, wherever the two
/// declarations stand: no repeat is found exactly when all ids are
/// distinct, and a repeat found is the first declaration whose id an
/// earlier declaration already used.
pub proof fn duplicate_resources_are_found_anywhere(rs: Seq<Resource>)
    ensures
        first_duplicate(rs) < 0 <==> forall|a: int, b: int|
            0 <= a < b < rs.len() ==> (#[trigger] rs[a]).id@ != (#[trigger] rs[b]).id@,
        first_duplicate(rs) >= 0 ==> ({
            let d = first_duplicate(rs);
            &&& d < rs.len()
            &&& exists|a: int| 0 <= a < d && (#[trigger] rs[a]).id@ == rs[d].id@
            &&& forall|a: int, b: int| 0 <= a < b < d ==> (#[trigger] rs[a]).id@ != (#[trigger] rs[b]).id@
        }),
{
    lemma_first_duplicate_upto(rs, rs.len());
}

/// Validates a pipeline: every reference names a target of the pipeline
/// (else the first unknown reference, as [`check_references`] reports
/// it), and no resource id is declared twice (else the id of the first
/// resource that repeats an earlier one).
pub fn validate(pipeline: &Pipeline) -> (r: Result<(), KilnError>)
    ensures
        r is Ok <==> (unknown_reference(pipeline.targets@) is None && first_duplicate(
            pipeline.resources@,
        ) < 0),
        r is Ok ==> forall|a: int, b: int|
            0 <= a < b < pipeline.resources@.len() ==> (#[trigger] pipeline.resources@[a]).id@
                != (#[trigger] pipeline.resources@[b]).id@,
        unknown_reference(pipeline.targets@) is None && (exists|a: int, b: int|
            0 <= a < b < pipeline.resources@.len() && (#[trigger] pipeline.resources@[a]).id@
                == (#[trigger] pipeline.resources@[b]).id@) ==> (r matches Err(e)
            && e.kind() matches KilnErrorKind::DuplicateTarget { target } && exists|a: int, b: int|
            0 <= a < b < pipeline.resources@.len() && (#[trigger] pipeline.resources@[a]).id@
                == (#[trigger] pipeline.resources@[b]).id@ && target@ == pipeline.resources@[b].id@),
        unknown_reference(pipeline.targets@) is Some ==> (r matches Err(e)
            && is_unknown_reference_error(e, unknown_reference(pipeline.targets@)->0)),
        unknown_reference(pipeline.targets@) is None && first_duplicate(pipeline.resources@) >= 0
            ==> (r matches Err(e) && e.kind() matches KilnErrorKind::DuplicateTarget { target }
            && target@ == pipeline.resources@[first_duplicate(pipeline.resources@)].id@),
{
    proof {
        duplicate_resources_are_found_anywhere(pipeline.resources@);
    }
    match check_references(&pipeline.targets) {
        Err(e) => return Err(e),
        Ok(()) => {},
    }
    let rs = &pipeline.resources;
    let mut j: usize = 0;
    while j < rs.len()
        invariant
            rs@ == pipeline.resources@,
            unknown_reference(pipeline.targets@) is None,
            j <= rs@.len(),
            first_duplicate_upto(rs@, j as nat) < 0,
            forall|a: int, b: int| 0 <= a < b < j ==> rs@[a].id@ != rs@[b].id@,
        decreases rs@.len() - j,
    {
        let mut i: usize = 0;
        let mut dup = false;
        while i < j
            invariant
                i <= j < rs@.len(),
                !dup ==> forall|a: int| 0 <= a < i ==> (#[trigger] rs@[a]).id@ != rs@[j as int].id@,
                dup ==> exists|a: int| 0 <= a < j && (#[trigger] rs@[a]).id@ == rs@[j as int].id@,
            decreases j - i,
        {
            if !dup && rs[i].id.0 == rs[j].id.0 {
                dup = true;
            }
            i = i + 1;
        }
        if dup {
            proof {
                assert(first_duplicate_upto(rs@, (j + 1) as nat) == j);
                lemma_first_duplicate_stable(rs@, (j + 1) as nat, rs@.len());
            }
            return Err(KilnError::duplicate_target(rs[j].id.as_str()));
        }
        proof {
            assert(!(exists|a: int| 0 <= a < j && (#[trigger] rs@[a]).id@ == rs@[j as int].id@));
        }
        j = j + 1;
    }
    Ok(())
}

impl Pipeline {
    /// Validates this pipeline (see [`validate`]).
    pub fn validate(&self) -> (r: Result<(), KilnError>)
        ensures
            r is Ok <==> (unknown_reference(self.targets@) is None && first_duplicate(
                self.resources@,
            ) < 0),
            r is Ok ==> forall|a: int, b: int|
                0 <= a < b < self.resources@.len() ==> (#[trigger] self.resources@[a]).id@
                    != (#[trigger] self.resources@[b]).id@,
            unknown_reference(self.targets@) is None && (exists|a: int, b: int|
                0 <= a < b < self.resources@.len() && (#[trigger] self.resources@[a]).id@
                    == (#[trigger] self.resources@[b]).id@) ==> (r matches Err(e)
                && e.kind() matches KilnErrorKind::DuplicateTarget { target } && exists|a: int, b: int|
                0 <= a < b < self.resources@.len() && (#[trigger] self.resources@[a]).id@
                    == (#[trigger] self.resources@[b]).id@ && target@ == self.resources@[b].id@),
            unknown_reference(self.targets@) is Some ==> (r matches Err(e)
                && is_unknown_reference_error(e, unknown_reference(self.targets@)->0)),
            unknown_reference(self.targets@) is None && first_duplicate(self.resources@) >= 0 ==> (
            r matches Err(e) && e.kind() matches KilnErrorKind::DuplicateTarget { target }
                && target@ == self.resources@[first_duplicate(self.resources@)].id@),
    {
        validate(self)
    }
}

} // verus!
