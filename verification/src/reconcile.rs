//! Deletion-vector reconciler: carries, across one rewrite pass, the
//! mapping from referenced data file path to the single deletion-vector
//! record kept for it. Existing entries are observed (rejecting
//! duplicates), newly added records unconditionally supersede older
//! ones for the same path, and draining yields the survivors.

use vstd::prelude::*;

use crate::model::{contains_path, path_in, OutputEntry, RewriteError};

verus! {

/// A deletion-vector record held for one referenced data file.
#[derive(Debug)]
pub struct DvSlot {
    /// Path of the data file the deletion vector refers to.
    pub referenced: String,
    /// The output entry held for that path.
    pub entry: OutputEntry,
}

/// No two slots name the same referenced path.
pub open spec fn slot_refs_distinct(s: Seq<DvSlot>) -> bool {
    forall|k1: int, k2: int| 0 <= k1 < k2 < s.len() ==> s[k1].referenced@ != s[k2].referenced@
}

/// Some slot names the path `p`.
pub open spec fn has_ref(s: Seq<DvSlot>, p: Seq<char>) -> bool {
    exists|k: int| 0 <= k < s.len() && s[k].referenced@ == p
}

/// `slot` is an observed slot (at position `lo` or later in `obs`)
/// that no addition supersedes, or one of the additions (at position
/// `alo` or later in `adds`).
pub open spec fn drained_slot(
    slot: DvSlot,
    obs: Seq<DvSlot>,
    adds: Seq<DvSlot>,
    lo: int,
    alo: int,
) -> bool {
    (exists|j: int|
        #![trigger obs[j]]
        lo <= j < obs.len() && slot == obs[j] && !has_ref(adds, obs[j].referenced@)) || (exists|j: int|
        #![trigger adds[j]]
        alo <= j < adds.len() && slot == adds[j])
}

/// Every slot of `out` is a surviving observed slot or an addition,
/// within the given position bounds.
pub open spec fn drained_from(
    out: Seq<DvSlot>,
    obs: Seq<DvSlot>,
    adds: Seq<DvSlot>,
    lo: int,
    alo: int,
) -> bool {
    forall|k: int|
        #![trigger out[k]]
        0 <= k < out.len() ==> drained_slot(out[k], obs, adds, lo, alo)
}

/// Every observed slot at position `lo` or later that no addition
/// supersedes is in `out`.
pub open spec fn covers_observed(out: Seq<DvSlot>, obs: Seq<DvSlot>, adds: Seq<DvSlot>, lo: int) -> bool {
    forall|j: int|
        #![trigger obs[j]]
        lo <= j < obs.len() && !has_ref(adds, obs[j].referenced@) ==> out.contains(obs[j])
}

/// Every addition at position `alo` or later is in `out`.
pub open spec fn covers_additions(out: Seq<DvSlot>, adds: Seq<DvSlot>, alo: int) -> bool {
    forall|j: int| #![trigger adds[j]] alo <= j < adds.len() ==> out.contains(adds[j])
}

/// Reconciler state for one rewrite pass. Observed existing entries and
/// newly added records are kept apart so that an addition supersedes an
/// observed entry at drain time, exactly once, whatever the order of
/// calls within each phase.
pub struct DeletionVectorReconciler {
    observed: Vec<DvSlot>,
    additions: Vec<DvSlot>,
}

impl DeletionVectorReconciler {
    /// Existing deletion-vector entries kept so far, in observation order.
    pub closed spec fn observed(self) -> Seq<DvSlot> {
        self.observed@
    }

    /// Newly added deletion-vector records, at most one per referenced path.
    pub closed spec fn additions(self) -> Seq<DvSlot> {
        self.additions@
    }

    /// At most one held record per referenced path, in each phase.
    pub open spec fn wf(self) -> bool {
        slot_refs_distinct(self.observed()) && slot_refs_distinct(self.additions())
    }

    /// An empty reconciler.
    pub fn new() -> (r: Self)
        ensures
            r.observed().len() == 0,
            r.additions().len() == 0,
            r.wf(),
    {
        DeletionVectorReconciler { observed: Vec::new(), additions: Vec::new() }
    }

    /// Index of the slot naming `p`, if any.
    fn find_ref(slots: &Vec<DvSlot>, p: &String) -> (r: Option<usize>)
        ensures
            match r {
                Some(j) => 0 <= j < slots@.len() && slots@[j as int].referenced@ == p@,
                None => !has_ref(slots@, p@),
            },
    {
        let n = slots.len();
        let mut i: usize = 0;
        while i < n
            invariant
                n == slots@.len(),
                0 <= i <= n,
                forall|k: int| 0 <= k < i ==> slots@[k].referenced@ != p@,
            decreases n - i,
        {
            if slots[i].referenced == *p {
                return Some(i);
            }
            i = i + 1;
        }
        None
    }

    /// Observe one existing deletion-vector entry, located at position
    /// (`manifest`, `entry`) of the input list and referencing
    /// `referenced`. An entry whose referenced file is in the removal
    /// set is dropped; a second surviving entry for the same path is
    /// upstream corruption and fails with `DuplicateDeletionVector`.
    pub fn observe_existing(
        &mut self,
        referenced: &String,
        manifest: usize,
        entry: usize,
        removals: &Vec<String>,
    ) -> (r: Result<(), RewriteError>)
        requires
            old(self).wf(),
        ensures
            final(self).wf(),
            final(self).additions() == old(self).additions(),
            path_in(removals@, referenced@) ==> r is Ok && final(self).observed()
                == old(self).observed(),
            !path_in(removals@, referenced@) && has_ref(old(self).observed(), referenced@)
                ==> r == Err::<(), RewriteError>(RewriteError::DuplicateDeletionVector)
                && final(self).observed() == old(self).observed(),
            !path_in(removals@, referenced@) && !has_ref(old(self).observed(), referenced@)
                ==> r is Ok && final(self).observed() == old(self).observed().push(
                (DvSlot { referenced: *referenced, entry: OutputEntry::Kept(manifest, entry) }),
            ),
    {
        if contains_path(removals, referenced) {
            return Ok(());
        }
        match Self::find_ref(&self.observed, referenced) {
            Some(_) => Err(RewriteError::DuplicateDeletionVector),
            None => {
                self.observed.push(
                    DvSlot { referenced: referenced.clone(), entry: OutputEntry::Kept(manifest, entry) },
                );
                Ok(())
            },
        }
    }

    /// Record one newly added deletion-vector record for `referenced`:
    /// any record already held for that path is removed first, so new
    /// deletion vectors always win over old ones for the same data file.
    pub fn apply_addition(&mut self, referenced: &String, entry: OutputEntry)
        requires
            old(self).wf(),
        ensures
            final(self).wf(),
            final(self).observed() == old(self).observed(),
            final(self).additions().len() >= 1,
            final(self).additions().last() == (DvSlot { referenced: *referenced, entry: entry }),
            !has_ref(old(self).additions(), referenced@) ==> final(self).additions().drop_last()
                == old(self).additions(),
            has_ref(old(self).additions(), referenced@) ==> exists|j: int|
                0 <= j < old(self).additions().len() && old(self).additions()[j].referenced@
                    == referenced@ && final(self).additions().drop_last()
                    == old(self).additions().remove(j),
    {
        let ghost adds0 = self.additions@;
        match Self::find_ref(&self.additions, referenced) {
            Some(j) => {
                self.additions.remove(j);
                proof {
                    assert forall|k1: int, k2: int|
                        0 <= k1 < k2 < self.additions@.len() implies self.additions@[k1].referenced@
                        != self.additions@[k2].referenced@ by {
                        assert(self.additions@[k1] == if k1 < j {
                            adds0[k1]
                        } else {
                            adds0[k1 + 1]
                        });
                        assert(self.additions@[k2] == if k2 < j {
                            adds0[k2]
                        } else {
                            adds0[k2 + 1]
                        });
                    }
                    assert forall|k: int| 0 <= k < self.additions@.len() implies self.additions@[k].referenced@
                        != referenced@ by {
                        assert(self.additions@[k] == if k < j {
                            adds0[k]
                        } else {
                            adds0[k + 1]
                        });
                    }
                }
            },
            None => {},
        }
        self.additions.push(DvSlot { referenced: referenced.clone(), entry });
    }


    /// Drain the reconciler: every observed entry not superseded by an
    /// addition, then every addition. The result holds at most one
    /// record per referenced path, covers every surviving observed
    /// entry and every addition, and holds nothing else.
    pub fn drain(self) -> (r: Vec<DvSlot>)
        requires
            self.wf(),
        ensures
            slot_refs_distinct(r@),
            drained_from(r@, self.observed(), self.additions(), 0, 0),
            covers_observed(r@, self.observed(), self.additions(), 0),
            covers_additions(r@, self.additions(), 0),
    {
        let ghost obs0 = self.observed@;
        let ghost adds0 = self.additions@;
        let DeletionVectorReconciler { observed: mut observed, additions: mut additions } = self;
        let mut out: Vec<DvSlot> = Vec::new();
        while observed.len() > 0
            invariant
                observed@.len() <= obs0.len(),
                observed@ =~= obs0.subrange(0, observed@.len() as int),
                additions@ == adds0,
                slot_refs_distinct(obs0),
                slot_refs_distinct(adds0),
                drained_from(out@, obs0, adds0, observed@.len() as int, adds0.len() as int),
                covers_observed(out@, obs0, adds0, observed@.len() as int),
                slot_refs_distinct(out@),
            decreases observed@.len(),
        {
            let slot = observed.pop().unwrap();
            let ghost jnew = observed@.len() as int;
            let ghost out_pre = out@;
            proof {
                assert(slot == obs0[jnew]);
            }
            match Self::find_ref(&additions, &slot.referenced) {
                Some(_) => {
                    // superseded by an addition for the same path: dropping it
                    // leaves coverage at `jnew` vacuous
                    proof {
                        assert(has_ref(adds0, obs0[jnew].referenced@));
                        lemma_drained_widen(
                            out@,
                            obs0,
                            adds0,
                            jnew + 1,
                            adds0.len() as int,
                            jnew,
                            adds0.len() as int,
                        );
                        assert forall|j: int|
                            #![trigger obs0[j]]
                            jnew <= j < obs0.len() && !has_ref(adds0, obs0[j].referenced@) implies out@.contains(
                            obs0[j],
                        ) by {
                            assert(j != jnew);
                        }
                        assert(covers_observed(out@, obs0, adds0, jnew));
                    }
                },
                None => {
                    proof {
                        assert(!has_ref(adds0, obs0[jnew].referenced@));
                        assert forall|k: int| 0 <= k < out@.len() implies out@[k].referenced@
                            != slot.referenced@ by {
                            lemma_drained_member(
                                out@,
                                obs0,
                                adds0,
                                jnew + 1,
                                adds0.len() as int,
                                k,
                            );
                            lemma_slot_ref_differs_observed(
                                out@[k],
                                obs0,
                                adds0,
                                jnew + 1,
                                jnew,
                            );
                        }
                    }
                    out.push(slot);
                    proof {
                        assert(drained_slot(obs0[jnew], obs0, adds0, jnew, adds0.len() as int));
                        lemma_drained_push(
                            out_pre,
                            obs0[jnew],
                            obs0,
                            adds0,
                            jnew + 1,
                            adds0.len() as int,
                            jnew,
                            adds0.len() as int,
                        );
                        assert(out@ == out_pre.push(obs0[jnew]));
                        assert forall|j: int|
                            #![trigger obs0[j]]
                            jnew <= j < obs0.len() && !has_ref(adds0, obs0[j].referenced@) implies out@.contains(
                            obs0[j],
                        ) by {
                            if j == jnew {
                                lemma_contains_push(out_pre, obs0[jnew], obs0[j]);
                            } else {
                                assert(out_pre.contains(obs0[j]));
                                lemma_contains_push(out_pre, obs0[jnew], obs0[j]);
                            }
                        }
                        assert(covers_observed(out@, obs0, adds0, jnew));
                    }
                },
            }
        }
        proof {
            assert(covers_additions(out@, adds0, adds0.len() as int));
        }
        while additions.len() > 0
            invariant
                additions@.len() <= adds0.len(),
                additions@ =~= adds0.subrange(0, additions@.len() as int),
                slot_refs_distinct(obs0),
                slot_refs_distinct(adds0),
                drained_from(out@, obs0, adds0, 0, additions@.len() as int),
                covers_observed(out@, obs0, adds0, 0),
                covers_additions(out@, adds0, additions@.len() as int),
                slot_refs_distinct(out@),
            decreases additions@.len(),
        {
            let slot = additions.pop().unwrap();
            let ghost jnew = additions@.len() as int;
            let ghost out_pre = out@;
            proof {
                assert(slot == adds0[jnew]);
                assert forall|k: int| 0 <= k < out@.len() implies out@[k].referenced@
                    != slot.referenced@ by {
                    lemma_drained_member(out@, obs0, adds0, 0, jnew + 1, k);
                    lemma_slot_ref_differs_addition(out@[k], obs0, adds0, jnew + 1, jnew);
                }
            }
            out.push(slot);
            proof {
                assert(drained_slot(adds0[jnew], obs0, adds0, 0, jnew));
                lemma_drained_push(out_pre, adds0[jnew], obs0, adds0, 0, jnew + 1, 0, jnew);
                assert(out@ == out_pre.push(adds0[jnew]));
                assert forall|j: int|
                    #![trigger obs0[j]]
                    0 <= j < obs0.len() && !has_ref(adds0, obs0[j].referenced@) implies out@.contains(
                    obs0[j],
                ) by {
                    assert(out_pre.contains(obs0[j]));
                    lemma_contains_push(out_pre, adds0[jnew], obs0[j]);
                }
                assert(covers_observed(out@, obs0, adds0, 0));
                assert forall|j: int|
                    #![trigger adds0[j]]
                    jnew <= j < adds0.len() implies out@.contains(adds0[j]) by {
                    if j != jnew {
                        assert(out_pre.contains(adds0[j]));
                    }
                    lemma_contains_push(out_pre, adds0[jnew], adds0[j]);
                }
                assert(covers_additions(out@, adds0, jnew));
            }
        }
        out
    }
}

/// One member of a drained sequence is itself a drained slot, within
/// the same position bounds.
proof fn lemma_drained_member(
    out: Seq<DvSlot>,
    obs: Seq<DvSlot>,
    adds: Seq<DvSlot>,
    lo: int,
    alo: int,
    k: int,
)
    requires
        drained_from(out, obs, adds, lo, alo),
        0 <= k < out.len(),
    ensures
        drained_slot(out[k], obs, adds, lo, alo),
{
    let slot = out[k];
}

/// Weakening the position bounds keeps a slot drained.
proof fn lemma_drained_slot_widen(
    slot: DvSlot,
    obs: Seq<DvSlot>,
    adds: Seq<DvSlot>,
    lo1: int,
    alo1: int,
    lo2: int,
    alo2: int,
)
    requires
        drained_slot(slot, obs, adds, lo1, alo1),
        lo2 <= lo1,
        alo2 <= alo1,
    ensures
        drained_slot(slot, obs, adds, lo2, alo2),
{
    if exists|j: int|
        #![trigger obs[j]]
        lo1 <= j < obs.len() && slot == obs[j] && !has_ref(adds, obs[j].referenced@) {
        let j = choose|j: int|
            #![trigger obs[j]]
            lo1 <= j < obs.len() && slot == obs[j] && !has_ref(adds, obs[j].referenced@);
        assert(lo2 <= j < obs.len() && slot == obs[j] && !has_ref(adds, obs[j].referenced@));
    } else {
        let j = choose|j: int| #![trigger adds[j]] alo1 <= j < adds.len() && slot == adds[j];
        assert(alo2 <= j < adds.len() && slot == adds[j]);
    }
}

/// Weakening the position bounds keeps `drained_from` true.
proof fn lemma_drained_widen(
    out: Seq<DvSlot>,
    obs: Seq<DvSlot>,
    adds: Seq<DvSlot>,
    lo1: int,
    alo1: int,
    lo2: int,
    alo2: int,
)
    requires
        drained_from(out, obs, adds, lo1, alo1),
        lo2 <= lo1,
        alo2 <= alo1,
    ensures
        drained_from(out, obs, adds, lo2, alo2),
{
    assert forall|k: int|
        #![trigger out[k]]
        0 <= k < out.len() implies drained_slot(out[k], obs, adds, lo2, alo2) by {
        lemma_drained_member(out, obs, adds, lo1, alo1, k);
        lemma_drained_slot_widen(out[k], obs, adds, lo1, alo1, lo2, alo2);
    }
}

/// Pushing a drained slot onto a drained sequence leaves it drained,
/// at the weaker bounds.
proof fn lemma_drained_push(
    out_pre: Seq<DvSlot>,
    x: DvSlot,
    obs: Seq<DvSlot>,
    adds: Seq<DvSlot>,
    lo1: int,
    alo1: int,
    lo2: int,
    alo2: int,
)
    requires
        drained_from(out_pre, obs, adds, lo1, alo1),
        drained_slot(x, obs, adds, lo2, alo2),
        lo2 <= lo1,
        alo2 <= alo1,
    ensures
        drained_from(out_pre.push(x), obs, adds, lo2, alo2),
{
    let out = out_pre.push(x);
    assert forall|k: int|
        #![trigger out[k]]
        0 <= k < out.len() implies drained_slot(out[k], obs, adds, lo2, alo2) by {
        if k < out_pre.len() {
            assert(out[k] == out_pre[k]);
            lemma_drained_member(out_pre, obs, adds, lo1, alo1, k);
            lemma_drained_slot_widen(out_pre[k], obs, adds, lo1, alo1, lo2, alo2);
        } else {
            assert(out[k] == x);
        }
    }
}

/// A slot drained from observed positions `lo` or later, with no
/// addition in range, does not share its referenced path with the
/// observed slot at an earlier position `t`.
proof fn lemma_slot_ref_differs_observed(
    x: DvSlot,
    obs: Seq<DvSlot>,
    adds: Seq<DvSlot>,
    lo: int,
    t: int,
)
    requires
        drained_slot(x, obs, adds, lo, adds.len() as int),
        slot_refs_distinct(obs),
        0 <= t < lo,
        t < obs.len(),
    ensures
        x.referenced@ != obs[t].referenced@,
{
    let j = choose|j: int|
        #![trigger obs[j]]
        lo <= j < obs.len() && x == obs[j] && !has_ref(adds, obs[j].referenced@);
    assert(obs[j].referenced@ != obs[t].referenced@);
}

/// A slot drained with additions taken from positions `alo` or later
/// does not share its referenced path with the addition at an earlier
/// position `t`.
proof fn lemma_slot_ref_differs_addition(
    x: DvSlot,
    obs: Seq<DvSlot>,
    adds: Seq<DvSlot>,
    alo: int,
    t: int,
)
    requires
        drained_slot(x, obs, adds, 0, alo),
        slot_refs_distinct(adds),
        0 <= t < alo,
        t < adds.len(),
    ensures
        x.referenced@ != adds[t].referenced@,
{
    if exists|j: int|
        #![trigger obs[j]]
        0 <= j < obs.len() && x == obs[j] && !has_ref(adds, obs[j].referenced@) {
        let j = choose|j: int|
            #![trigger obs[j]]
            0 <= j < obs.len() && x == obs[j] && !has_ref(adds, obs[j].referenced@);
        if x.referenced@ == adds[t].referenced@ {
            assert(adds[t].referenced@ == obs[j].referenced@);
            assert(has_ref(adds, obs[j].referenced@));
            assert(false);
        }
    } else {
        let j = choose|j: int| #![trigger adds[j]] alo <= j < adds.len() && x == adds[j];
        assert(adds[j].referenced@ != adds[t].referenced@);
    }
}

/// Pushing keeps every old member, and adds the new one.
pub(crate) proof fn lemma_contains_push<T>(s: Seq<T>, x: T, y: T)
    requires
        s.contains(y) || y == x,
    ensures
        s.push(x).contains(y),
{
    if s.contains(y) {
        let k = choose|k: int| 0 <= k < s.len() && s[k] == y;
        assert(s.push(x)[k] == y);
    } else {
        assert(s.push(x)[s.len() as int] == y);
    }
}

} // verus!
