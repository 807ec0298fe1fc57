//! Laws of the scheduler state: what the invariants give a reader in one
//! place — exact roster/enrollment correspondence, capacity bounds, and
//! idempotence of the between-rounds reset.

use vstd::prelude::*;
use crate::model::{cleared_of, SectionV, StudentV};
use crate::scheduler::{
    enrollment_consistent, registry_wf, reset_of, rosters_empty, Scheduler,
};

verus! {

/// A student with a morning enrollment appears in exactly the roster of
/// that section: some morning section bears the enrolled name and lists
/// the student; every morning section listing the student bears the
/// enrolled name; no two such sections exist; and no roster lists the
/// student twice.  An afternoon enrollment, in turn, entails a morning
/// one.
pub proof fn lemma_enrollment_exact(sts: Seq<StudentV>, secs: Seq<SectionV>, j: int)
    requires
        registry_wf(secs, sts.len() as int),
        enrollment_consistent(sts, secs),
        0 <= j < sts.len(),
    ensures
        sts[j].am_course is Some ==> exists|i: int|
            0 <= i < secs.len() && (#[trigger] secs[i]).time_slot is Am && Some(secs[i].name)
                == sts[j].am_course && secs[i].students.contains(j),
        forall|i: int|
            0 <= i < secs.len() && (#[trigger] secs[i]).students.contains(j) ==> Some(
                secs[i].name,
            ) == crate::scheduler::slot_field(sts[j], secs[i].time_slot),
        forall|i: int, i2: int|
            0 <= i < secs.len() && 0 <= i2 < secs.len() && i != i2 && (
            #[trigger] secs[i]).students.contains(j) && (#[trigger] secs[i2]).students.contains(j)
                ==> !(secs[i].time_slot == secs[i2].time_slot),
        forall|i: int, k: int, l: int|
            0 <= i < secs.len() && 0 <= k < secs[i].students.len() && 0 <= l
                < secs[i].students.len() && #[trigger] secs[i].students[k] == j
                && #[trigger] secs[i].students[l] == j ==> k == l,
        sts[j].pm_course is Some ==> sts[j].am_course is Some,
    {
    assert forall|i: int|
        0 <= i < secs.len() && (#[trigger] secs[i]).students.contains(j) implies Some(
        secs[i].name,
    ) == crate::scheduler::slot_field(sts[j], secs[i].time_slot) by {
        let k = choose|k: int| 0 <= k < secs[i].students.len() && secs[i].students[k] == j;
        assert(crate::scheduler::slot_field(sts[secs[i].students[k]], secs[i].time_slot) == Some(
            secs[i].name,
        ));
    }
    assert forall|i: int, i2: int|
        0 <= i < secs.len() && 0 <= i2 < secs.len() && i != i2 && (
        #[trigger] secs[i]).students.contains(j) && (#[trigger] secs[i2]).students.contains(j)
            implies !(secs[i].time_slot == secs[i2].time_slot) by {
        if secs[i].time_slot == secs[i2].time_slot {
            assert(Some(secs[i].name) == crate::scheduler::slot_field(sts[j], secs[i].time_slot));
            assert(Some(secs[i2].name) == crate::scheduler::slot_field(
                sts[j],
                secs[i2].time_slot,
            ));
            assert(secs[i].name == secs[i2].name);
        }
    }
}

/// Every roster respects its capacity in a well-formed scheduler, live
/// state and stored snapshot alike.
pub proof fn lemma_capacity_bound(s: Scheduler, i: int)
    requires
        s.wf(),
        0 <= i < s.secv().len(),
    ensures
        s.secv()[i].students.len() <= s.secv()[i].max_students,
        s.best_schedule matches Some(b) ==> forall|t: int|
            0 <= t < b@.sections.len() ==> (#[trigger] b@.sections[t]).students.len()
                <= b@.sections[t].max_students,
{
}

/// Resetting twice in a row leaves section rosters and student
/// enrollment fields exactly as one reset leaves them: the second reset
/// changes nothing at all.
pub proof fn lemma_reset_idempotent(
    sts0: Seq<StudentV>,
    secs0: Seq<SectionV>,
    sts1: Seq<StudentV>,
    secs1: Seq<SectionV>,
    sts2: Seq<StudentV>,
    secs2: Seq<SectionV>,
)
    requires
        reset_of(sts0, secs0, sts1, secs1),
        reset_of(sts1, secs1, sts2, secs2),
    ensures
        sts2 == sts1,
        secs2 == secs1,
        rosters_empty(secs1) && rosters_empty(secs2),
{
    assert forall|j: int| 0 <= j < sts1.len() implies #[trigger] sts2[j] == sts1[j] by {
        assert(sts1[j] == cleared_of(sts0[j]));
        assert(sts2[j] == cleared_of(sts1[j]));
        assert(cleared_of(cleared_of(sts0[j])) =~~= cleared_of(sts0[j]));
    }
    assert(sts2 =~= sts1);
    assert forall|i: int| 0 <= i < secs1.len() implies #[trigger] secs2[i] == secs1[i] by {
        assert(secs1[i] == (SectionV { students: Seq::<int>::empty(), ..secs0[i] }));
        assert(secs2[i] == (SectionV { students: Seq::<int>::empty(), ..secs1[i] }));
        assert((SectionV {
            students: Seq::<int>::empty(),
            ..(SectionV { students: Seq::<int>::empty(), ..secs0[i] })
        }) =~~= (SectionV { students: Seq::<int>::empty(), ..secs0[i] }));
    }
    assert(secs2 =~= secs1);
}

} // verus!
