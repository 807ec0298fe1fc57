//! The scheduler: the section registry, the greedy assignment engine, the
//! scorer with its best-schedule snapshot, and the search loop that drives
//! repeated shuffle-assign-score rounds.

use vstd::prelude::*;
use vstd::pervasive::VecAdditionalExecFns;
use crate::model::{
    cleared_of, cleared_student, cleared_views, copy_schedule, copy_section, copy_sections,
    copy_student, copy_students, lemma_cleared_views_of_cleared,
    lemma_cleared_views_of_unenrolled, lemma_cleared_views_same_identity, lemma_prefix_cost_le,
    lemma_prefix_cost_step, name_eq, names_of,
    same_identity, schedule_wf, sections_v, students_v, total_cost, Course, Schedule, ScheduleV,
    SchedulerConfig, Section, SectionV, Student, StudentV, TimeSlot,
};

verus! {

/// Rounds without improvement after which the search stops.
pub const STAGNATION_LIMIT: usize = 10000;

/// The optimizer state: the students in their current processing order,
/// one section per course in course-list order, and the best schedule
/// seen so far.
pub struct Scheduler {
    pub students: Vec<Student>,
    pub sections: Vec<Section>,
    pub best_schedule: Option<Schedule>,
}

/// Registry well-formedness: course names are unique keys, every roster
/// respects its capacity, roster entries are valid student indices, and
/// no roster lists a student twice.
pub open spec fn registry_wf(secs: Seq<SectionV>, n_students: int) -> bool {
    &&& forall|i: int, j: int|
        0 <= i < secs.len() && 0 <= j < secs.len() && i != j ==> (#[trigger] secs[i]).name != (
        #[trigger] secs[j]).name
    &&& forall|i: int|
        0 <= i < secs.len() ==> (#[trigger] secs[i]).students.len() <= secs[i].max_students
    &&& forall|i: int, k: int|
        0 <= i < secs.len() && 0 <= k < secs[i].students.len() ==> 0 <= #[trigger] secs[i].students[k]
            < n_students
    &&& forall|i: int, k: int, l: int|
        0 <= i < secs.len() && 0 <= k < secs[i].students.len() && 0 <= l < secs[i].students.len()
            && k != l ==> #[trigger] secs[i].students[k] != #[trigger] secs[i].students[l]
}

/// The enrollment field of a student that matches a section's time slot.
pub open spec fn slot_field(st: StudentV, slot: TimeSlot) -> Option<Seq<char>> {
    match slot {
        TimeSlot::Am => st.am_course,
        TimeSlot::Pm => st.pm_course,
        TimeSlot::FullDay => st.full_day_course,
    }
}

/// Every roster entry is mirrored by the student's matching enrollment
/// field naming exactly that section.
pub open spec fn roster_matches_fields(sts: Seq<StudentV>, secs: Seq<SectionV>) -> bool {
    forall|i: int, k: int|
        0 <= i < secs.len() && 0 <= k < secs[i].students.len() ==> slot_field(
            sts[#[trigger] secs[i].students[k]],
            secs[i].time_slot,
        ) == Some(secs[i].name)
}

/// Every set enrollment field is mirrored by a section of the matching
/// slot that bears that name and lists the student.
pub open spec fn fields_in_rosters(sts: Seq<StudentV>, secs: Seq<SectionV>) -> bool {
    forall|j: int|
        0 <= j < sts.len() ==> {
            &&& ((#[trigger] sts[j]).am_course matches Some(c) ==> exists|i: int|
                0 <= i < secs.len() && (#[trigger] secs[i]).time_slot is Am && secs[i].name == c
                    && secs[i].students.contains(j))
            &&& (sts[j].pm_course matches Some(c) ==> exists|i: int|
                0 <= i < secs.len() && (#[trigger] secs[i]).time_slot is Pm && secs[i].name == c
                    && secs[i].students.contains(j))
            &&& (sts[j].full_day_course matches Some(c) ==> exists|i: int|
                0 <= i < secs.len() && (#[trigger] secs[i]).time_slot is FullDay && secs[i].name
                    == c && secs[i].students.contains(j))
        }
}

/// A student holds at most one morning and one afternoon enrollment, or
/// one full-day enrollment, never a mix; and an afternoon enrollment
/// entails a morning one.
pub open spec fn slots_coherent(sts: Seq<StudentV>) -> bool {
    &&& forall|j: int|
        0 <= j < sts.len() ==> ((#[trigger] sts[j]).full_day_course is Some ==> sts[j].am_course
            is None && sts[j].pm_course is None)
    &&& forall|j: int|
        0 <= j < sts.len() ==> ((#[trigger] sts[j]).pm_course is Some ==> sts[j].am_course is Some)
}

/// Section roster membership and student enrollment fields are kept
/// consistent in both directions, and slots never mix.
pub open spec fn enrollment_consistent(sts: Seq<StudentV>, secs: Seq<SectionV>) -> bool {
    &&& roster_matches_fields(sts, secs)
    &&& fields_in_rosters(sts, secs)
    &&& slots_coherent(sts)
}

/// Every student sits in one of the three priority tiers.
pub open spec fn priorities_wf(sts: Seq<StudentV>) -> bool {
    forall|j: int| 0 <= j < sts.len() ==> 1 <= (#[trigger] sts[j]).priority <= 3
}

/// No student holds any enrollment.
pub open spec fn all_unenrolled(sts: Seq<StudentV>) -> bool {
    forall|j: int|
        0 <= j < sts.len() ==> (#[trigger] sts[j]).am_course is None && sts[j].pm_course is None
            && sts[j].full_day_course is None
}

/// Every roster is empty.
pub open spec fn rosters_empty(secs: Seq<SectionV>) -> bool {
    forall|i: int| 0 <= i < secs.len() ==> (#[trigger] secs[i]).students.len() == 0
}

/// Two sections that agree on name, slot and capacity.
pub open spec fn section_same_static(a: SectionV, b: SectionV) -> bool {
    a.name == b.name && a.time_slot == b.time_slot && a.max_students == b.max_students
}


/// Greedy completeness of a finished pass: no student is left without a
/// morning or full-day seat while some section serving the morning phase
/// still has room, and no student holding only a morning seat lacks an
/// afternoon seat while some afternoon section still has room.
pub open spec fn assigned_complete(sts: Seq<StudentV>, secs: Seq<SectionV>) -> bool {
    &&& forall|j: int|
        0 <= j < sts.len() && (#[trigger] sts[j]).am_course is None && sts[j].full_day_course
            is None ==> (forall|i: int|
            0 <= i < secs.len() ==> !phase_acceptable(#[trigger] secs[i], TimeSlot::Am))
    &&& forall|j: int|
        0 <= j < sts.len() && (#[trigger] sts[j]).am_course is Some && sts[j].pm_course is None
            ==> (forall|i: int|
            0 <= i < secs.len() ==> !phase_acceptable(#[trigger] secs[i], TimeSlot::Pm))
}

/// A snapshot is the frozen outcome of a completed round: its score is
/// the exact aggregate cost of its students, its registry is well-formed,
/// rosters and enrollment fields are consistent, and the pass behind it
/// was greedily complete.
pub open spec fn snapshot_wf(b: ScheduleV) -> bool {
    &&& schedule_wf(b)
    &&& registry_wf(b.sections, b.students.len() as int)
    &&& enrollment_consistent(b.students, b.sections)
    &&& assigned_complete(b.students, b.sections)
}

/// Sections that only gained students can serve no phase they could not
/// serve before.
pub proof fn lemma_unacceptable_stays(pre: Seq<SectionV>, post: Seq<SectionV>, phase: TimeSlot)
    requires
        post.len() == pre.len(),
        forall|i: int|
            0 <= i < pre.len() ==> section_same_static(#[trigger] post[i], pre[i])
                && post[i].students.len() >= pre[i].students.len(),
        forall|i: int| 0 <= i < pre.len() ==> !phase_acceptable(#[trigger] pre[i], phase),
    ensures
        forall|i: int| 0 <= i < post.len() ==> !phase_acceptable(#[trigger] post[i], phase),
{
}

/// The completeness facts of the students processed so far survive one
/// more student's enrollments: those students are untouched and the
/// rosters only grew.
proof fn lemma_iteration_completeness(pre: Scheduler, post: Scheduler, upto: int, n: int)
    requires
        pre.sv().len() == n,
        post.sv().len() == n,
        pre.secv().len() == post.secv().len(),
        0 <= upto <= n,
        forall|j: int| 0 <= j < n && j != upto ==> #[trigger] post.sv()[j] == pre.sv()[j],
        forall|i: int|
            0 <= i < pre.secv().len() ==> section_same_static(
                #[trigger] post.secv()[i],
                pre.secv()[i],
            ) && post.secv()[i].students.len() >= pre.secv()[i].students.len(),
        forall|j: int|
            0 <= j < upto && (#[trigger] pre.sv()[j]).am_course is None
                && pre.sv()[j].full_day_course is None ==> (forall|i: int|
                0 <= i < pre.secv().len() ==> !phase_acceptable(
                    #[trigger] pre.secv()[i],
                    TimeSlot::Am,
                )),
        forall|j: int|
            0 <= j < upto && (#[trigger] pre.sv()[j]).am_course is Some && pre.sv()[j].pm_course
                is None ==> (forall|i: int|
                0 <= i < pre.secv().len() ==> !phase_acceptable(
                    #[trigger] pre.secv()[i],
                    TimeSlot::Pm,
                )),
    ensures
        forall|j: int|
            0 <= j < upto && (#[trigger] post.sv()[j]).am_course is None
                && post.sv()[j].full_day_course is None ==> (forall|i: int|
                0 <= i < post.secv().len() ==> !phase_acceptable(
                    #[trigger] post.secv()[i],
                    TimeSlot::Am,
                )),
        forall|j: int|
            0 <= j < upto && (#[trigger] post.sv()[j]).am_course is Some && post.sv()[j].pm_course
                is None ==> (forall|i: int|
                0 <= i < post.secv().len() ==> !phase_acceptable(
                    #[trigger] post.secv()[i],
                    TimeSlot::Pm,
                )),
{
    assert forall|j: int|
        0 <= j < upto && (#[trigger] post.sv()[j]).am_course is None
            && post.sv()[j].full_day_course is None implies (forall|i: int|
        0 <= i < post.secv().len() ==> !phase_acceptable(
            #[trigger] post.secv()[i],
            TimeSlot::Am,
        )) by {
        assert(post.sv()[j] == pre.sv()[j]);
        lemma_unacceptable_stays(pre.secv(), post.secv(), TimeSlot::Am);
    }
    assert forall|j: int|
        0 <= j < upto && (#[trigger] post.sv()[j]).am_course is Some && post.sv()[j].pm_course
            is None implies (forall|i: int|
        0 <= i < post.secv().len() ==> !phase_acceptable(
            #[trigger] post.secv()[i],
            TimeSlot::Pm,
        )) by {
        assert(post.sv()[j] == pre.sv()[j]);
        lemma_unacceptable_stays(pre.secv(), post.secv(), TimeSlot::Pm);
    }
}

/// Why the search loop returned: its round budget ran out, a configured
/// early-stop threshold was reached, or the best score stagnated.
#[derive(Clone, Copy, Debug, PartialEq, Eq, Structural)]
pub enum StopReason {
    BudgetExhausted,
    EarlyStop,
    Stagnation,
}

/// Valid input lists: course names are unique, every priority sits in the
/// three tiers, and the student list is small enough for exact half-point
/// arithmetic in a machine word.
pub open spec fn inputs_wf(courses: Seq<Course>, students: Seq<Student>) -> bool {
    &&& forall|i: int, j: int|
        0 <= i < courses.len() && 0 <= j < courses.len() && i != j ==> (#[trigger] courses[i])@.name
            != (#[trigger] courses[j])@.name
    &&& forall|j: int| 0 <= j < students.len() ==> 1 <= (#[trigger] students[j])@.priority <= 3
    &&& students.len() <= usize::MAX / 2
}

/// The reset relation: every roster emptied, every enrollment field
/// cleared, and all static data kept.
pub open spec fn reset_of(
    sts0: Seq<StudentV>,
    secs0: Seq<SectionV>,
    sts1: Seq<StudentV>,
    secs1: Seq<SectionV>,
) -> bool {
    &&& sts1.len() == sts0.len()
    &&& secs1.len() == secs0.len()
    &&& forall|j: int| 0 <= j < sts0.len() ==> #[trigger] sts1[j] == cleared_of(sts0[j])
    &&& forall|i: int|
        0 <= i < secs0.len() ==> #[trigger] secs1[i] == (SectionV {
            students: Seq::<int>::empty(),
            ..secs0[i]
        })
}

/// Whether a section's slot serves a phase of the day: the morning phase
/// is served by morning and full-day sections (a full-day course counts
/// as a morning-time obligation), the afternoon phase by afternoon
/// sections only.
pub open spec fn phase_slot_ok(slot: TimeSlot, phase: TimeSlot) -> bool {
    match phase {
        TimeSlot::Am => slot is Am || slot is FullDay,
        TimeSlot::Pm => slot is Pm,
        TimeSlot::FullDay => false,
    }
}

/// A section that serves the phase and still has room.
pub open spec fn phase_acceptable(sec: SectionV, phase: TimeSlot) -> bool {
    &&& phase_slot_ok(sec.time_slot, phase)
    &&& sec.students.len() < sec.max_students
}

/// The preference list a student consults for a phase.
pub open spec fn phase_prefs(st: StudentV, phase: TimeSlot) -> Seq<Seq<char>> {
    if phase is Am {
        st.am_preferences
    } else {
        st.pm_preferences
    }
}

/// Whether some section with this name can take one more student for the
/// phase.
pub open spec fn pref_resolves(secs: Seq<SectionV>, name: Seq<char>, phase: TimeSlot) -> bool {
    exists|i: int|
        0 <= i < secs.len() && (#[trigger] secs[i]).name == name && phase_acceptable(
            secs[i],
            phase,
        )
}

/// Section `i` is named by a first satisfiable entry of the preference
/// list: every earlier preference resolves to no open section.
pub open spec fn chosen_by_prefs(
    secs: Seq<SectionV>,
    prefs: Seq<Seq<char>>,
    i: int,
    phase: TimeSlot,
) -> bool {
    exists|k: int|
        0 <= k < prefs.len() && secs[i].name == #[trigger] prefs[k] && phase_acceptable(
            secs[i],
            phase,
        ) && (forall|l: int| 0 <= l < k ==> !pref_resolves(secs, #[trigger] prefs[l], phase))
}

/// Whether a section's slot serves the given phase of the day.
pub fn slot_serves_phase(slot: TimeSlot, phase: TimeSlot) -> (r: bool)
    ensures
        r == phase_slot_ok(slot, phase),
{
    match phase {
        TimeSlot::Am => match slot {
            TimeSlot::Am => true,
            TimeSlot::FullDay => true,
            TimeSlot::Pm => false,
        },
        TimeSlot::Pm => match slot {
            TimeSlot::Pm => true,
            _ => false,
        },
        TimeSlot::FullDay => false,
    }
}



/// No stored best schedule at or below the given half-point threshold.
pub open spec fn best_above(b: Option<Schedule>, threshold: u64) -> bool {
    match b {
        None => true,
        Some(x) => x@.score > threshold,
    }
}

/// The best schedule only ever improves: once set it stays set, and its
/// score never increases.
pub open spec fn best_improves(b0: Option<Schedule>, b1: Option<Schedule>) -> bool {
    match b0 {
        None => true,
        Some(x0) => b1 matches Some(x1) && x1@.score <= x0@.score,
    }
}

/// The student view after enrolling in a section of the given slot.
pub open spec fn enrolled_as(st: StudentV, slot: TimeSlot, name: Seq<char>) -> StudentV {
    match slot {
        TimeSlot::Am => StudentV { am_course: Some(name), ..st },
        TimeSlot::Pm => StudentV { pm_course: Some(name), ..st },
        TimeSlot::FullDay => StudentV { full_day_course: Some(name), ..st },
    }
}

/// Enrolling one student in one open section preserves the scheduler
/// invariant: the pushed roster entry and the written enrollment field
/// mirror each other, and nothing else moves.
pub proof fn lemma_enroll_preserves_wf(sts: Seq<StudentV>, secs: Seq<SectionV>, j: int, i: int)
    requires
        registry_wf(secs, sts.len() as int),
        enrollment_consistent(sts, secs),
        0 <= j < sts.len(),
        0 <= i < secs.len(),
        secs[i].students.len() < secs[i].max_students,
        slot_field(sts[j], secs[i].time_slot) is None,
        secs[i].time_slot is FullDay ==> sts[j].am_course is None && sts[j].pm_course is None,
        secs[i].time_slot is Am ==> sts[j].full_day_course is None,
        secs[i].time_slot is Pm ==> sts[j].am_course is Some && sts[j].full_day_course is None,
    ensures
        registry_wf(
            secs.update(i, (SectionV { students: secs[i].students.push(j), ..secs[i] })),
            sts.len() as int,
        ),
        enrollment_consistent(
            sts.update(j, enrolled_as(sts[j], secs[i].time_slot, secs[i].name)),
            secs.update(i, (SectionV { students: secs[i].students.push(j), ..secs[i] })),
        ),
{
    let slot = secs[i].time_slot;
    let name = secs[i].name;
    let nst = enrolled_as(sts[j], slot, name);
    let nsts = sts.update(j, nst);
    let nsec = SectionV { students: secs[i].students.push(j), ..secs[i] };
    let nsecs = secs.update(i, nsec);

    // the student is not already on this roster
    assert forall|k: int| 0 <= k < secs[i].students.len() implies secs[i].students[k] != j by {
        if secs[i].students[k] == j {
            assert(slot_field(sts[j], slot) == Some(name));
        }
    }

    // registry well-formedness
    assert forall|a: int, k: int|
        0 <= a < nsecs.len() && 0 <= k < nsecs[a].students.len() implies 0 <= #[trigger] nsecs[a].students[k]
            < sts.len() as int by {
        if a == i && k < secs[i].students.len() {
            assert(nsecs[a].students[k] == secs[i].students[k]);
        }
    }
    assert forall|a: int, k: int, l: int|
        0 <= a < nsecs.len() && 0 <= k < nsecs[a].students.len() && 0 <= l
            < nsecs[a].students.len() && k != l implies #[trigger] nsecs[a].students[k]
            != #[trigger] nsecs[a].students[l] by {
        if a == i {
            let n0 = secs[i].students.len() as int;
            if k < n0 && l < n0 {
                assert(secs[i].students[k] != secs[i].students[l]);
            } else if k < n0 && l == n0 {
                assert(secs[i].students[k] != j);
            } else if k == n0 && l < n0 {
                assert(secs[i].students[l] != j);
            }
        }
    }
    assert(registry_wf(nsecs, sts.len() as int));

    // every roster entry is mirrored by the matching field
    assert forall|a: int, k: int|
        0 <= a < nsecs.len() && 0 <= k < nsecs[a].students.len() implies slot_field(
        nsts[#[trigger] nsecs[a].students[k]],
        nsecs[a].time_slot,
    ) == Some(nsecs[a].name) by {
        let n0 = secs[i].students.len() as int;
        if a == i && k == n0 {
            assert(nsecs[a].students[k] == j);
            assert(slot_field(nst, slot) == Some(name));
        } else {
            assert(nsecs[a].students[k] == secs[a].students[k]);
            let id = secs[a].students[k];
            assert(slot_field(sts[id], secs[a].time_slot) == Some(secs[a].name));
            if id == j {
                assert(secs[a].time_slot != slot);
                assert(slot_field(nst, secs[a].time_slot) == slot_field(sts[j], secs[a].time_slot));
            }
        }
    }

    // every set field is mirrored by a roster entry
    assert forall|j2: int| 0 <= j2 < nsts.len() implies {
        &&& ((#[trigger] nsts[j2]).am_course matches Some(c) ==> exists|a: int|
            0 <= a < nsecs.len() && (#[trigger] nsecs[a]).time_slot is Am && nsecs[a].name == c
                && nsecs[a].students.contains(j2))
        &&& (nsts[j2].pm_course matches Some(c) ==> exists|a: int|
            0 <= a < nsecs.len() && (#[trigger] nsecs[a]).time_slot is Pm && nsecs[a].name == c
                && nsecs[a].students.contains(j2))
        &&& (nsts[j2].full_day_course matches Some(c) ==> exists|a: int|
            0 <= a < nsecs.len() && (#[trigger] nsecs[a]).time_slot is FullDay && nsecs[a].name
                == c && nsecs[a].students.contains(j2))
    } by {
        lemma_push_and_update_keep_witnesses(sts, secs, nsts, nsecs, j, i, j2);
    }
    assert(fields_in_rosters(nsts, nsecs));

    // slots stay coherent
    assert forall|j2: int|
        0 <= j2 < nsts.len() implies ((#[trigger] nsts[j2]).full_day_course is Some
        ==> nsts[j2].am_course is None && nsts[j2].pm_course is None) && (nsts[j2].pm_course
        is Some ==> nsts[j2].am_course is Some) by {
        if j2 == j {
            match slot {
                TimeSlot::Am => {}
                TimeSlot::Pm => {}
                TimeSlot::FullDay => {}
            }
        }
    }
}

/// The witness sections for one student's fields survive the enrollment:
/// old witnesses persist (a push keeps every roster member) and the
/// freshly written field is witnessed by the updated section itself.
proof fn lemma_push_and_update_keep_witnesses(
    sts: Seq<StudentV>,
    secs: Seq<SectionV>,
    nsts: Seq<StudentV>,
    nsecs: Seq<SectionV>,
    j: int,
    i: int,
    j2: int,
)
    requires
        registry_wf(secs, sts.len() as int),
        enrollment_consistent(sts, secs),
        0 <= j < sts.len(),
        0 <= i < secs.len(),
        slot_field(sts[j], secs[i].time_slot) is None,
        nsts == sts.update(j, enrolled_as(sts[j], secs[i].time_slot, secs[i].name)),
        nsecs == secs.update(
            i,
            (SectionV { students: secs[i].students.push(j), ..secs[i] }),
        ),
        0 <= j2 < nsts.len(),
    ensures
        (nsts[j2].am_course matches Some(c) ==> exists|a: int|
            0 <= a < nsecs.len() && (#[trigger] nsecs[a]).time_slot is Am && nsecs[a].name == c
                && nsecs[a].students.contains(j2)),
        (nsts[j2].pm_course matches Some(c) ==> exists|a: int|
            0 <= a < nsecs.len() && (#[trigger] nsecs[a]).time_slot is Pm && nsecs[a].name == c
                && nsecs[a].students.contains(j2)),
        (nsts[j2].full_day_course matches Some(c) ==> exists|a: int|
            0 <= a < nsecs.len() && (#[trigger] nsecs[a]).time_slot is FullDay && nsecs[a].name
                == c && nsecs[a].students.contains(j2)),
{
    let slot = secs[i].time_slot;
    let name = secs[i].name;
    // a push keeps every member and adds the new one
    assert forall|a: int, x: int|
        0 <= a < secs.len() && secs[a].students.contains(x) implies #[trigger] nsecs[a].students.contains(
        x,
    ) by {
        let k = choose|k: int| 0 <= k < secs[a].students.len() && secs[a].students[k] == x;
        assert(nsecs[a].students[k] == x);
    }
    assert(nsecs[i].students[secs[i].students.len() as int] == j);
    assert(nsecs[i].students.contains(j));

    if j2 != j {
        assert(nsts[j2] == sts[j2]);
        if let Some(c) = sts[j2].am_course {
            let a = choose|a: int|
                0 <= a < secs.len() && (#[trigger] secs[a]).time_slot is Am && secs[a].name == c
                    && secs[a].students.contains(j2);
            assert(nsecs[a].time_slot is Am && nsecs[a].name == c && nsecs[a].students.contains(j2));
        }
        if let Some(c) = sts[j2].pm_course {
            let a = choose|a: int|
                0 <= a < secs.len() && (#[trigger] secs[a]).time_slot is Pm && secs[a].name == c
                    && secs[a].students.contains(j2);
            assert(nsecs[a].time_slot is Pm && nsecs[a].name == c && nsecs[a].students.contains(j2));
        }
        if let Some(c) = sts[j2].full_day_course {
            let a = choose|a: int|
                0 <= a < secs.len() && (#[trigger] secs[a]).time_slot is FullDay && secs[a].name
                    == c && secs[a].students.contains(j2);
            assert(nsecs[a].time_slot is FullDay && nsecs[a].name == c
                && nsecs[a].students.contains(j2));
        }
    } else {
        let nst = nsts[j];
        // the changed field is witnessed by section i itself
        assert(nsecs[i].time_slot == slot && nsecs[i].name == name);
        // unchanged fields keep their old witnesses
        if let Some(c) = nst.am_course {
            if slot is Am {
                assert(nsecs[i].time_slot is Am && nsecs[i].name == c);
            } else {
                assert(sts[j].am_course == Some(c));
                let a = choose|a: int|
                    0 <= a < secs.len() && (#[trigger] secs[a]).time_slot is Am && secs[a].name
                        == c && secs[a].students.contains(j);
                assert(nsecs[a].time_slot is Am && nsecs[a].name == c
                    && nsecs[a].students.contains(j));
            }
        }
        if let Some(c) = nst.pm_course {
            if slot is Pm {
                assert(nsecs[i].time_slot is Pm && nsecs[i].name == c);
            } else {
                assert(sts[j].pm_course == Some(c));
                let a = choose|a: int|
                    0 <= a < secs.len() && (#[trigger] secs[a]).time_slot is Pm && secs[a].name
                        == c && secs[a].students.contains(j);
                assert(nsecs[a].time_slot is Pm && nsecs[a].name == c
                    && nsecs[a].students.contains(j));
            }
        }
        if let Some(c) = nst.full_day_course {
            if slot is FullDay {
                assert(nsecs[i].time_slot is FullDay && nsecs[i].name == c);
            } else {
                assert(sts[j].full_day_course == Some(c));
                let a = choose|a: int|
                    0 <= a < secs.len() && (#[trigger] secs[a]).time_slot is FullDay && secs[a].name
                        == c && secs[a].students.contains(j);
                assert(nsecs[a].time_slot is FullDay && nsecs[a].name == c
                    && nsecs[a].students.contains(j));
            }
        }
    }
}

impl Scheduler {
    /// The views of the current students.
    pub open spec fn sv(self) -> Seq<StudentV> {
        students_v(self.students@)
    }

    /// The views of the current sections.
    pub open spec fn secv(self) -> Seq<SectionV> {
        sections_v(self.sections@)
    }

    /// The stored best schedule, if set, is a well-formed snapshot.
    pub open spec fn best_wf(self) -> bool {
        match self.best_schedule {
            Some(b) => snapshot_wf(b@),
            None => true,
        }
    }

    /// The scheduler invariant: the registry is well-formed, rosters and
    /// enrollment fields are consistent, priorities are in range, the
    /// student list admits exact scoring, and the best snapshot is
    /// well-formed.
    pub open spec fn wf(self) -> bool {
        &&& registry_wf(self.secv(), self.sv().len() as int)
        &&& enrollment_consistent(self.sv(), self.secv())
        &&& priorities_wf(self.sv())
        &&& self.sv().len() <= usize::MAX / 2
        &&& self.best_wf()
    }

    /// Builds the registry once from the course list: one section per
    /// course, in course-list order.  Enrollment fields are cleared at
    /// construction so that rosters and fields start consistent.
    pub fn new(courses: Vec<Course>, students: Vec<Student>) -> (s: Scheduler)
        requires
            inputs_wf(courses@, students@),
        ensures
            s.wf(),
            s.best_schedule is None,
            s.secv().len() == courses@.len(),
            forall|i: int|
                0 <= i < courses@.len() ==> (#[trigger] s.secv()[i]).name == courses@[i]@.name
                    && s.secv()[i].time_slot == courses@[i]@.time_slot && s.secv()[i].max_students
                    == courses@[i]@.max_students && s.secv()[i].students == Seq::<int>::empty(),
            s.sv().len() == students@.len(),
            forall|j: int|
                0 <= j < students@.len() ==> #[trigger] s.sv()[j] == cleared_of(students@[j]@),
            rosters_empty(s.secv()),
            all_unenrolled(s.sv()),
    {
        let mut sections: Vec<Section> = Vec::new();
        let mut i: usize = 0;
        while i < courses.len()
            invariant
                0 <= i <= courses@.len(),
                sections@.len() == i,
                forall|t: int|
                    0 <= t < i ==> (#[trigger] sections@[t])@.name == courses@[t]@.name
                        && sections@[t]@.time_slot == courses@[t]@.time_slot
                        && sections@[t]@.max_students == courses@[t]@.max_students
                        && sections@[t]@.students == Seq::<int>::empty(),
            decreases courses@.len() - i,
        {
            sections.push(Section::new(&courses[i]));
            i += 1;
        }
        let mut cleared: Vec<Student> = Vec::new();
        let mut j: usize = 0;
        while j < students.len()
            invariant
                0 <= j <= students@.len(),
                cleared@.len() == j,
                forall|t: int| 0 <= t < j ==> (#[trigger] cleared@[t])@ == cleared_of(students@[t]@),
            decreases students@.len() - j,
        {
            cleared.push(cleared_student(&students[j]));
            j += 1;
        }
        let s = Scheduler { students: cleared, sections, best_schedule: None };
        proof {
            assert forall|t: int| 0 <= t < students@.len() implies #[trigger] s.sv()[t]
                == cleared_of(students@[t]@) by {
                assert(s.sv()[t] == cleared@[t]@);
            }
            assert(all_unenrolled(s.sv()));
            assert(rosters_empty(s.secv()));
            assert(priorities_wf(s.sv()));
            assert(registry_wf(s.secv(), s.sv().len() as int));
            assert(roster_matches_fields(s.sv(), s.secv()));
            assert(fields_in_rosters(s.sv(), s.secv()));
            assert(slots_coherent(s.sv()));
        }
        s
    }

    /// The index of the section keyed by the given course name, if any.
    fn find_section_by_name(&self, name: &String) -> (r: Option<usize>)
        ensures
            match r {
                Some(i) => i < self.secv().len() && self.secv()[i as int].name == name@,
                None => forall|t: int|
                    0 <= t < self.secv().len() ==> (#[trigger] self.secv()[t]).name != name@,
            },
    {
        let mut i: usize = 0;
        while i < self.sections.len()
            invariant
                0 <= i <= self.secv().len(),
                self.secv().len() == self.sections@.len(),
                forall|t: int| 0 <= t < i ==> (#[trigger] self.secv()[t]).name != name@,
            decreases self.sections@.len() - i,
        {
            if name_eq(&self.sections[i].course_name, name) {
                return Some(i);
            }
            i += 1;
        }
        None
    }

    /// Scans all sections in course-list order and returns the first one
    /// that serves the phase and still has room, disregarding preferences.
    pub fn get_first_available_section_without_request(&self, phase: TimeSlot) -> (r: Option<
        usize,
    >)
        ensures
            match r {
                Some(i) => i < self.secv().len() && phase_acceptable(self.secv()[i as int], phase)
                    && (forall|t: int|
                    0 <= t < i ==> !phase_acceptable(#[trigger] self.secv()[t], phase)),
                None => forall|t: int|
                    0 <= t < self.secv().len() ==> !phase_acceptable(
                        #[trigger] self.secv()[t],
                        phase,
                    ),
            },
    {
        let mut i: usize = 0;
        while i < self.sections.len()
            invariant
                0 <= i <= self.secv().len(),
                self.secv().len() == self.sections@.len(),
                forall|t: int| 0 <= t < i ==> !phase_acceptable(#[trigger] self.secv()[t], phase),
            decreases self.sections@.len() - i,
        {
            let sec = &self.sections[i];
            if slot_serves_phase(sec.time_slot, phase) && sec.students.len() < sec.max_students {
                return Some(i);
            }
            i += 1;
        }
        None
    }

    /// Resolves a phase for one student: the first preference, in list
    /// order, that names a section with room for this phase; when no
    /// preference can be satisfied, the first open section for the phase
    /// in course-list order.  A preference naming a course of another
    /// slot cannot fill this phase and is passed over.
    pub fn find_first_available_section_for_student(&self, student_idx: usize, phase: TimeSlot) -> (
    r: Option<usize>)
        requires
            self.wf(),
            student_idx < self.sv().len(),
            phase is Am || phase is Pm,
        ensures
            match r {
                Some(i) => i < self.secv().len() && phase_acceptable(self.secv()[i as int], phase)
                    && (chosen_by_prefs(
                    self.secv(),
                    phase_prefs(self.sv()[student_idx as int], phase),
                    i as int,
                    phase,
                ) || ((forall|k: int|
                    0 <= k < phase_prefs(self.sv()[student_idx as int], phase).len()
                        ==> !pref_resolves(
                        self.secv(),
                        #[trigger] phase_prefs(self.sv()[student_idx as int], phase)[k],
                        phase,
                    )) && (forall|t: int|
                    0 <= t < i ==> !phase_acceptable(#[trigger] self.secv()[t], phase)))),
                None => forall|t: int|
                    0 <= t < self.secv().len() ==> !phase_acceptable(
                        #[trigger] self.secv()[t],
                        phase,
                    ),
            },
    {
        let is_am = match phase {
            TimeSlot::Am => true,
            _ => false,
        };
        let prefs: &Vec<String> = if is_am {
            &self.students[student_idx].am_preferences
        } else {
            &self.students[student_idx].pm_preferences
        };
        let ghost prefs_v = phase_prefs(self.sv()[student_idx as int], phase);
        proof {
            assert(prefs_v == names_of(prefs@));
        }
        let mut k: usize = 0;
        while k < prefs.len()
            invariant
                0 <= k <= prefs@.len(),
                self.wf(),
                student_idx < self.sv().len(),
                phase is Am || phase is Pm,
                prefs_v == names_of(prefs@),
                prefs_v == phase_prefs(self.sv()[student_idx as int], phase),
                prefs_v.len() == prefs@.len(),
                forall|l: int| 0 <= l < k ==> !pref_resolves(self.secv(), #[trigger] prefs_v[l], phase),
            decreases prefs@.len() - k,
        {
            match self.find_section_by_name(&prefs[k]) {
                Some(j) => {
                    let sec = &self.sections[j];
                    if slot_serves_phase(sec.time_slot, phase) && sec.students.len()
                        < sec.max_students {
                        proof {
                            assert(self.secv()[j as int].name == prefs_v[k as int]);
                            assert(phase_acceptable(self.secv()[j as int], phase));
                            assert(chosen_by_prefs(self.secv(), prefs_v, j as int, phase));
                            assert(chosen_by_prefs(
                                self.secv(),
                                phase_prefs(self.sv()[student_idx as int], phase),
                                j as int,
                                phase,
                            ));
                        }
                        return Some(j);
                    }
                    proof {
                        assert forall|t: int|
                            0 <= t < self.secv().len() && (#[trigger] self.secv()[t]).name
                                == prefs_v[k as int] implies !phase_acceptable(
                            self.secv()[t],
                            phase,
                        ) by {
                            assert(self.secv()[t].name == self.secv()[j as int].name);
                            assert(t == j as int);
                        }
                        assert(!pref_resolves(self.secv(), prefs_v[k as int], phase));
                    }
                }
                None => {
                    proof {
                        assert(!pref_resolves(self.secv(), prefs_v[k as int], phase));
                    }
                }
            }
            k += 1;
        }
        proof {
            assert forall|k2: int|
                0 <= k2 < phase_prefs(self.sv()[student_idx as int], phase).len()
                    implies !pref_resolves(
                self.secv(),
                #[trigger] phase_prefs(self.sv()[student_idx as int], phase)[k2],
                phase,
            ) by {
                assert(phase_prefs(self.sv()[student_idx as int], phase)[k2] == prefs_v[k2]);
                assert(!pref_resolves(self.secv(), prefs_v[k2], phase));
            }
        }
        self.get_first_available_section_without_request(phase)
    }

    /// Commits one resolved enrollment: appends the student to the
    /// section's roster and writes the section's name into the student's
    /// matching enrollment field.  A full section refuses and nothing
    /// changes.  Resolving first (a pure read) and committing here (a
    /// single mutation) keeps ownership of the shared registry simple.
    pub fn safe_add_student_to_section(&mut self, student_idx: usize, section_idx: usize) -> (r:
        bool)
        requires
            old(self).wf(),
            student_idx < old(self).sv().len(),
            section_idx < old(self).secv().len(),
            slot_field(
                old(self).sv()[student_idx as int],
                old(self).secv()[section_idx as int].time_slot,
            ) is None,
            old(self).secv()[section_idx as int].time_slot is FullDay ==> old(self).sv()[student_idx as int].am_course is None && old(self).sv()[student_idx as int].pm_course is None,
            old(self).secv()[section_idx as int].time_slot is Am ==> old(self).sv()[student_idx as int].full_day_course is None,
            old(self).secv()[section_idx as int].time_slot is Pm ==> old(self).sv()[student_idx as int].am_course is Some && old(self).sv()[student_idx as int].full_day_course is None,
        ensures
            final(self).wf(),
            r == (old(self).secv()[section_idx as int].students.len() < old(self).secv()[section_idx as int].max_students),
            final(self).best_schedule == old(self).best_schedule,
            !r ==> final(self).sv() == old(self).sv() && final(self).secv() == old(self).secv(),
            r ==> final(self).secv() == old(self).secv().update(
                section_idx as int,
                (SectionV {
                    students: old(self).secv()[section_idx as int].students.push(
                        student_idx as int,
                    ),
                    ..old(self).secv()[section_idx as int]
                }),
            ),
            r ==> final(self).sv() == old(self).sv().update(
                student_idx as int,
                enrolled_as(
                    old(self).sv()[student_idx as int],
                    old(self).secv()[section_idx as int].time_slot,
                    old(self).secv()[section_idx as int].name,
                ),
            ),
    {
        let ghost oldsts = old(self).sv();
        let ghost oldsecs = old(self).secv();
        if self.sections[section_idx].students.len() >= self.sections[section_idx].max_students {
            return false;
        }
        let slot = self.sections[section_idx].time_slot;
        let name = self.sections[section_idx].course_name.clone();
        let mut sec = copy_section(&self.sections[section_idx]);
        sec.students.push(student_idx);
        proof {
            assert(sec@.students =~= oldsecs[section_idx as int].students.push(
                student_idx as int,
            ));
        }
        self.sections.set(section_idx, sec);
        let mut st = copy_student(&self.students[student_idx]);
        match slot {
            TimeSlot::Am => {
                st.am_course = Some(name);
            },
            TimeSlot::Pm => {
                st.pm_course = Some(name);
            },
            TimeSlot::FullDay => {
                st.full_day_course = Some(name);
            },
        }
        self.students.set(student_idx, st);
        proof {
            assert(st@ =~~= enrolled_as(
                oldsts[student_idx as int],
                oldsecs[section_idx as int].time_slot,
                oldsecs[section_idx as int].name,
            ));
            assert(self.secv() =~~= oldsecs.update(
                section_idx as int,
                (SectionV {
                    students: oldsecs[section_idx as int].students.push(student_idx as int),
                    ..oldsecs[section_idx as int]
                }),
            ));
            assert(self.sv() =~~= oldsts.update(
                student_idx as int,
                enrolled_as(
                    oldsts[student_idx as int],
                    oldsecs[section_idx as int].time_slot,
                    oldsecs[section_idx as int].name,
                ),
            ));
            lemma_enroll_preserves_wf(oldsts, oldsecs, student_idx as int, section_idx as int);
            assert(priorities_wf(self.sv()));
        }
        true
    }
    /// One greedy pass over the students in their current order: resolve
    /// a morning (or full-day) slot from the morning preferences, enroll,
    /// and only on success resolve a following afternoon slot from the
    /// afternoon preferences.  A student who got no morning or full-day
    /// slot is never given an afternoon slot in the same round, and a
    /// full-day enrollment commits the whole day, so no afternoon slot is
    /// sought either.  First come, first served; no backtracking.
    pub fn assign_students_to_sections(&mut self)
        requires
            old(self).wf(),
            all_unenrolled(old(self).sv()),
        ensures
            final(self).wf(),
            final(self).best_schedule == old(self).best_schedule,
            final(self).sv().len() == old(self).sv().len(),
            final(self).secv().len() == old(self).secv().len(),
            forall|t: int|
                0 <= t < final(self).sv().len() ==> same_identity(
                    #[trigger] final(self).sv()[t],
                    old(self).sv()[t],
                ),
            forall|t: int|
                0 <= t < final(self).secv().len() ==> section_same_static(
                    #[trigger] final(self).secv()[t],
                    old(self).secv()[t],
                ),
            assigned_complete(final(self).sv(), final(self).secv()),
    {
        let n = self.students.len();
        let mut idx: usize = 0;
        while idx < n
            invariant
                self.wf(),
                0 <= idx <= n,
                n == self.sv().len(),
                self.sv().len() == old(self).sv().len(),
                self.secv().len() == old(self).secv().len(),
                self.best_schedule == old(self).best_schedule,
                forall|t: int|
                    0 <= t < n ==> same_identity(#[trigger] self.sv()[t], old(self).sv()[t]),
                forall|t: int|
                    0 <= t < self.secv().len() ==> section_same_static(
                        #[trigger] self.secv()[t],
                        old(self).secv()[t],
                    ),
                forall|t: int|
                    idx <= t < n ==> (#[trigger] self.sv()[t]).am_course is None
                        && self.sv()[t].pm_course is None && self.sv()[t].full_day_course is None,
                forall|j: int|
                    0 <= j < idx && (#[trigger] self.sv()[j]).am_course is None
                        && self.sv()[j].full_day_course is None ==> (forall|i: int|
                        0 <= i < self.secv().len() ==> !phase_acceptable(
                            #[trigger] self.secv()[i],
                            TimeSlot::Am,
                        )),
                forall|j: int|
                    0 <= j < idx && (#[trigger] self.sv()[j]).am_course is Some
                        && self.sv()[j].pm_course is None ==> (forall|i: int|
                        0 <= i < self.secv().len() ==> !phase_acceptable(
                            #[trigger] self.secv()[i],
                            TimeSlot::Pm,
                        )),
            decreases n - idx,
        {
            let ghost pre = *self;
            if let Some(sec_i) = self.find_first_available_section_for_student(idx, TimeSlot::Am) {
                let slot = self.sections[sec_i].time_slot;
                proof {
                    assert(phase_acceptable(self.secv()[sec_i as int], TimeSlot::Am));
                    assert(slot is Am || slot is FullDay);
                }
                let enrolled = self.safe_add_student_to_section(idx, sec_i);
                proof {
                    assert(enrolled);
                    assert(self.sv()[idx as int] == enrolled_as(
                        pre.sv()[idx as int],
                        slot,
                        pre.secv()[sec_i as int].name,
                    ));
                    assert forall|t: int|
                        0 <= t < n implies same_identity(
                        #[trigger] self.sv()[t],
                        old(self).sv()[t],
                    ) by {
                        if t == idx as int {
                            assert(cleared_of(
                                enrolled_as(pre.sv()[t], slot, pre.secv()[sec_i as int].name),
                            ) =~~= cleared_of(pre.sv()[t]));
                        }
                    }
                    assert forall|t: int|
                        0 <= t < self.secv().len() implies section_same_static(
                        #[trigger] self.secv()[t],
                        old(self).secv()[t],
                    ) by {}
                }
                if slot == TimeSlot::Am {
                    let ghost mid = *self;
                    if let Some(pm_i) = self.find_first_available_section_for_student(
                        idx,
                        TimeSlot::Pm,
                    ) {
                        proof {
                            assert(phase_acceptable(self.secv()[pm_i as int], TimeSlot::Pm));
                            assert(self.secv()[pm_i as int].time_slot is Pm);
                            assert(self.sv()[idx as int].pm_course is None);
                            assert(self.sv()[idx as int].am_course is Some);
                            assert(self.sv()[idx as int].full_day_course is None);
                        }
                        let enrolled_pm = self.safe_add_student_to_section(idx, pm_i);
                        proof {
                            assert(enrolled_pm);
                            assert forall|t: int|
                                0 <= t < n implies same_identity(
                                #[trigger] self.sv()[t],
                                old(self).sv()[t],
                            ) by {
                                if t == idx as int {
                                    assert(cleared_of(
                                        enrolled_as(
                                            mid.sv()[t],
                                            TimeSlot::Pm,
                                            mid.secv()[pm_i as int].name,
                                        ),
                                    ) =~~= cleared_of(mid.sv()[t]));
                                }
                            }
                            // both seats granted: nothing is owed for this student
                            assert(self.sv()[idx as int].am_course is Some);
                            assert(self.sv()[idx as int].pm_course is Some);
                            lemma_iteration_completeness(pre, *self, idx as int, n as int);
                        }
                    } else {
                        proof {
                            // no afternoon section has room, and this
                            // iteration mutates nothing further
                            assert(self.sv()[idx as int].am_course is Some);
                            assert(self.sv()[idx as int].pm_course is None);
                            assert(forall|i2: int|
                                0 <= i2 < self.secv().len() ==> !phase_acceptable(
                                    #[trigger] self.secv()[i2],
                                    TimeSlot::Pm,
                                ));
                            lemma_iteration_completeness(pre, *self, idx as int, n as int);
                        }
                    }
                } else {
                    proof {
                        // a full-day seat commits the whole day
                        assert(self.sv()[idx as int].full_day_course is Some);
                        assert(self.sv()[idx as int].am_course is None);
                        lemma_iteration_completeness(pre, *self, idx as int, n as int);
                    }
                }
            } else {
                proof {
                    // no section serving the morning phase has room, and
                    // this student keeps every field clear
                    assert(self.sv()[idx as int].am_course is None);
                    assert(forall|i2: int|
                        0 <= i2 < self.secv().len() ==> !phase_acceptable(
                            #[trigger] self.secv()[i2],
                            TimeSlot::Am,
                        ));
                }
            }
            idx += 1;
        }
        proof {
            assert(assigned_complete(self.sv(), self.secv()));
        }
    }

    /// Resets between rounds: empties every roster and clears every
    /// student's enrollment fields, leaving the best schedule untouched.
    pub fn clear_sections(&mut self)
        requires
            old(self).wf(),
        ensures
            final(self).wf(),
            final(self).best_schedule == old(self).best_schedule,
            reset_of(old(self).sv(), old(self).secv(), final(self).sv(), final(self).secv()),
            rosters_empty(final(self).secv()),
            all_unenrolled(final(self).sv()),
    {
        let nsec = self.sections.len();
        let mut i: usize = 0;
        while i < nsec
            invariant
                0 <= i <= nsec,
                nsec == self.secv().len(),
                self.secv().len() == old(self).secv().len(),
                self.students@ == old(self).students@,
                self.best_schedule == old(self).best_schedule,
                old(self).wf(),
                forall|t: int|
                    0 <= t < i ==> #[trigger] self.secv()[t] == (SectionV {
                        students: Seq::<int>::empty(),
                        ..old(self).secv()[t]
                    }),
                forall|t: int| i <= t < nsec ==> #[trigger] self.secv()[t] == old(self).secv()[t],
            decreases nsec - i,
        {
            let name = self.sections[i].course_name.clone();
            let slot = self.sections[i].time_slot;
            let cap = self.sections[i].max_students;
            let fresh = Section {
                course_name: name,
                time_slot: slot,
                max_students: cap,
                students: Vec::new(),
            };
            proof {
                assert(fresh@ =~~= (SectionV {
                    students: Seq::<int>::empty(),
                    ..self.secv()[i as int]
                }));
            }
            let ghost prev = *self;
            self.sections.set(i, fresh);
            proof {
                assert(self.sections@ == prev.sections@.update(i as int, fresh));
                assert forall|t: int| 0 <= t < nsec implies #[trigger] self.secv()[t] == (if t
                    == i as int {
                    fresh@
                } else {
                    prev.secv()[t]
                }) by {
                    assert(self.secv()[t] == self.sections@[t]@);
                }
            }
            i += 1;
        }
        let nst = self.students.len();
        let mut j: usize = 0;
        while j < nst
            invariant
                0 <= j <= nst,
                nst == self.sv().len(),
                self.sv().len() == old(self).sv().len(),
                self.best_schedule == old(self).best_schedule,
                old(self).wf(),
                forall|t: int|
                    0 <= t < self.secv().len() ==> #[trigger] self.secv()[t] == (SectionV {
                        students: Seq::<int>::empty(),
                        ..old(self).secv()[t]
                    }),
                self.secv().len() == old(self).secv().len(),
                forall|t: int|
                    0 <= t < j ==> #[trigger] self.sv()[t] == cleared_of(old(self).sv()[t]),
                forall|t: int| j <= t < nst ==> #[trigger] self.sv()[t] == old(self).sv()[t],
            decreases nst - j,
        {
            let st = cleared_student(&self.students[j]);
            proof {
                assert(self.sv()[j as int] == self.students@[j as int]@);
                assert(st@ == cleared_of(self.sv()[j as int]));
            }
            let ghost prev = *self;
            self.students.set(j, st);
            proof {
                assert(self.students@ == prev.students@.update(j as int, st));
                assert forall|t: int| 0 <= t < nst implies #[trigger] self.sv()[t] == (if t
                    == j as int {
                    st@
                } else {
                    prev.sv()[t]
                }) by {
                    assert(self.sv()[t] == self.students@[t]@);
                }
            }
            j += 1;
        }
        proof {
            assert(rosters_empty(self.secv()));
            assert(all_unenrolled(self.sv()));
            assert(priorities_wf(self.sv()));
            assert(registry_wf(self.secv(), self.sv().len() as int));
            assert(roster_matches_fields(self.sv(), self.secv()));
            assert(fields_in_rosters(self.sv(), self.secv()));
            assert(slots_coherent(self.sv()));
        }
    }

    /// Scores the current assignment in half-point units.  The running
    /// partial sum is compared against the best known score after every
    /// student: once it reaches or exceeds that score, it is returned at
    /// once — a sound "not better" verdict, exact only when no early exit
    /// occurred.  A full sum strictly below the best known score is
    /// snapshotted, students, sections and score, as the new best
    /// schedule; the stored best score never increases, and it decreases
    /// strictly whenever the snapshot is replaced.  The scorer runs on
    /// the outcome of a completed assignment pass.
    pub fn score_schedule(&mut self) -> (r: u64)
        requires
            old(self).wf(),
            assigned_complete(old(self).sv(), old(self).secv()),
        ensures
            final(self).wf(),
            final(self).students@ == old(self).students@,
            final(self).sections@ == old(self).sections@,
            r <= total_cost(old(self).sv()),
            match old(self).best_schedule {
                None => r == total_cost(old(self).sv()) && (final(self).best_schedule matches Some(
                    b,
                ) && b@.score == r && b@.students == old(self).sv() && b@.sections == old(self).secv()),
                Some(b0) => {
                    &&& (r < b0@.score ==> r == total_cost(old(self).sv()) && (final(self).best_schedule matches Some(b) && b@.score == r && b@.students == old(self).sv() && b@.sections == old(self).secv()))
                    &&& (r >= b0@.score ==> final(self).best_schedule == old(self).best_schedule)
                },
            },
            final(self).best_schedule == old(self).best_schedule || (match (
                old(self).best_schedule,
                final(self).best_schedule,
            ) {
                (Some(b0), Some(b1)) => b1@.score < b0@.score,
                (None, Some(b1)) => true,
                _ => false,
            }),
    {
        let n = self.students.len();
        let mut score: u64 = 0;
        let mut idx: usize = 0;
        while idx < n
            invariant
                0 <= idx <= n,
                n == self.sv().len(),
                self.students@ == old(self).students@,
                self.sections@ == old(self).sections@,
                self.best_schedule == old(self).best_schedule,
                old(self).wf(),
                score == total_cost(self.sv().take(idx as int)),
                score <= 2 * idx,
            decreases n - idx,
        {
            let s_cost = self.students[idx].satisfaction_score();
            proof {
                assert(self.sv()[idx as int] == self.students@[idx as int]@);
                lemma_prefix_cost_step(self.sv(), idx as int);
                assert(self.sv().len() <= usize::MAX / 2);
            }
            score = score + s_cost;
            if let Some(b) = &self.best_schedule {
                if score >= b.score {
                    proof {
                        lemma_prefix_cost_le(self.sv(), idx as int + 1);
                    }
                    return score;
                }
            }
            idx += 1;
        }
        proof {
            assert(self.sv().take(n as int) =~= self.sv());
        }
        let improve = match &self.best_schedule {
            Some(b) => score < b.score,
            None => true,
        };
        if improve {
            let snap_students = copy_students(&self.students);
            let snap_sections = copy_sections(&self.sections);
            let snap = Schedule { students: snap_students, sections: snap_sections, score };
            proof {
                assert(snap@.students == self.sv());
                assert(snap@.sections == self.secv());
                assert(schedule_wf(snap@));
                assert(registry_wf(snap@.sections, snap@.students.len() as int));
                assert(enrollment_consistent(snap@.students, snap@.sections));
                assert(assigned_complete(snap@.students, snap@.sections));
                assert(snapshot_wf(snap@));
            }
            self.best_schedule = Some(snap);
        }
        score
    }

    /// An independent copy of the best schedule seen so far, if any.
    pub fn snapshot_best(&self) -> (r: Option<Schedule>)
        ensures
            match self.best_schedule {
                None => r is None,
                Some(b) => r matches Some(s) && s@ == b@,
            },
    {
        match &self.best_schedule {
            Some(b) => Some(copy_schedule(b)),
            None => None,
        }
    }

    /// Drives the search: up to `iterations` rounds of shuffle, assign,
    /// score.  Stop conditions, checked after scoring: a positive
    /// `early_stop_score` with the round's score at or below it ends the
    /// run right after that round (`EarlyStop` — and only such a round
    /// ever brings the stored best to or below the threshold); more than
    /// `STAGNATION_LIMIT` rounds since the last strictly improving round
    /// end it (`Stagnation`); otherwise the budget runs out
    /// (`BudgetExhausted`).  Returns an independent copy of the best
    /// schedule seen (none only if no round ever set one), the number of
    /// rounds executed, and why the run ended.  Starting from a fresh
    /// scheduler, the returned snapshot holds exactly the input students
    /// (cleared of enrollments, in some order) against exactly the input
    /// registry.
    pub fn run_with_config_counted(&mut self, config: &SchedulerConfig) -> (res: (
        Option<Schedule>,
        usize,
        StopReason,
    ))
        requires
            old(self).wf(),
            rosters_empty(old(self).secv()),
        ensures
            final(self).wf(),
            res.1 <= config.iterations,
            config.iterations > 0 ==> 1 <= res.1,
            match res.0 {
                Some(s) => final(self).best_schedule matches Some(b) && s@ == b@ && snapshot_wf(
                    s@,
                ),
                None => final(self).best_schedule is None,
            },
            best_improves(old(self).best_schedule, final(self).best_schedule),
            config.iterations == 0 ==> final(self).best_schedule == old(self).best_schedule
                && res.1 == 0,
            config.iterations > 0 ==> final(self).best_schedule is Some,
            final(self).sv().len() == old(self).sv().len(),
            final(self).secv().len() == old(self).secv().len(),
            forall|t: int|
                0 <= t < final(self).secv().len() ==> section_same_static(
                    #[trigger] final(self).secv()[t],
                    old(self).secv()[t],
                ),
            old(self).best_schedule is None ==> (res.0 matches Some(s)
                ==> s@.students.len() == old(self).sv().len() && cleared_views(
                s@.students,
            ).to_multiset() == cleared_views(old(self).sv()).to_multiset() && s@.sections.len()
                == old(self).secv().len() && (forall|t: int|
                0 <= t < s@.sections.len() ==> section_same_static(
                    #[trigger] s@.sections[t],
                    old(self).secv()[t],
                ))),
            res.2 is BudgetExhausted ==> res.1 == config.iterations,
            res.2 is Stagnation ==> res.1 >= STAGNATION_LIMIT + 2,
            res.2 is EarlyStop ==> config.early_stop_score > 0 && (final(self).best_schedule
                matches Some(b) && b@.score <= config.early_stop_score),
            config.early_stop_score > 0 && best_above(
                old(self).best_schedule,
                config.early_stop_score,
            ) && !best_above(final(self).best_schedule, config.early_stop_score) ==> res.2
                is EarlyStop,
    {
        let mut best_score_at: usize = 0;
        let mut i: usize = 0;
        while i < config.iterations
            invariant
                self.wf(),
                rosters_empty(self.secv()),
                0 <= i <= config.iterations,
                best_score_at <= i,
                best_improves(old(self).best_schedule, self.best_schedule),
                i > 0 ==> self.best_schedule is Some,
                i == 0 ==> self.best_schedule == old(self).best_schedule,
                self.sv().len() == old(self).sv().len(),
                self.secv().len() == old(self).secv().len(),
                forall|t: int|
                    0 <= t < self.secv().len() ==> section_same_static(
                        #[trigger] self.secv()[t],
                        old(self).secv()[t],
                    ),
                cleared_views(self.sv()).to_multiset() == cleared_views(
                    old(self).sv(),
                ).to_multiset(),
                old(self).best_schedule is None ==> (self.best_schedule matches Some(b)
                    ==> b@.students.len() == old(self).sv().len() && cleared_views(
                    b@.students,
                ).to_multiset() == cleared_views(old(self).sv()).to_multiset()
                    && b@.sections.len() == old(self).secv().len() && (forall|t: int|
                    0 <= t < b@.sections.len() ==> section_same_static(
                        #[trigger] b@.sections[t],
                        old(self).secv()[t],
                    ))),
                config.early_stop_score > 0 && best_above(
                    old(self).best_schedule,
                    config.early_stop_score,
                ) ==> best_above(self.best_schedule, config.early_stop_score),
            decreases config.iterations - i,
        {
            self.extract_by_grade_and_shuffle();
            proof {
                lemma_cleared_views_of_unenrolled(self.sv());
            }
            let ghost s1 = *self;
            self.assign_students_to_sections();
            proof {
                lemma_cleared_views_same_identity(self.sv(), s1.sv());
                assert forall|t: int|
                    0 <= t < self.secv().len() implies section_same_static(
                    #[trigger] self.secv()[t],
                    old(self).secv()[t],
                ) by {
                    assert(section_same_static(self.secv()[t], s1.secv()[t]));
                    assert(section_same_static(s1.secv()[t], old(self).secv()[t]));
                }
            }
            let ghost s2 = *self;
            let prev_score: Option<u64> = match &self.best_schedule {
                Some(b) => Some(b.score),
                None => None,
            };
            let ghost prev_best = self.best_schedule;
            let cur = self.score_schedule();
            proof {
                assert(best_improves(prev_best, self.best_schedule));
                assert(best_improves(old(self).best_schedule, self.best_schedule));
                assert(self.best_schedule is Some);
                if old(self).best_schedule is None && self.best_schedule is Some
                    && self.best_schedule != prev_best {
                    assert((self.best_schedule matches Some(b) ==> b@.students == s2.sv()
                        && b@.sections == s2.secv()));
                }
            }
            let improved = match prev_score {
                None => true,
                Some(p) => cur < p,
            };
            if improved {
                best_score_at = i;
            }
            if config.early_stop_score > 0 && cur <= config.early_stop_score {
                proof {
                    match prev_best {
                        Some(b0) => {
                            assert(self.best_schedule matches Some(b) && b@.score
                                <= config.early_stop_score);
                        },
                        None => {
                            assert(self.best_schedule matches Some(b) && b@.score == cur);
                        },
                    }
                }
                return (self.snapshot_best(), i + 1, StopReason::EarlyStop);
            }
            proof {
                if config.early_stop_score > 0 && best_above(
                    old(self).best_schedule,
                    config.early_stop_score,
                ) {
                    assert(cur > config.early_stop_score);
                    match prev_best {
                        Some(b0) => {
                            assert(b0@.score > config.early_stop_score);
                            assert(best_above(self.best_schedule, config.early_stop_score));
                        },
                        None => {
                            assert(self.best_schedule matches Some(b) && b@.score == cur);
                        },
                    }
                }
            }
            if i - best_score_at > STAGNATION_LIMIT {
                return (self.snapshot_best(), i + 1, StopReason::Stagnation);
            }
            self.clear_sections();
            proof {
                lemma_cleared_views_of_cleared(s2.sv(), self.sv());
                assert forall|t: int|
                    0 <= t < self.secv().len() implies section_same_static(
                    #[trigger] self.secv()[t],
                    old(self).secv()[t],
                ) by {
                    assert(self.secv()[t] == (SectionV {
                        students: Seq::<int>::empty(),
                        ..s2.secv()[t]
                    }));
                }
            }
            i += 1;
        }
        (self.snapshot_best(), i, StopReason::BudgetExhausted)
    }

    /// Drives the search and returns an independent copy of the best
    /// schedule, or none if no round ever set one.  Starting from a
    /// fresh scheduler, the snapshot holds exactly the input students
    /// (cleared of enrollments, in some order) against exactly the input
    /// registry.
    pub fn run_with_config(&mut self, config: &SchedulerConfig) -> (r: Option<Schedule>)
        requires
            old(self).wf(),
            rosters_empty(old(self).secv()),
        ensures
            final(self).wf(),
            match r {
                Some(s) => final(self).best_schedule matches Some(b) && s@ == b@ && snapshot_wf(
                    s@,
                ),
                None => final(self).best_schedule is None,
            },
            best_improves(old(self).best_schedule, final(self).best_schedule),
            config.iterations == 0 ==> final(self).best_schedule == old(self).best_schedule,
            config.iterations > 0 ==> final(self).best_schedule is Some,
            r is Some <==> (config.iterations > 0 || old(self).best_schedule is Some),
            final(self).sv().len() == old(self).sv().len(),
            final(self).secv().len() == old(self).secv().len(),
            forall|t: int|
                0 <= t < final(self).secv().len() ==> section_same_static(
                    #[trigger] final(self).secv()[t],
                    old(self).secv()[t],
                ),
            old(self).best_schedule is None ==> (r matches Some(s)
                ==> s@.students.len() == old(self).sv().len() && cleared_views(
                s@.students,
            ).to_multiset() == cleared_views(old(self).sv()).to_multiset() && s@.sections.len()
                == old(self).secv().len() && (forall|t: int|
                0 <= t < s@.sections.len() ==> section_same_static(
                    #[trigger] s@.sections[t],
                    old(self).secv()[t],
                ))),
    {
        let res = self.run_with_config_counted(config);
        res.0
    }

}

} // verus!
