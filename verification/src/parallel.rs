//! The parallel orchestrator: several independent optimization attempts,
//! each on its own copies of the input and its own random stream, reduced
//! to the single best schedule across all of them.

use vstd::prelude::*;
use rayon::prelude::ParallelIterator;
use rayon::prelude::IntoParallelIterator;
use crate::model::{
    cleared_views, copy_courses, copy_students, lemma_cleared_views_of_cleared, students_v,
    Course, Schedule, SchedulerConfig, Student,
};
use crate::scheduler::{inputs_wf, rosters_empty, section_same_static, snapshot_wf, Scheduler};

verus! {

/// One complete, independent optimization attempt: a fresh scheduler on
/// deep copies of the inputs, run for the configured rounds.  It yields a
/// snapshot — well-formed, holding exactly the input students (cleared,
/// in some order) against exactly the input course registry — exactly
/// when at least one round runs.
pub fn run_once(courses: &Vec<Course>, students: &Vec<Student>, config: &SchedulerConfig) -> (r:
    Option<Schedule>)
    requires
        inputs_wf(courses@, students@),
    ensures
        r matches Some(s) ==> snapshot_wf(s@),
        r is Some <==> config.iterations > 0,
        r matches Some(s) ==> s@.students.len() == students@.len() && cleared_views(
            s@.students,
        ).to_multiset() == cleared_views(students_v(students@)).to_multiset()
            && s@.sections.len() == courses@.len() && (forall|i: int|
            0 <= i < courses@.len() ==> (#[trigger] s@.sections[i]).name == courses@[i]@.name
                && s@.sections[i].time_slot == courses@[i]@.time_slot
                && s@.sections[i].max_students == courses@[i]@.max_students),
{
    let cs = copy_courses(courses);
    let ss = copy_students(students);
    proof {
        assert forall|i: int, j: int|
            0 <= i < cs@.len() && 0 <= j < cs@.len() && i != j implies (#[trigger] cs@[i])@.name
            != (#[trigger] cs@[j])@.name by {
            assert(cs@[i]@ == courses@[i]@);
            assert(cs@[j]@ == courses@[j]@);
        }
        assert forall|j: int| 0 <= j < ss@.len() implies 1 <= (#[trigger] ss@[j])@.priority
            <= 3 by {
            assert(ss@[j]@ == students_v(students@)[j]);
            assert(students@[j]@.priority == students_v(students@)[j].priority);
        }
        assert(inputs_wf(cs@, ss@));
    }
    let mut sched = Scheduler::new(cs, ss);
    proof {
        assert forall|j: int| 0 <= j < students@.len() implies #[trigger] sched.sv()[j]
            == crate::model::cleared_of(students_v(students@)[j]) by {
            assert(sched.sv()[j] == crate::model::cleared_of(ss@[j]@));
            assert(ss@[j]@ == students_v(students@)[j]);
        }
        lemma_cleared_views_of_cleared(students_v(students@), sched.sv());
        assert forall|i: int| 0 <= i < courses@.len() implies (#[trigger] sched.secv()[i]).name
            == courses@[i]@.name && sched.secv()[i].time_slot == courses@[i]@.time_slot
            && sched.secv()[i].max_students == courses@[i]@.max_students by {
            assert(sched.secv()[i].name == cs@[i]@.name);
            assert(cs@[i]@ == courses@[i]@);
        }
    }
    let ghost entry = sched;
    let r = sched.run_with_config(config);
    match &r {
        Some(s) => {
            proof {
                assert(cleared_views(s@.students).to_multiset() == cleared_views(
                    entry.sv(),
                ).to_multiset());
                assert(cleared_views(entry.sv()) == cleared_views(students_v(students@)));
                assert forall|i: int|
                    0 <= i < courses@.len() implies (#[trigger] s@.sections[i]).name
                    == courses@[i]@.name && s@.sections[i].time_slot == courses@[i]@.time_slot
                    && s@.sections[i].max_students == courses@[i]@.max_students by {
                    assert(section_same_static(s@.sections[i], entry.secv()[i]));
                }
            }
        },
        None => {},
    }
    r
}

/// Relies on rayon's `into_par_iter().map(..).collect()` over the range
/// of attempt indices: the collected vector has one element per index,
/// and each element is the value returned by the mapped closure for that
/// index — here a call of `run_once`, a verified function of this
/// library, so each element satisfies `run_once`'s proved contract,
/// restated here element by element.
#[verifier::external_body]
fn run_attempts(
    courses: &Vec<Course>,
    students: &Vec<Student>,
    config: &SchedulerConfig,
    num_threads: usize,
) -> (r: Vec<Option<Schedule>>)
    requires
        inputs_wf(courses@, students@),
    ensures
        r@.len() == num_threads,
        forall|i: int| 0 <= i < r@.len() ==> ((#[trigger] r@[i]) is Some <==> config.iterations > 0),
        forall|i: int|
            0 <= i < r@.len() ==> ((#[trigger] r@[i]) matches Some(s) ==> snapshot_wf(s@)
                && s@.students.len() == students@.len() && cleared_views(
                s@.students,
            ).to_multiset() == cleared_views(students_v(students@)).to_multiset()
                && s@.sections.len() == courses@.len() && (forall|i2: int|
                0 <= i2 < courses@.len() ==> (#[trigger] s@.sections[i2]).name
                    == courses@[i2]@.name && s@.sections[i2].time_slot == courses@[i2]@.time_slot
                    && s@.sections[i2].max_students == courses@[i2]@.max_students)),
{
    (0..num_threads).into_par_iter().map(|_| run_once(courses, students, config)).collect()
}

/// Reduces a list of attempt outcomes to the one with the numerically
/// lowest score; attempts that produced nothing are discarded, ties are
/// broken arbitrarily, and only if every attempt produced nothing is
/// nothing produced.
pub fn best_of(results: Vec<Option<Schedule>>) -> (r: Option<Schedule>)
    ensures
        r is None <==> (forall|i: int| 0 <= i < results@.len() ==> (#[trigger] results@[i]) is None),
        r matches Some(s) ==> (exists|i: int|
            0 <= i < results@.len() && #[trigger] results@[i] == Some(s)) && (forall|i: int|
            0 <= i < results@.len() ==> ((#[trigger] results@[i]) matches Some(t) ==> s@.score
                <= t@.score)),
{
    let ghost orig = results@;
    let mut rest = results;
    let mut best: Option<Schedule> = None;
    while rest.len() > 0
        invariant
            rest@ == orig.take(rest@.len() as int),
            rest@.len() <= orig.len(),
            match best {
                None => forall|i: int|
                    rest@.len() <= i < orig.len() ==> (#[trigger] orig[i]) is None,
                Some(s) => (exists|i: int|
                    rest@.len() <= i < orig.len() && #[trigger] orig[i] == Some(s)) && (forall|
                    i: int,
                |
                    rest@.len() <= i < orig.len() ==> ((#[trigger] orig[i]) matches Some(t)
                        ==> s.score <= t.score)),
            },
        decreases rest@.len(),
    {
        let ghost pre = rest@;
        let last = rest.pop().unwrap();
        proof {
            assert(pre == orig.take(pre.len() as int));
            assert(rest@ =~= orig.take(rest@.len() as int));
            assert(orig[rest@.len() as int] == last);
        }
        match last {
            Some(s) => {
                let take_it = match &best {
                    Some(b) => s.score < b.score,
                    None => true,
                };
                if take_it {
                    best = Some(s);
                }
            },
            None => {},
        }
    }
    proof {
        assert(orig.take(0) =~= Seq::<Option<Schedule>>::empty());
        if best is Some {
            assert(orig.take(orig.len() as int) =~= orig);
        }
    }
    match best {
        Some(s) => {
            proof {
                assert(exists|i: int| 0 <= i < orig.len() && #[trigger] orig[i] == Some(s));
                assert forall|i: int|
                    0 <= i < orig.len() implies ((#[trigger] orig[i]) matches Some(t) ==> s@.score
                    <= t@.score) by {}
            }
            Some(s)
        },
        None => None,
    }
}

/// Runs the configured number of independent attempts concurrently and
/// keeps the best schedule across all of them.  With at least one attempt
/// and at least one round per attempt a schedule is always produced.
pub fn run_scheduler_parallel(
    courses: &Vec<Course>,
    students: &Vec<Student>,
    config: &SchedulerConfig,
    num_threads: usize,
) -> (r: Option<Schedule>)
    requires
        inputs_wf(courses@, students@),
    ensures
        r matches Some(s) ==> snapshot_wf(s@),
        r is Some <==> (num_threads > 0 && config.iterations > 0),
        r matches Some(s) ==> s@.students.len() == students@.len() && cleared_views(
            s@.students,
        ).to_multiset() == cleared_views(students_v(students@)).to_multiset()
            && s@.sections.len() == courses@.len() && (forall|i: int|
            0 <= i < courses@.len() ==> (#[trigger] s@.sections[i]).name == courses@[i]@.name
                && s@.sections[i].time_slot == courses@[i]@.time_slot
                && s@.sections[i].max_students == courses@[i]@.max_students),
{
    let results = run_attempts(courses, students, config, num_threads);
    let ghost rv = results@;
    proof {
        if num_threads > 0 && config.iterations > 0 {
            assert(rv[0] is Some);
        }
    }
    match best_of(results) {
        Some(s) => {
            proof {
                let i = choose|i: int| 0 <= i < rv.len() && #[trigger] rv[i] == Some(s);
                assert(rv[i] is Some);
                assert(snapshot_wf(s@));
            }
            Some(s)
        },
        None => None,
    }
}

} // verus!
