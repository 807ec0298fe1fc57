use rust_scheduler::model::{Course, Schedule, SchedulerConfig, Student, TimeSlot};
use rust_scheduler::parallel::{best_of, run_once, run_scheduler_parallel};
use rust_scheduler::scheduler::{Scheduler, StopReason};

fn course(name: &str, slot: TimeSlot, cap: usize) -> Course {
    Course { name: name.to_string(), time_slot: slot, max_students: cap }
}

fn student(id: usize, priority: u8, am: &[&str], pm: &[&str]) -> Student {
    Student {
        id,
        email: format!("s{}@example.org", id),
        first_name: format!("First{}", id),
        last_name: format!("Last{}", id),
        grade: "9".to_string(),
        priority,
        am_preferences: am.iter().map(|s| s.to_string()).collect(),
        pm_preferences: pm.iter().map(|s| s.to_string()).collect(),
        am_course: None,
        pm_course: None,
        full_day_course: None,
    }
}

fn config(iterations: usize, early_stop_score: u64) -> SchedulerConfig {
    SchedulerConfig { iterations, min_course_fill: 0, early_stop_score }
}

#[test]
fn satisfaction_full_day_unpreferred_costs_one_point() {
    let mut s = student(0, 1, &["painting"], &[]);
    s.full_day_course = Some("welding".to_string());
    assert_eq!(s.satisfaction_score(), 2);
}

#[test]
fn satisfaction_full_day_preferred_costs_nothing() {
    let mut s = student(0, 1, &["welding"], &[]);
    s.full_day_course = Some("welding".to_string());
    assert_eq!(s.satisfaction_score(), 0);
}

#[test]
fn satisfaction_half_point_per_unpreferred_slot() {
    let mut s = student(0, 1, &["painting"], &["chess"]);
    s.am_course = Some("algebra".to_string());
    assert_eq!(s.satisfaction_score(), 1);
    s.pm_course = Some("biology".to_string());
    assert_eq!(s.satisfaction_score(), 2);
    s.am_course = Some("painting".to_string());
    assert_eq!(s.satisfaction_score(), 1);
    s.pm_course = Some("chess".to_string());
    assert_eq!(s.satisfaction_score(), 0);
}

#[test]
fn satisfaction_unfilled_slots_cost_nothing() {
    let s = student(0, 1, &["painting"], &["chess"]);
    assert_eq!(s.satisfaction_score(), 0);
}

#[test]
fn section_roster_never_exceeds_capacity() {
    let c = course("art", TimeSlot::Am, 1);
    let mut sec = rust_scheduler::model::Section::new(&c);
    assert!(sec.add_student(0));
    assert!(!sec.add_student(1));
    assert_eq!(sec.students.len(), 1);
    let zero_cap = course("none", TimeSlot::Am, 0);
    let mut sec0 = rust_scheduler::model::Section::new(&zero_cap);
    assert!(!sec0.add_student(0));
    assert_eq!(sec0.students.len(), 0);
}

#[test]
fn scenario_one_seat_two_students() {
    // One morning course with a single seat, two students both ranking it
    // first: exactly one gets it, the other stays unassigned at no cost.
    let courses = vec![course("art", TimeSlot::Am, 1)];
    let students = vec![student(0, 1, &["art"], &[]), student(1, 1, &["art"], &[])];
    let mut sched = Scheduler::new(courses, students);
    let best = sched.run_with_config(&config(1, 0)).expect("one round must set a best");
    assert_eq!(best.score, 0);
    let enrolled: Vec<&Student> =
        best.students.iter().filter(|s| s.am_course.is_some()).collect();
    assert_eq!(enrolled.len(), 1);
    assert_eq!(enrolled[0].am_course.as_deref(), Some("art"));
    assert_eq!(best.sections.len(), 1);
    assert_eq!(best.sections[0].students.len(), 1);
}

#[test]
fn scenario_fallback_fills_and_charges_half_point_each() {
    // One morning course nobody asked for and five students with empty
    // preference lists: all five are assigned by fallback, each at half a
    // point, so the aggregate score is five half-points (2.5).
    let courses = vec![course("filler", TimeSlot::Am, 5)];
    let students: Vec<Student> = (0..5).map(|i| student(i, 1, &[], &[])).collect();
    let mut sched = Scheduler::new(courses, students);
    let best = sched.run_with_config(&config(1, 0)).expect("one round must set a best");
    assert_eq!(best.score, 5);
    assert!(best.students.iter().all(|s| s.am_course.as_deref() == Some("filler")));
    assert_eq!(best.sections[0].students.len(), 5);
}

#[test]
fn early_stop_threshold_stops_after_first_perfect_round() {
    // A perfect assignment is reachable in round one; with a positive
    // early-stop threshold the loop stops immediately.
    let courses = vec![course("art", TimeSlot::Am, 2), course("chess", TimeSlot::Pm, 2)];
    let students = vec![
        student(0, 1, &["art"], &["chess"]),
        student(1, 2, &["art"], &["chess"]),
    ];
    let mut sched = Scheduler::new(courses, students);
    let (best, rounds, reason) = sched.run_with_config_counted(&config(50, 1));
    assert_eq!(rounds, 1);
    assert_eq!(reason, StopReason::EarlyStop);
    assert_eq!(best.expect("a best").score, 0);
}

#[test]
fn early_stop_score_of_zero_never_stops_early() {
    // A threshold of zero means "not configured": the loop runs its full
    // budget even when every round is already perfect.
    let courses = vec![course("art", TimeSlot::Am, 2)];
    let students = vec![student(0, 1, &["art"], &[])];
    let mut sched = Scheduler::new(courses, students);
    let (best, rounds, reason) = sched.run_with_config_counted(&config(3, 0));
    assert_eq!(rounds, 3);
    assert_eq!(reason, StopReason::BudgetExhausted);
    assert_eq!(best.expect("a best").score, 0);
}

#[test]
fn stagnation_stops_the_search() {
    // No courses at all: every round scores zero and only the first one
    // improves, so the loop gives up once the stagnation limit is passed.
    let students = vec![student(0, 1, &[], &[])];
    let mut sched = Scheduler::new(Vec::new(), students);
    let (best, rounds, reason) = sched.run_with_config_counted(&config(20000, 0));
    assert_eq!(rounds, 10002);
    assert_eq!(reason, StopReason::Stagnation);
    assert_eq!(best.expect("a best").score, 0);
}

#[test]
fn zero_iterations_yield_no_schedule() {
    let courses = vec![course("art", TimeSlot::Am, 1)];
    let students = vec![student(0, 1, &["art"], &[])];
    let mut sched = Scheduler::new(courses, students);
    assert!(sched.run_with_config(&config(0, 0)).is_none());
}

#[test]
fn full_day_enrollment_blocks_afternoon() {
    // The full-day course is ranked first for the morning: the student is
    // committed for the whole day and the afternoon course stays empty.
    let courses = vec![course("forge", TimeSlot::FullDay, 1), course("chess", TimeSlot::Pm, 1)];
    let students = vec![student(0, 1, &["forge"], &["chess"])];
    let mut sched = Scheduler::new(courses, students);
    let best = sched.run_with_config(&config(1, 0)).expect("a best");
    let st = &best.students[0];
    assert_eq!(st.full_day_course.as_deref(), Some("forge"));
    assert_eq!(st.am_course, None);
    assert_eq!(st.pm_course, None);
    let chess = best.sections.iter().find(|s| s.course_name == "chess").unwrap();
    assert!(chess.students.is_empty());
}

#[test]
fn morning_fallback_reaches_full_day_sections() {
    // With no preferences and only a full-day course open, the morning
    // fallback still seats the student — in the full-day field.
    let courses = vec![course("forge", TimeSlot::FullDay, 1)];
    let students = vec![student(0, 1, &[], &[])];
    let mut sched = Scheduler::new(courses, students);
    let best = sched.run_with_config(&config(1, 0)).expect("a best");
    let st = &best.students[0];
    assert_eq!(st.full_day_course.as_deref(), Some("forge"));
    assert_eq!(st.am_course, None);
    // an unpreferred full-day enrollment costs a full point
    assert_eq!(best.score, 2);
}

#[test]
fn no_morning_seat_means_no_afternoon_seat() {
    // The only morning seat goes to the first student; the other gets no
    // afternoon seat either, even though one is free.
    let courses = vec![course("art", TimeSlot::Am, 1), course("chess", TimeSlot::Pm, 2)];
    let students = vec![student(0, 1, &["art"], &["chess"]), student(1, 1, &["art"], &["chess"])];
    let mut sched = Scheduler::new(courses, students);
    let best = sched.run_with_config(&config(1, 0)).expect("a best");
    let seated: Vec<&Student> =
        best.students.iter().filter(|s| s.am_course.is_some()).collect();
    let unseated: Vec<&Student> =
        best.students.iter().filter(|s| s.am_course.is_none()).collect();
    assert_eq!(seated.len(), 1);
    assert_eq!(unseated.len(), 1);
    assert_eq!(seated[0].pm_course.as_deref(), Some("chess"));
    assert_eq!(unseated[0].pm_course, None);
}

#[test]
fn rosters_and_enrollment_fields_stay_consistent() {
    let courses = vec![
        course("art", TimeSlot::Am, 2),
        course("forge", TimeSlot::FullDay, 1),
        course("chess", TimeSlot::Pm, 2),
    ];
    let students = vec![
        student(0, 1, &["art"], &["chess"]),
        student(1, 2, &["forge"], &["chess"]),
        student(2, 3, &[], &[]),
    ];
    let mut sched = Scheduler::new(courses, students);
    sched.assign_students_to_sections();
    for (idx, st) in sched.students.iter().enumerate() {
        for sec in sched.sections.iter() {
            let field = match sec.time_slot {
                TimeSlot::Am => &st.am_course,
                TimeSlot::Pm => &st.pm_course,
                TimeSlot::FullDay => &st.full_day_course,
            };
            let listed = sec.students.iter().filter(|&&x| x == idx).count();
            if field.as_deref() == Some(sec.course_name.as_str()) {
                assert_eq!(listed, 1);
            } else {
                assert_eq!(listed, 0);
            }
        }
        if st.pm_course.is_some() {
            assert!(st.am_course.is_some());
        }
        if st.full_day_course.is_some() {
            assert!(st.am_course.is_none() && st.pm_course.is_none());
        }
    }
    for sec in sched.sections.iter() {
        assert!(sec.students.len() <= sec.max_students);
    }
}

#[test]
fn reset_twice_leaves_the_same_empty_state() {
    let courses = vec![course("art", TimeSlot::Am, 2), course("chess", TimeSlot::Pm, 2)];
    let students = vec![student(0, 1, &["art"], &["chess"]), student(1, 1, &["art"], &["chess"])];
    let mut sched = Scheduler::new(courses, students);
    sched.assign_students_to_sections();
    sched.clear_sections();
    let rosters_once: Vec<Vec<usize>> =
        sched.sections.iter().map(|s| s.students.clone()).collect();
    let fields_once: Vec<(Option<String>, Option<String>, Option<String>)> = sched
        .students
        .iter()
        .map(|s| (s.am_course.clone(), s.pm_course.clone(), s.full_day_course.clone()))
        .collect();
    sched.clear_sections();
    let rosters_twice: Vec<Vec<usize>> =
        sched.sections.iter().map(|s| s.students.clone()).collect();
    let fields_twice: Vec<(Option<String>, Option<String>, Option<String>)> = sched
        .students
        .iter()
        .map(|s| (s.am_course.clone(), s.pm_course.clone(), s.full_day_course.clone()))
        .collect();
    assert_eq!(rosters_once, rosters_twice);
    assert_eq!(fields_once, fields_twice);
    assert!(rosters_twice.iter().all(|r| r.is_empty()));
    assert!(fields_twice.iter().all(|f| f.0.is_none() && f.1.is_none() && f.2.is_none()));
}

#[test]
fn shuffle_orders_by_priority_and_keeps_everyone() {
    let courses = vec![course("art", TimeSlot::Am, 10)];
    let students: Vec<Student> =
        (0..9).map(|i| student(i, (i % 3 + 1) as u8, &["art"], &[])).collect();
    let mut sched = Scheduler::new(courses, students);
    sched.extract_by_grade_and_shuffle();
    let priorities: Vec<u8> = sched.students.iter().map(|s| s.priority).collect();
    let mut sorted = priorities.clone();
    sorted.sort();
    assert_eq!(priorities, sorted);
    let mut ids: Vec<usize> = sched.students.iter().map(|s| s.id).collect();
    ids.sort();
    assert_eq!(ids, (0..9).collect::<Vec<usize>>());
    assert!(sched.students.iter().all(|s| s.am_course.is_none()
        && s.pm_course.is_none()
        && s.full_day_course.is_none()));
}

#[test]
fn best_snapshot_scores_strictly_decrease() {
    // Round one scores a half-point; after the student's preference list
    // is widened, the next round scores zero and replaces the snapshot.
    let courses = vec![course("art", TimeSlot::Am, 1)];
    let students = vec![student(0, 1, &["music"], &[])];
    let mut sched = Scheduler::new(courses, students);
    sched.assign_students_to_sections();
    let first = sched.score_schedule();
    assert_eq!(first, 1);
    assert_eq!(sched.snapshot_best().expect("a best").score, 1);
    sched.clear_sections();
    sched.students[0].am_preferences.push("art".to_string());
    sched.assign_students_to_sections();
    let second = sched.score_schedule();
    assert_eq!(second, 0);
    assert_eq!(sched.snapshot_best().expect("a best").score, 0);
}

#[test]
fn scoring_keeps_a_not_better_round_out_of_the_snapshot() {
    let courses = vec![course("art", TimeSlot::Am, 1)];
    let students = vec![student(0, 1, &["music"], &[])];
    let mut sched = Scheduler::new(courses, students);
    sched.assign_students_to_sections();
    assert_eq!(sched.score_schedule(), 1);
    sched.clear_sections();
    sched.assign_students_to_sections();
    // the same assignment again: the partial sum reaches the best known
    // score and the snapshot is kept, not replaced
    let again = sched.score_schedule();
    assert!(again >= 1);
    assert_eq!(sched.snapshot_best().expect("a best").score, 1);
}

#[test]
fn parallel_attempts_reduce_to_the_best() {
    let courses = vec![course("filler", TimeSlot::Am, 5)];
    let students: Vec<Student> = (0..5).map(|i| student(i, 1, &[], &[])).collect();
    let best = run_scheduler_parallel(&courses, &students, &config(2, 0), 4)
        .expect("four attempts must produce a schedule");
    // every attempt of this input scores five half-points, so the reduced
    // best does too — never more than the minimum across attempts
    assert_eq!(best.score, 5);
}

#[test]
fn parallel_with_no_attempts_or_no_rounds_produces_nothing() {
    let courses = vec![course("art", TimeSlot::Am, 1)];
    let students = vec![student(0, 1, &["art"], &[])];
    assert!(run_scheduler_parallel(&courses, &students, &config(2, 0), 0).is_none());
    assert!(run_scheduler_parallel(&courses, &students, &config(0, 0), 4).is_none());
    assert!(run_once(&courses, &students, &config(0, 0)).is_none());
    assert!(run_once(&courses, &students, &config(1, 0)).is_some());
}

#[test]
fn best_of_picks_lowest_and_skips_missing() {
    fn snap(score: u64) -> Schedule {
        Schedule { students: Vec::new(), sections: Vec::new(), score }
    }
    assert!(best_of(Vec::new()).is_none());
    assert!(best_of(vec![None, None]).is_none());
    let r = best_of(vec![None, Some(snap(4)), Some(snap(2)), Some(snap(6))]);
    assert_eq!(r.expect("one present").score, 2);
    let tie = best_of(vec![Some(snap(3)), Some(snap(3))]);
    assert_eq!(tie.expect("one present").score, 3);
}

#[test]
fn construction_clears_stale_enrollments() {
    // enrollment fields are cleared and rewritten every round, so stale
    // values arriving with the input are dropped at construction
    let courses = vec![course("art", TimeSlot::Am, 1)];
    let mut s = student(0, 1, &["art"], &[]);
    s.am_course = Some("stale".to_string());
    s.full_day_course = Some("stale".to_string());
    let sched = Scheduler::new(courses, vec![s]);
    assert!(sched.students[0].am_course.is_none());
    assert!(sched.students[0].full_day_course.is_none());
    assert!(sched.best_schedule.is_none());
    assert!(sched.sections[0].students.is_empty());
}
