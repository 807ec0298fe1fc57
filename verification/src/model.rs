//! The data model: courses, students, sections, schedules and the run
//! configuration, together with their mathematical views and the
//! per-student satisfaction cost.

use vstd::prelude::*;

verus! {

/// When a course meets: morning, afternoon, or the whole day.
#[derive(Clone, Copy, Debug, PartialEq, Eq, Structural)]
pub enum TimeSlot {
    Am,
    Pm,
    FullDay,
}

/// An offered course: a unique name, a time slot, and a capacity.
/// Immutable after load.
pub struct Course {
    pub name: String,
    pub time_slot: TimeSlot,
    pub max_students: usize,
}

/// The mathematical view of a `Course`.
#[verifier::ext_equal]
pub struct CourseV {
    pub name: Seq<char>,
    pub time_slot: TimeSlot,
    pub max_students: int,
}

impl View for Course {
    type V = CourseV;

    open spec fn view(&self) -> CourseV {
        CourseV {
            name: self.name@,
            time_slot: self.time_slot,
            max_students: self.max_students as int,
        }
    }
}

/// A student: identity fields, a priority tier (1 is highest), ranked
/// course-name preferences for the morning and afternoon slots, and the
/// mutable enrollment fields that each round clears and rewrites.
pub struct Student {
    pub id: usize,
    pub email: String,
    pub first_name: String,
    pub last_name: String,
    pub grade: String,
    pub priority: u8,
    pub am_preferences: Vec<String>,
    pub pm_preferences: Vec<String>,
    pub am_course: Option<String>,
    pub pm_course: Option<String>,
    pub full_day_course: Option<String>,
}

/// The mathematical view of a `Student`.
#[verifier::ext_equal]
pub struct StudentV {
    pub id: int,
    pub email: Seq<char>,
    pub first_name: Seq<char>,
    pub last_name: Seq<char>,
    pub grade: Seq<char>,
    pub priority: int,
    pub am_preferences: Seq<Seq<char>>,
    pub pm_preferences: Seq<Seq<char>>,
    pub am_course: Option<Seq<char>>,
    pub pm_course: Option<Seq<char>>,
    pub full_day_course: Option<Seq<char>>,
}

/// The views of a sequence of course names.
pub open spec fn names_of(v: Seq<String>) -> Seq<Seq<char>> {
    v.map_values(|s: String| s@)
}

/// The view of an optional course name.
pub open spec fn opt_name_of(v: Option<String>) -> Option<Seq<char>> {
    match v {
        Some(s) => Some(s@),
        None => None,
    }
}

impl View for Student {
    type V = StudentV;

    open spec fn view(&self) -> StudentV {
        StudentV {
            id: self.id as int,
            email: self.email@,
            first_name: self.first_name@,
            last_name: self.last_name@,
            grade: self.grade@,
            priority: self.priority as int,
            am_preferences: names_of(self.am_preferences@),
            pm_preferences: names_of(self.pm_preferences@),
            am_course: opt_name_of(self.am_course),
            pm_course: opt_name_of(self.pm_course),
            full_day_course: opt_name_of(self.full_day_course),
        }
    }
}

/// A student with the three enrollment fields cleared and everything else
/// as it was.
pub open spec fn cleared_of(s: StudentV) -> StudentV {
    StudentV { am_course: None, pm_course: None, full_day_course: None, ..s }
}

/// Two student views that agree on every field but the enrollment fields.
pub open spec fn same_identity(a: StudentV, b: StudentV) -> bool {
    cleared_of(a) == cleared_of(b)
}


/// The views of a student list with every enrollment field cleared.
pub open spec fn cleared_views(sts: Seq<StudentV>) -> Seq<StudentV> {
    sts.map_values(|s: StudentV| cleared_of(s))
}

/// Clearing an already-clear student changes nothing, so a list of
/// unenrolled students is its own cleared view.
pub proof fn lemma_cleared_views_of_unenrolled(sts: Seq<StudentV>)
    requires
        forall|j: int|
            0 <= j < sts.len() ==> (#[trigger] sts[j]).am_course is None && sts[j].pm_course
                is None && sts[j].full_day_course is None,
    ensures
        cleared_views(sts) == sts,
{
    assert forall|j: int| 0 <= j < sts.len() implies #[trigger] cleared_views(sts)[j]
        == sts[j] by {
        assert(cleared_of(sts[j]) =~~= sts[j]);
    }
    assert(cleared_views(sts) =~= sts);
}

/// Students that differ only in their enrollment fields have the same
/// cleared views.
pub proof fn lemma_cleared_views_same_identity(a: Seq<StudentV>, b: Seq<StudentV>)
    requires
        a.len() == b.len(),
        forall|j: int| 0 <= j < a.len() ==> same_identity(#[trigger] a[j], b[j]),
    ensures
        cleared_views(a) == cleared_views(b),
{
    assert forall|j: int| 0 <= j < a.len() implies #[trigger] cleared_views(a)[j]
        == cleared_views(b)[j] by {
        assert(cleared_of(a[j]) == cleared_of(b[j]));
    }
    assert(cleared_views(a) =~= cleared_views(b));
}

/// Clearing is idempotent at the view level: the cleared views of a
/// cleared list are the cleared views of the list itself.
pub proof fn lemma_cleared_views_of_cleared(a: Seq<StudentV>, b: Seq<StudentV>)
    requires
        a.len() == b.len(),
        forall|j: int| 0 <= j < a.len() ==> #[trigger] b[j] == cleared_of(a[j]),
    ensures
        cleared_views(b) == cleared_views(a),
{
    assert forall|j: int| 0 <= j < a.len() implies #[trigger] cleared_views(b)[j]
        == cleared_views(a)[j] by {
        assert(cleared_of(cleared_of(a[j])) =~~= cleared_of(a[j]));
    }
    assert(cleared_views(b) =~= cleared_views(a));
}

/// The live, capacity-bounded enrollment instance of a course for one
/// optimization round.  The roster holds indices into the scheduler's
/// current student order.
pub struct Section {
    pub course_name: String,
    pub time_slot: TimeSlot,
    pub max_students: usize,
    pub students: Vec<usize>,
}

/// The mathematical view of a `Section`.
#[verifier::ext_equal]
pub struct SectionV {
    pub name: Seq<char>,
    pub time_slot: TimeSlot,
    pub max_students: int,
    pub students: Seq<int>,
}

impl View for Section {
    type V = SectionV;

    open spec fn view(&self) -> SectionV {
        SectionV {
            name: self.course_name@,
            time_slot: self.time_slot,
            max_students: self.max_students as int,
            students: self.students@.map_values(|x: usize| x as int),
        }
    }
}

/// An immutable snapshot of one round's outcome: the student list with its
/// enrollment fields, the section list with its rosters, and the aggregate
/// score in half-point units.
pub struct Schedule {
    pub students: Vec<Student>,
    pub sections: Vec<Section>,
    pub score: u64,
}

/// The mathematical view of a `Schedule`.
#[verifier::ext_equal]
pub struct ScheduleV {
    pub students: Seq<StudentV>,
    pub sections: Seq<SectionV>,
    pub score: int,
}

/// The views of a sequence of students.
pub open spec fn students_v(v: Seq<Student>) -> Seq<StudentV> {
    v.map_values(|s: Student| s@)
}

/// The views of a sequence of sections.
pub open spec fn sections_v(v: Seq<Section>) -> Seq<SectionV> {
    v.map_values(|s: Section| s@)
}

impl View for Schedule {
    type V = ScheduleV;

    open spec fn view(&self) -> ScheduleV {
        ScheduleV {
            students: students_v(self.students@),
            sections: sections_v(self.sections@),
            score: self.score as int,
        }
    }
}

/// The run configuration, set once and read-only for a whole run.
///
/// `min_course_fill` is an advisory fill fraction in thousandths; it is
/// held but not read by the scoring function.  `early_stop_score` is a
/// half-point threshold: when it is positive and a round's score is at or
/// below it, the search stops at once.
#[derive(Clone, Copy)]
pub struct SchedulerConfig {
    pub iterations: usize,
    pub min_course_fill: u64,
    pub early_stop_score: u64,
}

/// The half-point penalty one assigned slot contributes: one half-point
/// when the enrolled course is not among the given preferences, none when
/// it is preferred or when the slot was never filled.
pub open spec fn slot_penalty(course: Option<Seq<char>>, prefs: Seq<Seq<char>>) -> int {
    match course {
        Some(c) => if prefs.contains(c) {
            0
        } else {
            1
        },
        None => 0,
    }
}

/// The per-student satisfaction cost in half-point units: an unpreferred
/// full-day enrollment costs two half-points and nothing more is added;
/// otherwise each of the morning and afternoon slots contributes its
/// penalty.  Zero is fully satisfied.
pub open spec fn cost_of(s: StudentV) -> int {
    match s.full_day_course {
        Some(c) => if !s.am_preferences.contains(c) {
            2
        } else {
            slot_penalty(s.am_course, s.am_preferences) + slot_penalty(
                s.pm_course,
                s.pm_preferences,
            )
        },
        None => slot_penalty(s.am_course, s.am_preferences) + slot_penalty(
            s.pm_course,
            s.pm_preferences,
        ),
    }
}

/// The aggregate score of a student list: the sum of the per-student costs.
pub open spec fn total_cost(ss: Seq<StudentV>) -> int
    decreases ss.len(),
{
    if ss.len() == 0 {
        0
    } else {
        total_cost(ss.drop_last()) + cost_of(ss.last())
    }
}

/// Every per-student cost lies between zero and two half-points.
pub proof fn lemma_cost_bounds(s: StudentV)
    ensures
        0 <= cost_of(s) <= 2,
{
}

/// The sum of per-student costs over a prefix never exceeds the sum over
/// the whole list: costs are non-negative.
pub proof fn lemma_prefix_cost_le(ss: Seq<StudentV>, k: int)
    requires
        0 <= k <= ss.len(),
    ensures
        total_cost(ss.take(k)) <= total_cost(ss),
    decreases ss.len() - k,
{
    if k == ss.len() {
        assert(ss.take(k) =~= ss);
    } else {
        lemma_prefix_cost_le(ss, k + 1);
        assert(ss.take(k + 1).drop_last() =~= ss.take(k));
        assert(ss.take(k + 1).last() == ss[k]);
        lemma_cost_bounds(ss[k]);
    }
}

/// Extending a prefix by one student adds that student's cost.
pub proof fn lemma_prefix_cost_step(ss: Seq<StudentV>, k: int)
    requires
        0 <= k < ss.len(),
    ensures
        total_cost(ss.take(k + 1)) == total_cost(ss.take(k)) + cost_of(ss[k]),
{
    assert(ss.take(k + 1).drop_last() =~= ss.take(k));
    assert(ss.take(k + 1).last() == ss[k]);
}

/// The aggregate score is bounded by two half-points per student.
pub proof fn lemma_total_cost_bounds(ss: Seq<StudentV>)
    ensures
        0 <= total_cost(ss) <= 2 * ss.len(),
    decreases ss.len(),
{
    if ss.len() > 0 {
        lemma_total_cost_bounds(ss.drop_last());
        lemma_cost_bounds(ss.last());
    }
}

/// A well-formed snapshot: the stored score is the exact aggregate cost of
/// the stored students, and every roster respects its capacity.
pub open spec fn schedule_wf(b: ScheduleV) -> bool {
    &&& b.score == total_cost(b.students)
    &&& forall|i: int|
        0 <= i < b.sections.len() ==> (#[trigger] b.sections[i]).students.len()
            <= b.sections[i].max_students
}

/// Whether two course names are the same string.
pub fn name_eq(a: &String, b: &String) -> (r: bool)
    ensures
        r == (a@ == b@),
{
    a.eq(b)
}

/// An independent, element-wise equal copy of a list of course names.
pub fn copy_strings(v: &Vec<String>) -> (r: Vec<String>)
    ensures
        r@ == v@,
{
    let mut r: Vec<String> = Vec::new();
    let mut k: usize = 0;
    while k < v.len()
        invariant
            0 <= k <= v@.len(),
            r@ == v@.take(k as int),
        decreases v@.len() - k,
    {
        r.push(v[k].clone());
        proof {
            assert(r@ =~= v@.take(k as int + 1));
        }
        k += 1;
    }
    proof {
        assert(v@.take(v@.len() as int) =~= v@);
    }
    r
}

/// Whether a list of course names contains the given name.
pub fn contains_course(prefs: &Vec<String>, name: &String) -> (r: bool)
    ensures
        r == names_of(prefs@).contains(name@),
{
    let mut k: usize = 0;
    while k < prefs.len()
        invariant
            0 <= k <= prefs@.len(),
            forall|l: int| 0 <= l < k ==> names_of(prefs@)[l] != name@,
        decreases prefs@.len() - k,
    {
        if name_eq(&prefs[k], name) {
            assert(names_of(prefs@)[k as int] == name@);
            return true;
        }
        k += 1;
    }
    assert(forall|l: int| 0 <= l < prefs@.len() ==> names_of(prefs@)[l] != name@);
    false
}

impl Student {
    /// The student's satisfaction cost in half-point units, exactly as the
    /// mathematical cost states it; never more than two half-points.
    pub fn satisfaction_score(&self) -> (r: u64)
        ensures
            r == cost_of(self@),
            r <= 2,
    {
        let mut score: u64 = 0;
        if let Some(course_name) = &self.full_day_course {
            if !contains_course(&self.am_preferences, course_name) {
                score = score + 2;
                return score;
            }
        }
        if let Some(course_name) = &self.am_course {
            if !contains_course(&self.am_preferences, course_name) {
                score = score + 1;
            }
        }
        if let Some(course_name) = &self.pm_course {
            if !contains_course(&self.pm_preferences, course_name) {
                score = score + 1;
            }
        }
        score
    }

    /// Clears the three enrollment fields; every other field is kept.
    pub fn clear_enrollments(&mut self)
        ensures
            final(self)@ == cleared_of(old(self)@),
    {
        self.am_course = None;
        self.pm_course = None;
        self.full_day_course = None;
        assert(self@ =~~= cleared_of(old(self)@));
    }
}

/// An independent copy of a student with the enrollment fields cleared.
pub fn cleared_student(s: &Student) -> (r: Student)
    ensures
        r@ == cleared_of(s@),
{
    let r = Student {
        id: s.id,
        email: s.email.clone(),
        first_name: s.first_name.clone(),
        last_name: s.last_name.clone(),
        grade: s.grade.clone(),
        priority: s.priority,
        am_preferences: copy_strings(&s.am_preferences),
        pm_preferences: copy_strings(&s.pm_preferences),
        am_course: None,
        pm_course: None,
        full_day_course: None,
    };
    proof {
        assert(names_of(r.am_preferences@) =~= names_of(s.am_preferences@));
        assert(names_of(r.pm_preferences@) =~= names_of(s.pm_preferences@));
        assert(r@ =~~= cleared_of(s@));
    }
    r
}

/// An independent, view-identical copy of a student.
pub fn copy_student(s: &Student) -> (r: Student)
    ensures
        r@ == s@,
{
    let am_course = match &s.am_course {
        Some(c) => Some(c.clone()),
        None => None,
    };
    let pm_course = match &s.pm_course {
        Some(c) => Some(c.clone()),
        None => None,
    };
    let full_day_course = match &s.full_day_course {
        Some(c) => Some(c.clone()),
        None => None,
    };
    let r = Student {
        id: s.id,
        email: s.email.clone(),
        first_name: s.first_name.clone(),
        last_name: s.last_name.clone(),
        grade: s.grade.clone(),
        priority: s.priority,
        am_preferences: copy_strings(&s.am_preferences),
        pm_preferences: copy_strings(&s.pm_preferences),
        am_course,
        pm_course,
        full_day_course,
    };
    proof {
        assert(names_of(r.am_preferences@) =~= names_of(s.am_preferences@));
        assert(names_of(r.pm_preferences@) =~= names_of(s.pm_preferences@));
        assert(r@ =~~= s@);
    }
    r
}

impl Section {
    /// The live section derived from a course: name, slot and capacity are
    /// copied, and the roster starts empty.
    pub fn new(course: &Course) -> (r: Section)
        ensures
            r@.name == course@.name,
            r@.time_slot == course@.time_slot,
            r@.max_students == course@.max_students,
            r@.students == Seq::<int>::empty(),
    {
        let r = Section {
            course_name: course.name.clone(),
            time_slot: course.time_slot,
            max_students: course.max_students,
            students: Vec::new(),
        };
        proof {
            assert(r@.students =~= Seq::<int>::empty());
        }
        r
    }

    /// Appends a student to the roster when there is room and reports
    /// whether it did; a full roster is left untouched.  The capacity bound
    /// `len(roster) <= max_students` is enforced here and only here.
    pub fn add_student(&mut self, student_id: usize) -> (r: bool)
        ensures
            r == (old(self)@.students.len() < old(self)@.max_students),
            r ==> final(self)@ == (SectionV {
                students: old(self)@.students.push(student_id as int),
                ..old(self)@
            }),
            !r ==> final(self)@ == old(self)@,
    {
        if self.students.len() < self.max_students {
            self.students.push(student_id);
            proof {
                assert(self@.students =~= old(self)@.students.push(student_id as int));
                assert(self@ =~~= (SectionV {
                    students: old(self)@.students.push(student_id as int),
                    ..old(self)@
                }));
            }
            true
        } else {
            false
        }
    }

    /// Empties the roster; name, slot and capacity are kept.
    pub fn clear_students(&mut self)
        ensures
            final(self)@ == (SectionV { students: Seq::<int>::empty(), ..old(self)@ }),
    {
        self.students.clear();
        proof {
            assert(self@.students =~= Seq::<int>::empty());
            assert(self@ =~~= (SectionV { students: Seq::<int>::empty(), ..old(self)@ }));
        }
    }
}

/// An independent, view-identical copy of a section.
pub fn copy_section(s: &Section) -> (r: Section)
    ensures
        r@ == s@,
{
    let mut roster: Vec<usize> = Vec::new();
    let mut k: usize = 0;
    while k < s.students.len()
        invariant
            0 <= k <= s.students@.len(),
            roster@ == s.students@.take(k as int),
        decreases s.students@.len() - k,
    {
        roster.push(s.students[k]);
        proof {
            assert(roster@ =~= s.students@.take(k as int + 1));
        }
        k += 1;
    }
    let r = Section {
        course_name: s.course_name.clone(),
        time_slot: s.time_slot,
        max_students: s.max_students,
        students: roster,
    };
    proof {
        assert(s.students@.take(s.students@.len() as int) =~= s.students@);
        assert(r@ =~~= s@);
    }
    r
}


/// An independent copy of a student list, view-identical student by
/// student.
pub fn copy_students(v: &Vec<Student>) -> (r: Vec<Student>)
    ensures
        r@.len() == v@.len(),
        students_v(r@) == students_v(v@),
{
    let mut r: Vec<Student> = Vec::new();
    let mut k: usize = 0;
    while k < v.len()
        invariant
            0 <= k <= v@.len(),
            r@.len() == k,
            forall|t: int| 0 <= t < k ==> students_v(r@)[t] == #[trigger] students_v(v@)[t],
        decreases v@.len() - k,
    {
        r.push(copy_student(&v[k]));
        k += 1;
    }
    proof {
        assert(students_v(r@) =~= students_v(v@));
    }
    r
}

/// An independent copy of a section list, view-identical section by
/// section.
pub fn copy_sections(v: &Vec<Section>) -> (r: Vec<Section>)
    ensures
        r@.len() == v@.len(),
        sections_v(r@) == sections_v(v@),
{
    let mut r: Vec<Section> = Vec::new();
    let mut k: usize = 0;
    while k < v.len()
        invariant
            0 <= k <= v@.len(),
            r@.len() == k,
            forall|t: int| 0 <= t < k ==> sections_v(r@)[t] == #[trigger] sections_v(v@)[t],
        decreases v@.len() - k,
    {
        r.push(copy_section(&v[k]));
        k += 1;
    }
    proof {
        assert(sections_v(r@) =~= sections_v(v@));
    }
    r
}

/// An independent copy of a course list, view-identical course by course.
pub fn copy_courses(v: &Vec<Course>) -> (r: Vec<Course>)
    ensures
        r@.len() == v@.len(),
        forall|t: int| 0 <= t < v@.len() ==> (#[trigger] r@[t])@ == v@[t]@,
{
    let mut r: Vec<Course> = Vec::new();
    let mut k: usize = 0;
    while k < v.len()
        invariant
            0 <= k <= v@.len(),
            r@.len() == k,
            forall|t: int| 0 <= t < k ==> (#[trigger] r@[t])@ == v@[t]@,
        decreases v@.len() - k,
    {
        let c = Course {
            name: v[k].name.clone(),
            time_slot: v[k].time_slot,
            max_students: v[k].max_students,
        };
        r.push(c);
        k += 1;
    }
    r
}

/// An independent, view-identical copy of a schedule snapshot.
pub fn copy_schedule(b: &Schedule) -> (r: Schedule)
    ensures
        r@ == b@,
{
    let r = Schedule {
        students: copy_students(&b.students),
        sections: copy_sections(&b.sections),
        score: b.score,
    };
    proof {
        assert(r@ =~~= b@);
    }
    r
}

} // verus!
