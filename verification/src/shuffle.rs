//! The priority-aware shuffle: before each round every student's
//! enrollment fields are cleared, the students are partitioned into the
//! three priority tiers, each tier is independently permuted at random,
//! and tier 1 + tier 2 + tier 3, concatenated, become the new processing
//! order.

use vstd::prelude::*;
use vstd::seq_lib::group_to_multiset_ensures;
use vstd::seq_lib::lemma_multiset_commutative;
use rand::seq::SliceRandom;
use crate::model::{cleared_of, cleared_student, cleared_views, students_v, Student, StudentV};
use crate::scheduler::{
    all_unenrolled, fields_in_rosters, priorities_wf, registry_wf, roster_matches_fields,
    rosters_empty, slots_coherent, Scheduler,
};

verus! {

broadcast use group_to_multiset_ensures;

/// A student of the given priority tier with no enrollment.
pub open spec fn tier_clear(s: StudentV, p: int) -> bool {
    &&& s.priority == p
    &&& s.am_course is None
    &&& s.pm_course is None
    &&& s.full_day_course is None
}

/// Relies on rand's `SliceRandom::shuffle` with `rand::thread_rng`: it
/// permutes the slice in place by element swaps (Fisher-Yates), so the
/// same students come back in some order — none is added, dropped or
/// altered.  Which order comes back is left entirely open.
#[verifier::external_body]
fn shuffle_students(v: &mut Vec<Student>)
    ensures
        final(v)@.len() == old(v)@.len(),
        final(v)@.to_multiset() == old(v)@.to_multiset(),
{
    v.shuffle(&mut rand::thread_rng());
}

/// Two student lists with the same elements have the same element views:
/// rearrangement carries over to the mathematical view.
proof fn lemma_same_multiset_same_view_multiset(a: Seq<Student>, b: Seq<Student>)
    requires
        a.to_multiset() == b.to_multiset(),
    ensures
        students_v(a).to_multiset() == students_v(b).to_multiset(),
    decreases a.len(),
{
    a.to_multiset_ensures();
    b.to_multiset_ensures();
    assert(a.len() == b.len());
    if a.len() == 0 {
        assert(students_v(a) =~= students_v(b));
    } else {
        let x = a.last();
        assert(a.contains(x));
        assert(b.to_multiset().count(x) > 0);
        assert(b.contains(x));
        let k = choose|k: int| 0 <= k < b.len() && b[k] == x;
        let a2 = a.drop_last();
        let b2 = b.remove(k);
        a2.to_multiset_ensures();
        b2.to_multiset_ensures();
        students_v(a).to_multiset_ensures();
        students_v(b).to_multiset_ensures();
        students_v(a2).to_multiset_ensures();
        students_v(b2).to_multiset_ensures();
        assert(a =~= a2.push(x));
        assert(a.to_multiset() == a2.to_multiset().insert(x));
        assert(b2.to_multiset() == b.to_multiset().remove(x));
        assert(a2.to_multiset() =~= b2.to_multiset());
        lemma_same_multiset_same_view_multiset(a2, b2);
        assert(students_v(a) =~= students_v(a2).push(x@));
        assert(students_v(a).to_multiset() == students_v(a2).to_multiset().insert(x@));
        assert(students_v(b2) =~= students_v(b).remove(k));
        assert(students_v(b).remove(k).to_multiset() == students_v(b).to_multiset().remove(
            students_v(b)[k],
        ));
        assert(students_v(b)[k] == x@);
        assert(students_v(b).contains(x@));
        assert(students_v(b).to_multiset().count(x@) > 0);
        assert(students_v(b).to_multiset() =~= students_v(b2).to_multiset().insert(x@));
        assert(students_v(a).to_multiset() =~= students_v(b).to_multiset());
    }
}

/// A property of every element survives any rearrangement that keeps the
/// multiset of elements.
proof fn lemma_rearranged_keep_tier(pre: Seq<StudentV>, post: Seq<StudentV>, p: int)
    requires
        post.to_multiset() == pre.to_multiset(),
        forall|t: int| 0 <= t < pre.len() ==> tier_clear(#[trigger] pre[t], p),
    ensures
        forall|t: int| 0 <= t < post.len() ==> tier_clear(#[trigger] post[t], p),
{
    assert forall|t: int| 0 <= t < post.len() implies tier_clear(#[trigger] post[t], p) by {
        assert(post.contains(post[t]));
        assert(post.to_multiset().count(post[t]) > 0);
        assert(pre.to_multiset().count(post[t]) > 0);
        assert(pre.contains(post[t]));
        let t2 = choose|t2: int| 0 <= t2 < pre.len() && pre[t2] == post[t];
        assert(tier_clear(pre[t2], p));
    }
}

impl Scheduler {
    /// Clears every student's enrollment fields, partitions the students
    /// by priority tier, permutes each tier independently at random, and
    /// installs tier 1 + tier 2 + tier 3 as the new processing order.
    /// The students that come out are exactly the students that went in,
    /// cleared — only their order changes — and the order never places a
    /// lower-priority student before a higher-priority one.
    pub fn extract_by_grade_and_shuffle(&mut self)
        requires
            old(self).wf(),
            rosters_empty(old(self).secv()),
        ensures
            final(self).wf(),
            final(self).sections@ == old(self).sections@,
            final(self).best_schedule == old(self).best_schedule,
            rosters_empty(final(self).secv()),
            all_unenrolled(final(self).sv()),
            final(self).sv().len() == old(self).sv().len(),
            final(self).sv().to_multiset() == cleared_views(old(self).sv()).to_multiset(),
            forall|a: int, b: int|
                0 <= a < b < final(self).sv().len() ==> (#[trigger] final(self).sv()[a]).priority
                    <= (#[trigger] final(self).sv()[b]).priority,
    {
        let ghost target = cleared_views(old(self).sv());
        let n = self.students.len();
        let mut b1: Vec<Student> = Vec::new();
        let mut b2: Vec<Student> = Vec::new();
        let mut b3: Vec<Student> = Vec::new();
        let mut i: usize = 0;
        while i < n
            invariant
                0 <= i <= n,
                n == self.sv().len(),
                self.students@ == old(self).students@,
                self.sections@ == old(self).sections@,
                self.best_schedule == old(self).best_schedule,
                old(self).wf(),
                target == cleared_views(old(self).sv()),
                target.len() == n,
                b1@.len() + b2@.len() + b3@.len() == i,
                forall|t: int| 0 <= t < b1@.len() ==> tier_clear(#[trigger] students_v(b1@)[t], 1),
                forall|t: int| 0 <= t < b2@.len() ==> tier_clear(#[trigger] students_v(b2@)[t], 2),
                forall|t: int| 0 <= t < b3@.len() ==> tier_clear(#[trigger] students_v(b3@)[t], 3),
                students_v(b1@).to_multiset().add(students_v(b2@).to_multiset()).add(
                    students_v(b3@).to_multiset(),
                ) == target.take(i as int).to_multiset(),
            decreases n - i,
        {
            let st = cleared_student(&self.students[i]);
            proof {
                assert(self.sv()[i as int] == self.students@[i as int]@);
                assert(self.sv() == old(self).sv());
                assert(st@ == cleared_of(old(self).sv()[i as int]));
                assert(target[i as int] == st@);
                assert(1 <= old(self).sv()[i as int].priority <= 3);
                assert(st@.priority == old(self).sv()[i as int].priority);
                assert(target.take(i as int + 1) =~= target.take(i as int).push(target[i as int]));
            }
            let ghost m1 = students_v(b1@).to_multiset();
            let ghost m2 = students_v(b2@).to_multiset();
            let ghost m3 = students_v(b3@).to_multiset();
            let p = st.priority;
            if p == 1 {
                let ghost pb1 = b1@;
                b1.push(st);
                proof {
                    assert(students_v(b1@) =~= students_v(pb1).push(st@));
                    assert(students_v(b1@).to_multiset() == m1.insert(st@));
                    assert(m1.insert(st@).add(m2).add(m3) =~= m1.add(m2).add(m3).insert(st@));
                }
            } else if p == 2 {
                let ghost pb2 = b2@;
                b2.push(st);
                proof {
                    assert(students_v(b2@) =~= students_v(pb2).push(st@));
                    assert(students_v(b2@).to_multiset() == m2.insert(st@));
                    assert(m1.add(m2.insert(st@)).add(m3) =~= m1.add(m2).add(m3).insert(st@));
                }
            } else {
                proof {
                    assert(st@.priority == 3);
                }
                let ghost pb3 = b3@;
                b3.push(st);
                proof {
                    assert(students_v(b3@) =~= students_v(pb3).push(st@));
                    assert(students_v(b3@).to_multiset() == m3.insert(st@));
                    assert(m1.add(m2).add(m3.insert(st@)) =~= m1.add(m2).add(m3).insert(st@));
                }
            }
            proof {
                assert(target.take(i as int + 1).to_multiset() == target.take(
                    i as int,
                ).to_multiset().insert(target[i as int]));
            }
            i += 1;
        }
        proof {
            assert(target.take(n as int) =~= target);
        }
        let ghost p1 = b1@;
        let ghost p2 = b2@;
        let ghost p3 = b3@;
        let ghost v1 = students_v(b1@);
        let ghost v2 = students_v(b2@);
        let ghost v3 = students_v(b3@);
        shuffle_students(&mut b1);
        shuffle_students(&mut b2);
        shuffle_students(&mut b3);
        proof {
            lemma_same_multiset_same_view_multiset(p1, b1@);
            lemma_same_multiset_same_view_multiset(p2, b2@);
            lemma_same_multiset_same_view_multiset(p3, b3@);
            lemma_rearranged_keep_tier(v1, students_v(b1@), 1);
            lemma_rearranged_keep_tier(v2, students_v(b2@), 2);
            lemma_rearranged_keep_tier(v3, students_v(b3@), 3);
        }
        let ghost f1 = students_v(b1@);
        let ghost f2 = students_v(b2@);
        let ghost f3 = students_v(b3@);
        let mut order = b1;
        order.append(&mut b2);
        order.append(&mut b3);
        proof {
            assert(students_v(order@) =~= f1 + f2 + f3);
            lemma_multiset_commutative(f1 + f2, f3);
            lemma_multiset_commutative(f1, f2);
            assert(students_v(order@).to_multiset() == f1.to_multiset().add(
                f2.to_multiset(),
            ).add(f3.to_multiset()));
            assert(students_v(order@).to_multiset() == target.to_multiset());
        }
        self.students = order;
        proof {
            let sv = self.sv();
            let l1 = f1.len() as int;
            let l2 = f2.len() as int;
            let l3 = f3.len() as int;
            assert(sv.len() == n);
            assert forall|t: int| 0 <= t < sv.len() implies 1 <= (#[trigger] sv[t]).priority <= 3
                && sv[t].am_course is None && sv[t].pm_course is None && sv[t].full_day_course
                is None by {
                if t < l1 {
                    assert(tier_clear(f1[t], 1));
                } else if t < l1 + l2 {
                    assert(tier_clear(f2[t - l1], 2));
                } else {
                    assert(tier_clear(f3[t - l1 - l2], 3));
                }
            }
            assert forall|a: int, b: int|
                0 <= a < b < sv.len() implies (#[trigger] sv[a]).priority <= (
            #[trigger] sv[b]).priority by {
                if a < l1 {
                    assert(sv[a].priority == 1);
                } else if a < l1 + l2 {
                    assert(sv[a].priority == 2);
                } else {
                    assert(sv[a].priority == 3);
                }
                if b < l1 {
                    assert(sv[b].priority == 1);
                } else if b < l1 + l2 {
                    assert(sv[b].priority == 2);
                } else {
                    assert(sv[b].priority == 3);
                }
            }
            assert(rosters_empty(self.secv()));
            assert(roster_matches_fields(self.sv(), self.secv()));
            assert(fields_in_rosters(self.sv(), self.secv()));
            assert(slots_coherent(self.sv()));
            assert(registry_wf(self.secv(), self.sv().len() as int));
        }
    }
}

} // verus!
