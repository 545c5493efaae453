//! Commit classification.
//!
//! Commits are partitioned by their brief line, testing the rule
//! families of [`crate::rules`] in a fixed precedence: additions first,
//! then fixes, then version bumps.  A bump commit is left out of every
//! bucket; everything else that matches nothing counts as a change, a
//! commit without a brief too.  The classifier stores positions into the
//! commit list rather than copies of the commits.

use vstd::prelude::*;
use crate::commit::Commit;
use crate::commit::CommitModel;
use crate::commit::brief_of;
use crate::rules::is_addition;
use crate::rules::is_fix;
use crate::rules::is_bump;
use crate::rules::addition_line;
use crate::rules::fix_line;
use crate::rules::bump_line;

verus! {

/// The rule families a brief line can match.
#[derive(Debug, Clone, Copy)]
pub enum CommitKind {
    Addition,
    Bump,
    Fix,
}

/// Where a commit goes under the fixed precedence.
pub enum CommitClass {
    Addition,
    Fix,
    Dropped,
    Change,
}

/// The class of a commit: addition rules first, then fix rules, then
/// bump rules; what matches nothing, or has no brief, is a change.
pub open spec fn class_of(c: CommitModel) -> CommitClass {
    match brief_of(c.message) {
        None => CommitClass::Change,
        Some(b) => if is_addition(b) {
            CommitClass::Addition
        } else if is_fix(b) {
            CommitClass::Fix
        } else if is_bump(b) {
            CommitClass::Dropped
        } else {
            CommitClass::Change
        },
    }
}

/// The positions in `cs` whose commit falls in class `k`, in order.
pub open spec fn class_positions(cs: Seq<CommitModel>, k: CommitClass) -> Seq<int>
    decreases cs.len(),
{
    if cs.len() == 0 {
        Seq::empty()
    } else {
        let init = class_positions(cs.drop_last(), k);
        if class_of(cs.last()) == k {
            init.push(cs.len() - 1)
        } else {
            init
        }
    }
}

/// What [`class_positions`] holds: exactly the positions of class `k`,
/// each once, in increasing order.
pub proof fn lemma_class_positions(cs: Seq<CommitModel>, k: CommitClass)
    ensures
        forall|j: int|
            0 <= j < class_positions(cs, k).len() ==> 0 <= #[trigger] class_positions(cs, k)[j]
                < cs.len() && class_of(cs[class_positions(cs, k)[j]]) == k,
        forall|i: int|
            0 <= i < cs.len() && class_of(cs[i]) == k ==> #[trigger] class_positions(
                cs,
                k,
            ).contains(i),
        forall|j1: int, j2: int|
            0 <= j1 < j2 < class_positions(cs, k).len() ==> #[trigger] class_positions(cs, k)[j1]
                < #[trigger] class_positions(cs, k)[j2],
    decreases cs.len(),
{
    if cs.len() > 0 {
        lemma_class_positions(cs.drop_last(), k);
        let init = class_positions(cs.drop_last(), k);
        let full = class_positions(cs, k);
        assert(cs.drop_last().len() == cs.len() - 1);
        assert(forall|i: int| 0 <= i < cs.len() - 1 ==> cs.drop_last()[i] == cs[i]);
        assert forall|i: int| 0 <= i < cs.len() && class_of(cs[i]) == k implies #[trigger] full
            .contains(i) by {
            if i < cs.len() - 1 {
                assert(init.contains(i));
                let j = choose|j: int| 0 <= j < init.len() && init[j] == i;
                if class_of(cs.last()) == k {
                    assert(full[j] == i);
                } else {
                    assert(full[j] == i);
                }
            } else {
                assert(class_of(cs.last()) == k);
                assert(full[full.len() - 1] == i);
            }
        }
    }
}

/// The outcome of classification: positions into the original commit
/// list, one sequence per bucket.
#[derive(Debug)]
pub struct ClassifiedCommits {
    pub additions: Vec<usize>,
    pub changes: Vec<usize>,
    pub fixes: Vec<usize>,
}

/// The positions of a bucket as mathematical integers.
pub open spec fn positions_of(v: Seq<usize>) -> Seq<int> {
    v.map_values(|u: usize| u as int)
}

impl ClassifiedCommits {
    /// Every stored position points into a commit list of length `n`.
    pub open spec fn wf_for(self, n: int) -> bool {
        &&& forall|j: int| 0 <= j < self.additions@.len() ==> #[trigger] self.additions@[j] < n
        &&& forall|j: int| 0 <= j < self.changes@.len() ==> #[trigger] self.changes@[j] < n
        &&& forall|j: int| 0 <= j < self.fixes@.len() ==> #[trigger] self.fixes@[j] < n
    }
}

/// Classifies commits by their brief lines.
#[derive(Debug)]
pub struct CommitClassifier {
}

impl CommitClassifier {
    /// Create a new classifier.  The rule families are fixed, so unlike
    /// a classifier that compiles its patterns this one cannot fail to
    /// construct.
    pub fn new() -> (r: Self) {
        CommitClassifier {  }
    }

    /// Check the kind of a commit by looking at its brief message line.
    pub fn check_kind(&self, kind: CommitKind, message: &str) -> (r: bool)
        ensures
            r == (match kind {
                CommitKind::Addition => is_addition(message@),
                CommitKind::Bump => is_bump(message@),
                CommitKind::Fix => is_fix(message@),
            }),
    {
        match kind {
            CommitKind::Addition => addition_line(message),
            CommitKind::Bump => bump_line(message),
            CommitKind::Fix => fix_line(message),
        }
    }

    /// Perform classification: additions, then fixes, then the rest,
    /// with bump commits dropped.
    pub fn classify(&self, commits: &Vec<Commit>) -> (r: ClassifiedCommits)
        ensures
            positions_of(r.additions@) == class_positions(
                commits.deep_view(),
                CommitClass::Addition,
            ),
            positions_of(r.fixes@) == class_positions(commits.deep_view(), CommitClass::Fix),
            positions_of(r.changes@) == class_positions(commits.deep_view(), CommitClass::Change),
            r.wf_for(commits@.len() as int),
    {
        let ghost cs = commits.deep_view();
        let mut additions: Vec<usize> = Vec::new();
        let mut changes: Vec<usize> = Vec::new();
        let mut fixes: Vec<usize> = Vec::new();
        let mut i: usize = 0;
        while i < commits.len()
            invariant
                0 <= i <= commits.len(),
                cs == commits.deep_view(),
                cs.len() == commits@.len(),
                positions_of(additions@) =~= class_positions(
                    cs.take(i as int),
                    CommitClass::Addition,
                ),
                positions_of(fixes@) =~= class_positions(cs.take(i as int), CommitClass::Fix),
                positions_of(changes@) =~= class_positions(cs.take(i as int), CommitClass::Change),
                forall|j: int| 0 <= j < additions@.len() ==> #[trigger] additions@[j] < i,
                forall|j: int| 0 <= j < changes@.len() ==> #[trigger] changes@[j] < i,
                forall|j: int| 0 <= j < fixes@.len() ==> #[trigger] fixes@[j] < i,
            decreases commits.len() - i,
        {
            proof {
                assert(commits.deep_view()[i as int] == commits@[i as int].deep_view());
                assert(cs.take(i + 1).drop_last() =~= cs.take(i as int));
                assert(cs.take(i + 1).last() == cs[i as int]);
            }
            let ghost pre_a = additions@;
            let ghost pre_c = changes@;
            let ghost pre_f = fixes@;
            let c = &commits[i];
            let is_add = match c.brief() {
                Some(b) => addition_line(b),
                None => false,
            };
            let is_fx = if is_add {
                false
            } else {
                match c.brief() {
                    Some(b) => fix_line(b),
                    None => false,
                }
            };
            let is_bp = if is_add || is_fx {
                false
            } else {
                match c.brief() {
                    Some(b) => bump_line(b),
                    None => false,
                }
            };
            if is_add {
                additions.push(i);
            } else if is_fx {
                fixes.push(i);
            } else if !is_bp {
                changes.push(i);
            }
            proof {
                let cast = |u: usize| u as int;
                assert(pre_a.push(i).map_values(cast) =~= pre_a.map_values(cast).push(i as int));
                assert(pre_c.push(i).map_values(cast) =~= pre_c.map_values(cast).push(i as int));
                assert(pre_f.push(i).map_values(cast) =~= pre_f.map_values(cast).push(i as int));
                if is_add {
                    assert(class_of(cs[i as int]) == CommitClass::Addition);
                } else if is_fx {
                    assert(class_of(cs[i as int]) == CommitClass::Fix);
                } else if is_bp {
                    assert(class_of(cs[i as int]) == CommitClass::Dropped);
                } else {
                    assert(class_of(cs[i as int]) == CommitClass::Change);
                }
            }
            i += 1;
        }
        proof {
            assert(cs.take(commits@.len() as int) =~= cs);
        }
        ClassifiedCommits { additions, changes, fixes }
    }
}

/// Classification is a partition: every commit lands in at most one of
/// the addition, change and fix buckets, and in exactly one unless the
/// precedence dropped it as a version bump.
pub proof fn lemma_classification_partition(cs: Seq<CommitModel>)
    ensures
        forall|i: int|
            #![trigger cs[i]]
            0 <= i < cs.len() ==> {
                let in_a = class_positions(cs, CommitClass::Addition).contains(i);
                let in_c = class_positions(cs, CommitClass::Change).contains(i);
                let in_f = class_positions(cs, CommitClass::Fix).contains(i);
                ||| (in_a && !in_c && !in_f)
                ||| (!in_a && in_c && !in_f)
                ||| (!in_a && !in_c && in_f)
                ||| (!in_a && !in_c && !in_f && class_of(cs[i]) == CommitClass::Dropped)
            },
{
    lemma_class_positions(cs, CommitClass::Addition);
    lemma_class_positions(cs, CommitClass::Fix);
    lemma_class_positions(cs, CommitClass::Change);
    assert forall|i: int, k: CommitClass|
        #[trigger] class_positions(cs, k).contains(i) implies 0 <= i < cs.len() && class_of(cs[i])
        == k by {
        lemma_class_positions(cs, k);
        let j = choose|j: int|
            0 <= j < class_positions(cs, k).len() && class_positions(cs, k)[j] == i;
        assert(class_of(cs[class_positions(cs, k)[j]]) == k);
    }
}

} // verus!
