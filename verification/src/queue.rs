//! The main card queue: a front-ordered queue of due entries together with
//! per-kind counts that are kept consistent with the queued entries.

use vstd::prelude::*;
use vstd::pervasive::VecAdditionalExecFns;

use crate::ids::CardId;
use crate::ids::TimestampSecs;

verus! {

#[derive(Clone, Copy, Debug, PartialEq, Eq, Structural)]
pub enum MainQueueEntryKind {
    New,
    Review,
    InterdayLearning,
}

#[derive(Clone, Copy, Debug, PartialEq, Eq, Structural)]
pub struct MainQueueEntry {
    pub id: CardId,
    pub mtime: TimestampSecs,
    pub kind: MainQueueEntryKind,
}

/// Per-kind counts of the queued entries.
#[derive(Clone, Copy, Debug, PartialEq, Eq, Structural)]
pub struct Counts {
    pub new: usize,
    pub learning: usize,
    pub review: usize,
}

/// How many entries of `s` have kind `k`.
pub open spec fn count_kind(s: Seq<MainQueueEntry>, k: MainQueueEntryKind) -> nat
    decreases s.len(),
{
    if s.len() == 0 {
        0
    } else {
        (if s[0].kind == k {
            1nat
        } else {
            0nat
        }) + count_kind(s.drop_first(), k)
    }
}

proof fn lemma_count_kind_le_len(s: Seq<MainQueueEntry>, k: MainQueueEntryKind)
    ensures
        count_kind(s, k) <= s.len(),
    decreases s.len(),
{
    if s.len() > 0 {
        lemma_count_kind_le_len(s.drop_first(), k);
    }
}

proof fn lemma_count_kind_remove(s: Seq<MainQueueEntry>, k: MainQueueEntryKind, j: int)
    requires
        0 <= j < s.len(),
    ensures
        count_kind(s.remove(j), k) + (if s[j].kind == k {
            1nat
        } else {
            0nat
        }) == count_kind(s, k),
    decreases s.len(),
{
    if j == 0 {
        assert(s.remove(0) =~= s.drop_first());
    } else {
        assert(s.remove(j).drop_first() =~= s.drop_first().remove(j - 1));
        lemma_count_kind_remove(s.drop_first(), k, j - 1);
    }
}

/// The queue: entries in front-to-back order, with their counts.
pub struct CardQueues {
    pub main: Vec<MainQueueEntry>,
    pub counts: Counts,
}

impl CardQueues {
    /// The counts agree with the queued entries, kind by kind.
    pub open spec fn wf(&self) -> bool {
        &&& self.counts.new == count_kind(self.main@, MainQueueEntryKind::New)
        &&& self.counts.review == count_kind(self.main@, MainQueueEntryKind::Review)
        &&& self.counts.learning == count_kind(self.main@, MainQueueEntryKind::InterdayLearning)
    }

    /// An empty queue.
    pub fn new_empty() -> (r: CardQueues)
        ensures
            r.wf(),
            r.main@.len() == 0,
    {
        CardQueues { main: Vec::new(), counts: Counts { new: 0, learning: 0, review: 0 } }
    }

    /// Lowers the count of the given entry's kind by one, saturating for
    /// learning entries so an inconsistent count cannot wrap.
    pub fn reduce_counts(&mut self, entry: &MainQueueEntry)
        requires
            entry.kind == MainQueueEntryKind::New ==> old(self).counts.new >= 1,
            entry.kind == MainQueueEntryKind::Review ==> old(self).counts.review >= 1,
        ensures
            final(self).main@ == old(self).main@,
            final(self).counts == (match entry.kind {
                MainQueueEntryKind::New => Counts {
                    new: (old(self).counts.new - 1) as usize,
                    ..old(self).counts
                },
                MainQueueEntryKind::Review => Counts {
                    review: (old(self).counts.review - 1) as usize,
                    ..old(self).counts
                },
                MainQueueEntryKind::InterdayLearning => Counts {
                    learning: if old(self).counts.learning >= 1 {
                        (old(self).counts.learning - 1) as usize
                    } else {
                        0
                    },
                    ..old(self).counts
                },
            }),
    {
        match entry.kind {
            MainQueueEntryKind::New => {
                self.counts.new = self.counts.new - 1;
            },
            MainQueueEntryKind::Review => {
                self.counts.review = self.counts.review - 1;
            },
            MainQueueEntryKind::InterdayLearning => {
                self.counts.learning = if self.counts.learning >= 1 {
                    self.counts.learning - 1
                } else {
                    0
                };
            },
        }
    }

    /// Removes and returns the head of the queue, updating the counts.
    pub fn pop_main(&mut self) -> (r: Option<MainQueueEntry>)
        requires
            old(self).wf(),
        ensures
            final(self).wf(),
            old(self).main@.len() == 0 ==> r is None && *final(self) == *old(self),
            old(self).main@.len() > 0 ==> r == Some(old(self).main@[0]) && final(self).main@ == old(
                self,
            ).main@.drop_first(),
    {
        if self.main.len() == 0 {
            return None;
        }
        let head = self.main.remove(0);
        proof {
            lemma_count_kind_remove(old(self).main@, MainQueueEntryKind::New, 0);
            lemma_count_kind_remove(old(self).main@, MainQueueEntryKind::Review, 0);
            lemma_count_kind_remove(old(self).main@, MainQueueEntryKind::InterdayLearning, 0);
            assert(old(self).main@.remove(0) =~= old(self).main@.drop_first());
        }
        self.reduce_counts(&head);
        Some(head)
    }

    /// Puts an entry (an undone one) back at the front of the queue,
    /// updating the counts.
    pub fn push_main(&mut self, entry: MainQueueEntry)
        requires
            old(self).wf(),
            old(self).main@.len() < usize::MAX,
        ensures
            final(self).wf(),
            final(self).main@ == old(self).main@.insert(0, entry),
    {
        proof {
            lemma_count_kind_le_len(old(self).main@, MainQueueEntryKind::New);
            lemma_count_kind_le_len(old(self).main@, MainQueueEntryKind::Review);
            lemma_count_kind_le_len(old(self).main@, MainQueueEntryKind::InterdayLearning);
        }
        match entry.kind {
            MainQueueEntryKind::New => {
                self.counts.new = self.counts.new + 1;
            },
            MainQueueEntryKind::Review => {
                self.counts.review = self.counts.review + 1;
            },
            MainQueueEntryKind::InterdayLearning => {
                self.counts.learning = self.counts.learning + 1;
            },
        }
        self.main.insert(0, entry);
        proof {
            let s2 = self.main@;
            assert(s2.remove(0) =~= old(self).main@);
            assert(s2[0] == entry);
            lemma_count_kind_remove(s2, MainQueueEntryKind::New, 0);
            lemma_count_kind_remove(s2, MainQueueEntryKind::Review, 0);
            lemma_count_kind_remove(s2, MainQueueEntryKind::InterdayLearning, 0);
        }
    }

    /// Removes the first entry carrying `card_id`, if one is queued, and
    /// updates the counts; an absent card leaves the queue unchanged.
    pub fn remove_main_learning_card(&mut self, card_id: CardId) -> (r: Option<MainQueueEntry>)
        requires
            old(self).wf(),
        ensures
            final(self).wf(),
            r is None ==> *final(self) == *old(self) && (forall|j: int|
                0 <= j < old(self).main@.len() ==> old(self).main@[j].id != card_id),
            r is Some ==> (exists|j: int|
                0 <= j < old(self).main@.len() && old(self).main@[j].id == card_id && (forall|
                    m: int,
                |
                    0 <= m < j ==> old(self).main@[m].id != card_id) && r == Some(
                    old(self).main@[j],
                ) && final(self).main@ == old(self).main@.remove(j)),
    {
        let mut i: usize = 0;
        while i < self.main.len()
            invariant
                0 <= i <= self.main.len(),
                *self == *old(self),
                old(self).wf(),
                forall|m: int| 0 <= m < i ==> self.main@[m].id != card_id,
            decreases self.main.len() - i,
        {
            if self.main[i].id == card_id {
                let entry = self.main.remove(i);
                proof {
                    lemma_count_kind_remove(old(self).main@, MainQueueEntryKind::New, i as int);
                    lemma_count_kind_remove(old(self).main@, MainQueueEntryKind::Review, i as int);
                    lemma_count_kind_remove(
                        old(self).main@,
                        MainQueueEntryKind::InterdayLearning,
                        i as int,
                    );
                }
                self.reduce_counts(&entry);
                return Some(entry);
            }
            i = i + 1;
        }
        None
    }
}

} // verus!
