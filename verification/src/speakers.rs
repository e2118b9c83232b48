//! The speaker roster and the FIFO turn queue. The roster is a dense,
//! index-addressed list of speakers; the queue holds roster indices in
//! turn order. Deleting a roster entry re-indexes the queue so that it
//! never references a removed or shifted entry.

use std::collections::VecDeque;
use std::ops::Index;
use vstd::prelude::*;

verus! {

/// A speaker: a name and a category.
pub type Speaker = (String, String);

/// The roster of known speakers.
pub type Speakers = Vec<Speaker>;

/// The turn queue: roster indices, front first.
pub type Order = VecDeque<usize>;

/// The view of a speaker: name and category as character sequences.
pub open spec fn speaker_view(s: Speaker) -> (Seq<char>, Seq<char>) {
    (s.0@, s.1@)
}

/// The empty placeholder that lookups resolve to when the queue is too
/// short or an index does not resolve.
pub open spec fn empty_speaker_view() -> (Seq<char>, Seq<char>) {
    (Seq::<char>::empty(), Seq::<char>::empty())
}

/// The queue entry at `pos` resolved against the roster, the empty
/// placeholder when the queue is too short or the index is out of range.
pub open spec fn spec_queue_lookup(roster: Seq<Speaker>, q: Seq<usize>, pos: int) -> (
    Seq<char>,
    Seq<char>,
) {
    if 0 <= pos < q.len() && (q[pos] as int) < roster.len() {
        speaker_view(roster[q[pos] as int])
    } else {
        empty_speaker_view()
    }
}

/// What one queue entry becomes when roster index `i` is deleted:
/// dropped if it referenced `i`, decremented if it referenced a later
/// entry, kept as it is otherwise.
pub open spec fn reindex_one(x: usize, i: usize) -> Seq<usize> {
    if x == i {
        Seq::<usize>::empty()
    } else if x > i {
        seq![(x - 1) as usize]
    } else {
        seq![x]
    }
}

/// The whole queue after roster index `i` is deleted.
pub open spec fn spec_reindex(q: Seq<usize>, i: usize) -> Seq<usize>
    decreases q.len(),
{
    if q.len() == 0 {
        Seq::<usize>::empty()
    } else {
        reindex_one(q[0], i) + spec_reindex(q.drop_first(), i)
    }
}

/// The queue with every entry equal to `i` dropped, order kept.
pub open spec fn spec_filter_ne(q: Seq<usize>, i: usize) -> Seq<usize>
    decreases q.len(),
{
    if q.len() == 0 {
        Seq::<usize>::empty()
    } else {
        let rest = spec_filter_ne(q.drop_first(), i);
        if q[0] == i {
            rest
        } else {
            seq![q[0]] + rest
        }
    }
}

/// Every queue entry resolved against the roster, in queue order.
pub open spec fn resolve_seq(roster: Seq<Speaker>, q: Seq<usize>) -> Seq<(Seq<char>, Seq<char>)>
    decreases q.len(),
{
    if q.len() == 0 {
        Seq::<(Seq<char>, Seq<char>)>::empty()
    } else {
        seq![spec_queue_lookup(roster, q, 0)] + resolve_seq(roster, q.drop_first())
    }
}

/// The speaker roster operations, resolved against a turn queue.
pub trait TSpeakers: Sized {
    /// The roster as a sequence of speakers.
    spec fn spec_roster(&self) -> Seq<Speaker>;

    /// The speaker whose turn is current: the queue front resolved
    /// against the roster; the empty placeholder when there is none.
    fn current_speaker(&self, order: &Order) -> (r: Speaker)
        ensures
            speaker_view(r) == spec_queue_lookup(self.spec_roster(), order@, 0),
    ;

    /// The speaker whose turn comes next: the second queue entry
    /// resolved against the roster; the empty placeholder when there is
    /// none.
    fn next_speaker(&self, order: &Order) -> (r: Speaker)
        ensures
            speaker_view(r) == spec_queue_lookup(self.spec_roster(), order@, 1),
    ;

    /// Append a speaker to the roster; duplicates are permitted.
    fn add_speaker(&mut self, speaker: Speaker)
        ensures
            final(self).spec_roster() == old(self).spec_roster().push(speaker),
    ;

    /// Remove the roster entry at `speaker` and re-index the queue:
    /// entries referencing it are dropped, entries referencing later
    /// ones are decremented. A no-op when the index is out of range.
    fn delete_speaker(&mut self, speaker: usize, order: &mut Order)
        ensures
            (speaker as int) < old(self).spec_roster().len() ==> {
                &&& final(self).spec_roster() == old(self).spec_roster().remove(speaker as int)
                &&& final(order)@ == spec_reindex(old(order)@, speaker)
            },
            (speaker as int) >= old(self).spec_roster().len() ==> {
                &&& final(self).spec_roster() == old(self).spec_roster()
                &&& final(order)@ == old(order)@
            },
    ;

    /// The roster entry at `speaker`, the empty placeholder when the
    /// index is out of range.
    fn get_speaker(&self, speaker: usize) -> (r: Speaker)
        ensures
            speaker_view(r) == (if (speaker as int) < self.spec_roster().len() {
                speaker_view(self.spec_roster()[speaker as int])
            } else {
                empty_speaker_view()
            }),
    ;

    /// Append `speaker` to the queue tail; queuing the same index more
    /// than once is permitted.
    fn speaker_wants_to_speak(&self, speaker: usize, order: &mut Order)
        ensures
            final(order)@ == old(order)@.push(speaker),
    ;

    /// Pop the queue front and resolve it against the roster; the empty
    /// placeholder, and no change, when the queue is empty.
    fn speaker_spoke(&self, order: &mut Order) -> (r: Speaker)
        ensures
            old(order)@.len() == 0 ==> {
                &&& final(order)@ == old(order)@
                &&& speaker_view(r) == empty_speaker_view()
            },
            old(order)@.len() > 0 ==> {
                &&& final(order)@ == old(order)@.drop_first()
                &&& speaker_view(r) == spec_queue_lookup(self.spec_roster(), old(order)@, 0)
            },
    ;
}

/// The empty placeholder speaker.
fn empty_speaker() -> (r: Speaker)
    ensures
        speaker_view(r) == empty_speaker_view(),
{
    (String::new(), String::new())
}

/// A copy of the roster entry at `idx`, the empty placeholder when the
/// index is out of range.
fn clone_speaker_at(roster: &Vec<Speaker>, idx: usize) -> (r: Speaker)
    ensures
        speaker_view(r) == (if (idx as int) < roster@.len() {
            speaker_view(roster@[idx as int])
        } else {
            empty_speaker_view()
        }),
{
    if idx < roster.len() {
        let s = &roster[idx];
        (s.0.clone(), s.1.clone())
    } else {
        empty_speaker()
    }
}

impl TSpeakers for Vec<Speaker> {
    open spec fn spec_roster(&self) -> Seq<Speaker> {
        self@
    }

    fn current_speaker(&self, order: &Order) -> (r: Speaker) {
        if order.len() > 0 {
            let idx: usize = *order.index(0);
            clone_speaker_at(self, idx)
        } else {
            empty_speaker()
        }
    }

    fn next_speaker(&self, order: &Order) -> (r: Speaker) {
        if order.len() > 1 {
            let idx: usize = *order.index(1);
            clone_speaker_at(self, idx)
        } else {
            empty_speaker()
        }
    }

    fn add_speaker(&mut self, speaker: Speaker) {
        self.push(speaker);
    }

    fn delete_speaker(&mut self, speaker: usize, order: &mut Order) {
        if speaker < self.len() {
            self.remove(speaker);
            let mut updated: Order = VecDeque::new();
            let mut j: usize = 0;
            while j < order.len()
                invariant
                    j <= order@.len(),
                    updated@ == spec_reindex(order@.take(j as int), speaker),
                decreases order@.len() - j,
            {
                let x: usize = *order.index(j);
                if x != speaker {
                    if x > speaker {
                        updated.push_back(x - 1);
                    } else {
                        updated.push_back(x);
                    }
                }
                proof {
                    lemma_reindex_push(order@.take(j as int), x, speaker);
                    assert(order@.take(j as int).push(x) =~= order@.take(j as int + 1));
                }
                j = j + 1;
            }
            proof {
                assert(order@.take(order@.len() as int) =~= order@);
            }
            *order = updated;
        }
    }

    fn get_speaker(&self, speaker: usize) -> (r: Speaker) {
        clone_speaker_at(self, speaker)
    }

    fn speaker_wants_to_speak(&self, speaker: usize, order: &mut Order) {
        order.push_back(speaker);
    }

    fn speaker_spoke(&self, order: &mut Order) -> (r: Speaker) {
        match order.pop_front() {
            Some(idx) => clone_speaker_at(self, idx),
            None => empty_speaker(),
        }
    }
}

/// Re-indexing distributes over appending one entry at the queue tail.
proof fn lemma_reindex_push(q: Seq<usize>, x: usize, i: usize)
    ensures
        spec_reindex(q.push(x), i) == spec_reindex(q, i) + reindex_one(x, i),
    decreases q.len(),
{
    if q.len() == 0 {
        assert(q.push(x).drop_first() =~= Seq::<usize>::empty());
        assert(q.push(x)[0] == x);
        assert(spec_reindex(q.push(x), i) == reindex_one(x, i) + spec_reindex(
            Seq::<usize>::empty(),
            i,
        ));
        assert(reindex_one(x, i) + Seq::<usize>::empty() =~= spec_reindex(q, i) + reindex_one(
            x,
            i,
        ));
    } else {
        assert(q.push(x).drop_first() =~= q.drop_first().push(x));
        lemma_reindex_push(q.drop_first(), x, i);
        assert((q.push(x))[0] == q[0]);
        assert(spec_reindex(q.push(x), i) == reindex_one(q[0], i) + spec_reindex(
            q.drop_first().push(x),
            i,
        ));
        assert(spec_reindex(q.drop_first().push(x), i) == spec_reindex(q.drop_first(), i)
            + reindex_one(x, i));
        assert(spec_reindex(q.push(x), i) =~= spec_reindex(q, i) + reindex_one(x, i));
    }
}

/// Law: after deleting roster entry `i`, no queue entry is stale. Every
/// re-indexed entry is within the shrunken roster, and the sequence of
/// speakers the queue resolves to equals what the old queue resolved to
/// once the turns of the deleted speaker are dropped: entries above `i`
/// come out exactly one less and still name the same speaker, entries
/// below `i` are unchanged, entries equal to `i` are absent.
pub proof fn lemma_delete_speaker_consistent(roster: Seq<Speaker>, q: Seq<usize>, i: usize)
    requires
        (i as int) < roster.len(),
        forall|k: int| 0 <= k < q.len() ==> (q[k] as int) < roster.len(),
    ensures
        forall|k: int|
            0 <= k < spec_reindex(q, i).len() ==> (spec_reindex(q, i)[k] as int) < roster.len()
                - 1,
        resolve_seq(roster.remove(i as int), spec_reindex(q, i)) == resolve_seq(
            roster,
            spec_filter_ne(q, i),
        ),
    decreases q.len(),
{
    let r2 = roster.remove(i as int);
    assert forall|j: int| 0 <= j < r2.len() implies r2[j] == (if j < i {
        roster[j]
    } else {
        roster[j + 1]
    }) by {}
    if q.len() == 0 {
    } else {
        let x = q[0];
        lemma_delete_speaker_consistent(roster, q.drop_first(), i);
        if x == i {
            assert(spec_reindex(q, i) =~= spec_reindex(q.drop_first(), i));
            assert(spec_filter_ne(q, i) =~= spec_filter_ne(q.drop_first(), i));
        } else {
            let x2: usize = if x > i {
                (x - 1) as usize
            } else {
                x
            };
            assert(spec_reindex(q, i) =~= seq![x2] + spec_reindex(q.drop_first(), i));
            assert(spec_filter_ne(q, i) =~= seq![x] + spec_filter_ne(q.drop_first(), i));
            assert(spec_reindex(q, i).drop_first() =~= spec_reindex(q.drop_first(), i));
            assert(spec_filter_ne(q, i).drop_first() =~= spec_filter_ne(q.drop_first(), i));
            assert(r2[x2 as int] == roster[x as int]);
            assert(spec_queue_lookup(r2, spec_reindex(q, i), 0) == spec_queue_lookup(
                roster,
                spec_filter_ne(q, i),
                0,
            ));
            assert(resolve_seq(r2, spec_reindex(q, i)) =~= resolve_seq(
                roster,
                spec_filter_ne(q, i),
            ));
        }
    }
}

} // verus!
