//! The session: the complete state of one meeting. It owns the timer,
//! the finalized speeches with their pending-deletion markers, the
//! denormalized current-speaker name, the queued speaker names, the
//! category labels and the speaker roster, and carries the operations
//! the presentation layer dispatches into.

use crate::speakers::Speakers;
use crate::speech::Speech;
use crate::speech::spec_csv_line;
use crate::timer::Timespan;
use crate::timer::sat_add;
use vstd::prelude::*;
use vstd::string::StringExecFns;

verus! {

/// One meeting's complete tracker state.
pub struct TemplateApp {
    pub timespan: Timespan,
    pub speeches: Vec<Speech>,
    pub current_speaker: String,
    pub next_speakers: Vec<String>,
    pub categories: Vec<String>,
    pub deleted_speeches: Vec<usize>,
    pub new_speaker: String,
    pub categorie_new_speaker: String,
    pub speakers: Speakers,
}

/// The CSV export of a speech list: one newline-terminated line per
/// speech, oldest first.
pub open spec fn spec_export(s: Seq<Speech>) -> Seq<char>
    decreases s.len(),
{
    if s.len() == 0 {
        Seq::<char>::empty()
    } else {
        spec_export(s.drop_last()) + spec_csv_line(s.last().duration as nat, s.last().category@)
            + seq!['\n']
    }
}

/// The sum of the durations of the speeches whose category equals
/// `category` exactly (case-sensitive), capped at the largest count.
pub open spec fn spec_category_total(s: Seq<Speech>, category: Seq<char>) -> u64
    decreases s.len(),
{
    if s.len() == 0 {
        0u64
    } else if s.last().category@ == category {
        sat_add(spec_category_total(s.drop_last(), category), s.last().duration)
    } else {
        spec_category_total(s.drop_last(), category)
    }
}

/// The speech list once the pending deletions are applied: every speech
/// whose position is marked pending is gone, the others keep their order.
pub open spec fn spec_keep(s: Seq<Speech>, pending: Seq<usize>) -> Seq<Speech>
    decreases s.len(),
{
    if s.len() == 0 {
        Seq::<Speech>::empty()
    } else {
        let init = spec_keep(s.drop_last(), pending);
        if pending.contains((s.len() - 1) as usize) {
            init
        } else {
            init.push(s.last())
        }
    }
}

/// The turn advance that follows a finalized speech: the queued name at
/// the front becomes the current speaker, or the current speaker is
/// cleared when nobody is queued.
pub open spec fn spec_advanced(s0: TemplateApp, s1: TemplateApp) -> bool {
    if s0.next_speakers@.len() > 0 {
        &&& s1.current_speaker == s0.next_speakers@[0]
        &&& s1.next_speakers@ == s0.next_speakers@.drop_first()
    } else {
        &&& s1.current_speaker@ == Seq::<char>::empty()
        &&& s1.next_speakers == s0.next_speakers
    }
}

/// What committing a finalized duration does to the session: nothing at
/// all for a zero duration; otherwise one new speech with that duration
/// and an empty category, a reset timer, and the turn advanced.
pub open spec fn spec_after_commit(s0: TemplateApp, duration: u64, s1: TemplateApp) -> bool {
    if duration == 0 {
        s1 == s0
    } else {
        &&& s1.timespan.elapsed == 0
        &&& !s1.timespan.spec_is_running()
        &&& s1.speeches@.len() == s0.speeches@.len() + 1
        &&& s1.speeches@.drop_last() == s0.speeches@
        &&& s1.speeches@.last().duration == duration
        &&& s1.speeches@.last().category@ == Seq::<char>::empty()
        &&& spec_advanced(s0, s1)
        &&& s1.categories == s0.categories
        &&& s1.deleted_speeches == s0.deleted_speeches
        &&& s1.new_speaker == s0.new_speaker
        &&& s1.categorie_new_speaker == s0.categorie_new_speaker
        &&& s1.speakers == s0.speakers
    }
}

/// The session as it stands right after its timer was stopped at a total
/// of `e` whole seconds.
pub open spec fn spec_with_stopped(s: TemplateApp, e: u64) -> TemplateApp {
    TemplateApp {
        timespan: Timespan { elapsed: e, start: None },
        speeches: s.speeches,
        current_speaker: s.current_speaker,
        next_speakers: s.next_speakers,
        categories: s.categories,
        deleted_speeches: s.deleted_speeches,
        new_speaker: s.new_speaker,
        categorie_new_speaker: s.categorie_new_speaker,
        speakers: s.speakers,
    }
}

/// Whether `x` occurs in `v`.
fn contains_index(v: &Vec<usize>, x: usize) -> (r: bool)
    ensures
        r == v@.contains(x),
{
    let mut j: usize = 0;
    let mut found = false;
    while j < v.len()
        invariant
            j <= v@.len(),
            found == exists|k: int| 0 <= k < j && v@[k] == x,
        decreases v@.len() - j,
    {
        if v[j] == x {
            found = true;
        }
        j = j + 1;
    }
    found
}

impl TemplateApp {
    /// The CSV export of the whole speech list, oldest speech first.
    pub fn export_speeches_csv(&self) -> (r: String)
        ensures
            r@ == spec_export(self.speeches@),
    {
        proof {
            reveal_strlit("\n");
        }
        let mut out = String::new();
        let mut j: usize = 0;
        while j < self.speeches.len()
            invariant
                j <= self.speeches@.len(),
                out@ == spec_export(self.speeches@.take(j as int)),
            decreases self.speeches@.len() - j,
        {
            let line = self.speeches[j].export_to_csv();
            out.append(line.as_str());
            out.append("\n");
            proof {
                reveal_strlit("\n");
                assert(self.speeches@.take(j as int + 1).drop_last() =~= self.speeches@.take(
                    j as int,
                ));
                assert(self.speeches@.take(j as int + 1).last() == self.speeches@[j as int]);
                assert(out@ =~= spec_export(self.speeches@.take(j as int + 1)));
            }
            j = j + 1;
        }
        proof {
            assert(self.speeches@.take(self.speeches@.len() as int) =~= self.speeches@);
        }
        out
    }

    /// The total duration recorded under `category`, recomputed on every
    /// read, capped at the largest count.
    pub fn category_total(&self, category: &String) -> (r: u64)
        ensures
            r == spec_category_total(self.speeches@, category@),
    {
        let mut total: u64 = 0;
        let mut j: usize = 0;
        while j < self.speeches.len()
            invariant
                j <= self.speeches@.len(),
                total == spec_category_total(self.speeches@.take(j as int), category@),
            decreases self.speeches@.len() - j,
        {
            if self.speeches[j].category == *category {
                total = total.saturating_add(self.speeches[j].duration);
            }
            proof {
                assert(self.speeches@.take(j as int + 1).drop_last() =~= self.speeches@.take(
                    j as int,
                ));
                assert(self.speeches@.take(j as int + 1).last() == self.speeches@[j as int]);
            }
            j = j + 1;
        }
        proof {
            assert(self.speeches@.take(self.speeches@.len() as int) =~= self.speeches@);
        }
        total
    }

    /// Mark the speech at `index` as pending deletion; it is removed by
    /// the next `apply_pending_deletions`, not immediately.
    pub fn record_speech_deletion(&mut self, index: usize)
        ensures
            final(self).deleted_speeches@ == old(self).deleted_speeches@.push(index),
            final(self).timespan == old(self).timespan,
            final(self).speeches == old(self).speeches,
            final(self).current_speaker == old(self).current_speaker,
            final(self).next_speakers == old(self).next_speakers,
            final(self).categories == old(self).categories,
            final(self).new_speaker == old(self).new_speaker,
            final(self).categorie_new_speaker == old(self).categorie_new_speaker,
            final(self).speakers == old(self).speakers,
    {
        self.deleted_speeches.push(index);
    }

    /// Apply every pending deletion to the speech list and clear the
    /// markers. A speech survives exactly when its position carries no
    /// marker, which is the outcome of removing the marked positions
    /// highest first.
    pub fn apply_pending_deletions(&mut self)
        ensures
            final(self).speeches@ == spec_keep(old(self).speeches@, old(self).deleted_speeches@),
            final(self).deleted_speeches@.len() == 0,
            final(self).timespan == old(self).timespan,
            final(self).current_speaker == old(self).current_speaker,
            final(self).next_speakers == old(self).next_speakers,
            final(self).categories == old(self).categories,
            final(self).new_speaker == old(self).new_speaker,
            final(self).categorie_new_speaker == old(self).categorie_new_speaker,
            final(self).speakers == old(self).speakers,
    {
        let mut kept: Vec<Speech> = Vec::new();
        let mut j: usize = 0;
        let total = self.speeches.len();
        while self.speeches.len() > 0
            invariant
                j + self.speeches@.len() == total,
                total == old(self).speeches@.len(),
                self.speeches@ == old(self).speeches@.skip(j as int),
                kept@ == spec_keep(old(self).speeches@.take(j as int), old(self).deleted_speeches@),
                self.deleted_speeches == old(self).deleted_speeches,
                self.timespan == old(self).timespan,
                self.current_speaker == old(self).current_speaker,
                self.next_speakers == old(self).next_speakers,
                self.categories == old(self).categories,
                self.new_speaker == old(self).new_speaker,
                self.categorie_new_speaker == old(self).categorie_new_speaker,
                self.speakers == old(self).speakers,
            decreases self.speeches@.len(),
        {
            let sp = self.speeches.remove(0);
            let marked = contains_index(&self.deleted_speeches, j);
            if !marked {
                kept.push(sp);
            }
            proof {
                assert(old(self).speeches@.take(j as int + 1).drop_last() =~= old(self).speeches@.take(j as int));
                assert(old(self).speeches@.take(j as int + 1).last() == old(self).speeches@[
                    j as int]);
                assert(self.speeches@ =~= old(self).speeches@.skip(j as int + 1));
                assert(kept@ =~= spec_keep(
                    old(self).speeches@.take(j as int + 1),
                    old(self).deleted_speeches@,
                ));
                assert(j < old(self).speeches@.len());
            }
            j = j + 1;
        }
        proof {
            assert(old(self).speeches@.take(old(self).speeches@.len() as int) =~= old(self).speeches@);
        }
        self.speeches = kept;
        self.deleted_speeches.clear();
    }

    /// Commit a finalized duration: record a speech with an empty
    /// category, reset the timer, and advance the turn. A zero duration
    /// commits nothing at all.
    pub fn commit_speech(&mut self, duration: u64)
        ensures
            spec_after_commit(*old(self), duration, *final(self)),
    {
        if duration > 0 {
            self.speeches.push(Speech { duration: duration, category: String::new() });
            self.timespan.reset();
            if self.next_speakers.len() > 0 {
                let name = self.next_speakers.remove(0);
                self.current_speaker = name;
            } else {
                self.current_speaker = String::new();
            }
            proof {
                assert(self.speeches@.drop_last() =~= old(self).speeches@);
                assert(old(self).next_speakers@.len() > 0 ==> self.next_speakers@ =~= old(self).next_speakers@.drop_first());
            }
        }
    }

    /// Stop the timer and commit whatever total it reached: the whole
    /// finalize action behind the session's "record this speech" intent.
    pub fn finalize_current_speech(&mut self)
        ensures
            exists|e: u64|
                {
                    &&& e >= old(self).timespan.elapsed
                    &&& (!old(self).timespan.spec_is_running() ==> e == old(self).timespan.elapsed)
                    &&& spec_after_commit(spec_with_stopped(*old(self), e), e, *final(self))
                },
    {
        self.timespan.stop();
        let e = self.timespan.elapsed;
        let ghost mid = *self;
        proof {
            assert(mid == spec_with_stopped(*old(self), e));
        }
        self.commit_speech(e);
        proof {
            assert({
                &&& e >= old(self).timespan.elapsed
                &&& (!old(self).timespan.spec_is_running() ==> e == old(self).timespan.elapsed)
                &&& spec_after_commit(spec_with_stopped(*old(self), e), e, *self)
            });
        }
    }

    /// Start a stopped timer — giving the turn to the queue front when
    /// nobody holds it — or stop a running one.
    pub fn toggle_timer(&mut self)
        ensures
            final(self).timespan.spec_is_running() == !old(self).timespan.spec_is_running(),
            !old(self).timespan.spec_is_running() ==> {
                &&& final(self).timespan.elapsed == old(self).timespan.elapsed
                &&& (if old(self).current_speaker@.len() == 0 && old(self).next_speakers@.len()
                    > 0 {
                    final(self).current_speaker == old(self).next_speakers@[0]
                        && final(self).next_speakers@ == old(self).next_speakers@.drop_first()
                } else {
                    final(self).current_speaker == old(self).current_speaker
                        && final(self).next_speakers == old(self).next_speakers
                })
            },
            old(self).timespan.spec_is_running() ==> {
                &&& exists|d: u64|
                    final(self).timespan.elapsed == sat_add(old(self).timespan.elapsed, d)
                &&& final(self).current_speaker == old(self).current_speaker
                &&& final(self).next_speakers == old(self).next_speakers
            },
            final(self).speeches == old(self).speeches,
            final(self).categories == old(self).categories,
            final(self).deleted_speeches == old(self).deleted_speeches,
            final(self).new_speaker == old(self).new_speaker,
            final(self).categorie_new_speaker == old(self).categorie_new_speaker,
            final(self).speakers == old(self).speakers,
    {
        if !self.timespan.is_running() {
            self.timespan.start();
            if self.current_speaker.as_str().is_empty() && self.next_speakers.len() > 0 {
                let name = self.next_speakers.remove(0);
                self.current_speaker = name;
            }
        } else {
            self.timespan.stop();
        }
    }

    /// Discard the timer state and every recorded speech: the confirmed
    /// clear action.
    pub fn clear_speeches(&mut self)
        ensures
            final(self).speeches@.len() == 0,
            final(self).timespan.elapsed == 0,
            !final(self).timespan.spec_is_running(),
            final(self).current_speaker == old(self).current_speaker,
            final(self).next_speakers == old(self).next_speakers,
            final(self).categories == old(self).categories,
            final(self).deleted_speeches == old(self).deleted_speeches,
            final(self).new_speaker == old(self).new_speaker,
            final(self).categorie_new_speaker == old(self).categorie_new_speaker,
            final(self).speakers == old(self).speakers,
    {
        self.timespan.reset();
        self.speeches.clear();
    }

    /// Reassign the category of the speech at `index`; its duration and
    /// every other speech stay as they were. A no-op when the index is
    /// out of range.
    pub fn set_speech_category(&mut self, index: usize, category: String)
        ensures
            (index as int) < old(self).speeches@.len() ==> {
                &&& final(self).speeches@.len() == old(self).speeches@.len()
                &&& final(self).speeches@[index as int].duration == old(self).speeches@[
                    index as int].duration
                &&& final(self).speeches@[index as int].category == category
                &&& (forall|k: int|
                    0 <= k < old(self).speeches@.len() && k != index ==> final(self).speeches@[k]
                        == old(self).speeches@[k])
            },
            (index as int) >= old(self).speeches@.len() ==> final(self).speeches == old(self).speeches,
            final(self).timespan == old(self).timespan,
            final(self).current_speaker == old(self).current_speaker,
            final(self).next_speakers == old(self).next_speakers,
            final(self).categories == old(self).categories,
            final(self).deleted_speeches == old(self).deleted_speeches,
            final(self).new_speaker == old(self).new_speaker,
            final(self).categorie_new_speaker == old(self).categorie_new_speaker,
            final(self).speakers == old(self).speakers,
    {
        if index < self.speeches.len() {
            let sp = self.speeches.remove(index);
            self.speeches.insert(index, Speech { duration: sp.duration, category: category });
            proof {
                assert(forall|k: int|
                    0 <= k < old(self).speeches@.len() && k != index ==> self.speeches@[k] == old(self).speeches@[k]);
            }
        }
    }

    /// Add the speaker being edited to the roster; the edit fields keep
    /// their text.
    pub fn register_new_speaker(&mut self)
        ensures
            final(self).speakers@.len() == old(self).speakers@.len() + 1,
            final(self).speakers@.drop_last() == old(self).speakers@,
            final(self).speakers@.last().0@ == old(self).new_speaker@,
            final(self).speakers@.last().1@ == old(self).categorie_new_speaker@,
            final(self).timespan == old(self).timespan,
            final(self).speeches == old(self).speeches,
            final(self).current_speaker == old(self).current_speaker,
            final(self).next_speakers == old(self).next_speakers,
            final(self).categories == old(self).categories,
            final(self).deleted_speeches == old(self).deleted_speeches,
            final(self).new_speaker == old(self).new_speaker,
            final(self).categorie_new_speaker == old(self).categorie_new_speaker,
    {
        let name = self.new_speaker.clone();
        let cat = self.categorie_new_speaker.clone();
        self.speakers.push((name, cat));
        proof {
            assert(self.speakers@.drop_last() =~= old(self).speakers@);
        }
    }

    /// Queue a speaker name for an upcoming turn.
    pub fn enqueue_next_speaker(&mut self, name: String)
        ensures
            final(self).next_speakers@ == old(self).next_speakers@.push(name),
            final(self).timespan == old(self).timespan,
            final(self).speeches == old(self).speeches,
            final(self).current_speaker == old(self).current_speaker,
            final(self).categories == old(self).categories,
            final(self).deleted_speeches == old(self).deleted_speeches,
            final(self).new_speaker == old(self).new_speaker,
            final(self).categorie_new_speaker == old(self).categorie_new_speaker,
            final(self).speakers == old(self).speakers,
    {
        self.next_speakers.push(name);
    }
}

impl Default for TemplateApp {
    /// An empty session: zero stopped timer, nothing recorded, nobody
    /// known or queued.
    fn default() -> (r: Self)
        ensures
            r.timespan.elapsed == 0,
            !r.timespan.spec_is_running(),
            r.speeches@.len() == 0,
            r.current_speaker@ == Seq::<char>::empty(),
            r.next_speakers@.len() == 0,
            r.categories@.len() == 0,
            r.deleted_speeches@.len() == 0,
            r.new_speaker@ == Seq::<char>::empty(),
            r.categorie_new_speaker@ == Seq::<char>::empty(),
            r.speakers@.len() == 0,
    {
        TemplateApp {
            timespan: Timespan::new(),
            speeches: Vec::new(),
            current_speaker: String::new(),
            next_speakers: Vec::new(),
            categories: Vec::new(),
            deleted_speeches: Vec::new(),
            new_speaker: String::new(),
            categorie_new_speaker: String::new(),
            speakers: Vec::new(),
        }
    }
}

} // verus!
