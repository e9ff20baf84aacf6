//! A simple score: counts of learned and identified birds, and the streak of correct answers.

use vstd::prelude::*;

verus! {

/// A user's score.
pub struct Score {
    /// The number of birds learned; this never goes down.
    birds_learned: u32,
    /// The number of correct identifications.
    birds_identified: u32,
    /// The current number of correct answers in a row.
    current_streak: u32,
    /// The largest number of correct answers in a row.
    record_streak: u32,
}

impl Score {
    /// The number of birds learned.
    pub closed spec fn learned_count(self) -> u32 {
        self.birds_learned
    }

    /// The number of correct identifications.
    pub closed spec fn identified_count(self) -> u32 {
        self.birds_identified
    }

    /// The current number of correct answers in a row.
    pub closed spec fn current(self) -> u32 {
        self.current_streak
    }

    /// The largest number of correct answers in a row.
    pub closed spec fn record(self) -> u32 {
        self.record_streak
    }

    /// A score of zero.
    pub fn new() -> (r: Score)
        ensures
            r.learned_count() == 0,
            r.identified_count() == 0,
            r.current() == 0,
            r.record() == 0,
    {
        Score { birds_learned: 0, birds_identified: 0, current_streak: 0, record_streak: 0 }
    }

    /// The experience earned: ten per learned bird and one per correct identification.
    pub fn xp(&self) -> (r: u32)
        requires
            self.learned_count() * 10 + self.identified_count() <= u32::MAX,
        ensures
            r == self.learned_count() * 10 + self.identified_count(),
    {
        self.birds_learned * 10 + self.birds_identified
    }

    /// The level reached: one for every ten learned birds.
    pub fn level(&self) -> (r: u32)
        ensures
            r == self.learned_count() / 10,
    {
        self.birds_learned / 10
    }

    /// Records a correct identification.
    pub fn add_correct_id(&mut self)
        requires
            old(self).identified_count() < u32::MAX,
            old(self).current() < u32::MAX,
        ensures
            final(self).identified_count() == old(self).identified_count() + 1,
            final(self).current() == old(self).current() + 1,
            final(self).record() == if old(self).current() + 1 > old(self).record() {
                (old(self).current() + 1) as u32
            } else {
                old(self).record()
            },
            final(self).learned_count() == old(self).learned_count(),
    {
        self.birds_identified = self.birds_identified + 1;
        self.current_streak = self.current_streak + 1;
        if self.current_streak > self.record_streak {
            self.record_streak = self.current_streak;
        }
    }

    /// Records a mistaken identification: the streak starts over.
    pub fn add_incorrect_id(&mut self)
        ensures
            final(self).current() == 0,
            final(self).identified_count() == old(self).identified_count(),
            final(self).record() == old(self).record(),
            final(self).learned_count() == old(self).learned_count(),
    {
        self.current_streak = 0;
    }
}

impl Default for Score {
    fn default() -> (r: Score)
        ensures
            r.learned_count() == 0,
            r.identified_count() == 0,
            r.current() == 0,
            r.record() == 0,
    {
        Score::new()
    }
}

} // verus!
