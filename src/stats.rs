//! Learning progress that lasts across play sessions: counters per bird and per pack, the
//! streak of correct answers, and the days on which the pack of the day was completed.

use vstd::prelude::*;
use vstd::pervasive::VecAdditionalExecFns;
use crate::date::{today, Date};
use crate::pack::{Pack, PackIdentifier};

verus! {

/// The number of consecutive correct identifications after which a bird counts as learned.
pub const LEARN_THRESHOLD: u32 = 3;

/// The number of learned birds that make up one level.
pub const BIRDS_PER_LEVEL: usize = 15;

/// Whether no two entries share a key.
pub open spec fn keys_unique<V>(s: Seq<(u64, V)>) -> bool {
    forall|i: int, j: int| 0 <= i < j < s.len() ==> s[i].0 != s[j].0
}

/// The map that keyed entries make.
pub open spec fn as_map<V>(s: Seq<(u64, V)>) -> Map<u64, V>
    decreases s.len(),
{
    if s.len() == 0 {
        Map::empty()
    } else {
        as_map(s.drop_last()).insert(s.last().0, s.last().1)
    }
}

/// The keys of the map are the keys of the entries.
pub proof fn lemma_as_map_keys<V>(s: Seq<(u64, V)>, k: u64)
    ensures
        as_map(s).contains_key(k) <==> exists|i: int| 0 <= i < s.len() && (#[trigger] s[i]).0 == k,
    decreases s.len(),
{
    if s.len() > 0 {
        lemma_as_map_keys(s.drop_last(), k);
        if as_map(s).contains_key(k) && k != s.last().0 {
            let i = choose|i: int| 0 <= i < s.len() - 1 && (#[trigger] s.drop_last()[i]).0 == k;
            assert(s[i] == s.drop_last()[i]);
        }
        if exists|i: int| 0 <= i < s.len() && (#[trigger] s[i]).0 == k {
            let i = choose|i: int| 0 <= i < s.len() && (#[trigger] s[i]).0 == k;
            if i < s.len() - 1 {
                assert(s.drop_last()[i] == s[i]);
            }
        }
    }
}

/// With unique keys, each entry's key maps to the entry's value.
pub proof fn lemma_as_map_entry<V>(s: Seq<(u64, V)>, i: int)
    requires
        keys_unique(s),
        0 <= i < s.len(),
    ensures
        as_map(s).contains_key(s[i].0),
        as_map(s)[s[i].0] == s[i].1,
    decreases s.len(),
{
    if i < s.len() - 1 {
        lemma_as_map_entry(s.drop_last(), i);
    }
}

/// With unique keys, replacing an entry's value replaces the value of its key.
pub proof fn lemma_as_map_update<V>(s: Seq<(u64, V)>, i: int, v: V)
    requires
        keys_unique(s),
        0 <= i < s.len(),
    ensures
        as_map(s.update(i, (s[i].0, v))) == as_map(s).insert(s[i].0, v),
    decreases s.len(),
{
    let t = s.update(i, (s[i].0, v));
    if i == s.len() - 1 {
        assert(t.drop_last() =~= s.drop_last());
        assert(as_map(t) =~= as_map(s).insert(s[i].0, v));
    } else {
        assert(t.drop_last() =~= s.drop_last().update(i, (s[i].0, v)));
        lemma_as_map_update(s.drop_last(), i, v);
        assert(as_map(t) =~= as_map(s).insert(s[i].0, v));
    }
}

/// Progress on one bird.
#[derive(Clone, Copy, Debug, PartialEq, Eq, Structural)]
pub struct BirdStats {
    /// The number of times the bird has been correctly identified.
    pub identified: u32,
    /// The number of times the bird has been mistaken.
    pub mistaken: u32,
    /// Whether the bird has ever been learned; this stays once set.
    pub learned: bool,
}

/// Progress on one catalog pack.
#[derive(Clone, Copy, Debug, PartialEq, Eq, Structural)]
pub struct BirdPackStats {
    /// The number of times the pack has been completed.
    pub times_completed: usize,
}

/// No progress on a bird.
pub open spec fn no_bird_stats() -> BirdStats {
    BirdStats { identified: 0, mistaken: 0, learned: false }
}

impl Default for BirdStats {
    fn default() -> (r: BirdStats)
        ensures
            r == no_bird_stats(),
    {
        BirdStats { identified: 0, mistaken: 0, learned: false }
    }
}

impl Default for BirdPackStats {
    fn default() -> (r: BirdPackStats)
        ensures
            r.times_completed == 0,
    {
        BirdPackStats { times_completed: 0 }
    }
}

/// The progress recorded for a bird, or none if it has no entry.
pub open spec fn stats_of(m: Map<u64, BirdStats>, bird_id: u64) -> BirdStats {
    if m.contains_key(bird_id) {
        m[bird_id]
    } else {
        no_bird_stats()
    }
}

/// Whether each day comes strictly after the one before.
pub open spec fn days_increasing(s: Seq<Date>) -> bool {
    forall|i: int, j: int| 0 <= i < j < s.len() ==> s[i]@ < s[j]@
}

/// The experience that a bird's progress gives: ten for learning it, one per identification.
pub open spec fn bird_xp(b: BirdStats) -> nat {
    (if b.learned { 10nat } else { 0nat }) + b.identified as nat
}

/// The experience of all the entries.
pub open spec fn total_xp(s: Seq<(u64, BirdStats)>) -> nat
    decreases s.len(),
{
    if s.len() == 0 {
        0
    } else {
        total_xp(s.drop_last()) + bird_xp(s.last().1)
    }
}

/// The ids of the learned birds, in the order of the entries.
pub open spec fn learned_ids(s: Seq<(u64, BirdStats)>) -> Seq<u64>
    decreases s.len(),
{
    if s.len() == 0 {
        Seq::empty()
    } else if s.last().1.learned {
        learned_ids(s.drop_last()).push(s.last().0)
    } else {
        learned_ids(s.drop_last())
    }
}

/// The number of days at the end of `s[..i]` that run back one day at a time from `day`.
pub open spec fn run_back(s: Seq<Date>, i: int, day: int) -> nat
    decreases i,
{
    if i <= 0 || i > s.len() {
        0
    } else if s[i - 1]@ == day {
        1 + run_back(s, i - 1, day - 1)
    } else {
        0
    }
}

/// The length of the run of consecutive days that ends with the last day of `s`.
pub open spec fn streak(s: Seq<Date>) -> nat {
    if s.len() == 0 {
        0
    } else {
        run_back(s, s.len() as int, s.last()@)
    }
}

/// The days after completing a pack on `today`: a pack of the day is recorded if it is the
/// pack of today or of yesterday, and comes after the last day recorded.
pub open spec fn days_after_completion(s: Seq<Date>, id: PackIdentifier, today: Date) -> Seq<Date> {
    match id {
        PackIdentifier::Date(day) => if (day@ == today@ || day@ + 1 == today@) && (s.len() == 0
            || s.last()@ < day@) {
            s.push(day)
        } else {
            s
        },
        _ => s,
    }
}

/// The experience of a prefix is at most that of the whole.
pub proof fn lemma_total_xp_prefix(s: Seq<(u64, BirdStats)>, n: int)
    requires
        0 <= n <= s.len(),
    ensures
        total_xp(s.take(n)) <= total_xp(s),
    decreases s.len(),
{
    if n < s.len() {
        assert(s.drop_last().take(n) =~= s.take(n));
        lemma_total_xp_prefix(s.drop_last(), n);
    } else {
        assert(s.take(n) =~= s);
    }
}

/// With unique keys, the learned ids are the learned birds of the map, each once.
pub proof fn lemma_learned_ids(s: Seq<(u64, BirdStats)>)
    requires
        keys_unique(s),
    ensures
        learned_ids(s).no_duplicates(),
        forall|id: u64|
            #[trigger] learned_ids(s).contains(id) <==> as_map(s).contains_key(id) && as_map(
                s,
            )[id].learned,
    decreases s.len(),
{
    if s.len() > 0 {
        let t = s.drop_last();
        let k = s.last().0;
        assert(keys_unique(t));
        lemma_learned_ids(t);
        lemma_as_map_keys(t, k);
        assert(!as_map(t).contains_key(k)) by {
            if as_map(t).contains_key(k) {
                let i = choose|i: int| 0 <= i < t.len() && (#[trigger] t[i]).0 == k;
                assert(s[i] == t[i]);
            }
        }
        assert(!learned_ids(t).contains(k));
        if s.last().1.learned {
            assert forall|a: int, b: int|
                0 <= a < learned_ids(s).len() && 0 <= b < learned_ids(s).len() && a != b implies
                learned_ids(s)[a] != learned_ids(s)[b] by {
                if a == learned_ids(t).len() as int {
                    assert(learned_ids(t).contains(learned_ids(s)[b]));
                } else if b == learned_ids(t).len() as int {
                    assert(learned_ids(t).contains(learned_ids(s)[a]));
                }
            }
        }
        assert forall|id: u64| #[trigger]
            learned_ids(s).contains(id) <==> as_map(s).contains_key(id) && as_map(s)[id].learned by {
            if s.last().1.learned {
                if learned_ids(s).contains(id) && id != k {
                    let j = choose|j: int| 0 <= j < learned_ids(s).len() && learned_ids(s)[j] == id;
                    assert(learned_ids(t)[j] == id);
                }
                if learned_ids(t).contains(id) {
                    let j = choose|j: int| 0 <= j < learned_ids(t).len() && learned_ids(t)[j] == id;
                    assert(learned_ids(s)[j] == id);
                }
                if id == k {
                    assert(learned_ids(s)[learned_ids(t).len() as int] == k);
                }
            }
        }
    }
}

/// Completing the same pack twice on the same day records its day at most once: the second
/// completion leaves the days as the first one left them.
pub proof fn lemma_completion_recorded_once(days: Seq<Date>, id: PackIdentifier, today: Date)
    ensures
        days_after_completion(days_after_completion(days, id, today), id, today)
            == days_after_completion(days, id, today),
        days_after_completion(days, id, today).len() <= days.len() + 1,
{
}

/// Completions recorded in order stay in strictly increasing order.
pub proof fn lemma_completion_keeps_order(days: Seq<Date>, id: PackIdentifier, today: Date)
    requires
        days_increasing(days),
    ensures
        days_increasing(days_after_completion(days, id, today)),
{
}

/// A run of days that stopped the day before yesterday has lapsed, though it is still the
/// latest run; completing today's pack starts a new run of one day.
pub proof fn lemma_streak_lapses(d3: Date, d2: Date, d0: Date, today: Date)
    requires
        d3@ + 3 == today@,
        d2@ + 2 == today@,
        d0@ == today@,
    ensures
        streak(seq![d3, d2]) == 2,
        !(seq![d3, d2].last()@ == today@ || seq![d3, d2].last()@ + 1 == today@),
        streak(seq![d3, d2, d0]) == 1,
        seq![d3, d2, d0].last()@ == today@,
{
    let s = seq![d3, d2];
    assert(run_back(s, 0, d2@ - 2) == 0);
    assert(run_back(s, 1, d2@ - 1) == 1);
    assert(run_back(s, 2, d2@) == 2);
    let t = seq![d3, d2, d0];
    assert(run_back(t, 2, d0@ - 1) == 0);
    assert(run_back(t, 3, d0@) == 1);
}

/// The completion counts after completing a pack: the catalog pack, if it is one, counts one
/// more completion.
pub open spec fn packs_after_completion(m: Map<u64, BirdPackStats>, pack_id: Option<u64>) -> Map<
    u64,
    BirdPackStats,
> {
    match pack_id {
        Some(p) => m.insert(
            p,
            BirdPackStats {
                times_completed: (if m.contains_key(p) {
                    m[p].times_completed + 1
                } else {
                    1
                }) as usize,
            },
        ),
        None => m,
    }
}

/// Learning progress for a user.
pub struct Stats {
    /// Progress per bird, one entry per bird id. Entries with unique keys stand for a map:
    /// the specification of `HashMap::values` gives only the set of values, not how often each
    /// occurs, so a sum over the birds, as in `xp`, could not be proved over a `HashMap`.
    bird_stats: Vec<(u64, BirdStats)>,
    /// Progress per catalog pack, one entry per pack id.
    pack_stats: Vec<(u64, BirdPackStats)>,
    /// The days whose pack of the day was completed, in increasing order.
    daily_packs_completed: Vec<Date>,
    /// The current number of correct answers in a row.
    current_streak: u32,
    /// The largest number of correct answers in a row.
    record_streak: u32,
}

impl Default for Stats {
    fn default() -> (r: Stats)
        ensures
            r.bird_entries() == Seq::<(u64, BirdStats)>::empty(),
            r.pack_entries() == Seq::<(u64, BirdPackStats)>::empty(),
            r.daily() == Seq::<Date>::empty(),
            r.current() == 0,
            r.record() == 0,
    {
        Stats::new()
    }
}

impl Stats {
    #[verifier::type_invariant]
    spec fn well_formed(self) -> bool {
        &&& keys_unique(self.bird_stats@)
        &&& keys_unique(self.pack_stats@)
        &&& days_increasing(self.daily_packs_completed@)
    }

    /// Progress per bird, one entry per bird, in the order the birds were first met.
    pub closed spec fn bird_entries(self) -> Seq<(u64, BirdStats)> {
        self.bird_stats@
    }

    /// Progress per catalog pack, one entry per pack.
    pub closed spec fn pack_entries(self) -> Seq<(u64, BirdPackStats)> {
        self.pack_stats@
    }

    /// The days whose pack of the day was completed.
    pub closed spec fn daily(self) -> Seq<Date> {
        self.daily_packs_completed@
    }

    /// The current number of correct answers in a row.
    pub closed spec fn current(self) -> u32 {
        self.current_streak
    }

    /// The largest number of correct answers in a row.
    pub closed spec fn record(self) -> u32 {
        self.record_streak
    }

    /// Progress per bird, by bird id.
    pub open spec fn bird_map(self) -> Map<u64, BirdStats> {
        as_map(self.bird_entries())
    }

    /// Progress per catalog pack, by pack id.
    pub open spec fn pack_map(self) -> Map<u64, BirdPackStats> {
        as_map(self.pack_entries())
    }

    /// Whether the completion count of the catalog pack, if any, can grow by one.
    pub open spec fn can_count_completion(self, pack_id: Option<u64>) -> bool {
        match pack_id {
            Some(p) => self.pack_map().contains_key(p) ==> self.pack_map()[p].times_completed
                < usize::MAX,
            None => true,
        }
    }

    /// No progress at all.
    pub fn new() -> (r: Stats)
        ensures
            r.bird_entries() == Seq::<(u64, BirdStats)>::empty(),
            r.pack_entries() == Seq::<(u64, BirdPackStats)>::empty(),
            r.daily() == Seq::<Date>::empty(),
            r.current() == 0,
            r.record() == 0,
    {
        Stats {
            bird_stats: Vec::new(),
            pack_stats: Vec::new(),
            daily_packs_completed: Vec::new(),
            current_streak: 0,
            record_streak: 0,
        }
    }

    /// Progress as saved earlier; `None` if a bird or a pack has two entries or the days are
    /// not in strictly increasing order.
    pub fn restore(
        bird_stats: Vec<(u64, BirdStats)>,
        pack_stats: Vec<(u64, BirdPackStats)>,
        daily_packs_completed: Vec<Date>,
        current_streak: u32,
        record_streak: u32,
    ) -> (r: Option<Stats>)
        ensures
            r is Some <==> keys_unique(bird_stats@) && keys_unique(pack_stats@) && days_increasing(
                daily_packs_completed@,
            ),
            r matches Some(s) ==> s.bird_entries() == bird_stats@ && s.pack_entries() == pack_stats@
                && s.daily() == daily_packs_completed@ && s.current() == current_streak
                && s.record() == record_streak,
    {
        let mut i: usize = 0;
        while i < bird_stats.len()
            invariant
                i <= bird_stats.len(),
                forall|a: int, b: int| 0 <= a < b < bird_stats@.len() && a < i ==> bird_stats@[a].0 != bird_stats@[b].0,
            decreases bird_stats.len() - i,
        {
            let mut j: usize = i + 1;
            while j < bird_stats.len()
                invariant
                    i < j <= bird_stats.len(),
                    forall|b: int| i < b < j ==> bird_stats@[i as int].0 != #[trigger] bird_stats@[b].0,
                decreases bird_stats.len() - j,
            {
                if bird_stats[i].0 == bird_stats[j].0 {
                    return None;
                }
                j = j + 1;
            }
            i = i + 1;
        }
        let mut i: usize = 0;
        while i < pack_stats.len()
            invariant
                i <= pack_stats.len(),
                keys_unique(bird_stats@),
                forall|a: int, b: int| 0 <= a < b < pack_stats@.len() && a < i ==> pack_stats@[a].0 != pack_stats@[b].0,
            decreases pack_stats.len() - i,
        {
            let mut j: usize = i + 1;
            while j < pack_stats.len()
                invariant
                    i < j <= pack_stats.len(),
                    forall|b: int| i < b < j ==> pack_stats@[i as int].0 != #[trigger] pack_stats@[b].0,
                decreases pack_stats.len() - j,
            {
                if pack_stats[i].0 == pack_stats[j].0 {
                    return None;
                }
                j = j + 1;
            }
            i = i + 1;
        }
        let mut i: usize = 1;
        while i < daily_packs_completed.len()
            invariant
                1 <= i,
                keys_unique(bird_stats@),
                keys_unique(pack_stats@),
                forall|a: int, b: int| 0 <= a < b < daily_packs_completed@.len() && b < i ==> daily_packs_completed@[a]@ < daily_packs_completed@[b]@,
            decreases daily_packs_completed.len() - i,
        {
            if daily_packs_completed[i - 1].days() >= daily_packs_completed[i].days() {
                return None;
            }
            i = i + 1;
        }
        Some(Stats { bird_stats, pack_stats, daily_packs_completed, current_streak, record_streak })
    }

    /// Where the bird's entry stands, if it has one.
    fn find_bird(&self, bird_id: u64) -> (r: Option<usize>)
        ensures
            r matches Some(i) ==> i < self.bird_stats.len() && self.bird_stats@[i as int].0 == bird_id,
            r is None ==> forall|i: int| 0 <= i < self.bird_stats.len() ==> (#[trigger] self.bird_stats@[i]).0 != bird_id,
    {
        let mut i: usize = 0;
        while i < self.bird_stats.len()
            invariant
                i <= self.bird_stats.len(),
                forall|k: int| 0 <= k < i ==> (#[trigger] self.bird_stats@[k]).0 != bird_id,
            decreases self.bird_stats.len() - i,
        {
            if self.bird_stats[i].0 == bird_id {
                return Some(i);
            }
            i = i + 1;
        }
        None
    }

    /// The bird's entry, made with no progress if it has none.
    fn bird_entry(&mut self, bird_id: u64) -> (r: usize)
        ensures
            r < final(self).bird_stats.len(),
            final(self).bird_stats@[r as int].0 == bird_id,
            final(self).bird_stats@[r as int].1 == (if old(self).bird_map().contains_key(bird_id) {
                old(self).bird_map()[bird_id]
            } else {
                no_bird_stats()
            }),
            as_map(final(self).bird_stats@) == as_map(old(self).bird_stats@).insert(
                bird_id,
                final(self).bird_stats@[r as int].1,
            ),
            final(self).pack_stats == old(self).pack_stats,
            final(self).daily_packs_completed == old(self).daily_packs_completed,
            final(self).current_streak == old(self).current_streak,
            final(self).record_streak == old(self).record_streak,
    {
        proof {
            use_type_invariant(&*self);
        }
        match self.find_bird(bird_id) {
            Some(i) => {
                proof {
                    lemma_as_map_entry(self.bird_stats@, i as int);
                    assert(as_map(self.bird_stats@) =~= as_map(self.bird_stats@).insert(
                        bird_id,
                        self.bird_stats@[i as int].1,
                    ));
                }
                i
            },
            None => {
                proof {
                    lemma_as_map_keys(self.bird_stats@, bird_id);
                }
                let ghost before = self.bird_stats@;
                let mut entries: Vec<(u64, BirdStats)> = Vec::new();
                std::mem::swap(&mut entries, &mut self.bird_stats);
                entries.push((bird_id, BirdStats::default()));
                std::mem::swap(&mut entries, &mut self.bird_stats);
                proof {
                    assert(self.bird_stats@.drop_last() =~= before);
                }
                self.bird_stats.len() - 1
            },
        }
    }

    /// Records a correct identification of a bird, learned or not by this answer.
    pub fn add_correct_id(&mut self, learned: bool, bird_id: u64)
        requires
            old(self).current() < u32::MAX,
            stats_of(old(self).bird_map(), bird_id).identified < u32::MAX,
        ensures
            final(self).current() == old(self).current() + 1,
            final(self).record() == if old(self).current() + 1 > old(self).record() {
                (old(self).current() + 1) as u32
            } else {
                old(self).record()
            },
            final(self).bird_map() == old(self).bird_map().insert(
                bird_id,
                BirdStats {
                    identified: (stats_of(old(self).bird_map(), bird_id).identified + 1) as u32,
                    learned: stats_of(old(self).bird_map(), bird_id).learned || learned,
                    ..stats_of(old(self).bird_map(), bird_id)
                },
            ),
            final(self).pack_entries() == old(self).pack_entries(),
            final(self).daily() == old(self).daily(),
    {
        proof {
            use_type_invariant(&*self);
        }
        self.current_streak = self.current_streak + 1;
        if self.current_streak > self.record_streak {
            self.record_streak = self.current_streak;
        }
        let i = self.bird_entry(bird_id);
        proof {
            use_type_invariant(&*self);
        }
        let b = self.bird_stats[i].1;
        let updated = BirdStats {
            identified: b.identified + 1,
            mistaken: b.mistaken,
            learned: b.learned || learned,
        };
        proof {
            lemma_as_map_update(self.bird_stats@, i as int, updated);
        }
        let ghost before = self.bird_stats@;
        let mut entries: Vec<(u64, BirdStats)> = Vec::new();
        std::mem::swap(&mut entries, &mut self.bird_stats);
        entries.set(i, (bird_id, updated));
        assert(entries@ == before.update(i as int, (before[i as int].0, updated)));
        assert(keys_unique(entries@));
        std::mem::swap(&mut entries, &mut self.bird_stats);
    }

    /// Records a mistaken identification of a bird.
    pub fn add_incorrect_id(&mut self, bird_id: u64)
        requires
            stats_of(old(self).bird_map(), bird_id).mistaken < u32::MAX,
        ensures
            final(self).current() == 0,
            final(self).record() == old(self).record(),
            final(self).bird_map() == old(self).bird_map().insert(
                bird_id,
                BirdStats {
                    mistaken: (stats_of(old(self).bird_map(), bird_id).mistaken + 1) as u32,
                    ..stats_of(old(self).bird_map(), bird_id)
                },
            ),
            final(self).pack_entries() == old(self).pack_entries(),
            final(self).daily() == old(self).daily(),
    {
        proof {
            use_type_invariant(&*self);
        }
        self.current_streak = 0;
        let i = self.bird_entry(bird_id);
        proof {
            use_type_invariant(&*self);
        }
        let b = self.bird_stats[i].1;
        let updated = BirdStats { identified: b.identified, mistaken: b.mistaken + 1, learned: b.learned };
        proof {
            lemma_as_map_update(self.bird_stats@, i as int, updated);
        }
        let ghost before = self.bird_stats@;
        let mut entries: Vec<(u64, BirdStats)> = Vec::new();
        std::mem::swap(&mut entries, &mut self.bird_stats);
        entries.set(i, (bird_id, updated));
        assert(entries@ == before.update(i as int, (before[i as int].0, updated)));
        assert(keys_unique(entries@));
        std::mem::swap(&mut entries, &mut self.bird_stats);
    }

    /// The experience earned: ten per learned bird and one per correct identification.
    pub fn xp(&self) -> (r: u32)
        requires
            total_xp(self.bird_entries()) <= u32::MAX,
        ensures
            r == total_xp(self.bird_entries()),
    {
        let mut sum: u32 = 0;
        let mut i: usize = 0;
        while i < self.bird_stats.len()
            invariant
                i <= self.bird_stats.len(),
                total_xp(self.bird_stats@) <= u32::MAX,
                sum == total_xp(self.bird_stats@.take(i as int)),
            decreases self.bird_stats.len() - i,
        {
            proof {
                assert(self.bird_stats@.take(i + 1).drop_last() =~= self.bird_stats@.take(i as int));
                lemma_total_xp_prefix(self.bird_stats@, i + 1);
            }
            let b = self.bird_stats[i].1;
            let bonus: u32 = if b.learned { 10 } else { 0 };
            sum = sum + bonus + b.identified;
            i = i + 1;
        }
        proof {
            assert(self.bird_stats@.take(i as int) =~= self.bird_stats@);
        }
        sum
    }

    /// The experience earned, or `None` if it does not fit in a `u32`.
    pub fn checked_xp(&self) -> (r: Option<u32>)
        ensures
            r matches Some(x) ==> x == total_xp(self.bird_entries()),
            r is None <==> total_xp(self.bird_entries()) > u32::MAX,
    {
        let mut sum: u32 = 0;
        let mut i: usize = 0;
        while i < self.bird_stats.len()
            invariant
                i <= self.bird_stats.len(),
                sum == total_xp(self.bird_stats@.take(i as int)),
            decreases self.bird_stats.len() - i,
        {
            proof {
                assert(self.bird_stats@.take(i + 1).drop_last() =~= self.bird_stats@.take(i as int));
            }
            let b = self.bird_stats[i].1;
            let bonus: u32 = if b.learned { 10 } else { 0 };
            if sum as u64 + bonus as u64 + b.identified as u64 > u32::MAX as u64 {
                proof {
                    lemma_total_xp_prefix(self.bird_stats@, i + 1);
                }
                return None;
            }
            sum = sum + bonus + b.identified;
            i = i + 1;
        }
        proof {
            assert(self.bird_stats@.take(i as int) =~= self.bird_stats@);
        }
        Some(sum)
    }

    /// The ids of the learned birds.
    pub fn birds_learned(&self) -> (r: Vec<u64>)
        ensures
            r@ == learned_ids(self.bird_entries()),
            r@.no_duplicates(),
            forall|id: u64|
                #[trigger] r@.contains(id) <==> self.bird_map().contains_key(id)
                    && self.bird_map()[id].learned,
    {
        proof {
            use_type_invariant(self);
            lemma_learned_ids(self.bird_stats@);
        }
        let mut r: Vec<u64> = Vec::new();
        let mut i: usize = 0;
        while i < self.bird_stats.len()
            invariant
                i <= self.bird_stats.len(),
                r@ == learned_ids(self.bird_stats@.take(i as int)),
            decreases self.bird_stats.len() - i,
        {
            proof {
                assert(self.bird_stats@.take(i + 1).drop_last() =~= self.bird_stats@.take(i as int));
            }
            if self.bird_stats[i].1.learned {
                r.push(self.bird_stats[i].0);
            }
            i = i + 1;
        }
        proof {
            assert(self.bird_stats@.take(i as int) =~= self.bird_stats@);
        }
        r
    }

    /// The number of learned birds, as a `u32`.
    pub fn total_birds_learned(&self) -> (r: u32)
        ensures
            r == learned_ids(self.bird_entries()).len() as u32,
    {
        self.birds_learned().len() as u32
    }

    /// The level reached: one, plus one for every fifteen learned birds.
    pub fn level(&self) -> (r: u32)
        requires
            learned_ids(self.bird_entries()).len() / (BIRDS_PER_LEVEL as nat) < u32::MAX,
        ensures
            r == 1 + learned_ids(self.bird_entries()).len() / (BIRDS_PER_LEVEL as nat),
    {
        let n = self.birds_learned().len();
        1 + (n / BIRDS_PER_LEVEL) as u32
    }

    /// Progress per bird, one entry per bird.
    pub fn bird_stats(&self) -> (r: &[(u64, BirdStats)])
        ensures
            r@ == self.bird_entries(),
            keys_unique(r@),
    {
        proof {
            use_type_invariant(self);
        }
        self.bird_stats.as_slice()
    }

    /// Progress per catalog pack, one entry per pack.
    pub fn pack_stats(&self) -> (r: &[(u64, BirdPackStats)])
        ensures
            r@ == self.pack_entries(),
            keys_unique(r@),
    {
        proof {
            use_type_invariant(self);
        }
        self.pack_stats.as_slice()
    }

    /// The days whose pack of the day was completed, in increasing order.
    pub fn daily_packs_completed(&self) -> (r: &[Date])
        ensures
            r@ == self.daily(),
            days_increasing(r@),
    {
        proof {
            use_type_invariant(self);
        }
        self.daily_packs_completed.as_slice()
    }

    /// The current number of correct answers in a row.
    pub fn current_streak(&self) -> (r: u32)
        ensures
            r == self.current(),
    {
        self.current_streak
    }

    /// The largest number of correct answers in a row.
    pub fn record_streak(&self) -> (r: u32)
        ensures
            r == self.record(),
    {
        self.record_streak
    }


    /// The pack's entry, made with no completions if it has none.
    fn pack_entry(&mut self, pack_id: u64) -> (r: usize)
        ensures
            r < final(self).pack_stats.len(),
            final(self).pack_stats@[r as int].0 == pack_id,
            final(self).pack_stats@[r as int].1.times_completed == (if old(self).pack_map().contains_key(pack_id) {
                old(self).pack_map()[pack_id].times_completed
            } else {
                0
            }),
            as_map(final(self).pack_stats@) == as_map(old(self).pack_stats@).insert(
                pack_id,
                final(self).pack_stats@[r as int].1,
            ),
            final(self).bird_stats == old(self).bird_stats,
            final(self).daily_packs_completed == old(self).daily_packs_completed,
            final(self).current_streak == old(self).current_streak,
            final(self).record_streak == old(self).record_streak,
    {
        proof {
            use_type_invariant(&*self);
        }
        let mut i: usize = 0;
        while i < self.pack_stats.len()
            invariant
                i <= self.pack_stats.len(),
                keys_unique(self.pack_stats@),
                forall|k: int| 0 <= k < i ==> (#[trigger] self.pack_stats@[k]).0 != pack_id,
            decreases self.pack_stats.len() - i,
        {
            if self.pack_stats[i].0 == pack_id {
                proof {
                    lemma_as_map_entry(self.pack_stats@, i as int);
                    assert(as_map(self.pack_stats@) =~= as_map(self.pack_stats@).insert(
                        pack_id,
                        self.pack_stats@[i as int].1,
                    ));
                }
                return i;
            }
            i = i + 1;
        }
        proof {
            lemma_as_map_keys(self.pack_stats@, pack_id);
        }
        let ghost before = self.pack_stats@;
        let mut entries: Vec<(u64, BirdPackStats)> = Vec::new();
        std::mem::swap(&mut entries, &mut self.pack_stats);
        entries.push((pack_id, BirdPackStats::default()));
        std::mem::swap(&mut entries, &mut self.pack_stats);
        proof {
            assert(self.pack_stats@.drop_last() =~= before);
        }
        self.pack_stats.len() - 1
    }

    /// Records the completion of a pack on `today`: the catalog pack, if it is one, counts one
    /// more completion, and a pack of the day that is the pack of today or of yesterday
    /// (a session may cross midnight) is recorded unless a day as late is recorded already.
    pub fn add_pack_completed_on(&mut self, pack: &Pack, today: Date)
        requires
            old(self).can_count_completion(pack.birdpack_id),
        ensures
            final(self).pack_map() == packs_after_completion(old(self).pack_map(), pack.birdpack_id),
            final(self).daily() == days_after_completion(old(self).daily(), pack.id, today),
            final(self).bird_entries() == old(self).bird_entries(),
            final(self).current() == old(self).current(),
            final(self).record() == old(self).record(),
    {
        proof {
            use_type_invariant(&*self);
        }
        match pack.birdpack_id {
            Some(pack_id) => {
                let i = self.pack_entry(pack_id);
                proof {
                    use_type_invariant(&*self);
                }
                let updated = BirdPackStats { times_completed: self.pack_stats[i].1.times_completed + 1 };
                proof {
                    lemma_as_map_update(self.pack_stats@, i as int, updated);
                }
                let ghost before = self.pack_stats@;
                let mut entries: Vec<(u64, BirdPackStats)> = Vec::new();
                std::mem::swap(&mut entries, &mut self.pack_stats);
                entries.set(i, (pack_id, updated));
                assert(entries@ == before.update(i as int, (before[i as int].0, updated)));
                assert(keys_unique(entries@));
                std::mem::swap(&mut entries, &mut self.pack_stats);
            },
            None => {},
        }
        match &pack.id {
            PackIdentifier::Date(day) => {
                if day.is_today_or_yesterday(today) {
                    let n = self.daily_packs_completed.len();
                    if n == 0 || self.daily_packs_completed[n - 1].days() < day.days() {
                        let ghost before = self.daily_packs_completed@;
                        let mut days: Vec<Date> = Vec::new();
                        std::mem::swap(&mut days, &mut self.daily_packs_completed);
                        days.push(*day);
                        assert(days@ == before.push(*day));
                        assert(days_increasing(days@));
                        std::mem::swap(&mut days, &mut self.daily_packs_completed);
                    }
                }
            },
            _ => {},
        }
    }

    /// Records the completion of a pack on the current day.
    pub fn add_pack_completed(&mut self, pack: &Pack)
        requires
            old(self).can_count_completion(pack.birdpack_id),
        ensures
            final(self).pack_map() == packs_after_completion(old(self).pack_map(), pack.birdpack_id),
            exists|t: Date| final(self).daily() == days_after_completion(old(self).daily(), pack.id, t),
            final(self).bird_entries() == old(self).bird_entries(),
            final(self).current() == old(self).current(),
            final(self).record() == old(self).record(),
    {
        let t = today();
        self.add_pack_completed_on(pack, t);
    }

    /// The length of the run of consecutive days that ends with the last recorded day.
    fn daily_pack_streak(&self) -> (r: u32)
        ensures
            r == streak(self.daily()),
    {
        let n = self.daily_packs_completed.len();
        if n == 0 {
            return 0;
        }
        let last = self.daily_packs_completed[n - 1].days();
        let ghost s = self.daily_packs_completed@;
        let mut day: i64 = last as i64;
        let mut count: u32 = 0;
        let mut i: usize = n;
        let mut going = true;
        while i > 0 && going
            invariant
                s == self.daily_packs_completed@,
                i <= n == s.len(),
                last == s[n - 1]@,
                crate::date::MIN_DAY - 1 <= day <= last,
                count == last - day,
                going ==> count + run_back(s, i as int, day as int) == run_back(s, n as int, last as int),
                !going ==> count == run_back(s, n as int, last as int),
            decreases i + if going { 1int } else { 0int },
        {
            let d = self.daily_packs_completed[i - 1].days();
            if d as i64 == day {
                count = count + 1;
                day = day - 1;
                i = i - 1;
            } else {
                going = false;
            }
        }
        count
    }

    /// The most recent run of consecutive days with the pack of the day completed, whether or
    /// not it has lapsed since.
    pub fn latest_daily_pack_streak(&self) -> (r: u32)
        ensures
            r == streak(self.daily()),
    {
        self.daily_pack_streak()
    }

    /// The run of consecutive days with the pack of the day completed, if it reaches `today`
    /// or the day before; else zero, the streak having lapsed.
    pub fn active_daily_pack_streak_on(&self, today: Date) -> (r: u32)
        ensures
            r == if self.daily().len() > 0 && (self.daily().last()@ == today@ || self.daily().last()@
                + 1 == today@) {
                streak(self.daily())
            } else {
                0
            },
    {
        let n = self.daily_packs_completed.len();
        if n > 0 && self.daily_packs_completed[n - 1].is_today_or_yesterday(today) {
            self.daily_pack_streak()
        } else {
            0
        }
    }

    /// The run of consecutive days with the pack of the day completed, if it reaches the
    /// current day or the day before; else zero.
    pub fn active_daily_pack_streak(&self) -> (r: u32)
        ensures
            r == 0 || r == streak(self.daily()),
    {
        self.active_daily_pack_streak_on(today())
    }

}

} // verus!
