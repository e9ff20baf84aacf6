//! The scheduler of one play session: a rotating set of multiple choices drawn from a pack
//! of birds, reordered after every round so that birds not yet learned come back sooner.

use rand::seq::SliceRandom;
use vstd::prelude::*;
use crate::bird::Bird;
use crate::stats::LEARN_THRESHOLD;

verus! {

broadcast use vstd::seq_lib::group_to_multiset_ensures;

/// The number of birds offered in each round.
pub const MULTIPLE_CHOICE_SIZE: usize = 4;

/// A bird with its counters for one play session.
#[derive(Debug)]
pub struct BirdContext {
    /// The bird.
    pub bird: Bird,
    /// The number of times the bird has been correctly identified.
    pub identified: u32,
    /// The number of times in a row the bird has been correctly identified.
    pub consecutively_identified: u32,
    /// The number of times the bird has been mistaken.
    pub mistaken: u32,
    /// The number of rounds since the bird was last among the choices, once it has been.
    pub last_seen: Option<u32>,
}

/// Whether the bird counts as learned in this session.
pub open spec fn is_learned(c: BirdContext) -> bool {
    c.consecutively_identified >= LEARN_THRESHOLD
}

/// The scheduling weight of a bird: the lower, the sooner it is offered again.
pub open spec fn weight(c: BirdContext) -> int {
    let bonus: int = if is_learned(c) { 10 } else { 0 };
    let recency: int = match c.last_seen {
        Some(n) => if n < 5 { n as int } else { 5 },
        None => 5,
    };
    bonus - c.mistaken - recency
}

/// Whether the birds are in ascending order of weight.
pub open spec fn sorted_by_weight(s: Seq<BirdContext>) -> bool {
    forall|i: int, j: int| 0 <= i < j < s.len() ==> weight(s[i]) <= weight(s[j])
}

/// A bird at the start of a session: no counters, never shown.
pub open spec fn fresh(b: Bird) -> BirdContext {
    BirdContext {
        bird: b,
        identified: 0,
        consecutively_identified: 0,
        mistaken: 0,
        last_seen: None,
    }
}

impl BirdContext {
    /// Wraps a bird for a new session.
    pub fn from_bird(bird: Bird) -> (r: BirdContext)
        ensures
            r == fresh(bird),
    {
        BirdContext {
            bird,
            identified: 0,
            consecutively_identified: 0,
            mistaken: 0,
            last_seen: None,
        }
    }

    /// Whether the bird counts as learned in this session.
    pub fn learned(&self) -> (r: bool)
        ensures
            r == is_learned(*self),
    {
        self.consecutively_identified >= LEARN_THRESHOLD
    }

    /// The scheduling weight of the bird.
    pub fn weight(&self) -> (r: i64)
        ensures
            r == weight(*self),
    {
        let mut w: i64 = 0;
        if self.learned() {
            w = w + 10;
        }
        w = w - self.mistaken as i64;
        let recency: i64 = match self.last_seen {
            Some(n) => if n < 5 { n as i64 } else { 5 },
            None => 5,
        };
        w - recency
    }
}

impl From<Bird> for BirdContext {
    fn from(bird: Bird) -> (r: BirdContext) {
        BirdContext::from_bird(bird)
    }
}

impl vstd::std_specs::convert::FromSpecImpl<Bird> for BirdContext {
    open spec fn obeys_from_spec() -> bool {
        true
    }

    open spec fn from_spec(b: Bird) -> BirdContext {
        fresh(b)
    }
}

/// Relies on `rand::seq::SliceRandom::shuffle` with `rand::thread_rng()`: it swaps elements in
/// place, so the result holds the same elements in some order.
#[verifier::external_body]
fn shuffle_in_place<T>(v: &mut Vec<T>)
    ensures
        final(v)@.to_multiset() == old(v)@.to_multiset(),
{
    v.shuffle(&mut rand::thread_rng());
}

/// The birds of weight `w`, in their order.
pub open spec fn of_weight(s: Seq<BirdContext>, w: int) -> Seq<BirdContext> {
    s.filter(|c: BirdContext| weight(c) == w)
}

proof fn lemma_of_weight_single(x: BirdContext, w: int)
    ensures
        of_weight(seq![x], w) == (if weight(x) == w {
            seq![x]
        } else {
            Seq::<BirdContext>::empty()
        }),
{
    reveal(Seq::filter);
    assert(seq![x].drop_last() =~= Seq::<BirdContext>::empty());
    assert(seq![x].last() == x);
    assert(of_weight(Seq::<BirdContext>::empty(), w) =~= Seq::<BirdContext>::empty());
    assert(of_weight(seq![x], w) =~= (if weight(x) == w {
        seq![x]
    } else {
        Seq::<BirdContext>::empty()
    }));
}

proof fn lemma_of_weight_lighter(s: Seq<BirdContext>, w: int)
    requires
        forall|k: int| 0 <= k < s.len() ==> weight(#[trigger] s[k]) < w,
    ensures
        of_weight(s, w) == Seq::<BirdContext>::empty(),
    decreases s.len(),
{
    reveal(Seq::filter);
    if s.len() > 0 {
        lemma_of_weight_lighter(s.drop_last(), w);
    }
}

proof fn lemma_of_weight_add(a: Seq<BirdContext>, b: Seq<BirdContext>, w: int)
    ensures
        of_weight(a + b, w) == of_weight(a, w) + of_weight(b, w),
{
    Seq::filter_distributes_over_add(a, b, |c: BirdContext| weight(c) == w);
}

/// Sorts the birds by ascending weight; birds of equal weight keep their order.
pub fn sort_by_weight(items: Vec<BirdContext>) -> (r: Vec<BirdContext>)
    ensures
        r@.to_multiset() == items@.to_multiset(),
        sorted_by_weight(r@),
        forall|w: int| of_weight(r@, w) == of_weight(items@, w),
{
    let mut rest = items;
    let mut out: Vec<BirdContext> = Vec::new();
    proof {
        reveal(Seq::filter);
        assert(items@.skip(items@.len() as int) =~= Seq::<BirdContext>::empty());
        assert(items@.take(items@.len() as int) =~= items@);
    }
    while rest.len() > 0
        invariant
            out@.to_multiset().add(rest@.to_multiset()) == items@.to_multiset(),
            sorted_by_weight(out@),
            rest.len() <= items.len(),
            rest@ == items@.take(rest.len() as int),
            forall|w: int| of_weight(out@, w) == of_weight(items@.skip(rest.len() as int), w),
        decreases rest.len(),
    {
        let ghost before_rest = rest@;
        let ghost n = rest.len() as int;
        let x = rest.pop().unwrap();
        proof {
            assert(before_rest == rest@.push(x));
            assert(rest@ =~= items@.take(rest.len() as int));
            assert(x == items@[n - 1]);
            assert(items@.skip(n - 1) =~= seq![x] + items@.skip(n));
        }
        let w = x.weight();
        let mut j: usize = 0;
        while j < out.len() && out[j].weight() < w
            invariant
                j <= out.len(),
                forall|k: int| 0 <= k < j ==> weight(#[trigger] out@[k]) < w,
            decreases out.len() - j,
        {
            j = j + 1;
        }
        let ghost before_out = out@;
        out.insert(j, x);
        proof {
            assert(out@ == before_out.insert(j as int, x));
            assert(out@ =~= before_out.take(j as int) + seq![x] + before_out.skip(j as int));
            assert(before_out =~= before_out.take(j as int) + before_out.skip(j as int));
            assert forall|v: int| of_weight(out@, v) == of_weight(items@.skip(rest.len() as int), v) by {
                lemma_of_weight_add(before_out.take(j as int) + seq![x], before_out.skip(j as int), v);
                lemma_of_weight_add(before_out.take(j as int), seq![x], v);
                lemma_of_weight_add(before_out.take(j as int), before_out.skip(j as int), v);
                lemma_of_weight_add(seq![x], items@.skip(n), v);
                lemma_of_weight_single(x, v);
                if v == w {
                    assert forall|k: int| 0 <= k < before_out.take(j as int).len() implies weight(
                        #[trigger] before_out.take(j as int)[k],
                    ) < v by {
                        assert(before_out.take(j as int)[k] == before_out[k]);
                    }
                    lemma_of_weight_lighter(before_out.take(j as int), v);
                    assert(of_weight(out@, v) =~= seq![x] + of_weight(before_out, v));
                } else {
                    assert(of_weight(out@, v) =~= of_weight(before_out, v));
                }
            }
            assert forall|a: int, b: int| 0 <= a < b < out@.len() implies weight(out@[a])
                <= weight(out@[b]) by {
                if a < j && b > j {
                    assert(out@[b] == before_out[b - 1]);
                }
                if a == j && b > j {
                    assert(out@[b] == before_out[b - 1]);
                    assert(weight(before_out[j as int]) >= w);
                }
            }
        }
    }
    proof {
        assert(items@.skip(0) =~= items@);
    }
    out
}

/// The bird after a verdict on it: a correct one counts towards its streak, a wrong one
/// ends the streak.
pub open spec fn after_verdict(c: BirdContext, correct: bool) -> BirdContext {
    if correct {
        BirdContext {
            identified: (c.identified + 1) as u32,
            consecutively_identified: (c.consecutively_identified + 1) as u32,
            ..c
        }
    } else {
        BirdContext { mistaken: (c.mistaken + 1) as u32, consecutively_identified: 0, ..c }
    }
}

/// The bird, last seen `n` rounds ago.
pub open spec fn seen(c: BirdContext, n: u32) -> BirdContext {
    BirdContext { last_seen: Some(n), ..c }
}

/// The bird one round later, if it has been shown before.
pub open spec fn aged(c: BirdContext) -> BirdContext {
    BirdContext {
        last_seen: match c.last_seen {
            Some(n) => Some((n + 1) as u32),
            None => None,
        },
        ..c
    }
}

/// Whether the bird's round count can grow by one.
pub open spec fn can_age(c: BirdContext) -> bool {
    match c.last_seen {
        Some(n) => n < u32::MAX,
        None => true,
    }
}

/// Whether no two birds share an id.
pub open spec fn distinct_ids(s: Seq<BirdContext>) -> bool {
    forall|i: int, j: int| 0 <= i < j < s.len() ==> s[i].bird.id != s[j].bird.id
}

/// The number of birds that take part in a change of round: as many as the round holds, or
/// the whole pack if it holds fewer.
pub open spec fn rotation(g: Game) -> int {
    if g.pack_items().len() < MULTIPLE_CHOICE_SIZE {
        g.pack_items().len() as int
    } else {
        MULTIPLE_CHOICE_SIZE as int
    }
}

/// The next round: the first birds of the pack take the places of the first birds of the
/// current round, and all of them are marked as just seen.
pub open spec fn next_choices(g: Game) -> Seq<BirdContext> {
    let m = rotation(g);
    (g.pack_items().take(m) + g.choice_items().skip(m)).map_values(|c: BirdContext| seen(c, 0))
}

/// The pack after a change of round, before it is reordered: the birds that left the round,
/// seen one round ago, then the rest of the pack, one round older.
pub open spec fn next_pack(g: Game) -> Seq<BirdContext> {
    let m = rotation(g);
    g.choice_items().take(m).map_values(|c: BirdContext| seen(c, 1)) + g.pack_items().skip(
        m,
    ).map_values(|c: BirdContext| aged(c))
}

/// The number of learned birds.
pub open spec fn count_learned(s: Seq<BirdContext>) -> nat
    decreases s.len(),
{
    if s.len() == 0 {
        0
    } else {
        count_learned(s.drop_last()) + if is_learned(s.last()) { 1nat } else { 0nat }
    }
}

/// Moving on to the next round keeps every bird of the session: the next round and the next
/// pack hold as many birds as the session did.
pub proof fn lemma_rotation_keeps_size(g: Game)
    requires
        g.choice_items().len() == MULTIPLE_CHOICE_SIZE,
    ensures
        next_choices(g).len() == MULTIPLE_CHOICE_SIZE,
        next_choices(g).len() + next_pack(g).len() == g.items().len(),
{
}

/// A verdict changes no bird's count but the bird to identify's: a wrong answer leaves every
/// identification count as it was and every streak but that bird's, which starts over; a right
/// answer leaves every mistake count as it was.
pub proof fn lemma_verdict_counts(s: Seq<BirdContext>, correct: bool)
    requires
        s.len() > 0,
    ensures
        ({
            let t = s.update(0, after_verdict(s[0], correct));
            &&& t.len() == s.len()
            &&& !correct ==> forall|i: int| 0 <= i < s.len() ==> (#[trigger] t[i]).identified == s[i].identified
            &&& !correct ==> t[0].consecutively_identified == 0
            &&& !correct ==> forall|i: int|
                1 <= i < s.len() ==> (#[trigger] t[i]).consecutively_identified == s[i].consecutively_identified
            &&& correct ==> forall|i: int| 0 <= i < s.len() ==> (#[trigger] t[i]).mistaken == s[i].mistaken
        }),
{
}

/// When the pack holds a full round and no two birds of the session share an id, no bird of
/// the current round is in the next one.
pub proof fn lemma_round_leaves(g: Game)
    requires
        g.choice_items().len() == MULTIPLE_CHOICE_SIZE,
        g.pack_items().len() >= MULTIPLE_CHOICE_SIZE,
        distinct_ids(g.items()),
    ensures
        forall|i: int, j: int|
            0 <= i < next_choices(g).len() && 0 <= j < g.choice_items().len() ==> #[trigger] next_choices(
                g,
            )[i].bird.id != #[trigger] g.choice_items()[j].bird.id,
{
    assert forall|i: int, j: int|
        0 <= i < next_choices(g).len() && 0 <= j < g.choice_items().len() implies #[trigger] next_choices(
            g,
        )[i].bird.id != #[trigger] g.choice_items()[j].bird.id by {
        assert(next_choices(g)[i].bird == g.pack_items()[i].bird);
        assert(g.items()[j] == g.choice_items()[j]);
        assert(g.items()[i + MULTIPLE_CHOICE_SIZE] == g.pack_items()[i]);
    }
}

/// The state of one play session.
pub struct Game {
    /// The birds of the current round; the first one is the bird to identify.
    choices: Vec<BirdContext>,
    /// The rest of the pack, the birds due soonest first.
    pack: Vec<BirdContext>,
    /// Whether this pack had been learned in an earlier session.
    already_learned: bool,
}

impl Game {
    #[verifier::type_invariant]
    spec fn full_round(self) -> bool {
        &&& self.choices.len() == MULTIPLE_CHOICE_SIZE
        &&& self.choices.len() + self.pack.len() <= usize::MAX
    }

    /// The birds of the current round; the first one is the bird to identify.
    pub closed spec fn choice_items(self) -> Seq<BirdContext> {
        self.choices@
    }

    /// The birds that wait in the pack.
    pub closed spec fn pack_items(self) -> Seq<BirdContext> {
        self.pack@
    }

    /// Whether this pack had been learned in an earlier session.
    pub closed spec fn was_learned(self) -> bool {
        self.already_learned
    }

    /// Every bird of the session, the current round's first.
    pub open spec fn items(self) -> Seq<BirdContext> {
        self.choice_items() + self.pack_items()
    }

    /// Starts a session over the given birds, in the given order or, with `shuffle`, in a
    /// random order. The first birds make up the first round.
    pub fn init(birds: Vec<Bird>, shuffle: bool) -> (r: Game)
        requires
            birds.len() >= MULTIPLE_CHOICE_SIZE,
        ensures
            r.choice_items().len() == MULTIPLE_CHOICE_SIZE,
            r.items().to_multiset() == birds@.map_values(|b: Bird| fresh(b)).to_multiset(),
            !shuffle ==> r.items() == birds@.map_values(|b: Bird| fresh(b)),
            !r.was_learned(),
    {
        let mut choices: Vec<BirdContext> = Vec::new();
        let mut rest = birds;
        let ghost all = birds@.map_values(|b: Bird| fresh(b));
        while rest.len() > 0
            invariant
                choices.len() + rest.len() == birds.len(),
                all == birds@.map_values(|b: Bird| fresh(b)),
                choices@ == all.take(choices.len() as int),
                rest@ == birds@.skip(choices.len() as int),
            decreases rest.len(),
        {
            let ghost n = choices.len() as int;
            proof {
                assert(rest@[0] == birds@[n]);
            }
            let bird = rest.remove(0);
            let c = BirdContext::from_bird(bird);
            assert(c == all[n]);
            choices.push(c);
            proof {
                assert(choices@ =~= all.take(choices.len() as int));
                assert(rest@ =~= birds@.skip(choices.len() as int));
            }
        }
        proof {
            assert(choices@ =~= all);
        }
        if shuffle {
            shuffle_in_place(&mut choices);
        }
        proof {
            assert(choices@.to_multiset().len() == all.to_multiset().len());
            assert(choices.len() == birds.len());
        }
        let ghost before = choices@;
        let pack = choices.split_off(MULTIPLE_CHOICE_SIZE);
        assert(before =~= choices@ + pack@);
        Game { choices, pack, already_learned: false }
    }

    /// The birds of the current round; the first one is the bird to identify.
    pub fn choices(&self) -> (r: &[BirdContext])
        ensures
            r@ == self.choice_items(),
            r@.len() == MULTIPLE_CHOICE_SIZE,
    {
        proof {
            use_type_invariant(self);
        }
        self.choices.as_slice()
    }

    /// Copies of the birds of the current round, in order.
    pub fn birds(&self) -> (r: Vec<Bird>)
        ensures
            r.len() == self.choice_items().len(),
            forall|i: int|
                0 <= i < r.len() ==> (#[trigger] r@[i]).id == self.choice_items()[i].bird.id
                    && r@[i].common_name == self.choice_items()[i].bird.common_name
                    && r@[i].scientific_name == self.choice_items()[i].bird.scientific_name
                    && r@[i].image == self.choice_items()[i].bird.image
                    && r@[i].sounds@ == self.choice_items()[i].bird.sounds@,
    {
        let mut r: Vec<Bird> = Vec::new();
        let mut i: usize = 0;
        while i < self.choices.len()
            invariant
                i <= self.choices.len(),
                r.len() == i,
                forall|k: int|
                    0 <= k < i ==> (#[trigger] r@[k]).id == self.choices@[k].bird.id
                        && r@[k].common_name == self.choices@[k].bird.common_name
                        && r@[k].scientific_name == self.choices@[k].bird.scientific_name
                        && r@[k].image == self.choices@[k].bird.image
                        && r@[k].sounds@ == self.choices@[k].bird.sounds@,
            decreases self.choices.len() - i,
        {
            r.push(self.choices[i].bird.clone());
            i = i + 1;
        }
        r
    }

    /// The bird to identify in the current round, with its counters.
    pub fn correct_choice(&self) -> (r: &BirdContext)
        ensures
            *r == self.choice_items()[0],
            self.choice_items().len() == MULTIPLE_CHOICE_SIZE,
    {
        proof {
            use_type_invariant(self);
        }
        &self.choices[0]
    }

    /// The bird to identify in the current round.
    pub fn correct_bird(&self) -> (r: &Bird)
        ensures
            *r == self.choice_items()[0].bird,
    {
        proof {
            use_type_invariant(self);
        }
        &self.choices[0].bird
    }


    /// The bird to identify in the current round, for updating its counters.
    pub fn correct_choice_mut(&mut self) -> (r: &mut BirdContext)
        ensures
            *r == old(self).choice_items()[0],
            final(self).choice_items() == old(self).choice_items().update(0, *final(r)),
            final(self).pack_items() == old(self).pack_items(),
            final(self).was_learned() == old(self).was_learned(),
    {
        proof {
            use_type_invariant(&*self);
        }
        &mut self.choices[0]
    }

    /// Records a verdict on the current round: updates the counters of the bird to identify,
    /// and nothing else.
    pub fn record_choice(&mut self, correct: bool)
        requires
            correct ==> old(self).choice_items()[0].identified < u32::MAX,
            correct ==> old(self).choice_items()[0].consecutively_identified < u32::MAX,
            !correct ==> old(self).choice_items()[0].mistaken < u32::MAX,
        ensures
            final(self).choice_items() == old(self).choice_items().update(
                0,
                after_verdict(old(self).choice_items()[0], correct),
            ),
            final(self).pack_items() == old(self).pack_items(),
            final(self).was_learned() == old(self).was_learned(),
            final(self).items().len() == old(self).items().len(),
            old(self).choice_items().len() == MULTIPLE_CHOICE_SIZE,
            !correct ==> final(self).choice_items()[0].identified == old(self).choice_items()[0].identified,
            !correct ==> final(self).choice_items()[0].consecutively_identified == 0,
            correct ==> final(self).choice_items()[0].mistaken == old(self).choice_items()[0].mistaken,
    {
        proof {
            use_type_invariant(&*self);
        }
        let choice = self.correct_choice_mut();
        if correct {
            choice.identified = choice.identified + 1;
            choice.consecutively_identified = choice.consecutively_identified + 1;
        } else {
            choice.mistaken = choice.mistaken + 1;
            choice.consecutively_identified = 0;
        }
    }

    /// Moves on to the next round: the first birds of the pack replace the first birds of the
    /// round, which go back to the pack; then the pack is shuffled and sorted by weight, so
    /// that birds of equal weight come in random order.
    pub fn set_next_challenge(&mut self)
        requires
            forall|i: int|
                rotation(*old(self)) <= i < old(self).pack_items().len() ==> can_age(
                    #[trigger] old(self).pack_items()[i],
                ),
        ensures
            final(self).choice_items() == next_choices(*old(self)),
            final(self).pack_items().to_multiset() == next_pack(*old(self)).to_multiset(),
            sorted_by_weight(final(self).pack_items()),
            final(self).was_learned() == old(self).was_learned(),
            final(self).items().len() == old(self).items().len(),
            old(self).choice_items().len() == MULTIPLE_CHOICE_SIZE,
            final(self).choice_items().len() == MULTIPLE_CHOICE_SIZE,
            old(self).pack_items().len() >= MULTIPLE_CHOICE_SIZE && distinct_ids(old(self).items())
                ==> forall|i: int, j: int|
                0 <= i < MULTIPLE_CHOICE_SIZE && 0 <= j < MULTIPLE_CHOICE_SIZE
                    ==> #[trigger] final(self).choice_items()[i].bird.id
                    != #[trigger] old(self).choice_items()[j].bird.id,
    {
        proof {
            use_type_invariant(&*self);
        }
        let ghost g = *self;
        let mut rest: Vec<BirdContext> = Vec::new();
        std::mem::swap(&mut rest, &mut self.pack);
        let m: usize = if rest.len() < MULTIPLE_CHOICE_SIZE {
            rest.len()
        } else {
            MULTIPLE_CHOICE_SIZE
        };
        let mut k: usize = 0;
        while k < m
            invariant
                m == rotation(g),
                g.choice_items().len() == MULTIPLE_CHOICE_SIZE,
                k <= m,
                rest.len() == g.pack_items().len(),
                self.choices.len() == MULTIPLE_CHOICE_SIZE,
                self.pack@ == Seq::<BirdContext>::empty(),
                self.already_learned == g.was_learned(),
                self.choices@ == g.pack_items().take(k as int) + g.choice_items().skip(k as int),
                rest@ == g.choice_items().take(k as int) + g.pack_items().skip(k as int),
            decreases m - k,
        {
            let ghost before_choices = self.choices@;
            let ghost before_rest = rest@;
            let mut x = rest.remove(k);
            assert(x == g.pack_items()[k as int]);
            std::mem::swap(&mut self.choices[k], &mut x);
            assert(x == g.choice_items()[k as int]);
            assert(self.choices@ == before_choices.update(k as int, g.pack_items()[k as int]));
            rest.insert(k, x);
            proof {
                assert(self.choices@ =~= g.pack_items().take(k + 1) + g.choice_items().skip(k + 1));
                assert(rest@ =~= g.choice_items().take(k + 1) + g.pack_items().skip(k + 1));
            }
            k = k + 1;
        }
        let mut k: usize = 0;
        while k < MULTIPLE_CHOICE_SIZE
            invariant
                m == rotation(g),
                g.choice_items().len() == MULTIPLE_CHOICE_SIZE,
                rest.len() == g.pack_items().len(),
                self.choices.len() == MULTIPLE_CHOICE_SIZE,
                self.pack@ == Seq::<BirdContext>::empty(),
                self.already_learned == g.was_learned(),
                rest@ == g.choice_items().take(m as int) + g.pack_items().skip(m as int),
                forall|i: int| 0 <= i < k ==> self.choices@[i] == next_choices(g)[i],
                forall|i: int|
                    k <= i < MULTIPLE_CHOICE_SIZE ==> self.choices@[i] == (g.pack_items().take(m as int)
                        + g.choice_items().skip(m as int))[i],
            decreases MULTIPLE_CHOICE_SIZE - k,
        {
            self.choices[k].last_seen = Some(0);
            k = k + 1;
        }
        proof {
            assert(self.choices@ =~= next_choices(g));
        }
        let mut k: usize = 0;
        while k < rest.len()
            invariant
                m == rotation(g),
                g.choice_items().len() == MULTIPLE_CHOICE_SIZE,
                rest.len() == g.pack_items().len(),
                self.choices@ == next_choices(g),
                self.pack@ == Seq::<BirdContext>::empty(),
                self.already_learned == g.was_learned(),
                forall|i: int| m <= i < g.pack_items().len() ==> can_age(#[trigger] g.pack_items()[i]),
                forall|i: int| 0 <= i < k ==> rest@[i] == next_pack(g)[i],
                forall|i: int|
                    k <= i < rest.len() ==> rest@[i] == (g.choice_items().take(m as int)
                        + g.pack_items().skip(m as int))[i],
            decreases rest.len() - k,
        {
            assert(k >= m ==> rest@[k as int] == g.pack_items()[k as int]);
            if k < m {
                rest[k].last_seen = Some(1);
            } else {
                match rest[k].last_seen {
                    Some(n) => {
                        rest[k].last_seen = Some(n + 1);
                    },
                    None => {},
                }
            }
            k = k + 1;
        }
        proof {
            assert(rest@ =~= next_pack(g));
        }
        shuffle_in_place(&mut rest);
        let sorted = sort_by_weight(rest);
        proof {
            assert(sorted@.to_multiset().len() == next_pack(g).to_multiset().len());
            assert(sorted@.len() == next_pack(g).len());
        }
        self.pack = sorted;
        proof {
            if g.pack_items().len() >= MULTIPLE_CHOICE_SIZE && distinct_ids(g.items()) {
                assert forall|i: int, j: int|
                    0 <= i < MULTIPLE_CHOICE_SIZE && 0 <= j < MULTIPLE_CHOICE_SIZE implies
                    #[trigger] self.choices@[i].bird.id != #[trigger] g.choice_items()[j].bird.id by {
                    assert(self.choices@[i].bird == g.pack_items()[i].bird);
                    assert(g.items()[j] == g.choice_items()[j]);
                    assert(g.items()[i + MULTIPLE_CHOICE_SIZE] == g.pack_items()[i]);
                }
            }
        }
    }

    /// The bird at position `j` of the whole session, the current round's first.
    fn item(&self, j: usize) -> (r: &BirdContext)
        requires
            j < self.items().len(),
        ensures
            *r == self.items()[j as int],
    {
        if j < self.choices.len() {
            &self.choices[j]
        } else {
            &self.pack[j - self.choices.len()]
        }
    }

    /// The share of the session's birds that are learned, in whole percent, rounded down.
    pub fn percent_complete(&self) -> (r: usize)
        ensures
            r == (count_learned(self.items()) * 100) as int / self.items().len() as int,
            r <= 100,
    {
        proof {
            use_type_invariant(self);
        }
        let total = self.choices.len() + self.pack.len();
        let mut learned: usize = 0;
        let mut j: usize = 0;
        while j < total
            invariant
                total == self.items().len(),
                j <= total,
                learned == count_learned(self.items().take(j as int)),
                learned <= j,
            decreases total - j,
        {
            proof {
                assert(self.items().take(j + 1).drop_last() =~= self.items().take(j as int));
            }
            if self.item(j).learned() {
                learned = learned + 1;
            }
            j = j + 1;
        }
        proof {
            assert(self.items().take(total as int) =~= self.items());
        }
        let percent = (learned as u128) * 100 / (total as u128);
        assert(percent <= 100) by (nonlinear_arith)
            requires
                percent == (learned as int) * 100 / (total as int),
                learned <= total,
                total > 0,
        ;
        percent as usize
    }

    /// Whether every bird of the session is learned.
    pub fn is_complete(&self) -> (r: bool)
        ensures
            r == (forall|i: int| 0 <= i < self.items().len() ==> is_learned(#[trigger] self.items()[i])),
    {
        proof {
            use_type_invariant(self);
        }
        let total = self.choices.len() + self.pack.len();
        let mut j: usize = 0;
        while j < total
            invariant
                total == self.items().len(),
                j <= total,
                forall|i: int| 0 <= i < j ==> is_learned(#[trigger] self.items()[i]),
            decreases total - j,
        {
            if !self.item(j).learned() {
                return false;
            }
            j = j + 1;
        }
        true
    }

    /// Whether this pack had been learned in an earlier session.
    pub fn already_learned(&self) -> (r: bool)
        ensures
            r == self.was_learned(),
    {
        self.already_learned
    }
}

} // verus!
