//! The SM-2 scheduling algorithm.
//!
//! A state is the number of correct answers in a row and an ease factor. A
//! review with a grade gives the next state, and the next state gives the
//! number of days to wait before the following review.
//!
//! The ease factor is kept in hundredths (`250` stands for 2.50), so that
//! every step of the algorithm is exact integer arithmetic.
use vstd::prelude::*;

verus! {

/// The smallest ease factor a state may have, in hundredths.
pub const MIN_EASE: u32 = 130;

/// The ease factor of a fresh state, in hundredths.
pub const INITIAL_EASE: u32 = 250;

/// The quality of a response, best first.
#[derive(Debug, Copy, Clone, PartialEq, Eq, Structural)]
pub enum RepQuality {
    /// perfect response
    Grade5,
    /// correct response after a hesitation
    Grade4,
    /// correct response recalled with serious difficulty
    Grade3,
    /// incorrect response; where the correct one seemed easy to recall
    Grade2,
    /// incorrect response; the correct one remembered
    Grade1,
    /// complete blackout
    Grade0,
}

impl RepQuality {
    /// The position of the grade, counted from the best one.
    pub open spec fn rank(self) -> int {
        match self {
            RepQuality::Grade5 => 0,
            RepQuality::Grade4 => 1,
            RepQuality::Grade3 => 2,
            RepQuality::Grade2 => 3,
            RepQuality::Grade1 => 4,
            RepQuality::Grade0 => 5,
        }
    }

    /// The three best grades count as a correct answer.
    pub open spec fn correct(self) -> bool {
        self.rank() <= 2
    }

    /// Returns `true` for the grades that count as a correct answer.
    pub fn is_correct(&self) -> (r: bool)
        ensures
            r == self.correct(),
    {
        match self {
            RepQuality::Grade3 | RepQuality::Grade4 | RepQuality::Grade5 => true,
            _ => false,
        }
    }
}

/// The mathematical content of an [`SM2`] state.
pub ghost struct Memory {
    /// Correct answers in a row.
    pub repetitions: nat,
    /// Ease factor in hundredths.
    pub ease: nat,
}

/// The change of the ease factor, in hundredths, that a correct answer of
/// the given rank brings: `0.1 - q * (0.08 + 0.02 * q)`.
pub open spec fn ease_step(rank: int) -> int {
    10 - rank * (8 + 2 * rank)
}

/// Days to wait after the `n`-th correct answer in a row: one day, then six,
/// then the previous wait times the ease factor, rounded down at each step.
pub open spec fn interval_days(n: nat, ease: nat) -> nat
    decreases n,
{
    if n <= 1 {
        1
    } else if n == 2 {
        6
    } else {
        interval_days((n - 1) as nat, ease) * ease / 100
    }
}

impl Memory {
    /// The state every item starts from.
    pub open spec fn initial() -> Memory {
        Memory { repetitions: 0, ease: INITIAL_EASE as nat }
    }

    /// A state is valid when its ease factor is at least the minimum.
    pub open spec fn valid(self) -> bool {
        self.ease >= MIN_EASE
    }

    /// The state after an answer of quality `q`.
    ///
    /// A correct answer moves the ease factor by [`ease_step`], never below
    /// the minimum, and adds one repetition. An incorrect answer keeps the
    /// ease factor and starts the count of repetitions again.
    pub open spec fn reviewed(self, q: RepQuality) -> Memory {
        if q.correct() {
            let moved = self.ease + ease_step(q.rank());
            Memory {
                repetitions: self.repetitions + 1,
                ease: if moved >= MIN_EASE { moved as nat } else { MIN_EASE as nat },
            }
        } else {
            Memory { repetitions: 0, ease: self.ease }
        }
    }

    /// The state after the answers `qs`, taken in order.
    pub open spec fn reviewed_all(self, qs: Seq<RepQuality>) -> Memory
        decreases qs.len(),
    {
        if qs.len() == 0 {
            self
        } else {
            self.reviewed(qs.first()).reviewed_all(qs.drop_first())
        }
    }

    /// Days until the next review, read off this state after it has taken an
    /// answer of quality `q`: one day after an incorrect answer.
    pub open spec fn interval(self, q: RepQuality) -> nat {
        if q.correct() {
            interval_days(if self.repetitions >= 1 { self.repetitions } else { 1 }, self.ease)
        } else {
            1
        }
    }

    /// Whether the state after an answer of quality `q` fits the machine
    /// representation.
    pub open spec fn can_review(self, q: RepQuality) -> bool {
        &&& self.reviewed(q).repetitions <= u32::MAX
        &&& self.reviewed(q).ease <= u32::MAX
    }
}

/// `n` capped at the largest `u64`.
pub open spec fn capped(n: nat) -> nat {
    if n <= u64::MAX { n } else { u64::MAX as nat }
}

/// With an ease factor of at least one, a wait never gets shorter from one
/// repetition to the next.
pub proof fn lemma_interval_grows(n: nat, ease: nat)
    requires
        ease >= 100,
    ensures
        interval_days(n, ease) <= interval_days(n + 1, ease),
        interval_days(n, ease) >= 1,
    decreases n,
{
    if n >= 2 {
        lemma_interval_grows((n - 1) as nat, ease);
        let prev = interval_days(n, ease);
        assert(prev * ease / 100 >= prev) by (nonlinear_arith)
            requires
                ease >= 100,
                prev >= 0,
        ;
    }
}

/// The wait that a valid state asks for is a day at least.
pub proof fn lemma_interval_at_least_one(state: Memory, q: RepQuality)
    requires
        state.valid(),
    ensures
        state.interval(q) >= 1,
{
    if q.correct() {
        lemma_interval_grows(if state.repetitions >= 1 { state.repetitions } else { 1 }, state.ease);
    }
}

/// With an ease factor of at least one, the wait after `m` repetitions is at
/// least the wait after any smaller number of repetitions.
pub proof fn lemma_interval_monotonic(n: nat, m: nat, ease: nat)
    requires
        ease >= 100,
        n <= m,
    ensures
        interval_days(n, ease) <= interval_days(m, ease),
    decreases m - n,
{
    if n < m {
        lemma_interval_monotonic(n, (m - 1) as nat, ease);
        lemma_interval_grows((m - 1) as nat, ease);
    }
}

/// A review is a function of the state and the grade: equal states and
/// equal grades give equal next states and equal waits.
pub proof fn lemma_review_is_a_function(a: SM2, b: SM2, q: RepQuality)
    requires
        a@ == b@,
    ensures
        a.after(q) == b.after(q),
        a@.reviewed(q) == b@.reviewed(q),
        a@.reviewed(q).interval(q) == b@.reviewed(q).interval(q),
{
    SM2::lemma_view_injective(a, b);
}

/// No sequence of answers brings the ease factor of a valid state below the
/// minimum.
pub proof fn lemma_ease_stays_above_minimum(start: Memory, qs: Seq<RepQuality>)
    requires
        start.valid(),
    ensures
        start.reviewed_all(qs).valid(),
    decreases qs.len(),
{
    if qs.len() > 0 {
        lemma_ease_stays_above_minimum(start.reviewed(qs.first()), qs.drop_first());
    }
}

/// The state of the SM-2 algorithm for one item.
#[derive(Debug, Copy, Clone)]
pub struct SM2 {
    /// The number of times the item has been successfully recalled in a row
    repetitions: u32,
    /// The easiness of memorizing and retaining the item, in hundredths
    ease_factor: u32,
}

impl View for SM2 {
    type V = Memory;

    closed spec fn view(&self) -> Memory {
        Memory { repetitions: self.repetitions as nat, ease: self.ease_factor as nat }
    }
}

impl SM2 {
    /// A state is well formed when its ease factor is at least the minimum.
    pub open spec fn wf(&self) -> bool {
        self@.valid()
    }

    /// The state every item starts from.
    pub closed spec fn fresh() -> SM2 {
        SM2 { repetitions: 0, ease_factor: INITIAL_EASE }
    }

    /// The state after an answer of quality `q`, where it fits the machine
    /// representation.
    pub closed spec fn after(self, q: RepQuality) -> SM2 {
        SM2 {
            repetitions: self@.reviewed(q).repetitions as u32,
            ease_factor: self@.reviewed(q).ease as u32,
        }
    }

    /// The content of the starting state.
    pub proof fn lemma_fresh()
        ensures
            SM2::fresh()@ == Memory::initial(),
            SM2::fresh().wf(),
    {
    }

    /// The content of the state after an answer.
    pub proof fn lemma_after(self, q: RepQuality)
        requires
            self@.can_review(q),
        ensures
            self.after(q)@ == self@.reviewed(q),
            self.wf() ==> self.after(q).wf(),
    {
    }

    /// Two states with the same content are the same state.
    pub proof fn lemma_view_injective(a: SM2, b: SM2)
        requires
            a@ == b@,
        ensures
            a == b,
    {
    }

    /// Creates the state every item starts from.
    pub fn new() -> (r: Self)
        ensures
            r == SM2::fresh(),
            r@ == Memory::initial(),
            r.wf(),
    {
        SM2 { repetitions: 0, ease_factor: INITIAL_EASE }
    }

    /// Returns the number of successful recalls in a row.
    pub fn repetitions(&self) -> (r: u32)
        ensures
            r == self@.repetitions,
    {
        self.repetitions
    }

    /// Sets the number of successful recalls in a row.
    pub fn set_repetitions(self, reviews: u32) -> (r: Self)
        ensures
            r@ == (Memory { repetitions: reviews as nat, ease: self@.ease }),
    {
        SM2 { repetitions: reviews, ease_factor: self.ease_factor }
    }

    /// Returns the ease factor, in hundredths.
    pub fn ease_factor(&self) -> (r: u32)
        ensures
            r == self@.ease,
    {
        self.ease_factor
    }

    /// Sets the ease factor, in hundredths; a value under the minimum is
    /// raised to the minimum.
    pub fn set_ease_factor(self, easiness: u32) -> (r: Self)
        ensures
            r@.repetitions == self@.repetitions,
            r@.ease == if easiness >= MIN_EASE { easiness } else { MIN_EASE },
            r.wf(),
    {
        SM2 {
            repetitions: self.repetitions,
            ease_factor: if easiness >= MIN_EASE { easiness } else { MIN_EASE },
        }
    }

    /// Updates the repetitions and the ease factor for an answer of the
    /// given quality.
    pub fn review(self, quality: RepQuality) -> (r: Self)
        requires
            self@.can_review(quality),
        ensures
            r == self.after(quality),
            r@ == self@.reviewed(quality),
            self.wf() ==> r.wf(),
    {
        let mut next = self;
        next.update_ease_factor(&quality);
        next.update_repetitions(&quality);
        next
    }

    /// Whether [`SM2::review`] can take an answer of the given quality: the
    /// next state fits the machine representation.
    pub fn can_review(&self, quality: RepQuality) -> (r: bool)
        ensures
            r == self@.can_review(quality),
    {
        proof {
            assert(ease_step(0) == 10 && ease_step(1) == 0 && ease_step(2) == -14);
        }
        match quality {
            RepQuality::Grade5 => self.repetitions < u32::MAX && self.ease_factor <= u32::MAX - 10,
            RepQuality::Grade4 | RepQuality::Grade3 => self.repetitions < u32::MAX,
            _ => true,
        }
    }

    /// Calculates the days to wait before the next review, for a state that
    /// has just taken an answer of the given quality. A wait that does not
    /// fit a `u64` is given as `u64::MAX`.
    pub fn new_interval(&self, quality: &RepQuality) -> (r: u64)
        requires
            self.wf(),
        ensures
            r == capped(self@.interval(*quality)),
            r >= 1,
    {
        if quality.is_correct() {
            self.calc_new_interval(if self.repetitions >= 1 { self.repetitions } else { 1 })
        } else {
            1
        }
    }

    fn calc_new_interval(&self, n: u32) -> (r: u64)
        requires
            self.wf(),
            n >= 1,
        ensures
            r == capped(interval_days(n as nat, self@.ease)),
            r >= 1,
    {
        if n == 1 {
            return 1;
        }
        let ghost ease = self@.ease;
        let mut days: u64 = 6;
        let mut i: u32 = 2;
        while i < n && days < u64::MAX
            invariant
                2 <= i <= n,
                ease == self@.ease,
                ease == self.ease_factor,
                ease >= 100,
                days == capped(interval_days(i as nat, ease)),
                days >= 1,
            decreases n - i,
        {
            let ghost exact = interval_days(i as nat, ease);
            assert(days * self.ease_factor <= u128::MAX) by (nonlinear_arith)
                requires
                    days <= u64::MAX,
                    self.ease_factor <= u32::MAX,
            ;
            let wide: u128 = (days as u128) * (self.ease_factor as u128) / 100;
            proof {
                assert(exact * ease / 100 >= exact) by (nonlinear_arith)
                    requires
                        ease >= 100,
                        exact >= 0,
                ;
                assert(wide >= days) by (nonlinear_arith)
                    requires
                        wide == days * ease / 100,
                        ease >= 100,
                        days >= 0,
                ;
            }
            i = i + 1;
            days = if wide >= u64::MAX as u128 { u64::MAX } else { wide as u64 };
        }
        proof {
            if i < n {
                lemma_interval_monotonic(i as nat, n as nat, ease);
            }
        }
        days
    }

    fn update_ease_factor(&mut self, quality: &RepQuality)
        requires
            old(self)@.reviewed(*quality).ease <= u32::MAX,
        ensures
            final(self)@.ease == old(self)@.reviewed(*quality).ease,
            final(self)@.repetitions == old(self)@.repetitions,
    {
        proof {
            assert(ease_step(0) == 10 && ease_step(1) == 0 && ease_step(2) == -14);
        }
        match quality {
            RepQuality::Grade5 => {
                self.ease_factor =
                if self.ease_factor >= MIN_EASE - 10 {
                    self.ease_factor + 10
                } else {
                    MIN_EASE
                };
            },
            RepQuality::Grade4 => {
                if self.ease_factor < MIN_EASE {
                    self.ease_factor = MIN_EASE;
                }
            },
            RepQuality::Grade3 => {
                self.ease_factor =
                if self.ease_factor >= MIN_EASE + 14 {
                    self.ease_factor - 14
                } else {
                    MIN_EASE
                };
            },
            _ => {},
        }
    }

    fn update_repetitions(&mut self, quality: &RepQuality)
        requires
            old(self)@.reviewed(*quality).repetitions <= u32::MAX,
        ensures
            final(self)@.repetitions == old(self)@.reviewed(*quality).repetitions,
            final(self)@.ease == old(self)@.ease,
    {
        if quality.is_correct() {
            self.repetitions += 1;
        } else {
            self.repetitions = 0;
        }
    }
}

impl Default for SM2 {
    fn default() -> (r: Self)
        ensures
            r@ == Memory::initial(),
            r.wf(),
    {
        SM2::new()
    }
}

} // verus!
