//! The source of the simulation's random draws.
//!
//! A source is either the thread-local generator of the `rand` crate, of
//! which only the range of a draw is known, or a script: a fixed, non-empty
//! list of fractions in `[0, 1)` that is replayed in a cycle, so that a run
//! can be repeated and foretold.

use vstd::prelude::*;
use crate::fixed::UNIT;

verus! {

/// What is known of a source: its script (empty for the thread-local
/// generator) and the place in it of the next draw.
pub struct SourceModel {
    pub script: Seq<i64>,
    pub next: nat,
}

impl SourceModel {
    pub open spec fn scripted(self) -> bool {
        self.script.len() > 0
    }

    /// The fraction that the next draw is made of.
    pub open spec fn fraction(self) -> int {
        self.script[self.next as int] as int
    }

    /// The next draw from `[lo, hi)` of a scripted source: `lo` plus the
    /// fraction of the range's width, rounded down.
    pub open spec fn pick(self, lo: int, hi: int) -> int {
        lo + (self.fraction() * (hi - lo)) / (UNIT as int)
    }

    /// The source after one draw. The thread-local generator has no state
    /// that the library knows of.
    pub open spec fn advance(self) -> SourceModel {
        if self.scripted() {
            SourceModel { script: self.script, next: (self.next + 1) % self.script.len() }
        } else {
            self
        }
    }

    /// The source after `k` draws.
    pub open spec fn skip(self, k: nat) -> SourceModel
        decreases k,
    {
        if k == 0 {
            self
        } else {
            self.advance().skip((k - 1) as nat)
        }
    }

    pub open spec fn wf(self) -> bool {
        &&& self.scripted() ==> self.next < self.script.len()
        &&& !self.scripted() ==> self.next == 0
        &&& forall|i: int| 0 <= i < self.script.len() ==> 0 <= #[trigger] self.script[i] < UNIT
    }
}

/// Draws leave the script as it is, and the thread-local generator
/// unchanged as far as the library knows it.
pub proof fn lemma_skip_keeps_script(source: SourceModel, k: nat)
    requires
        source.wf(),
    ensures
        source.skip(k).wf(),
        source.skip(k).script == source.script,
        !source.scripted() ==> source.skip(k) == source,
    decreases k,
{
    if k > 0 {
        lemma_skip_keeps_script(source.advance(), (k - 1) as nat);
    }
}

/// A scripted draw from `[0, 1)` is the fraction itself.
pub proof fn lemma_pick_of_unit_range(source: SourceModel)
    ensures
        source.pick(0, UNIT as int) == source.fraction(),
{
    let f = source.fraction();
    assert((f * UNIT) / (UNIT as int) == f) by (nonlinear_arith)
        requires
            UNIT == 1_000_000,
    ;
}

/// A scripted draw lies in the range it is drawn from.
pub proof fn lemma_pick_in_range(source: SourceModel, lo: int, hi: int)
    requires
        source.wf(),
        source.scripted(),
        lo < hi,
    ensures
        lo <= source.pick(lo, hi) < hi,
{
    let f = source.fraction();
    let width = hi - lo;
    assert(0 <= (f * width) / (UNIT as int) < width) by (nonlinear_arith)
        requires
            0 <= f < UNIT,
            width > 0,
            UNIT == 1_000_000,
    ;
}

/// Draws add up.
pub proof fn lemma_skip_sum(source: SourceModel, a: nat, b: nat)
    ensures
        source.skip(a).skip(b) == source.skip(a + b),
    decreases a,
{
    if a > 0 {
        lemma_skip_sum(source.advance(), (a - 1) as nat, b);
    }
}

/// A source of random draws.
pub struct RandomSource {
    script: Vec<i64>,
    next: usize,
}

impl View for RandomSource {
    type V = SourceModel;

    closed spec fn view(&self) -> SourceModel {
        SourceModel { script: self.script@, next: self.next as nat }
    }
}

/// A draw of `rand::thread_rng().gen_range(lo..hi)`. `gen_range` panics on
/// an empty range, which the precondition leaves out, and samples a value
/// of the half-open range otherwise; that the value lies in the range is all
/// that is claimed of it.
#[verifier::external_body]
fn thread_range(lo: i64, hi: i64) -> (r: i64)
    requires
        lo < hi,
    ensures
        lo <= r < hi,
{
    rand::Rng::gen_range(&mut rand::thread_rng(), lo..hi)
}

impl RandomSource {
    /// The thread-local generator.
    pub fn thread() -> (source: RandomSource)
        ensures
            source@.wf(),
            !source@.scripted(),
    {
        RandomSource { script: Vec::new(), next: 0 }
    }

    /// A source that replays `fractions` in a cycle, or nothing where the
    /// list is empty or holds a value outside `[0, UNIT)`.
    pub fn scripted(fractions: Vec<i64>) -> (source: Option<RandomSource>)
        ensures
            source is Some <==> fractions@.len() > 0 && forall|i: int|
                0 <= i < fractions@.len() ==> 0 <= #[trigger] fractions@[i] < UNIT,
            source matches Some(s) ==> s@.wf() && s@ == (SourceModel {
                script: fractions@,
                next: 0,
            }),
    {
        if fractions.len() == 0 {
            return None;
        }
        let mut i: usize = 0;
        while i < fractions.len()
            invariant
                i <= fractions.len(),
                forall|j: int| 0 <= j < i ==> 0 <= #[trigger] fractions@[j] < UNIT,
            decreases fractions.len() - i,
        {
            if fractions[i] < 0 || fractions[i] >= UNIT {
                return None;
            }
            i = i + 1;
        }
        Some(RandomSource { script: fractions, next: 0 })
    }

    /// Draws a value of `[lo, hi)`.
    pub fn range(&mut self, lo: i64, hi: i64) -> (r: i64)
        requires
            old(self)@.wf(),
            lo < hi,
        ensures
            final(self)@.wf(),
            final(self)@ == old(self)@.advance(),
            lo <= r < hi,
            old(self)@.scripted() ==> r == old(self)@.pick(lo as int, hi as int),
    {
        if self.script.len() == 0 {
            thread_range(lo, hi)
        } else {
            let fraction: i64 = self.script[self.next];
            let width: i128 = hi as i128 - lo as i128;
            assert(0 <= fraction * width <= UNIT * width - width) by (nonlinear_arith)
                requires
                    0 <= fraction <= UNIT - 1,
                    width > 0,
            ;
            let offset: i128 = (fraction as i128 * width) / (UNIT as i128);
            assert(0 <= offset < width) by (nonlinear_arith)
                requires
                    offset == (fraction * width) / (UNIT as int),
                    0 <= fraction * width <= UNIT * width - width,
                    width > 0,
            ;
            self.next = (self.next + 1) % self.script.len();
            (lo as i128 + offset) as i64
        }
    }
}

} // verus!
