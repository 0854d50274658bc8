//! A roll: the dice of one request, the resolution stages that decide which
//! of them count, and the totals.
use vstd::prelude::*;
use crate::comparison::ComparisonArg;
use crate::die::{Die, DieStatus, DieType};
use crate::flags::{KeepRule, RerollMode, RerollRule, RollFlags};
use crate::source::{clamp, lemma_draw_shifts, DiceSource};
use crate::stages::{
    any_eligible, count_eligible, eligible, in_display_order, keep_stage, kept_sum,
    lemma_all_kept_sum, lemma_count_eligible_bound, lemma_kept_sum_bounds, once_applied,
    forever_applied, forever_trace, lemma_trace_extend, rerolled_are_dropped, values_kept, rank, reroll_stage, rerolled_original,
    selected, settle, settled_all, sum_of, value_sum,
};

verus! {

/// Upper bound on the passes of a reroll-forever rule.
pub const MAX_REROLL_ROUNDS: u32 = 100;

/// Why a roll could not be resolved.
#[derive(Clone, Copy, Debug, PartialEq, Eq, Structural)]
pub enum RollError {
    /// Dice were asked for, but the range is empty (`min > max`) or the face
    /// list has no entry.
    InvalidShape,
    /// A reroll-forever rule matches every value the die can show.
    RerollCoversRange,
    /// A reroll-forever rule still had matching dice after the maximum
    /// number of passes.
    RerollLimitReached,
    /// The total does not fit the result type.
    TotalOutOfRange,
}

/// A range `[min, max]` that is not empty, or a face list that is not empty.
pub open spec fn shape_valid_for(min: i16, max: i16, sides: Option<Vec<i16>>) -> bool {
    match sides {
        Some(f) => f@.len() > 0,
        None => min <= max,
    }
}

/// `v` is one of the faces, or lies in `[min, max]` when there are none.
pub open spec fn can_roll_for(min: i16, max: i16, sides: Option<Vec<i16>>, v: int) -> bool {
    match sides {
        Some(f) => exists|k: int| 0 <= k < f@.len() && f@[k] == v,
        None => min <= v <= max,
    }
}

/// Every value that the shape can show matches `op` against `threshold`.
pub open spec fn covers_for(
    min: i16,
    max: i16,
    sides: Option<Vec<i16>>,
    op: ComparisonArg,
    threshold: int,
) -> bool {
    forall|v: int| #[trigger] can_roll_for(min, max, sides, v) ==> op.holds(v, threshold)
}

/// For a replayed source `src`: from position `from` on, die `j` shows the
/// value of draw `j - from` of `src`.
pub open spec fn replays_from(roll: &Roll, dice: Seq<Die>, from: int, src: DiceSource) -> bool {
    !src.random ==> forall|j: int|
        from <= j < dice.len() ==> (#[trigger] dice[j]).value == roll.replayed_value(src.peek_at(j - from))
}

/// `new` is `old` after `d` draws.
pub open spec fn advanced_by(old: DiceSource, new: DiceSource, d: int) -> bool {
    &&& new.random == old.random
    &&& !old.random ==> forall|k: int| k >= 0 ==> #[trigger] new.peek_at(k) == old.peek_at(d + k)
}

/// The dice of `roll` right after `n` were generated.
pub open spec fn generated(roll: &Roll, n: int, dice: Seq<Die>) -> bool {
    &&& dice.len() == if n > 0 {
        n
    } else {
        0
    }
    &&& forall|i: int| 0 <= i < dice.len() ==> roll.fresh_at(#[trigger] dice[i], i)
}

/// Relies on `uuid::Uuid::new_v4` and the `Display` of `Uuid`, which writes
/// the hyphenated form: a random identifier whose text is 36 characters long.
#[verifier::external_body]
fn new_roll_id() -> (r: String)
    ensures
        r@.len() == 36,
{
    uuid::Uuid::new_v4().to_string()
}

/// Relies on `chrono::Utc::now` and `DateTime::timestamp_millis`: the current
/// time, in milliseconds since the Unix epoch. Nothing is known of its value.
#[verifier::external_body]
fn now_millis() -> (r: i64) {
    chrono::Utc::now().timestamp_millis()
}

/// What resolving `flags` may give: the errors exactly on the inputs that
/// cause them, and otherwise a roll whose dice went through generation, the
/// reroll rule, the keep rule and the default keep, in that order, and whose
/// totals are those of its kept dice and the modifiers.
pub open spec fn resolves(flags: RollFlags, r: Result<Roll, RollError>) -> bool {
    &&& (r == Err::<Roll, RollError>(RollError::InvalidShape)) <==> (flags.n > 0
        && !shape_valid_for(flags.min, flags.max, flags.sides))
    &&& (r == Err::<Roll, RollError>(RollError::RerollCoversRange)) <==> (flags.n > 0
        && shape_valid_for(flags.min, flags.max, flags.sides) && flags.spec_reroll_rule() is Some
        && flags.spec_reroll_rule()->Some_0.mode == RerollMode::Forever && covers_for(
        flags.min,
        flags.max,
        flags.sides,
        flags.spec_reroll_rule()->Some_0.op,
        flags.spec_reroll_rule()->Some_0.threshold as int,
    ))
    &&& r == Err::<Roll, RollError>(RollError::RerollLimitReached) ==> flags.spec_reroll_rule() is Some
        && flags.spec_reroll_rule()->Some_0.mode == RerollMode::Forever
    &&& flags.spec_reroll_rule() is None && -1073774591 <= sum_of(flags.modifiers@) <= 1073774591
        ==> r != Err::<Roll, RollError>(RollError::TotalOutOfRange)
    &&& flags.spec_reroll_rule() is Some && flags.spec_reroll_rule()->Some_0.mode == RerollMode::Once
        && -65536 <= sum_of(flags.modifiers@) <= 131069 ==> r != Err::<Roll, RollError>(
        RollError::TotalOutOfRange,
    )
    &&& flags.n <= 0 && i32::MIN <= sum_of(flags.modifiers@) <= i32::MAX ==> r is Ok
    &&& r matches Ok(roll) ==> (flags.spec_reroll_rule() is Some
        && flags.spec_reroll_rule()->Some_0.mode == RerollMode::Forever ==> forall|i: int|
        0 <= i < roll.dice@.len() && (#[trigger] roll.dice@[i]).status == DieStatus::Kept
            ==> !flags.spec_reroll_rule()->Some_0.op.holds(
            roll.dice@[i].value as int,
            flags.spec_reroll_rule()->Some_0.threshold as int,
        ))
    &&& r matches Ok(roll) ==> {
        &&& roll.wf()
        &&& roll.comment@ == flags.comment@
        &&& roll.equation@ == flags.equation@
        &&& roll.modifiers@ == flags.modifiers@
        &&& roll.die == flags.die
        &&& roll.min == flags.min
        &&& roll.max == flags.max
        &&& roll.sides == flags.sides
        &&& roll.id@.len() == 36
        &&& forall|i: int|
            0 <= i < roll.dice@.len() ==> (#[trigger] roll.dice@[i]).status != DieStatus::Pending
        &&& roll.raw_value == kept_sum(roll.dice@)
        &&& roll.value == roll.raw_value + sum_of(flags.modifiers@)
        &&& exists|g: Seq<Die>, a: Seq<Die>, b: Seq<Die>|
            #[trigger] generated(&roll, flags.n as int, g) && #[trigger] reroll_stage(
                flags.spec_reroll_rule(),
                g,
                a,
            ) && #[trigger] keep_stage(flags.spec_keep_rule(), a, b) && settled_all(
                b,
                roll.dice@,
                |i: int| true,
            )
        &&& (flags.spec_reroll_rule() is None && flags.spec_keep_rule() == KeepRule::KeepAll) ==> {
            &&& generated(
                &roll,
                flags.n as int,
                roll.dice@.map_values(|d: Die| Die { status: DieStatus::Pending, ..d }),
            )
            &&& forall|i: int|
                0 <= i < roll.dice@.len() ==> (#[trigger] roll.dice@[i]).status == DieStatus::Kept
            &&& roll.raw_value == value_sum(roll.dice@)
        }
    }
}

/// `after` is `before` with its totals computed: the same dice and
/// modifiers, `raw_value` the sum of the kept dice and `value` that plus the
/// modifiers.
pub open spec fn aggregated(before: Roll, after: Roll) -> bool {
    &&& after.dice@ == before.dice@
    &&& after.modifiers@ == before.modifiers@
    &&& after.raw_value == kept_sum(before.dice@)
    &&& after.value == kept_sum(before.dice@) + sum_of(before.modifiers@)
}

/// Aggregating an already aggregated roll again, without rolling, gives the
/// same dice and the same totals.
pub proof fn aggregation_is_idempotent(first: Roll, second: Roll, third: Roll)
    requires
        aggregated(first, second),
        aggregated(second, third),
    ensures
        third.dice@ == second.dice@,
        third.raw_value == second.raw_value,
        third.value == second.value,
{
}

/// The roll of one request.
pub struct Roll {
    /// Comment associated with the roll
    pub comment: String,
    /// Unique identifier for the roll
    pub id: String,
    /// The dice that compose this roll, in generation order
    pub dice: Vec<Die>,
    /// Equation of the roll, as handed in
    pub equation: String,
    /// Modifiers applied to the combined value
    pub modifiers: Vec<i16>,
    /// The combined value of the kept dice before modifiers
    pub raw_value: i32,
    /// Creation time, in milliseconds since the Unix epoch
    pub timestamp: i64,
    /// The final combined value after modifiers
    pub value: i32,
    /// Kind of the dice
    pub die: DieType,
    /// Lowest value of a die without a face list
    pub min: i16,
    /// Highest value of a die without a face list
    pub max: i16,
    /// Explicit face values, when the dice have them
    pub sides: Option<Vec<i16>>,
}

impl Roll {
    /// The dice can be rolled: a non-empty range or a non-empty face list.
    pub open spec fn shape_valid(&self) -> bool {
        shape_valid_for(self.min, self.max, self.sides)
    }

    /// `v` is a value that a die of this roll can show.
    pub open spec fn can_roll(&self, v: int) -> bool {
        can_roll_for(self.min, self.max, self.sides, v)
    }

    /// The value that a replayed draw starting from `p` gives.
    pub open spec fn replayed_value(&self, p: int) -> int {
        match self.sides {
            Some(f) => f@[clamp(p, 0, f@.len() - 1)] as int,
            None => clamp(p, self.min as int, self.max as int),
        }
    }

    /// A die of this roll at position `i`, just rolled.
    pub open spec fn fresh_at(&self, d: Die, i: int) -> bool {
        &&& d.status == DieStatus::Pending
        &&& !d.is_rerolled
        &&& d.die == self.die
        &&& d.order == i
        &&& self.can_roll(d.value as int)
    }

    /// Every die sits at the position of its generation order, has this
    /// roll's kind and a value it can show.
    pub open spec fn wf(&self) -> bool {
        &&& (self.dice@.len() > 0 ==> self.shape_valid())
        &&& forall|i: int|
            0 <= i < self.dice@.len() ==> {
                &&& (#[trigger] self.dice@[i]).order == i
                &&& self.dice@[i].die == self.die
                &&& self.can_roll(self.dice@[i].value as int)
            }
    }

    /// Every field but the dice and the totals is the same.
    pub open spec fn same_frame(a: &Roll, b: &Roll) -> bool {
        &&& a.comment@ == b.comment@
        &&& a.id@ == b.id@
        &&& a.equation@ == b.equation@
        &&& a.modifiers@ == b.modifiers@
        &&& a.raw_value == b.raw_value
        &&& a.timestamp == b.timestamp
        &&& a.value == b.value
        &&& a.die == b.die
        &&& a.min == b.min
        &&& a.max == b.max
        &&& a.sides == b.sides
    }

    /// Every value a die of this roll can show matches `op` against `threshold`.
    pub open spec fn covers_range(&self, op: ComparisonArg, threshold: int) -> bool {
        covers_for(self.min, self.max, self.sides, op, threshold)
    }

    fn rule_covers_range(&self, op: &ComparisonArg, threshold: i16) -> (r: bool)
        requires
            self.shape_valid(),
        ensures
            r == self.covers_range(*op, threshold as int),
    {
        match &self.sides {
            Some(f) => {
                let mut i: usize = 0;
                while i < f.len()
                    invariant
                        0 <= i <= f@.len(),
                        self.sides == Some(*f),
                        forall|k: int| 0 <= k < i ==> op.holds(#[trigger] f@[k] as int, threshold as int),
                    decreases f@.len() - i,
                {
                    if !op.compare(f[i], threshold) {
                        let ghost k = i as int;
                        assert(self.sides->Some_0@[k] == f@[k]);
                        assert(self.can_roll(f@[k] as int));
                        return false;
                    }
                    i = i + 1;
                }
                assert forall|v: int| #[trigger] can_roll_for(self.min, self.max, self.sides, v) implies op.holds(
                    v,
                    threshold as int,
                ) by {
                    let k = choose|k: int| 0 <= k < f@.len() && f@[k] == v;
                    assert(op.holds(f@[k] as int, threshold as int));
                }
                true
            },
            None => {
                assert(self.can_roll(self.min as int));
                assert(self.can_roll(self.max as int));
                match op {
                    ComparisonArg::GreaterThan => self.min > threshold,
                    ComparisonArg::GreaterThanOrEqual => self.min >= threshold,
                    ComparisonArg::LessThan => self.max < threshold,
                    ComparisonArg::LessThanOrEqual => self.max <= threshold,
                    ComparisonArg::EqualTo => {
                        if self.min < self.max {
                            assert(self.can_roll(self.min as int + 1));
                        }
                        self.min == threshold && self.max == threshold
                    },
                }
            },
        }
    }

    /// Whether some die is eligible for the reroll rule.
    pub fn has_eligible(&self, op: &ComparisonArg, threshold: i16) -> (r: bool)
        ensures
            r == any_eligible(self.dice@, *op, threshold as int),
    {
        let mut i: usize = 0;
        while i < self.dice.len()
            invariant
                0 <= i <= self.dice@.len(),
                forall|k: int| 0 <= k < i ==> !eligible(#[trigger] self.dice@[k], *op, threshold as int),
            decreases self.dice@.len() - i,
        {
            if !self.dice[i].is_rerolled && op.compare(self.dice[i].value, threshold) {
                assert(eligible(self.dice@[i as int], *op, threshold as int));
                return true;
            }
            i = i + 1;
        }
        false
    }

    /// Rerolls matching dice until none that has not triggered a reroll
    /// matches `op` against `threshold`: each round is one reroll-once pass,
    /// so every matching die is marked rerolled and dropped and gets one
    /// replacement appended, which the next round checks in turn. A rule that
    /// matches every value the dice can show is refused when some die is
    /// eligible, and at most `MAX_REROLL_ROUNDS` rounds are made.
    pub fn reroll_dice_forever(
        &mut self,
        op: &ComparisonArg,
        threshold: i16,
        source: &mut DiceSource,
    ) -> (r: Result<(), RollError>)
        requires
            old(self).wf(),
        ensures
            final(self).wf(),
            Roll::same_frame(old(self), final(self)),
            r is Err ==> r == Err::<(), RollError>(RollError::RerollCoversRange) || r == Err::<
                (),
                RollError,
            >(RollError::RerollLimitReached),
            (r == Err::<(), RollError>(RollError::RerollCoversRange)) <==> (any_eligible(
                old(self).dice@,
                *op,
                threshold as int,
            ) && old(self).covers_range(*op, threshold as int)),
            r == Err::<(), RollError>(RollError::RerollCoversRange) ==> final(self).dice@
                == old(self).dice@,
            !any_eligible(old(self).dice@, *op, threshold as int) ==> r is Ok && final(self).dice@
                == old(self).dice@,
            r is Ok ==> forever_applied(old(self).dice@, final(self).dice@, *op, threshold as int),
            r == Err::<(), RollError>(RollError::RerollLimitReached) ==> {
                &&& any_eligible(final(self).dice@, *op, threshold as int)
                &&& rerolled_are_dropped(old(self).dice@, final(self).dice@)
                &&& values_kept(old(self).dice@, final(self).dice@)
                &&& exists|trace: Seq<Seq<Die>>|
                    #[trigger] forever_trace(trace, *op, threshold as int) && trace.len()
                        == MAX_REROLL_ROUNDS + 1 && trace[0] == old(self).dice@ && trace.last()
                        == final(self).dice@
            },
            advanced_by(*old(source), *final(source), final(self).dice@.len() - old(self).dice@.len()),
            replays_from(final(self), final(self).dice@, old(self).dice@.len() as int, *old(source)),
    {
        let mut more: bool = self.has_eligible(op, threshold);
        if more && self.rule_covers_range(op, threshold) {
            return Err(RollError::RerollCoversRange);
        }
        let ghost old_dice = self.dice@;
        let ghost mut trace: Seq<Seq<Die>> = seq![self.dice@];
        let mut round: u32 = 0;
        while round < MAX_REROLL_ROUNDS && more
            invariant
                self.wf(),
                Roll::same_frame(old(self), self),
                old_dice == old(self).dice@,
                more == any_eligible(self.dice@, *op, threshold as int),
                trace.len() == round + 1,
                round <= MAX_REROLL_ROUNDS,
                forever_trace(trace, *op, threshold as int),
                trace[0] == old_dice,
                trace.last() == self.dice@,
                rerolled_are_dropped(old_dice, self.dice@),
                values_kept(old_dice, self.dice@),
                round == 0 ==> self.dice@ == old_dice,
                !any_eligible(old_dice, *op, threshold as int) ==> round == 0,
                advanced_by(*old(source), *source, self.dice@.len() - old_dice.len()),
                replays_from(self, self.dice@, old_dice.len() as int, *old(source)),
            decreases MAX_REROLL_ROUNDS - round,
        {
            let ghost before = self.dice@;
            let ghost src_before = *source;
            let ghost prev_trace = trace;
            self.reroll_dice_once(op, threshold, source);
            proof {
                lemma_count_eligible_bound(before, *op, threshold as int, before.len() as int);
                lemma_trace_extend(trace, self.dice@, *op, threshold as int);
                trace = trace.push(self.dice@);
                assert forall|i: int| 0 <= i < old_dice.len() implies (#[trigger] self.dice@[i]).value
                    == old_dice[i].value by {
                    assert(self.dice@[i] == if eligible(before[i], *op, threshold as int) {
                        rerolled_original(before[i], true)
                    } else {
                        before[i]
                    });
                }
                assert forall|i: int|
                    0 <= i < self.dice@.len() && (#[trigger] self.dice@[i]).is_rerolled implies self.dice@[i].status
                    == DieStatus::Dropped || (i < old_dice.len() && old_dice[i].is_rerolled
                    && self.dice@[i] == old_dice[i]) by {
                    if i < before.len() {
                        assert(self.dice@[i] == if eligible(before[i], *op, threshold as int) {
                            rerolled_original(before[i], true)
                        } else {
                            before[i]
                        });
                    }
                }
                if !old(source).random {
                    let grown = self.dice@.len() - before.len();
                    assert forall|k: int| k >= 0 implies #[trigger] source.peek_at(k) == old(
                        source,
                    ).peek_at(self.dice@.len() - old_dice.len() + k) by {
                        assert(source.peek_at(k) == src_before.peek_at(grown + k));
                        assert(src_before.peek_at(grown + k) == old(source).peek_at(
                            before.len() - old_dice.len() + (grown + k),
                        ));
                    }
                    assert forall|j: int| old_dice.len() <= j < self.dice@.len() implies (
                    #[trigger] self.dice@[j]).value == self.replayed_value(
                        old(source).peek_at(j - old_dice.len()),
                    ) by {
                        if j < before.len() {
                            assert(self.dice@[j] == if eligible(before[j], *op, threshold as int) {
                                rerolled_original(before[j], true)
                            } else {
                                before[j]
                            });
                        } else {
                            assert(self.dice@[j].value == self.replayed_value(
                                src_before.peek_at(j - before.len()),
                            ));
                            assert(src_before.peek_at(j - before.len()) == old(source).peek_at(
                                before.len() - old_dice.len() + (j - before.len()),
                            ));
                        }
                    }
                }
            }
            round = round + 1;
            more = self.has_eligible(op, threshold);
        }
        if more {
            Err(RollError::RerollLimitReached)
        } else {
            Ok(())
        }
    }

    /// Applies a threshold keep rule: a die whose value matches `op` against
    /// `keep` is kept (unless already dropped), any other is dropped.
    fn keep_where(&mut self, op: ComparisonArg, keep: u16)
        requires
            old(self).wf(),
        ensures
            final(self).wf(),
            Roll::same_frame(old(self), final(self)),
            settled_all(
                old(self).dice@,
                final(self).dice@,
                |i: int| op.holds(old(self).dice@[i].value as int, keep as int),
            ),
    {
        let ghost old_dice = self.dice@;
        let n: usize = self.dice.len();
        let mut i: usize = 0;
        while i < n
            invariant
                0 <= i <= n,
                n == old_dice.len(),
                old_dice == old(self).dice@,
                self.dice@.len() == n,
                self.wf(),
                Roll::same_frame(old(self), self),
                forall|k: int|
                    0 <= k < i ==> #[trigger] self.dice@[k] == settle(
                        old_dice[k],
                        op.holds(old_dice[k].value as int, keep as int),
                    ),
                forall|k: int| i <= k < n ==> #[trigger] self.dice@[k] == old_dice[k],
            decreases n - i,
        {
            let mut d: Die = self.dice[i];
            let v: i32 = d.value as i32;
            let t: i32 = keep as i32;
            let pass: bool = match op {
                ComparisonArg::GreaterThan => v > t,
                ComparisonArg::GreaterThanOrEqual => v >= t,
                ComparisonArg::LessThan => v < t,
                ComparisonArg::LessThanOrEqual => v <= t,
                ComparisonArg::EqualTo => v == t,
            };
            if pass {
                d.mark_kept();
            } else {
                d.mark_dropped();
            }
            self.dice.set(i, d);
            i = i + 1;
        }
    }

    /// Keeps the dice greater than `keep` and drops the others.
    pub fn keep_greater_than(&mut self, keep: u16)
        requires
            old(self).wf(),
        ensures
            final(self).wf(),
            Roll::same_frame(old(self), final(self)),
            settled_all(
                old(self).dice@,
                final(self).dice@,
                |i: int| old(self).dice@[i].value > keep,
            ),
    {
        self.keep_where(ComparisonArg::GreaterThan, keep);
    }

    /// Keeps the dice greater than or equal to `keep` and drops the others.
    pub fn keep_greater_than_or_equal_to(&mut self, keep: u16)
        requires
            old(self).wf(),
        ensures
            final(self).wf(),
            Roll::same_frame(old(self), final(self)),
            settled_all(
                old(self).dice@,
                final(self).dice@,
                |i: int| old(self).dice@[i].value >= keep,
            ),
    {
        self.keep_where(ComparisonArg::GreaterThanOrEqual, keep);
    }

    /// Keeps the dice less than `keep` and drops the others.
    pub fn keep_less_than(&mut self, keep: u16)
        requires
            old(self).wf(),
        ensures
            final(self).wf(),
            Roll::same_frame(old(self), final(self)),
            settled_all(
                old(self).dice@,
                final(self).dice@,
                |i: int| old(self).dice@[i].value < keep,
            ),
    {
        self.keep_where(ComparisonArg::LessThan, keep);
    }

    /// Keeps the dice less than or equal to `keep` and drops the others.
    pub fn keep_less_than_or_equal_to(&mut self, keep: u16)
        requires
            old(self).wf(),
        ensures
            final(self).wf(),
            Roll::same_frame(old(self), final(self)),
            settled_all(
                old(self).dice@,
                final(self).dice@,
                |i: int| old(self).dice@[i].value <= keep,
            ),
    {
        self.keep_where(ComparisonArg::LessThanOrEqual, keep);
    }

    fn rank_of(&self, i: usize, high: bool) -> (r: usize)
        requires
            i < self.dice@.len(),
        ensures
            r == rank(self.dice@, i as int, self.dice@.len() as int, high),
    {
        let n: usize = self.dice.len();
        let mut count: usize = 0;
        let mut j: usize = 0;
        while j < n
            invariant
                0 <= j <= n,
                n == self.dice@.len(),
                i < n,
                count <= j,
                count == rank(self.dice@, i as int, j as int, high),
            decreases n - j,
        {
            let dk: Die = self.dice[j];
            let di: Die = self.dice[i];
            let better: bool = if high {
                dk.value > di.value
            } else {
                dk.value < di.value
            };
            if dk.status != DieStatus::Dropped && (better || (dk.value == di.value && j < i)) {
                count = count + 1;
            }
            j = j + 1;
        }
        count
    }

    /// Keeps the `keep` best dice still in play by value (highest when
    /// `high`, else lowest; ties go to the earlier die) and drops the rest.
    /// The dice are never moved.
    fn keep_ranked(&mut self, keep: u16, high: bool)
        requires
            old(self).wf(),
        ensures
            final(self).wf(),
            Roll::same_frame(old(self), final(self)),
            settled_all(
                old(self).dice@,
                final(self).dice@,
                |i: int| selected(old(self).dice@, i, keep as int, high),
            ),
    {
        let ghost old_dice = self.dice@;
        let n: usize = self.dice.len();
        let mut ranks: Vec<usize> = Vec::new();
        let mut i: usize = 0;
        while i < n
            invariant
                0 <= i <= n,
                n == old_dice.len(),
                self.dice@ == old_dice,
                ranks@.len() == i,
                forall|k: int| 0 <= k < i ==> #[trigger] ranks@[k] == rank(old_dice, k, n as int, high),
            decreases n - i,
        {
            let r: usize = self.rank_of(i, high);
            ranks.push(r);
            i = i + 1;
        }
        let mut i: usize = 0;
        while i < n
            invariant
                0 <= i <= n,
                n == old_dice.len(),
                old_dice == old(self).dice@,
                ranks@.len() == n,
                forall|k: int| 0 <= k < n ==> #[trigger] ranks@[k] == rank(old_dice, k, n as int, high),
                self.dice@.len() == n,
                self.wf(),
                Roll::same_frame(old(self), self),
                forall|k: int|
                    0 <= k < i ==> #[trigger] self.dice@[k] == settle(
                        old_dice[k],
                        selected(old_dice, k, keep as int, high),
                    ),
                forall|k: int| i <= k < n ==> #[trigger] self.dice@[k] == old_dice[k],
            decreases n - i,
        {
            let mut d: Die = self.dice[i];
            if ranks[i] < keep as usize {
                d.mark_kept();
            } else {
                d.mark_dropped();
            }
            self.dice.set(i, d);
            i = i + 1;
        }
    }

    /// Keeps the `keep` highest dice still in play and drops the rest; among
    /// equal values the earlier die wins. The dice stay in generation order.
    pub fn keep_high(&mut self, keep: u16)
        requires
            old(self).wf(),
        ensures
            final(self).wf(),
            Roll::same_frame(old(self), final(self)),
            settled_all(
                old(self).dice@,
                final(self).dice@,
                |i: int| selected(old(self).dice@, i, keep as int, true),
            ),
            in_display_order(final(self).dice@),
    {
        self.keep_ranked(keep, true);
    }

    /// Keeps the `keep` lowest dice still in play and drops the rest; among
    /// equal values the earlier die wins. The dice stay in generation order.
    pub fn keep_low(&mut self, keep: u16)
        requires
            old(self).wf(),
        ensures
            final(self).wf(),
            Roll::same_frame(old(self), final(self)),
            settled_all(
                old(self).dice@,
                final(self).dice@,
                |i: int| selected(old(self).dice@, i, keep as int, false),
            ),
            in_display_order(final(self).dice@),
    {
        self.keep_ranked(keep, false);
    }

    /// Counts every die that no stage has decided on: pending dice become kept.
    pub fn keep_remaining(&mut self)
        requires
            old(self).wf(),
        ensures
            final(self).wf(),
            Roll::same_frame(old(self), final(self)),
            settled_all(old(self).dice@, final(self).dice@, |i: int| true),
    {
        let ghost old_dice = self.dice@;
        let n: usize = self.dice.len();
        let mut i: usize = 0;
        while i < n
            invariant
                0 <= i <= n,
                n == old_dice.len(),
                old_dice == old(self).dice@,
                self.dice@.len() == n,
                self.wf(),
                Roll::same_frame(old(self), self),
                forall|k: int| 0 <= k < i ==> #[trigger] self.dice@[k] == settle(old_dice[k], true),
                forall|k: int| i <= k < n ==> #[trigger] self.dice@[k] == old_dice[k],
            decreases n - i,
        {
            let mut d: Die = self.dice[i];
            d.mark_kept();
            self.dice.set(i, d);
            i = i + 1;
        }
    }

    /// The sum of the kept dice.
    pub fn kept_total(&self) -> (r: i128)
        ensures
            r == kept_sum(self.dice@),
    {
        let n: usize = self.dice.len();
        let mut sum: i128 = 0;
        let mut i: usize = 0;
        while i < n
            invariant
                0 <= i <= n,
                n == self.dice@.len(),
                sum == kept_sum(self.dice@.subrange(0, i as int)),
                -32768 * (i as int) <= sum <= 32767 * (i as int),
            decreases n - i,
        {
            let d: Die = self.dice[i];
            assert(self.dice@.subrange(0, i as int + 1).drop_last() =~= self.dice@.subrange(0, i as int));
            if d.status == DieStatus::Kept {
                sum = sum + d.value as i128;
            }
            i = i + 1;
        }
        assert(self.dice@.subrange(0, n as int) =~= self.dice@);
        sum
    }

    /// Sets `raw_value` to the sum of the kept dice and `value` to that plus
    /// every modifier. Refused, with nothing changed, when either does not
    /// fit an `i32`. The dice are left as they are, so aggregating again
    /// gives the same totals.
    pub fn aggregate(&mut self) -> (r: Result<(), RollError>)
        ensures
            final(self).dice@ == old(self).dice@,
            final(self).comment@ == old(self).comment@,
            final(self).id@ == old(self).id@,
            final(self).equation@ == old(self).equation@,
            final(self).modifiers@ == old(self).modifiers@,
            final(self).timestamp == old(self).timestamp,
            final(self).die == old(self).die,
            final(self).min == old(self).min,
            final(self).max == old(self).max,
            final(self).sides == old(self).sides,
            r is Ok <==> (i32::MIN <= kept_sum(old(self).dice@) <= i32::MAX && i32::MIN <= kept_sum(
                old(self).dice@,
            ) + sum_of(old(self).modifiers@) <= i32::MAX),
            r is Ok ==> aggregated(*old(self), *final(self)),
            r is Err ==> r == Err::<(), RollError>(RollError::TotalOutOfRange) && final(self).raw_value
                == old(self).raw_value && final(self).value == old(self).value,
    {
        let raw: i128 = self.kept_total();
        if raw < i32::MIN as i128 || raw > i32::MAX as i128 {
            return Err(RollError::TotalOutOfRange);
        }
        let m: usize = self.modifiers.len();
        let mut total: i128 = raw;
        let mut i: usize = 0;
        let ghost mods = self.modifiers@;
        while i < m
            invariant
                0 <= i <= m,
                m == mods.len(),
                mods == self.modifiers@,
                i32::MIN <= raw <= i32::MAX,
                total == raw + sum_of(mods.subrange(0, i as int)),
                raw - 32768 * (i as int) <= total <= raw + 32767 * (i as int),
            decreases m - i,
        {
            assert(mods.subrange(0, i as int + 1).drop_last() =~= mods.subrange(0, i as int));
            total = total + self.modifiers[i] as i128;
            i = i + 1;
        }
        assert(mods.subrange(0, m as int) =~= mods);
        if total < i32::MIN as i128 || total > i32::MAX as i128 {
            return Err(RollError::TotalOutOfRange);
        }
        self.raw_value = raw as i32;
        self.value = total as i32;
        Ok(())
    }

    pub fn is_shape_valid(&self) -> (r: bool)
        ensures
            r == self.shape_valid(),
    {
        match &self.sides {
            Some(f) => f.len() > 0,
            None => self.min <= self.max,
        }
    }

    /// Rolls `n` dice (none when `n` is not positive) onto an empty roll.
    fn generate(&mut self, n: i16, source: &mut DiceSource)
        requires
            old(self).dice@.len() == 0,
            n > 0 ==> old(self).shape_valid(),
        ensures
            final(self).wf(),
            Roll::same_frame(old(self), final(self)),
            generated(final(self), n as int, final(self).dice@),
            advanced_by(*old(source), *final(source), final(self).dice@.len() as int),
            replays_from(final(self), final(self).dice@, 0, *old(source)),
    {
        let mut i: i16 = 0;
        while i < n
            invariant
                0 <= i,
                n > 0 ==> i <= n,
                n <= 0 ==> i == 0,
                n > 0 ==> self.shape_valid(),
                self.dice@.len() == i,
                self.wf(),
                Roll::same_frame(old(self), self),
                forall|k: int| 0 <= k < i ==> self.fresh_at(#[trigger] self.dice@[k], k),
                source.random == old(source).random,
                !old(source).random ==> forall|k: int|
                    k >= 0 ==> #[trigger] source.peek_at(k) == old(source).peek_at(i + k),
                !old(source).random ==> forall|k: int|
                    0 <= k < i ==> (#[trigger] self.dice@[k]).value == self.replayed_value(
                        old(source).peek_at(k),
                    ),
            decreases n - i,
        {
            let ghost before = *source;
            let v: i16 = self.roll_value(source);
            proof {
                if !before.random {
                    assert forall|k: int| k >= 0 implies #[trigger] source.peek_at(k) == old(
                        source,
                    ).peek_at(i + 1 + k) by {
                        lemma_draw_shifts(&before, &*source, k);
                        assert(before.peek_at(k + 1) == old(source).peek_at(i + (k + 1)));
                    }
                    assert(before.peek_at(0) == old(source).peek_at(i + 0));
                }
            }
            let order: usize = self.dice.len();
            self.dice.push(Die::new(self.die, v, order));
            i = i + 1;
        }
    }

    /// Resolves one roll: generates `flags.n` dice, applies the reroll rule,
    /// then the keep/drop rule, counts every die left undecided, and totals
    /// the kept dice and the modifiers.
    #[verifier::rlimit(60)]
    pub fn new(flags: RollFlags, source: &mut DiceSource) -> (r: Result<Roll, RollError>)
        ensures
            resolves(flags, r),
            r matches Ok(roll) ==> replays_from(&roll, roll.dice@, 0, *old(source)),
    {
        let keep: KeepRule = flags.keep_rule();
        let reroll: Option<RerollRule> = flags.reroll_rule();
        let n: i16 = flags.n;
        let id: String = new_roll_id();
        let timestamp: i64 = now_millis();
        let mut roll = Roll {
            comment: flags.comment,
            id,
            dice: Vec::new(),
            equation: flags.equation,
            modifiers: flags.modifiers,
            raw_value: 0,
            timestamp,
            value: 0,
            die: flags.die,
            min: flags.min,
            max: flags.max,
            sides: flags.sides,
        };
        if n > 0 && !roll.is_shape_valid() {
            return Err(RollError::InvalidShape);
        }
        roll.generate(n, source);
        let ghost g = roll.dice@;
        let ghost s1 = *source;
        match reroll {
            Some(rule) => match rule.mode {
                RerollMode::Forever => {
                    proof {
                        if n > 0 && roll.covers_range(rule.op, rule.threshold as int) {
                            assert(roll.fresh_at(g[0], 0));
                            assert(roll.can_roll(g[0].value as int));
                            assert(eligible(g[0], rule.op, rule.threshold as int));
                        }
                    }
                    match roll.reroll_dice_forever(&rule.op, rule.threshold, source) {
                        Err(e) => {
                            return Err(e);
                        },
                        Ok(()) => {},
                    }
                },
                RerollMode::Once => {
                    roll.reroll_dice_once(&rule.op, rule.threshold, source);
                },
            },
            None => {},
        }
        let ghost a = roll.dice@;
        match keep {
            KeepRule::GreaterThan(t) => roll.keep_greater_than(t),
            KeepRule::GreaterThanOrEqual(t) => roll.keep_greater_than_or_equal_to(t),
            KeepRule::LessThan(t) => roll.keep_less_than(t),
            KeepRule::LessThanOrEqual(t) => roll.keep_less_than_or_equal_to(t),
            KeepRule::Highest(k) => roll.keep_high(k),
            KeepRule::Lowest(k) => roll.keep_low(k),
            KeepRule::KeepAll => {},
        }
        let ghost b = roll.dice@;
        roll.keep_remaining();
        match roll.aggregate() {
            Err(e) => {
                proof {
                    lemma_kept_sum_bounds(roll.dice@);
                    if reroll is Some && reroll->Some_0.mode == RerollMode::Once {
                        let rule = reroll->Some_0;
                        lemma_count_eligible_bound(g, rule.op, rule.threshold as int, g.len() as int);
                        assert(roll.dice@.len() <= 65534);
                        assert(32767 * roll.dice@.len() <= 32767 * 65534) by (nonlinear_arith)
                            requires
                                roll.dice@.len() <= 65534,
                        ;
                    }
                    if n <= 0 {
                        assert(roll.dice@.len() == 0);
                    }
                }
                return Err(e);
            },
            Ok(()) => {},
        }
        proof {
            assert(generated(&roll, n as int, g));
            assert(reroll_stage(reroll, g, a));
            assert(keep_stage(keep, a, b));
            assert forall|i: int| 0 <= i < roll.dice@.len() implies (#[trigger] roll.dice@[i]).status
                != DieStatus::Pending by {
                assert(roll.dice@[i] == settle(b[i], true));
            }
            if !old(source).random {
                assert forall|j: int| 0 <= j < roll.dice@.len() implies (#[trigger] roll.dice@[j]).value
                    == roll.replayed_value(old(source).peek_at(j - 0)) by {
                    assert(roll.dice@[j] == settle(b[j], true));
                    assert(b[j].value == a[j].value);
                    if j < g.len() {
                        assert(a[j].value == g[j].value);
                    } else {
                        assert(a[j].value == roll.replayed_value(s1.peek_at(j - g.len())));
                        assert(s1.peek_at(j - g.len()) == old(source).peek_at(g.len() + (j - g.len())));
                    }
                }
            }
            if reroll is Some && reroll->Some_0.mode == RerollMode::Forever {
                let rule = reroll->Some_0;
                assert forall|i: int|
                    0 <= i < roll.dice@.len() && (#[trigger] roll.dice@[i]).status == DieStatus::Kept implies !rule.op.holds(
                    roll.dice@[i].value as int,
                    rule.threshold as int,
                ) by {
                    assert(roll.dice@[i] == settle(b[i], true));
                    assert(b[i].value == a[i].value);
                    assert(b[i].status != DieStatus::Dropped ==> a[i].status != DieStatus::Dropped);
                    assert(!eligible(a[i], rule.op, rule.threshold as int));
                    if i < g.len() {
                        assert(roll.fresh_at(g[i], i));
                    }
                }
            }
            if reroll is None && keep == KeepRule::KeepAll {
                assert forall|i: int| 0 <= i < roll.dice@.len() implies (#[trigger] roll.dice@[i]).status
                    == DieStatus::Kept by {
                    assert(roll.dice@[i] == settle(b[i], true));
                    assert(roll.fresh_at(g[i], i));
                }
                lemma_all_kept_sum(roll.dice@);
                let p = roll.dice@.map_values(|d: Die| Die { status: DieStatus::Pending, ..d });
                assert forall|i: int| 0 <= i < p.len() implies roll.fresh_at(#[trigger] p[i], i) by {
                    assert(roll.dice@[i] == settle(g[i], true));
                    assert(roll.fresh_at(g[i], i));
                    assert(p[i] == g[i]);
                }
            }
        }
        Ok(roll)
    }

    /// Rolls one die of this roll's shape.
    fn roll_value(&self, source: &mut DiceSource) -> (r: i16)
        requires
            self.shape_valid(),
        ensures
            self.can_roll(r as int),
            !old(source).random ==> r as int == self.replayed_value(old(source).peek()),
            DiceSource::drawn(old(source), final(source)),
    {
        match &self.sides {
            Some(f) => {
                let k: usize = source.draw_index(f.len());
                f[k]
            },
            None => source.draw_in(self.min, self.max),
        }
    }

    /// One reroll pass: every eligible die gets a fresh replacement appended
    /// after the existing dice, in the order of the originals, and is marked
    /// rerolled (and dropped, when `drop_originals`).
    fn reroll_pass(
        &mut self,
        op: &ComparisonArg,
        threshold: i16,
        drop_originals: bool,
        source: &mut DiceSource,
    )
        requires
            old(self).wf(),
        ensures
            final(self).wf(),
            Roll::same_frame(old(self), final(self)),
            final(self).dice@.len() == old(self).dice@.len() + count_eligible(
                old(self).dice@,
                *op,
                threshold as int,
                old(self).dice@.len() as int,
            ),
            forall|i: int|
                0 <= i < old(self).dice@.len() ==> #[trigger] final(self).dice@[i] == if eligible(
                    old(self).dice@[i],
                    *op,
                    threshold as int,
                ) {
                    rerolled_original(old(self).dice@[i], drop_originals)
                } else {
                    old(self).dice@[i]
                },
            forall|j: int|
                old(self).dice@.len() <= j < final(self).dice@.len() ==> final(self).fresh_at(
                    #[trigger] final(self).dice@[j],
                    j,
                ),
            advanced_by(*old(source), *final(source), final(self).dice@.len() - old(self).dice@.len()),
            replays_from(final(self), final(self).dice@, old(self).dice@.len() as int, *old(source)),
    {
        let ghost old_dice = self.dice@;
        let n: usize = self.dice.len();
        let mut i: usize = 0;
        while i < n
            invariant
                0 <= i <= n,
                n == old_dice.len(),
                self.wf(),
                n > 0 ==> self.shape_valid(),
                Roll::same_frame(old(self), self),
                old_dice == old(self).dice@,
                self.dice@.len() == n + count_eligible(old_dice, *op, threshold as int, i as int),
                forall|k: int|
                    0 <= k < i ==> #[trigger] self.dice@[k] == if eligible(
                        old_dice[k],
                        *op,
                        threshold as int,
                    ) {
                        rerolled_original(old_dice[k], drop_originals)
                    } else {
                        old_dice[k]
                    },
                forall|k: int| i <= k < n ==> #[trigger] self.dice@[k] == old_dice[k],
                forall|j: int|
                    n <= j < self.dice@.len() ==> self.fresh_at(#[trigger] self.dice@[j], j),
                advanced_by(*old(source), *source, self.dice@.len() - n),
                replays_from(self, self.dice@, n as int, *old(source)),
            decreases n - i,
        {
            let d: Die = self.dice[i];
            if !d.is_rerolled && op.compare(d.value, threshold) {
                let ghost before = *source;
                let ghost drawn = self.dice@.len() - n;
                let v: i16 = self.roll_value(source);
                proof {
                    if !before.random {
                        assert forall|k: int| k >= 0 implies #[trigger] source.peek_at(k) == old(
                            source,
                        ).peek_at(drawn + 1 + k) by {
                            lemma_draw_shifts(&before, &*source, k);
                            assert(before.peek_at(k + 1) == old(source).peek_at(drawn + (k + 1)));
                        }
                        assert(before.peek_at(0) == old(source).peek_at(drawn + 0));
                    }
                }
                let order: usize = self.dice.len();
                let mut original: Die = d;
                original.mark_rerolled();
                if drop_originals {
                    original.mark_dropped();
                }
                self.dice.set(i, original);
                self.dice.push(Die::new(self.die, v, order));
            }
            i = i + 1;
        }
    }

    /// Rerolls, once, every die that has not triggered a reroll yet and
    /// matches `op` against `threshold`: each gets a replacement appended and
    /// is marked rerolled and dropped.
    pub fn reroll_dice_once(&mut self, op: &ComparisonArg, threshold: i16, source: &mut DiceSource)
        requires
            old(self).wf(),
        ensures
            final(self).wf(),
            Roll::same_frame(old(self), final(self)),
            once_applied(old(self).dice@, final(self).dice@, *op, threshold as int),
            advanced_by(*old(source), *final(source), final(self).dice@.len() - old(self).dice@.len()),
            replays_from(final(self), final(self).dice@, old(self).dice@.len() as int, *old(source)),
    {
        self.reroll_pass(op, threshold, true, source);
    }
}

} // verus!
