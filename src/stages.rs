//! What each resolution stage does to a sequence of dice, stated over
//! sequences, and what follows from it.
use vstd::prelude::*;
use crate::comparison::ComparisonArg;
use crate::die::{Die, DieStatus};
use crate::flags::{KeepRule, RerollMode, RerollRule};
use crate::roll::MAX_REROLL_ROUNDS;

verus! {

/// The sum of the values of the kept dice.
pub open spec fn kept_sum(dice: Seq<Die>) -> int
    decreases dice.len(),
{
    if dice.len() == 0 {
        0
    } else {
        kept_sum(dice.drop_last()) + if dice.last().status == DieStatus::Kept {
            dice.last().value as int
        } else {
            0
        }
    }
}

/// The sum of a list of modifiers.
pub open spec fn sum_of(s: Seq<i16>) -> int
    decreases s.len(),
{
    if s.len() == 0 {
        0
    } else {
        sum_of(s.drop_last()) + s.last() as int
    }
}

/// A die that a reroll rule replaces: it has not triggered a reroll yet and
/// its value matches the rule.
pub open spec fn eligible(d: Die, op: ComparisonArg, threshold: int) -> bool {
    !d.is_rerolled && op.holds(d.value as int, threshold)
}

/// The number of eligible dice among the first `j`.
pub open spec fn count_eligible(dice: Seq<Die>, op: ComparisonArg, threshold: int, j: int) -> nat
    decreases j,
{
    if j <= 0 {
        0
    } else {
        count_eligible(dice, op, threshold, j - 1) + if eligible(dice[j - 1], op, threshold) {
            1nat
        } else {
            0nat
        }
    }
}

/// Whether some die is eligible for the reroll rule.
pub open spec fn any_eligible(dice: Seq<Die>, op: ComparisonArg, threshold: int) -> bool {
    exists|i: int| 0 <= i < dice.len() && #[trigger] eligible(dice[i], op, threshold)
}

/// An original die after it triggered a reroll.
pub open spec fn rerolled_original(d: Die, drop_it: bool) -> Die {
    Die {
        is_rerolled: true,
        status: if drop_it {
            DieStatus::Dropped
        } else {
            d.status
        },
        ..d
    }
}

/// A die after a keep/drop decision: one that fails is dropped, one that
/// passes is kept unless it was dropped before.
pub open spec fn settle(d: Die, pass: bool) -> Die {
    if !pass {
        Die { status: DieStatus::Dropped, ..d }
    } else {
        Die { status: d.kept_status(), ..d }
    }
}

/// Whether die `k` outranks die `i` for a keep-highest (`high`) or
/// keep-lowest selection: it is still in play and has a better value, or the
/// same value and an earlier position.
pub open spec fn beats(dice: Seq<Die>, k: int, i: int, high: bool) -> bool {
    &&& dice[k].status != DieStatus::Dropped
    &&& {
        ||| (high && dice[k].value > dice[i].value)
        ||| (!high && dice[k].value < dice[i].value)
        ||| (dice[k].value == dice[i].value && k < i)
    }
}

/// The number of dice among the first `j` that outrank die `i`.
pub open spec fn rank(dice: Seq<Die>, i: int, j: int, high: bool) -> nat
    decreases j,
{
    if j <= 0 {
        0
    } else {
        rank(dice, i, j - 1, high) + if beats(dice, j - 1, i, high) {
            1nat
        } else {
            0nat
        }
    }
}

/// Die `i` is among the `keep` best dice still in play.
pub open spec fn selected(dice: Seq<Die>, i: int, keep: int, high: bool) -> bool {
    rank(dice, i, dice.len() as int, high) < keep
}

/// The roll's dice after a keep/drop stage that passes die `i` iff `pass(i)`.
pub open spec fn settled_all(old: Seq<Die>, new: Seq<Die>, pass: spec_fn(int) -> bool) -> bool {
    &&& new.len() == old.len()
    &&& forall|i: int| 0 <= i < old.len() ==> #[trigger] new[i] == settle(old[i], pass(i))
}

/// Die positions carry strictly increasing generation order.
pub open spec fn in_display_order(dice: Seq<Die>) -> bool {
    forall|i: int, j: int| 0 <= i < j < dice.len() ==> (#[trigger] dice[i]).order < (#[trigger] dice[j]).order
}

/// The sum of the values of all the dice, kept or not.
pub open spec fn value_sum(dice: Seq<Die>) -> int
    decreases dice.len(),
{
    if dice.len() == 0 {
        0
    } else {
        value_sum(dice.drop_last()) + dice.last().value as int
    }
}

/// The dice after a reroll-once pass: each eligible die is marked rerolled
/// and dropped, one pending replacement per eligible die is appended, and
/// nothing else changes.
pub open spec fn once_applied(before: Seq<Die>, after: Seq<Die>, op: ComparisonArg, threshold: int) -> bool {
    &&& after.len() == before.len() + count_eligible(before, op, threshold, before.len() as int)
    &&& forall|i: int|
        0 <= i < before.len() ==> #[trigger] after[i] == if eligible(before[i], op, threshold) {
            rerolled_original(before[i], true)
        } else {
            before[i]
        }
    &&& forall|j: int|
        before.len() <= j < after.len() ==> (#[trigger] after[j]).status == DieStatus::Pending
            && !after[j].is_rerolled
}

/// `trace` is a run of reroll-once passes: each pass starts from dice among
/// which one is eligible, and there are at most `MAX_REROLL_ROUNDS` passes.
pub open spec fn forever_trace(trace: Seq<Seq<Die>>, op: ComparisonArg, threshold: int) -> bool {
    &&& 1 <= trace.len() <= MAX_REROLL_ROUNDS as int + 1
    &&& forall|k: int| 0 <= k < trace.len() - 1 ==> any_eligible(#[trigger] trace[k], op, threshold)
    &&& forall|k: int|
        0 <= k < trace.len() - 1 ==> #[trigger] once_applied(trace[k], trace[k + 1], op, threshold)
}

/// One more pass extends a run of passes.
pub proof fn lemma_trace_extend(
    trace: Seq<Seq<Die>>,
    next: Seq<Die>,
    op: ComparisonArg,
    threshold: int,
)
    requires
        forever_trace(trace, op, threshold),
        trace.len() <= MAX_REROLL_ROUNDS as int,
        any_eligible(trace.last(), op, threshold),
        once_applied(trace.last(), next, op, threshold),
    ensures
        forever_trace(trace.push(next), op, threshold),
        trace.push(next)[0] == trace[0],
        trace.push(next).last() == next,
{
    let t = trace.push(next);
    assert forall|k: int| 0 <= k < t.len() - 1 implies any_eligible(#[trigger] t[k], op, threshold) by {
        if k < trace.len() - 1 {
            assert(t[k] == trace[k]);
        }
    }
    assert forall|k: int| 0 <= k < t.len() - 1 implies #[trigger] once_applied(
        t[k],
        t[k + 1],
        op,
        threshold,
    ) by {
        if k < trace.len() - 1 {
            assert(t[k] == trace[k]);
            assert(t[k + 1] == trace[k + 1]);
            assert(once_applied(trace[k], trace[k + 1], op, threshold));
        } else {
            assert(t[k] == trace.last());
            assert(t[k + 1] == next);
        }
    }
    assert(1 <= t.len() <= MAX_REROLL_ROUNDS as int + 1);
    assert(t.last() == next);
}

/// Every die marked rerolled is dropped, unless it was already marked in
/// `before` and is unchanged.
pub open spec fn rerolled_are_dropped(before: Seq<Die>, after: Seq<Die>) -> bool {
    forall|i: int|
        0 <= i < after.len() && (#[trigger] after[i]).is_rerolled ==> after[i].status == DieStatus::Dropped
            || (i < before.len() && before[i].is_rerolled && after[i] == before[i])
}

/// The dice of `before` are still there, with the same values, followed by
/// any appended dice.
pub open spec fn values_kept(before: Seq<Die>, after: Seq<Die>) -> bool {
    &&& before.len() <= after.len()
    &&& forall|i: int| 0 <= i < before.len() ==> (#[trigger] after[i]).value == before[i].value
}

/// The dice after a completed reroll-forever: reroll-once passes, one after
/// the other, until no die is eligible.
pub open spec fn forever_applied(before: Seq<Die>, after: Seq<Die>, op: ComparisonArg, threshold: int) -> bool {
    &&& !any_eligible(after, op, threshold)
    &&& rerolled_are_dropped(before, after)
    &&& values_kept(before, after)
    &&& exists|trace: Seq<Seq<Die>>|
        #[trigger] forever_trace(trace, op, threshold) && trace[0] == before && trace.last() == after
}

/// The reroll stage of a roll under `rule`.
pub open spec fn reroll_stage(rule: Option<RerollRule>, before: Seq<Die>, after: Seq<Die>) -> bool {
    match rule {
        None => after == before,
        Some(r) => match r.mode {
            RerollMode::Once => once_applied(before, after, r.op, r.threshold as int),
            RerollMode::Forever => forever_applied(before, after, r.op, r.threshold as int),
        },
    }
}

/// The keep/drop stage of a roll under `rule`.
pub open spec fn keep_stage(rule: KeepRule, before: Seq<Die>, after: Seq<Die>) -> bool {
    match rule {
        KeepRule::GreaterThan(t) => settled_all(before, after, |i: int| before[i].value > t),
        KeepRule::GreaterThanOrEqual(t) => settled_all(before, after, |i: int| before[i].value >= t),
        KeepRule::LessThan(t) => settled_all(before, after, |i: int| before[i].value < t),
        KeepRule::LessThanOrEqual(t) => settled_all(before, after, |i: int| before[i].value <= t),
        KeepRule::Highest(k) => settled_all(before, after, |i: int| selected(before, i, k as int, true)),
        KeepRule::Lowest(k) => settled_all(before, after, |i: int| selected(before, i, k as int, false)),
        KeepRule::KeepAll => after == before,
    }
}

/// At most every one of the first `j` dice is eligible.
pub proof fn lemma_count_eligible_bound(dice: Seq<Die>, op: ComparisonArg, threshold: int, j: int)
    ensures
        count_eligible(dice, op, threshold, j) <= if j > 0 {
            j
        } else {
            0
        },
    decreases j,
{
    if j > 0 {
        lemma_count_eligible_bound(dice, op, threshold, j - 1);
    }
}

pub proof fn lemma_kept_sum_bounds(dice: Seq<Die>)
    ensures
        -32768 * dice.len() <= kept_sum(dice) <= 32767 * dice.len(),
    decreases dice.len(),
{
    if dice.len() > 0 {
        lemma_kept_sum_bounds(dice.drop_last());
    }
}

/// When every die is kept, the kept sum is the sum of all values.
pub proof fn lemma_all_kept_sum(dice: Seq<Die>)
    requires
        forall|i: int| 0 <= i < dice.len() ==> (#[trigger] dice[i]).status == DieStatus::Kept,
    ensures
        kept_sum(dice) == value_sum(dice),
    decreases dice.len(),
{
    if dice.len() > 0 {
        let p = dice.drop_last();
        assert forall|i: int| 0 <= i < p.len() implies (#[trigger] p[i]).status == DieStatus::Kept by {
            assert(p[i] == dice[i]);
        }
        lemma_all_kept_sum(p);
        assert(dice.last() == dice[dice.len() - 1]);
    }
}

/// The number of dice among the first `j` that are still in play.
pub open spec fn in_play(dice: Seq<Die>, j: int) -> nat
    decreases j,
{
    if j <= 0 {
        0
    } else {
        in_play(dice, j - 1) + if dice[j - 1].status != DieStatus::Dropped {
            1nat
        } else {
            0nat
        }
    }
}

/// No two dice in play show the same value.
pub open spec fn distinct_in_play(dice: Seq<Die>) -> bool {
    forall|a: int, b: int|
        0 <= a < dice.len() && 0 <= b < dice.len() && a != b && dice[a].status != DieStatus::Dropped
            && dice[b].status != DieStatus::Dropped ==> #[trigger] dice[a].value != #[trigger] dice[b].value
}

proof fn lemma_ranks_add_up(dice: Seq<Die>, i: int, j: int)
    requires
        0 <= i < dice.len(),
        0 <= j <= dice.len(),
        dice[i].status != DieStatus::Dropped,
        distinct_in_play(dice),
    ensures
        rank(dice, i, j, true) + rank(dice, i, j, false) + (if i < j {
            1int
        } else {
            0int
        }) == in_play(dice, j),
    decreases j,
{
    if j > 0 {
        lemma_ranks_add_up(dice, i, j - 1);
        let k = j - 1;
        if k != i && dice[k].status != DieStatus::Dropped {
            assert(dice[k].value != dice[i].value);
        }
    }
}

/// With distinct values among the dice in play and a count `keep` of at
/// most half of them, no die is both among the `keep` highest and among the
/// `keep` lowest.
pub proof fn keep_high_and_low_disjoint(dice: Seq<Die>, keep: int, i: int)
    requires
        0 <= i < dice.len(),
        dice[i].status != DieStatus::Dropped,
        distinct_in_play(dice),
        2 * keep <= in_play(dice, dice.len() as int),
    ensures
        !(selected(dice, i, keep, true) && selected(dice, i, keep, false)),
{
    lemma_ranks_add_up(dice, i, dice.len() as int);
}

proof fn lemma_rank_dominates(dice: Seq<Die>, i: int, j: int, m: int)
    requires
        0 <= i < dice.len(),
        0 <= j < dice.len(),
        0 <= m <= dice.len(),
        dice[j].status != DieStatus::Dropped,
        dice[i].value < dice[j].value,
    ensures
        rank(dice, i, m, true) >= rank(dice, j, m, true) + if j < m {
            1int
        } else {
            0int
        },
    decreases m,
{
    if m > 0 {
        lemma_rank_dominates(dice, i, j, m - 1);
    }
}

/// Every die that keep-highest selects shows at least the value of every
/// die in play that it does not select.
pub proof fn keep_high_dominates(dice: Seq<Die>, keep: int, i: int, j: int)
    requires
        0 <= i < dice.len(),
        0 <= j < dice.len(),
        dice[j].status != DieStatus::Dropped,
        selected(dice, i, keep, true),
        !selected(dice, j, keep, true),
    ensures
        dice[i].value >= dice[j].value,
{
    if dice[i].value < dice[j].value {
        lemma_rank_dominates(dice, i, j, dice.len() as int);
    }
}

proof fn lemma_kept_sum_at_least(dice: Seq<Die>, i: int)
    requires
        0 <= i <= dice.len(),
        forall|k: int| 0 <= k < dice.len() ==> (#[trigger] dice[k]).value >= 0,
    ensures
        kept_sum(dice) >= 0,
        i < dice.len() && dice[i].status == DieStatus::Kept ==> kept_sum(dice) >= dice[i].value,
    decreases dice.len(),
{
    if dice.len() > 0 {
        let p = dice.drop_last();
        assert forall|k: int| 0 <= k < p.len() implies (#[trigger] p[k]).value >= 0 by {
            assert(p[k] == dice[k]);
        }
        if i < p.len() {
            lemma_kept_sum_at_least(p, i);
            assert(p[i] == dice[i]);
        } else {
            lemma_kept_sum_at_least(p, 0);
        }
        assert(dice.last() == dice[dice.len() - 1]);
    }
}

/// With no negative value among the dice, once keep-highest has selected
/// some die, the total of the kept dice is at least the value of any die in
/// play that it drops.
pub proof fn keep_high_total_covers_dropped(
    before: Seq<Die>,
    after: Seq<Die>,
    keep: int,
    i: int,
    j: int,
)
    requires
        settled_all(before, after, |k: int| selected(before, k, keep, true)),
        0 <= i < before.len(),
        0 <= j < before.len(),
        before[i].status != DieStatus::Dropped,
        before[j].status != DieStatus::Dropped,
        selected(before, i, keep, true),
        !selected(before, j, keep, true),
        forall|k: int| 0 <= k < before.len() ==> (#[trigger] before[k]).value >= 0,
    ensures
        kept_sum(after) >= before[j].value,
{
    keep_high_dominates(before, keep, i, j);
    assert(after[i] == settle(before[i], selected(before, i, keep, true)));
    assert forall|k: int| 0 <= k < after.len() implies (#[trigger] after[k]).value >= 0 by {
        assert(after[k] == settle(before[k], selected(before, k, keep, true)));
    }
    lemma_kept_sum_at_least(after, i);
}

/// A die that is not kept adds nothing to the kept sum, whatever its value.
pub proof fn uncounted_die_adds_nothing(dice: Seq<Die>, i: int, v: i16)
    requires
        0 <= i < dice.len(),
        dice[i].status != DieStatus::Kept,
    ensures
        kept_sum(dice.update(i, Die { value: v, ..dice[i] })) == kept_sum(dice),
    decreases dice.len(),
{
    let u = dice.update(i, Die { value: v, ..dice[i] });
    if i < dice.len() - 1 {
        uncounted_die_adds_nothing(dice.drop_last(), i, v);
        assert(u.drop_last() =~= dice.drop_last().update(i, Die { value: v, ..dice[i] }));
    } else {
        assert(u.drop_last() =~= dice.drop_last());
    }
}

proof fn lemma_none_eligible_count(dice: Seq<Die>, op: ComparisonArg, threshold: int, j: int)
    requires
        0 <= j <= dice.len(),
        forall|k: int| 0 <= k < dice.len() ==> !eligible(#[trigger] dice[k], op, threshold),
    ensures
        count_eligible(dice, op, threshold, j) == 0,
    decreases j,
{
    if j > 0 {
        lemma_none_eligible_count(dice, op, threshold, j - 1);
    }
}

/// After a reroll-once pass whose replacements do not match the rule, a
/// second pass changes nothing: the originals are already marked rerolled.
pub proof fn reroll_once_again_changes_nothing(
    before: Seq<Die>,
    after: Seq<Die>,
    again: Seq<Die>,
    op: ComparisonArg,
    threshold: int,
)
    requires
        once_applied(before, after, op, threshold),
        forall|j: int|
            before.len() <= j < after.len() ==> !op.holds((#[trigger] after[j]).value as int, threshold),
        once_applied(after, again, op, threshold),
    ensures
        again == after,
{
    assert forall|k: int| 0 <= k < after.len() implies !eligible(#[trigger] after[k], op, threshold) by {
        if k < before.len() {
            assert(after[k] == if eligible(before[k], op, threshold) {
                rerolled_original(before[k], true)
            } else {
                before[k]
            });
        }
    }
    lemma_none_eligible_count(after, op, threshold, after.len() as int);
    assert(again =~= after);
}

} // verus!
