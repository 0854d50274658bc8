use dice_roll::comparison::ComparisonArg;
use dice_roll::die::{Die, DieStatus, DieType};
use dice_roll::flags::{KeepRule, RerollMode, RollFlags};
use dice_roll::roll::{Roll, RollError};
use dice_roll::source::DiceSource;

fn d6(n: i16) -> RollFlags {
    let mut flags = RollFlags::new();
    flags.n = n;
    flags.die = DieType::D6;
    flags.min = 1;
    flags.max = 6;
    flags
}

fn values(roll: &Roll) -> Vec<i16> {
    roll.dice.iter().map(|d| d.value).collect()
}

fn statuses(roll: &Roll) -> Vec<DieStatus> {
    roll.dice.iter().map(|d| d.status).collect()
}

#[test]
fn keep_highest_three_of_four() {
    let mut flags = d6(4);
    flags.kh = 3;
    let mut source = DiceSource::sequence(vec![1, 4, 2, 6]);
    let roll = Roll::new(flags, &mut source).unwrap();
    assert_eq!(values(&roll), vec![1, 4, 2, 6]);
    assert_eq!(
        statuses(&roll),
        vec![DieStatus::Dropped, DieStatus::Kept, DieStatus::Kept, DieStatus::Kept]
    );
    let orders: Vec<usize> = roll.dice.iter().map(|d| d.order).collect();
    assert_eq!(orders, vec![0, 1, 2, 3]);
    assert_eq!(roll.raw_value, 12);
    assert_eq!(roll.value, 12);
}

#[test]
fn reroll_once_equal_to_one() {
    let mut flags = RollFlags::new();
    flags.n = 2;
    flags.die = DieType::D20;
    flags.min = 1;
    flags.max = 20;
    flags.ro_op = Some(ComparisonArg::EqualTo);
    flags.ro = 1;
    let mut source = DiceSource::sequence(vec![1, 15, 9]);
    let roll = Roll::new(flags, &mut source).unwrap();
    assert_eq!(values(&roll), vec![1, 15, 9]);
    assert!(roll.dice[0].is_rerolled);
    assert_eq!(roll.dice[0].status, DieStatus::Dropped);
    assert!(!roll.dice[2].is_rerolled);
    assert_eq!(roll.dice[2].status, DieStatus::Kept);
    assert_eq!(roll.raw_value, 24);
}

#[test]
fn modifier_added_to_single_die() {
    let mut flags = d6(1);
    flags.modifiers = vec![5];
    let mut source = DiceSource::sequence(vec![3]);
    let roll = Roll::new(flags, &mut source).unwrap();
    assert_eq!(roll.raw_value, 3);
    assert_eq!(roll.value, 8);
    assert_eq!(roll.modifiers, vec![5]);
}

#[test]
fn keep_greater_or_equal_four() {
    let mut flags = d6(3);
    flags.gte = 4;
    let mut source = DiceSource::sequence(vec![2, 5, 4]);
    let roll = Roll::new(flags, &mut source).unwrap();
    assert_eq!(statuses(&roll), vec![DieStatus::Dropped, DieStatus::Kept, DieStatus::Kept]);
    assert_eq!(roll.raw_value, 9);
}

#[test]
fn zero_dice_give_zero() {
    let flags = RollFlags::new();
    let mut source = DiceSource::random();
    let roll = Roll::new(flags, &mut source).unwrap();
    assert!(roll.dice.is_empty());
    assert_eq!(roll.raw_value, 0);
    assert_eq!(roll.value, 0);
}

#[test]
fn negative_count_gives_no_dice() {
    let mut flags = d6(-3);
    flags.modifiers = vec![2, -7];
    let mut source = DiceSource::random();
    let roll = Roll::new(flags, &mut source).unwrap();
    assert!(roll.dice.is_empty());
    assert_eq!(roll.raw_value, 0);
    assert_eq!(roll.value, -5);
}

#[test]
fn plain_roll_keeps_every_die_in_range() {
    let flags = d6(50);
    let mut source = DiceSource::random();
    let roll = Roll::new(flags, &mut source).unwrap();
    assert_eq!(roll.dice.len(), 50);
    let mut sum: i32 = 0;
    for d in &roll.dice {
        assert!(d.value >= 1 && d.value <= 6);
        assert_eq!(d.status, DieStatus::Kept);
        sum += d.value as i32;
    }
    assert_eq!(roll.raw_value, sum);
}

#[test]
fn replayed_values_are_clamped_and_cycle() {
    let flags = d6(4);
    let mut source = DiceSource::sequence(vec![9, -2]);
    let roll = Roll::new(flags, &mut source).unwrap();
    assert_eq!(values(&roll), vec![6, 1, 6, 1]);
    assert_eq!(roll.raw_value, 14);
}

#[test]
fn face_list_dice_show_faces() {
    let mut flags = RollFlags::new();
    flags.n = 3;
    flags.sides = Some(vec![10, 20, 30]);
    let mut source = DiceSource::sequence(vec![2, 0, 7]);
    let roll = Roll::new(flags, &mut source).unwrap();
    assert_eq!(values(&roll), vec![30, 10, 30]);
    assert_eq!(roll.raw_value, 70);
}

#[test]
fn empty_range_is_refused() {
    let mut flags = d6(2);
    flags.min = 5;
    flags.max = 2;
    let mut source = DiceSource::random();
    assert!(matches!(Roll::new(flags, &mut source), Err(RollError::InvalidShape)));
}

#[test]
fn empty_face_list_is_refused() {
    let mut flags = RollFlags::new();
    flags.n = 1;
    flags.sides = Some(vec![]);
    let mut source = DiceSource::random();
    assert!(matches!(Roll::new(flags, &mut source), Err(RollError::InvalidShape)));
}

#[test]
fn reroll_forever_until_no_match() {
    let mut flags = d6(2);
    flags.rr_op = Some(ComparisonArg::EqualTo);
    flags.rr = 1;
    let mut source = DiceSource::sequence(vec![1, 3, 1, 5]);
    let roll = Roll::new(flags, &mut source).unwrap();
    assert_eq!(values(&roll), vec![1, 3, 1, 5]);
    assert!(roll.dice[0].is_rerolled);
    assert!(roll.dice[2].is_rerolled);
    assert!(!roll.dice[3].is_rerolled);
    assert_eq!(
        statuses(&roll),
        vec![DieStatus::Dropped, DieStatus::Kept, DieStatus::Dropped, DieStatus::Kept]
    );
    assert_eq!(roll.raw_value, 8);
}

#[test]
fn reroll_forever_without_match_changes_nothing() {
    let mut roll = Roll::new(d6(2), &mut DiceSource::sequence(vec![2, 5, 4])).unwrap();
    let before: Vec<Die> = roll.dice.clone();
    let mut source = DiceSource::sequence(vec![4]);
    assert!(roll.reroll_dice_forever(&ComparisonArg::GreaterThan, 6, &mut source).is_ok());
    assert_eq!(roll.dice, before);
    assert_eq!(source.draw_in(1, 6), 4);
}

#[test]
fn empty_roll_succeeds_under_any_rule() {
    let mut forever = RollFlags::new();
    forever.rr_op = Some(ComparisonArg::GreaterThanOrEqual);
    forever.rr = 1;
    forever.modifiers = vec![3];
    let roll = Roll::new(forever, &mut DiceSource::random()).unwrap();
    assert!(roll.dice.is_empty());
    assert_eq!((roll.raw_value, roll.value), (0, 3));
    let mut once = RollFlags::new();
    once.ro_op = Some(ComparisonArg::EqualTo);
    once.ro = 1;
    once.kh = 2;
    let roll = Roll::new(once, &mut DiceSource::random()).unwrap();
    assert!(roll.dice.is_empty());
    assert_eq!((roll.raw_value, roll.value), (0, 0));
}

#[test]
fn reroll_forever_random_leaves_no_unmarked_one() {
    let mut flags = d6(20);
    flags.rr_op = Some(ComparisonArg::EqualTo);
    flags.rr = 1;
    let mut source = DiceSource::random();
    let roll = Roll::new(flags, &mut source).unwrap();
    for d in &roll.dice {
        assert!(d.is_rerolled || d.value != 1);
        assert!(d.status != DieStatus::Kept || d.value != 1);
    }
}

#[test]
fn reroll_forever_covering_range_is_refused() {
    let mut flags = d6(2);
    flags.rr_op = Some(ComparisonArg::GreaterThanOrEqual);
    flags.rr = 1;
    let mut source = DiceSource::random();
    assert!(matches!(Roll::new(flags, &mut source), Err(RollError::RerollCoversRange)));
}

#[test]
fn reroll_forever_covering_faces_is_refused() {
    let mut flags = RollFlags::new();
    flags.n = 1;
    flags.sides = Some(vec![2, 4]);
    flags.rr_op = Some(ComparisonArg::LessThan);
    flags.rr = 5;
    let mut source = DiceSource::random();
    assert!(matches!(Roll::new(flags, &mut source), Err(RollError::RerollCoversRange)));
}

#[test]
fn reroll_forever_gives_up_after_limit() {
    let mut flags = d6(1);
    flags.rr_op = Some(ComparisonArg::EqualTo);
    flags.rr = 1;
    let mut source = DiceSource::sequence(vec![1]);
    assert!(matches!(Roll::new(flags, &mut source), Err(RollError::RerollLimitReached)));
}

#[test]
fn total_out_of_range_is_refused() {
    let mut flags = RollFlags::new();
    flags.modifiers = vec![32767; 70000];
    let mut source = DiceSource::random();
    assert!(matches!(Roll::new(flags, &mut source), Err(RollError::TotalOutOfRange)));
}

#[test]
fn keep_lowest_prefers_earlier_on_ties() {
    let mut flags = d6(4);
    flags.kl = 2;
    let mut source = DiceSource::sequence(vec![5, 2, 2, 6]);
    let roll = Roll::new(flags, &mut source).unwrap();
    assert_eq!(
        statuses(&roll),
        vec![DieStatus::Dropped, DieStatus::Kept, DieStatus::Kept, DieStatus::Dropped]
    );
    assert_eq!(roll.raw_value, 4);
}

#[test]
fn keep_highest_tie_goes_to_earlier_die() {
    let mut flags = d6(3);
    flags.kh = 1;
    let mut source = DiceSource::sequence(vec![4, 6, 6]);
    let roll = Roll::new(flags, &mut source).unwrap();
    assert_eq!(statuses(&roll), vec![DieStatus::Dropped, DieStatus::Kept, DieStatus::Dropped]);
    assert_eq!(roll.raw_value, 6);
}

#[test]
fn keep_highest_and_lowest_are_disjoint() {
    let draws = vec![3, 6, 1, 5, 2, 4];
    let mut high = d6(6);
    high.kh = 3;
    let mut low = d6(6);
    low.kl = 3;
    let rh = Roll::new(high, &mut DiceSource::sequence(draws.clone())).unwrap();
    let rl = Roll::new(low, &mut DiceSource::sequence(draws)).unwrap();
    for i in 0..6 {
        assert!(!(rh.dice[i].status == DieStatus::Kept && rl.dice[i].status == DieStatus::Kept));
    }
    assert_eq!(rh.raw_value, 15);
    assert_eq!(rl.raw_value, 6);
}

#[test]
fn keep_highest_kept_dice_dominate_dropped() {
    let mut flags = d6(5);
    flags.kh = 2;
    let mut source = DiceSource::random();
    let roll = Roll::new(flags, &mut source).unwrap();
    for a in &roll.dice {
        for b in &roll.dice {
            if a.status == DieStatus::Kept && b.status == DieStatus::Dropped {
                assert!(a.value >= b.value);
            }
        }
    }
}

#[test]
fn keep_less_than_and_less_or_equal() {
    let mut lt = d6(3);
    lt.lt = 3;
    let roll = Roll::new(lt, &mut DiceSource::sequence(vec![2, 3, 4])).unwrap();
    assert_eq!(statuses(&roll), vec![DieStatus::Kept, DieStatus::Dropped, DieStatus::Dropped]);
    assert_eq!(roll.raw_value, 2);
    let mut lte = d6(3);
    lte.lte = 3;
    let roll = Roll::new(lte, &mut DiceSource::sequence(vec![2, 3, 4])).unwrap();
    assert_eq!(statuses(&roll), vec![DieStatus::Kept, DieStatus::Kept, DieStatus::Dropped]);
    assert_eq!(roll.raw_value, 5);
}

#[test]
fn keep_greater_than_wins_over_keep_highest() {
    let mut flags = d6(3);
    flags.gt = 4;
    flags.kh = 1;
    assert_eq!(flags.keep_rule(), KeepRule::GreaterThan(4));
    let roll = Roll::new(flags, &mut DiceSource::sequence(vec![5, 6, 4])).unwrap();
    assert_eq!(statuses(&roll), vec![DieStatus::Kept, DieStatus::Kept, DieStatus::Dropped]);
    assert_eq!(roll.raw_value, 11);
}

#[test]
fn reroll_forever_wins_over_reroll_once() {
    let mut flags = d6(1);
    flags.rr_op = Some(ComparisonArg::LessThan);
    flags.rr = 3;
    flags.ro_op = Some(ComparisonArg::EqualTo);
    flags.ro = 6;
    let rule = flags.reroll_rule().unwrap();
    assert_eq!(rule.mode, RerollMode::Forever);
    assert_eq!(rule.threshold, 3);
}

#[test]
fn once_dropped_original_stays_dropped_after_threshold() {
    let mut flags = d6(2);
    flags.ro_op = Some(ComparisonArg::LessThanOrEqual);
    flags.ro = 2;
    flags.gt = 1;
    let roll = Roll::new(flags, &mut DiceSource::sequence(vec![2, 5, 4])).unwrap();
    assert_eq!(values(&roll), vec![2, 5, 4]);
    assert_eq!(statuses(&roll), vec![DieStatus::Dropped, DieStatus::Kept, DieStatus::Kept]);
    assert_eq!(roll.raw_value, 9);
}

#[test]
fn reroll_once_again_is_noop_when_replacements_miss() {
    let flags = d6(3);
    let mut source = DiceSource::sequence(vec![1, 4, 1, 5, 6]);
    let mut roll = Roll::new(flags, &mut source).unwrap();
    roll.reroll_dice_once(&ComparisonArg::EqualTo, 1, &mut source);
    assert_eq!(values(&roll), vec![1, 4, 1, 5, 6]);
    let before: Vec<Die> = roll.dice.clone();
    roll.reroll_dice_once(&ComparisonArg::EqualTo, 1, &mut source);
    assert_eq!(roll.dice, before);
}

#[test]
fn aggregate_twice_gives_same_totals() {
    let mut flags = d6(4);
    flags.kh = 2;
    flags.modifiers = vec![-1];
    let mut roll = Roll::new(flags, &mut DiceSource::sequence(vec![2, 6, 3, 5])).unwrap();
    assert_eq!(roll.raw_value, 11);
    assert!(roll.aggregate().is_ok());
    assert_eq!(roll.raw_value, 11);
    assert_eq!(roll.value, 10);
    assert!(roll.aggregate().is_ok());
    assert_eq!(roll.raw_value, 11);
    assert_eq!(roll.kept_total(), 11);
}

#[test]
fn roll_has_identifier_and_text() {
    let mut flags = d6(1);
    flags.comment = "fire".to_string();
    flags.equation = "1d6".to_string();
    let roll = Roll::new(flags, &mut DiceSource::random()).unwrap();
    assert_eq!(roll.id.len(), 36);
    assert_eq!(roll.comment, "fire");
    assert_eq!(roll.equation, "1d6");
    assert!(roll.timestamp > 0);
}
