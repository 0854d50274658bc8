use dice_roll::comparison::ComparisonArg;
use dice_roll::die::{DieStatus, DieType};
use dice_roll::flags::RollFlags;
use dice_roll::roll::RollError;
use dice_roll::source::DiceSource;
use dice_roll::v1::{flags_from_args, roll, RollArg, RollsResponse};

#[test]
fn command_builds_flags_and_equation() {
    let args = vec![RollArg::N(4), RollArg::D(6), RollArg::H(3), RollArg::ModifierPos(2)];
    let flags = flags_from_args(&args);
    assert_eq!(flags.equation, "4d6kh3+2");
    assert_eq!(flags.n, 4);
    assert_eq!(flags.die, DieType::D6);
    assert_eq!(flags.max, 6);
    assert_eq!(flags.min, 1);
    assert_eq!(flags.kh, 3);
    assert_eq!(flags.modifiers, vec![2]);
}

#[test]
fn command_rolls_keep_highest() {
    let args = vec![RollArg::N(4), RollArg::D(6), RollArg::H(3), RollArg::ModifierPos(2)];
    let mut source = DiceSource::sequence(vec![1, 4, 2, 6]);
    let r = roll(&args, &mut source).unwrap();
    assert_eq!(r.raw_value, 12);
    assert_eq!(r.value, 14);
    assert_eq!(r.dice[0].status, DieStatus::Dropped);
    assert_eq!(r.equation, "4d6kh3+2");
}

#[test]
fn command_thresholds_and_rerolls_text() {
    let args = vec![
        RollArg::N(2),
        RollArg::D(20),
        RollArg::GT(3),
        RollArg::GTE(4),
        RollArg::LT(5),
        RollArg::LTE(6),
        RollArg::L(1),
        RollArg::RR(ComparisonArg::GreaterThanOrEqual, 19),
        RollArg::RO(ComparisonArg::EqualTo, 1),
        RollArg::Max(12),
        RollArg::Min(-2),
    ];
    let flags = flags_from_args(&args);
    assert_eq!(flags.equation, "2d20gt3gte4lt5lte6kl1rr>=19ro==1max12min-2");
    assert_eq!((flags.gt, flags.gte, flags.lt, flags.lte), (3, 4, 5, 6));
    assert_eq!(flags.kl, 1);
    assert_eq!(flags.rr_op, Some(ComparisonArg::GreaterThanOrEqual));
    assert_eq!(flags.rr, 19);
    assert_eq!(flags.ro_op, Some(ComparisonArg::EqualTo));
    assert_eq!(flags.ro, 1);
    assert_eq!((flags.min, flags.max), (-2, 12));
    assert_eq!(flags.die, DieType::D20);
}

#[test]
fn command_subtracts_modifiers() {
    let args = vec![RollArg::ModifierNeg(3), RollArg::ModifierNeg(0), RollArg::ModifierPos(0)];
    let flags = flags_from_args(&args);
    assert_eq!(flags.modifiers, vec![-3]);
    assert_eq!(flags.equation, "-3");
    let extreme = flags_from_args(&vec![RollArg::ModifierNeg(i16::MIN)]);
    assert_eq!(extreme.modifiers, vec![i16::MAX]);
}

#[test]
fn command_face_list() {
    let args = vec![RollArg::N(2), RollArg::Sides(vec![3, 1, 6])];
    let flags = flags_from_args(&args);
    assert_eq!(flags.equation, "2[3,1,6]");
    assert_eq!(flags.sides, Some(vec![3, 1, 6]));
    assert_eq!((flags.min, flags.max), (1, 6));
    let negative = flags_from_args(&vec![RollArg::Sides(vec![-4, 0, 2])]);
    assert_eq!((negative.min, negative.max), (-4, 2));
    assert_eq!(negative.equation, "[-4,0,2]");
}

#[test]
fn command_comment() {
    let flags = flags_from_args(&vec![RollArg::N(1), RollArg::D(8), RollArg::Comment("fire".to_string())]);
    assert_eq!(flags.comment, "fire");
    assert_eq!(flags.equation, "1d8[fire]");
    assert_eq!(flags.die, DieType::D8);
}

#[test]
fn command_primitive_starts_over() {
    let args = vec![RollArg::N(2), RollArg::D(20), RollArg::Primitive, RollArg::N(1), RollArg::D(6)];
    let flags = flags_from_args(&args);
    assert_eq!(flags.equation, "1d6");
    assert_eq!(flags.n, 1);
    let mut source = DiceSource::sequence(vec![5]);
    let r = roll(&args, &mut source).unwrap();
    assert_eq!(r.dice.len(), 1);
    assert_eq!(r.value, 5);
}

#[test]
fn command_without_dice_is_blank() {
    let flags = flags_from_args(&vec![]);
    let blank = RollFlags::new();
    assert_eq!(flags.equation, blank.equation);
    assert_eq!((flags.min, flags.max, flags.n), (1, 0, 0));
    let r = roll(&vec![], &mut DiceSource::random()).unwrap();
    assert_eq!(r.value, 0);
}

#[test]
fn command_reroll_covering_range_fails() {
    let args = vec![RollArg::N(1), RollArg::D(6), RollArg::RR(ComparisonArg::LessThanOrEqual, 6)];
    assert!(matches!(roll(&args, &mut DiceSource::random()), Err(RollError::RerollCoversRange)));
}

#[test]
fn response_reports_milliseconds() {
    let r = roll(&vec![RollArg::N(1), RollArg::D(4)], &mut DiceSource::sequence(vec![2])).unwrap();
    let resp = RollsResponse::new(r, 2, 345_678_901);
    assert_eq!(resp.execution_time, 2345);
    assert_eq!(resp.roll.raw_value, 2);
}
