//! The structured description of one roll request, and the rules it selects.
use vstd::prelude::*;
use crate::comparison::ComparisonArg;
use crate::die::DieType;

verus! {

/// The keep/drop rule of a roll: at most one applies.
#[derive(Clone, Copy, Debug, PartialEq, Eq, Structural)]
pub enum KeepRule {
    GreaterThan(u16),
    GreaterThanOrEqual(u16),
    LessThan(u16),
    LessThanOrEqual(u16),
    Highest(u16),
    Lowest(u16),
    KeepAll,
}

/// Whether matching dice are replaced a single time or until none matches.
#[derive(Clone, Copy, Debug, PartialEq, Eq, Structural)]
pub enum RerollMode {
    Once,
    Forever,
}

/// The reroll rule of a roll: dice whose value matches `op` against
/// `threshold` are replaced.
#[derive(Clone, Copy, Debug, PartialEq, Eq, Structural)]
pub struct RerollRule {
    pub op: ComparisonArg,
    pub threshold: i16,
    pub mode: RerollMode,
}

/// All the arguments of a roll. A zero threshold or count means that the
/// rule is absent.
pub struct RollFlags {
    pub comment: String,
    pub die: DieType,
    pub equation: String,
    pub gt: u16,
    pub gte: u16,
    pub kh: i16,
    pub kl: i16,
    pub lt: u16,
    pub lte: u16,
    pub max: i16,
    pub min: i16,
    pub modifiers: Vec<i16>,
    pub n: i16,
    pub ro: i16,
    pub rr: i16,
    pub rr_op: Option<ComparisonArg>,
    pub ro_op: Option<ComparisonArg>,
    pub sides: Option<Vec<i16>>,
}

impl RollFlags {
    /// No dice, no rules, no modifiers; the range starts at one.
    pub open spec fn is_blank(&self) -> bool {
        &&& self.comment@ == Seq::<char>::empty()
        &&& self.die == DieType::Other
        &&& self.equation@ == Seq::<char>::empty()
        &&& self.gt == 0 && self.gte == 0 && self.lt == 0 && self.lte == 0
        &&& self.kh == 0 && self.kl == 0
        &&& self.max == 0 && self.min == 1
        &&& self.modifiers@ == Seq::<i16>::empty()
        &&& self.n == 0 && self.ro == 0 && self.rr == 0
        &&& self.rr_op is None && self.ro_op is None && self.sides is None
    }

    pub fn new() -> (r: RollFlags)
        ensures
            r.is_blank(),
    {
        RollFlags {
            comment: String::new(),
            die: DieType::Other,
            equation: String::new(),
            gt: 0,
            gte: 0,
            kh: 0,
            kl: 0,
            lt: 0,
            lte: 0,
            max: 0,
            min: 1,
            modifiers: Vec::new(),
            n: 0,
            ro: 0,
            rr: 0,
            rr_op: None,
            ro_op: None,
            sides: None,
        }
    }

    /// The first present keep rule, in the order greater-than,
    /// greater-or-equal, less-than, less-or-equal, keep-highest, keep-lowest.
    pub open spec fn spec_keep_rule(&self) -> KeepRule {
        if self.gt != 0 {
            KeepRule::GreaterThan(self.gt)
        } else if self.gte != 0 {
            KeepRule::GreaterThanOrEqual(self.gte)
        } else if self.lt != 0 {
            KeepRule::LessThan(self.lt)
        } else if self.lte != 0 {
            KeepRule::LessThanOrEqual(self.lte)
        } else if self.kh != 0 {
            KeepRule::Highest(self.kh as u16)
        } else if self.kl != 0 {
            KeepRule::Lowest(self.kl as u16)
        } else {
            KeepRule::KeepAll
        }
    }

    pub fn keep_rule(&self) -> (r: KeepRule)
        ensures
            r == self.spec_keep_rule(),
    {
        if self.gt != 0 {
            KeepRule::GreaterThan(self.gt)
        } else if self.gte != 0 {
            KeepRule::GreaterThanOrEqual(self.gte)
        } else if self.lt != 0 {
            KeepRule::LessThan(self.lt)
        } else if self.lte != 0 {
            KeepRule::LessThanOrEqual(self.lte)
        } else if self.kh != 0 {
            KeepRule::Highest(self.kh as u16)
        } else if self.kl != 0 {
            KeepRule::Lowest(self.kl as u16)
        } else {
            KeepRule::KeepAll
        }
    }

    /// The reroll rule: reroll-forever when its operator is present, else
    /// reroll-once when its operator is present.
    pub open spec fn spec_reroll_rule(&self) -> Option<RerollRule> {
        match self.rr_op {
            Some(op) => Some(RerollRule { op, threshold: self.rr, mode: RerollMode::Forever }),
            None => match self.ro_op {
                Some(op) => Some(RerollRule { op, threshold: self.ro, mode: RerollMode::Once }),
                None => None,
            },
        }
    }

    pub fn reroll_rule(&self) -> (r: Option<RerollRule>)
        ensures
            r == self.spec_reroll_rule(),
    {
        match self.rr_op {
            Some(op) => Some(RerollRule { op, threshold: self.rr, mode: RerollMode::Forever }),
            None => match self.ro_op {
                Some(op) => Some(RerollRule { op, threshold: self.ro, mode: RerollMode::Once }),
                None => None,
            },
        }
    }
}

} // verus!
