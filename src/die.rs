//! A single die: its kind, its value and what became of it.
use vstd::prelude::*;

verus! {

/// The standard die kinds, and `Other` for any custom range or face list.
#[derive(Clone, Copy, Debug, PartialEq, Eq, Structural)]
pub enum DieType {
    D4,
    D6,
    D8,
    D10,
    D12,
    D20,
    D100,
    Other,
}

impl DieType {
    /// The kind of a die with faces numbered from one to `faces`.
    pub open spec fn spec_from_faces(faces: int) -> DieType {
        if faces == 100 {
            DieType::D100
        } else if faces == 20 {
            DieType::D20
        } else if faces == 12 {
            DieType::D12
        } else if faces == 10 {
            DieType::D10
        } else if faces == 8 {
            DieType::D8
        } else if faces == 6 {
            DieType::D6
        } else if faces == 4 {
            DieType::D4
        } else {
            DieType::Other
        }
    }

    pub fn from_faces(faces: i64) -> (r: DieType)
        ensures
            r == DieType::spec_from_faces(faces as int),
    {
        if faces == 100 {
            DieType::D100
        } else if faces == 20 {
            DieType::D20
        } else if faces == 12 {
            DieType::D12
        } else if faces == 10 {
            DieType::D10
        } else if faces == 8 {
            DieType::D8
        } else if faces == 6 {
            DieType::D6
        } else if faces == 4 {
            DieType::D4
        } else {
            DieType::Other
        }
    }
}

/// Where a die stands in the resolution: not yet decided, counted, or
/// excluded from the total.
#[derive(Clone, Copy, Debug, PartialEq, Eq, Structural)]
pub enum DieStatus {
    Pending,
    Kept,
    Dropped,
}

/// One rolled die. `order` is its position in generation order.
#[derive(Clone, Copy, Debug, PartialEq, Eq, Structural)]
pub struct Die {
    pub die: DieType,
    pub value: i16,
    pub status: DieStatus,
    pub is_rerolled: bool,
    pub order: usize,
}

impl Die {
    /// A freshly rolled die, still pending.
    pub fn new(die: DieType, value: i16, order: usize) -> (r: Die)
        ensures
            r == (Die { die, value, status: DieStatus::Pending, is_rerolled: false, order }),
    {
        Die { die, value, status: DieStatus::Pending, is_rerolled: false, order }
    }

    pub fn is_dropped(&self) -> (r: bool)
        ensures
            r == (self.status == DieStatus::Dropped),
    {
        self.status == DieStatus::Dropped
    }

    pub fn is_kept(&self) -> (r: bool)
        ensures
            r == (self.status == DieStatus::Kept),
    {
        self.status == DieStatus::Kept
    }

    /// Excludes the die from the total; a dropped die stays dropped.
    pub fn mark_dropped(&mut self)
        ensures
            *final(self) == (Die { status: DieStatus::Dropped, ..*old(self) }),
    {
        self.status = DieStatus::Dropped;
    }

    /// Counts the die, unless it was dropped before.
    pub fn mark_kept(&mut self)
        ensures
            *final(self) == (Die { status: old(self).kept_status(), ..*old(self) }),
    {
        if self.status != DieStatus::Dropped {
            self.status = DieStatus::Kept;
        }
    }

    /// Records that this die has triggered a replacement.
    pub fn mark_rerolled(&mut self)
        ensures
            *final(self) == (Die { is_rerolled: true, ..*old(self) }),
    {
        self.is_rerolled = true;
    }

    /// The status after `mark_kept`.
    pub open spec fn kept_status(self) -> DieStatus {
        if self.status == DieStatus::Dropped {
            DieStatus::Dropped
        } else {
            DieStatus::Kept
        }
    }
}

} // verus!
