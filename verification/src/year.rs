//! Years counted from the year 2000, in one byte.
use vstd::prelude::*;

verus! {

/// A year as the number of years since 2000, at most 255.
#[derive(Debug, Clone, Copy, PartialEq, Eq, Structural)]
pub struct AnnoLichess(pub u8);

/// The number of years since 2000 of `year`: zero up to 2000, at most 255.
pub open spec fn spec_anno(year: u32) -> u8 {
    if year <= 2000 {
        0
    } else if year - 2000 > 255 {
        255
    } else {
        (year - 2000) as u8
    }
}

impl AnnoLichess {
    /// The latest year that can be held: 2255.
    pub fn max_value() -> (a: AnnoLichess)
        ensures
            a.0 == 255,
    {
        AnnoLichess(255)
    }

    /// The year `year`, saturating at 2000 and 2255.
    pub fn from_year(year: u32) -> (a: AnnoLichess)
        ensures
            a.0 == spec_anno(year),
    {
        let since = year.saturating_sub(2000);
        if since > 255 {
            AnnoLichess(255)
        } else {
            AnnoLichess(since as u8)
        }
    }

    /// The year.
    pub fn year(self) -> (y: u32)
        ensures
            y == 2000 + self.0,
    {
        2000 + self.0 as u32
    }

    /// The year of a date given by its era and its year in that era: a year
    /// of the common era as `from_year`, any year before it as 2000.
    pub fn from_year_ce(is_ce: bool, year_ce: u32) -> (a: AnnoLichess)
        ensures
            a.0 == if is_ce { spec_anno(year_ce) } else { 0 },
    {
        if is_ce {
            AnnoLichess::from_year(year_ce)
        } else {
            AnnoLichess(0)
        }
    }
}

} // verus!
