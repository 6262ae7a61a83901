//! Rating groups by which games of the rated database are kept apart, and a
//! container with one value for each group.
use vstd::prelude::*;

verus! {

#[derive(Clone, Copy, Debug, PartialEq, Eq, Structural)]
pub enum RatingGroup {
    GroupLow,
    Group1000,
    Group1200,
    Group1400,
    Group1600,
    Group1800,
    Group2000,
    Group2200,
    Group2500,
    Group2800,
    Group3200,
}

/// The position of a group, from lowest to highest.
pub open spec fn rating_group_index(g: RatingGroup) -> nat {
    match g {
        RatingGroup::GroupLow => 0,
        RatingGroup::Group1000 => 1,
        RatingGroup::Group1200 => 2,
        RatingGroup::Group1400 => 3,
        RatingGroup::Group1600 => 4,
        RatingGroup::Group1800 => 5,
        RatingGroup::Group2000 => 6,
        RatingGroup::Group2200 => 7,
        RatingGroup::Group2500 => 8,
        RatingGroup::Group2800 => 9,
        RatingGroup::Group3200 => 10,
    }
}

/// The group at position `i`, from lowest to highest.
pub open spec fn rating_group_at(i: nat) -> RatingGroup {
    if i == 0 {
        RatingGroup::GroupLow
    } else if i == 1 {
        RatingGroup::Group1000
    } else if i == 2 {
        RatingGroup::Group1200
    } else if i == 3 {
        RatingGroup::Group1400
    } else if i == 4 {
        RatingGroup::Group1600
    } else if i == 5 {
        RatingGroup::Group1800
    } else if i == 6 {
        RatingGroup::Group2000
    } else if i == 7 {
        RatingGroup::Group2200
    } else if i == 8 {
        RatingGroup::Group2500
    } else if i == 9 {
        RatingGroup::Group2800
    } else {
        RatingGroup::Group3200
    }
}

/// The group of an average rating. No average lands in the 2800 group:
/// from 2800 on, averages belong to the 3200 group.
pub open spec fn spec_select_avg(avg: u16) -> RatingGroup {
    if avg < 1000 {
        RatingGroup::GroupLow
    } else if avg < 1200 {
        RatingGroup::Group1000
    } else if avg < 1400 {
        RatingGroup::Group1200
    } else if avg < 1600 {
        RatingGroup::Group1400
    } else if avg < 1800 {
        RatingGroup::Group1600
    } else if avg < 2000 {
        RatingGroup::Group1800
    } else if avg < 2200 {
        RatingGroup::Group2000
    } else if avg < 2500 {
        RatingGroup::Group2200
    } else if avg < 2800 {
        RatingGroup::Group2500
    } else {
        RatingGroup::Group3200
    }
}

/// The mean of two ratings, rounded down.
pub open spec fn spec_midpoint(a: u16, b: u16) -> u16 {
    ((a + b) / 2) as u16
}

/// The mean of two ratings, rounded down.
pub fn midpoint(a: u16, b: u16) -> (m: u16)
    ensures
        m == spec_midpoint(a, b),
{
    ((a as u32 + b as u32) / 2) as u16
}

impl RatingGroup {
    /// The position of the group, from lowest to highest.
    pub fn index(self) -> (i: usize)
        ensures
            i == rating_group_index(self),
            i < 11,
    {
        match self {
            RatingGroup::GroupLow => 0,
            RatingGroup::Group1000 => 1,
            RatingGroup::Group1200 => 2,
            RatingGroup::Group1400 => 3,
            RatingGroup::Group1600 => 4,
            RatingGroup::Group1800 => 5,
            RatingGroup::Group2000 => 6,
            RatingGroup::Group2200 => 7,
            RatingGroup::Group2500 => 8,
            RatingGroup::Group2800 => 9,
            RatingGroup::Group3200 => 10,
        }
    }

    /// The group at position `i` (below `11`), from lowest to highest.
    pub fn from_index(i: usize) -> (g: RatingGroup)
        requires
            i < 11,
        ensures
            g == rating_group_at(i as nat),
            rating_group_index(g) == i,
    {
        if i == 0 {
            RatingGroup::GroupLow
        } else if i == 1 {
            RatingGroup::Group1000
        } else if i == 2 {
            RatingGroup::Group1200
        } else if i == 3 {
            RatingGroup::Group1400
        } else if i == 4 {
            RatingGroup::Group1600
        } else if i == 5 {
            RatingGroup::Group1800
        } else if i == 6 {
            RatingGroup::Group2000
        } else if i == 7 {
            RatingGroup::Group2200
        } else if i == 8 {
            RatingGroup::Group2500
        } else if i == 9 {
            RatingGroup::Group2800
        } else {
            RatingGroup::Group3200
        }
    }

    /// The group of an average rating.
    pub fn select_avg(avg: u16) -> (g: RatingGroup)
        ensures
            g == spec_select_avg(avg),
    {
        if avg < 1000 {
            RatingGroup::GroupLow
        } else if avg < 1200 {
            RatingGroup::Group1000
        } else if avg < 1400 {
            RatingGroup::Group1200
        } else if avg < 1600 {
            RatingGroup::Group1400
        } else if avg < 1800 {
            RatingGroup::Group1600
        } else if avg < 2000 {
            RatingGroup::Group1800
        } else if avg < 2200 {
            RatingGroup::Group2000
        } else if avg < 2500 {
            RatingGroup::Group2200
        } else if avg < 2800 {
            RatingGroup::Group2500
        } else {
            RatingGroup::Group3200
        }
    }

    /// The group of a game by the ratings of the mover and the opponent.
    pub fn select(mover_rating: u16, opponent_rating: u16) -> (g: RatingGroup)
        ensures
            g == spec_select_avg(spec_midpoint(mover_rating, opponent_rating)),
    {
        RatingGroup::select_avg(midpoint(mover_rating, opponent_rating))
    }

    /// The group of the average rating written in decimal in `s`.
    pub fn from_decimal(s: &[u8]) -> (r: Option<RatingGroup>)
        ensures
            match crate::decimal::spec_parse_u16(s@) {
                Some(v) => r == Some(spec_select_avg(v)),
                None => r is None,
            },
    {
        match crate::decimal::parse_u16(s) {
            Some(v) => Some(RatingGroup::select_avg(v)),
            None => None,
        }
    }
}

/// One value for each rating group.
#[derive(Debug, Default)]
pub struct ByRatingGroup<T> {
    pub group_low: T,
    pub group_1000: T,
    pub group_1200: T,
    pub group_1400: T,
    pub group_1600: T,
    pub group_1800: T,
    pub group_2000: T,
    pub group_2200: T,
    pub group_2500: T,
    pub group_2800: T,
    pub group_3200: T,
}

impl<T> ByRatingGroup<T> {
    /// The values in order, as `into_iter` yields them.
    pub fn into_vec(self) -> (v: Vec<T>)
        ensures
            v@ == seq![self.group_low, self.group_1000, self.group_1200, self.group_1400, self.group_1600, self.group_1800, self.group_2000, self.group_2200, self.group_2500, self.group_2800, self.group_3200],
    {
        let mut v: Vec<T> = Vec::new();
        v.push(self.group_low);
        v.push(self.group_1000);
        v.push(self.group_1200);
        v.push(self.group_1400);
        v.push(self.group_1600);
        v.push(self.group_1800);
        v.push(self.group_2000);
        v.push(self.group_2200);
        v.push(self.group_2500);
        v.push(self.group_2800);
        v.push(self.group_3200);
        proof {
            assert(v@ =~= seq![self.group_low, self.group_1000, self.group_1200, self.group_1400, self.group_1600, self.group_1800, self.group_2000, self.group_2200, self.group_2500, self.group_2800, self.group_3200]);
        }
        v
    }

    /// The value for group `g`.
    pub open spec fn get(self, g: RatingGroup) -> T {
        match g {
            RatingGroup::GroupLow => self.group_low,
            RatingGroup::Group1000 => self.group_1000,
            RatingGroup::Group1200 => self.group_1200,
            RatingGroup::Group1400 => self.group_1400,
            RatingGroup::Group1600 => self.group_1600,
            RatingGroup::Group1800 => self.group_1800,
            RatingGroup::Group2000 => self.group_2000,
            RatingGroup::Group2200 => self.group_2200,
            RatingGroup::Group2500 => self.group_2500,
            RatingGroup::Group2800 => self.group_2800,
            RatingGroup::Group3200 => self.group_3200,
        }
    }

    /// The same values, but the one for group `g` replaced by `v`.
    pub open spec fn set(self, g: RatingGroup, v: T) -> ByRatingGroup<T> {
        match g {
            RatingGroup::GroupLow => ByRatingGroup { group_low: v, ..self },
            RatingGroup::Group1000 => ByRatingGroup { group_1000: v, ..self },
            RatingGroup::Group1200 => ByRatingGroup { group_1200: v, ..self },
            RatingGroup::Group1400 => ByRatingGroup { group_1400: v, ..self },
            RatingGroup::Group1600 => ByRatingGroup { group_1600: v, ..self },
            RatingGroup::Group1800 => ByRatingGroup { group_1800: v, ..self },
            RatingGroup::Group2000 => ByRatingGroup { group_2000: v, ..self },
            RatingGroup::Group2200 => ByRatingGroup { group_2200: v, ..self },
            RatingGroup::Group2500 => ByRatingGroup { group_2500: v, ..self },
            RatingGroup::Group2800 => ByRatingGroup { group_2800: v, ..self },
            RatingGroup::Group3200 => ByRatingGroup { group_3200: v, ..self },
        }
    }

    /// The value for group `g`.
    pub fn by_rating_group(&self, g: RatingGroup) -> (r: &T)
        ensures
            *r == self.get(g),
    {
        match g {
            RatingGroup::GroupLow => &self.group_low,
            RatingGroup::Group1000 => &self.group_1000,
            RatingGroup::Group1200 => &self.group_1200,
            RatingGroup::Group1400 => &self.group_1400,
            RatingGroup::Group1600 => &self.group_1600,
            RatingGroup::Group1800 => &self.group_1800,
            RatingGroup::Group2000 => &self.group_2000,
            RatingGroup::Group2200 => &self.group_2200,
            RatingGroup::Group2500 => &self.group_2500,
            RatingGroup::Group2800 => &self.group_2800,
            RatingGroup::Group3200 => &self.group_3200,
        }
    }

    /// The value for group `g`, to change it in place.
    pub fn by_rating_group_mut(&mut self, g: RatingGroup) -> (r: &mut T)
        ensures
            *r == old(self).get(g),
            *final(self) == old(self).set(g, *final(r)),
    {
        match g {
            RatingGroup::GroupLow => &mut self.group_low,
            RatingGroup::Group1000 => &mut self.group_1000,
            RatingGroup::Group1200 => &mut self.group_1200,
            RatingGroup::Group1400 => &mut self.group_1400,
            RatingGroup::Group1600 => &mut self.group_1600,
            RatingGroup::Group1800 => &mut self.group_1800,
            RatingGroup::Group2000 => &mut self.group_2000,
            RatingGroup::Group2200 => &mut self.group_2200,
            RatingGroup::Group2500 => &mut self.group_2500,
            RatingGroup::Group2800 => &mut self.group_2800,
            RatingGroup::Group3200 => &mut self.group_3200,
        }
    }

    /// References to the values.
    pub fn as_ref(&self) -> (r: ByRatingGroup<&T>)
        ensures
            forall|g: RatingGroup| *#[trigger] r.get(g) == self.get(g),
    {
        ByRatingGroup {
            group_low: &self.group_low,
            group_1000: &self.group_1000,
            group_1200: &self.group_1200,
            group_1400: &self.group_1400,
            group_1600: &self.group_1600,
            group_1800: &self.group_1800,
            group_2000: &self.group_2000,
            group_2200: &self.group_2200,
            group_2500: &self.group_2500,
            group_2800: &self.group_2800,
            group_3200: &self.group_3200,
        }
    }

    /// Each value paired with its group.
    pub fn zip_rating_group(self) -> (r: ByRatingGroup<(RatingGroup, T)>)
        ensures
            forall|g: RatingGroup| #[trigger] r.get(g) == (g, self.get(g)),
    {
        ByRatingGroup {
            group_low: (RatingGroup::GroupLow, self.group_low),
            group_1000: (RatingGroup::Group1000, self.group_1000),
            group_1200: (RatingGroup::Group1200, self.group_1200),
            group_1400: (RatingGroup::Group1400, self.group_1400),
            group_1600: (RatingGroup::Group1600, self.group_1600),
            group_1800: (RatingGroup::Group1800, self.group_1800),
            group_2000: (RatingGroup::Group2000, self.group_2000),
            group_2200: (RatingGroup::Group2200, self.group_2200),
            group_2500: (RatingGroup::Group2500, self.group_2500),
            group_2800: (RatingGroup::Group2800, self.group_2800),
            group_3200: (RatingGroup::Group3200, self.group_3200),
        }
    }
}

/// The lowest average rating that a group's name gives.
pub open spec fn rating_group_floor(g: RatingGroup) -> int {
    match g {
        RatingGroup::GroupLow => 0,
        RatingGroup::Group1000 => 1000,
        RatingGroup::Group1200 => 1200,
        RatingGroup::Group1400 => 1400,
        RatingGroup::Group1600 => 1600,
        RatingGroup::Group1800 => 1800,
        RatingGroup::Group2000 => 2000,
        RatingGroup::Group2200 => 2200,
        RatingGroup::Group2500 => 2500,
        RatingGroup::Group2800 => 2800,
        RatingGroup::Group3200 => 3200,
    }
}

/// An average rating below 2800 lands in the group whose range holds it:
/// the group's lowest rating is at most the average, and the next group's
/// is above it. From 2800 on, averages land in the 3200 group. A higher
/// average never lands in a lower group.
pub proof fn lemma_select_avg(a: u16, b: u16)
    ensures
        a < 2800 ==> rating_group_floor(spec_select_avg(a)) <= a && a < rating_group_floor(
            rating_group_at(rating_group_index(spec_select_avg(a)) + 1),
        ),
        a >= 2800 ==> spec_select_avg(a) == RatingGroup::Group3200,
        a <= b ==> rating_group_index(spec_select_avg(a)) <= rating_group_index(spec_select_avg(b)),
{
}

} // verus!
