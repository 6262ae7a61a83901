//! What a query asks for: which speeds, rating groups and modes to count,
//! and how many moves and games to return.
use vstd::prelude::*;

use crate::date::Month;
use crate::mode::Mode;
use crate::rating::{rating_group_index, RatingGroup};
use crate::speed::Speed;

verus! {

/// Which games of the server to count.
#[derive(Debug, Clone)]
pub struct LichessQueryFilter {
    /// The speeds to count, or all.
    pub speeds: Option<Vec<Speed>>,
    /// The rating groups to count, or all.
    pub ratings: Option<Vec<RatingGroup>>,
    /// The first month to count, or the first there is.
    pub since: Option<Month>,
    /// The last month to count, or the last there is.
    pub until: Option<Month>,
}

/// Whether the filter counts games at `speed`.
pub open spec fn spec_contains_speed(speeds: Option<Seq<Speed>>, speed: Speed) -> bool {
    match speeds {
        None => true,
        Some(s) => s.contains(speed),
    }
}

/// Groups above 2500 are counted with the group 2500.
pub open spec fn spec_capped_group(g: RatingGroup) -> RatingGroup {
    if rating_group_index(g) > rating_group_index(RatingGroup::Group2500) {
        RatingGroup::Group2500
    } else {
        g
    }
}

/// Whether the filter counts games of `rating_group`: groups above 2500
/// count as the group 2500.
pub open spec fn spec_contains_rating_group(
    ratings: Option<Seq<RatingGroup>>,
    rating_group: RatingGroup,
) -> bool {
    match ratings {
        None => true,
        Some(r) => r.contains(spec_capped_group(rating_group)),
    }
}

/// The lowest rating group from which games count as top games: the
/// lowest of the run of counted groups that ends with the highest group,
/// if that run reaches down to 2000 or below... but not below 2000.
pub open spec fn spec_top_group(ratings: Option<Seq<RatingGroup>>) -> Option<RatingGroup> {
    if !spec_contains_rating_group(ratings, RatingGroup::Group3200) {
        None
    } else if !spec_contains_rating_group(ratings, RatingGroup::Group2800) {
        Some(RatingGroup::Group3200)
    } else if !spec_contains_rating_group(ratings, RatingGroup::Group2500) {
        Some(RatingGroup::Group2800)
    } else if !spec_contains_rating_group(ratings, RatingGroup::Group2200) {
        Some(RatingGroup::Group2500)
    } else if !spec_contains_rating_group(ratings, RatingGroup::Group2000) {
        Some(RatingGroup::Group2200)
    } else {
        Some(RatingGroup::Group2000)
    }
}

impl LichessQueryFilter {
    /// The speeds, as a value.
    pub open spec fn spec_speeds(&self) -> Option<Seq<Speed>> {
        match self.speeds {
            Some(v) => Some(v@),
            None => None,
        }
    }

    /// The rating groups, as a value.
    pub open spec fn spec_ratings(&self) -> Option<Seq<RatingGroup>> {
        match self.ratings {
            Some(v) => Some(v@),
            None => None,
        }
    }

    /// Whether games at `speed` are counted.
    pub fn contains_speed(&self, speed: Speed) -> (b: bool)
        ensures
            b == spec_contains_speed(self.spec_speeds(), speed),
    {
        match &self.speeds {
            None => true,
            Some(speeds) => contains_speed(speeds.as_slice(), speed),
        }
    }

    /// Whether games of `rating_group` are counted; groups above 2500 count
    /// as the group 2500.
    pub fn contains_rating_group(&self, rating_group: RatingGroup) -> (b: bool)
        ensures
            b == spec_contains_rating_group(self.spec_ratings(), rating_group),
    {
        match &self.ratings {
            None => true,
            Some(ratings) => {
                let capped = if rating_group.index() > RatingGroup::Group2500.index() {
                    RatingGroup::Group2500
                } else {
                    rating_group
                };
                contains_rating_group(ratings.as_slice(), capped)
            },
        }
    }

    /// The lowest group of the counted groups from the highest down, not
    /// below 2000, if the highest group is counted.
    pub fn top_group(&self) -> (g: Option<RatingGroup>)
        ensures
            g == spec_top_group(self.spec_ratings()),
    {
        let mut top_group: Option<RatingGroup> = None;
        let mut i: usize = 11;
        while i > 6
            invariant
                6 <= i <= 11,
                i == 11 ==> top_group is None,
                i < 11 ==> top_group == Some(crate::rating::rating_group_at(i as nat)),
                forall|j: nat|
                    i <= j < 11 ==> spec_contains_rating_group(
                        self.spec_ratings(),
                        #[trigger] crate::rating::rating_group_at(j),
                    ),
            decreases i,
        {
            let group = RatingGroup::from_index(i - 1);
            if !self.contains_rating_group(group) {
                proof {
                    let r = self.spec_ratings();
                    assert(crate::rating::rating_group_at(10) == RatingGroup::Group3200);
                    assert(crate::rating::rating_group_at(9) == RatingGroup::Group2800);
                    assert(crate::rating::rating_group_at(8) == RatingGroup::Group2500);
                    assert(crate::rating::rating_group_at(7) == RatingGroup::Group2200);
                    assert(crate::rating::rating_group_at(6) == RatingGroup::Group2000);
                    if i <= 10 {
                        assert(spec_contains_rating_group(r, crate::rating::rating_group_at(10)));
                    }
                    if i <= 9 {
                        assert(spec_contains_rating_group(r, crate::rating::rating_group_at(9)));
                    }
                    if i <= 8 {
                        assert(spec_contains_rating_group(r, crate::rating::rating_group_at(8)));
                    }
                    if i <= 7 {
                        assert(spec_contains_rating_group(r, crate::rating::rating_group_at(7)));
                    }
                }
                return top_group;
            }
            top_group = Some(group);
            i = i - 1;
        }
        proof {
            assert(spec_contains_rating_group(self.spec_ratings(), crate::rating::rating_group_at(6)));
            assert(spec_contains_rating_group(self.spec_ratings(), crate::rating::rating_group_at(7)));
            assert(spec_contains_rating_group(self.spec_ratings(), crate::rating::rating_group_at(8)));
            assert(spec_contains_rating_group(self.spec_ratings(), crate::rating::rating_group_at(9)));
            assert(spec_contains_rating_group(self.spec_ratings(), crate::rating::rating_group_at(10)));
        }
        top_group
    }
}

/// Whether `speed` is among `speeds`.
pub fn contains_speed(speeds: &[Speed], speed: Speed) -> (b: bool)
    ensures
        b == speeds@.contains(speed),
{
    let mut i: usize = 0;
    while i < speeds.len()
        invariant
            i <= speeds@.len(),
            forall|j: int| 0 <= j < i ==> speeds@[j] != speed,
        decreases speeds@.len() - i,
    {
        if speeds[i] == speed {
            return true;
        }
        i = i + 1;
    }
    false
}

/// Whether `g` is among `groups`.
pub fn contains_rating_group(groups: &[RatingGroup], g: RatingGroup) -> (b: bool)
    ensures
        b == groups@.contains(g),
{
    let mut i: usize = 0;
    while i < groups.len()
        invariant
            i <= groups@.len(),
            forall|j: int| 0 <= j < i ==> groups@[j] != g,
        decreases groups@.len() - i,
    {
        if groups[i] == g {
            return true;
        }
        i = i + 1;
    }
    false
}

/// Whether `mode` is among `modes`.
pub fn contains_mode(modes: &[Mode], mode: Mode) -> (b: bool)
    ensures
        b == modes@.contains(mode),
{
    let mut i: usize = 0;
    while i < modes.len()
        invariant
            i <= modes@.len(),
            forall|j: int| 0 <= j < i ==> modes@[j] != mode,
        decreases modes@.len() - i,
    {
        if modes[i] == mode {
            return true;
        }
        i = i + 1;
    }
    false
}

/// How many moves and games a response of the server's or the masters'
/// explorer holds.
#[derive(Debug, Clone, Copy, PartialEq, Eq, Structural)]
pub struct Limits {
    pub top_games: usize,
    pub recent_games: usize,
    pub moves: usize,
}

impl Limits {
    /// Twelve moves unless asked otherwise.
    pub fn default_moves() -> (n: usize)
        ensures
            n == 12,
    {
        12
    }

    /// Whether any game is wanted.
    pub fn wants_games(&self) -> (b: bool)
        ensures
            b == (self.top_games > 0 || self.recent_games > 0),
    {
        self.top_games > 0 || self.recent_games > 0
    }
}

impl Default for Limits {
    /// All games, and the default number of moves.
    fn default() -> (l: Limits)
        ensures
            l.top_games == usize::MAX,
            l.recent_games == usize::MAX,
            l.moves == 12,
    {
        Limits { top_games: usize::MAX, recent_games: usize::MAX, moves: Limits::default_moves() }
    }
}

/// How many moves and recent games a response of a player's explorer
/// holds.
#[derive(Debug, Clone, Copy, PartialEq, Eq, Structural)]
pub struct PlayerLimits {
    pub moves: usize,
    pub recent_games: usize,
}

/// Which games of a player to count.
#[derive(Debug, Clone)]
pub struct PlayerQueryFilter {
    /// The modes to count, or all.
    pub modes: Option<Vec<Mode>>,
    /// The speeds to count, or all.
    pub speeds: Option<Vec<Speed>>,
    /// The first month to count.
    pub since: Month,
    /// The last month to count.
    pub until: Month,
}

/// Which games of a player to count (the older name).
pub type PersonalQueryFilter = PlayerQueryFilter;

/// Whether the filter counts games in `mode`.
pub open spec fn spec_contains_mode(modes: Option<Seq<Mode>>, mode: Mode) -> bool {
    match modes {
        None => true,
        Some(s) => s.contains(mode),
    }
}

impl PlayerQueryFilter {
    /// The speeds, as a value.
    pub open spec fn spec_speeds(&self) -> Option<Seq<Speed>> {
        match self.speeds {
            Some(v) => Some(v@),
            None => None,
        }
    }

    /// The modes, as a value.
    pub open spec fn spec_modes(&self) -> Option<Seq<Mode>> {
        match self.modes {
            Some(v) => Some(v@),
            None => None,
        }
    }

    /// Whether games at `speed` are counted.
    pub fn contains_speed(&self, speed: Speed) -> (b: bool)
        ensures
            b == spec_contains_speed(self.spec_speeds(), speed),
    {
        match &self.speeds {
            None => true,
            Some(speeds) => contains_speed(speeds.as_slice(), speed),
        }
    }

    /// Whether games in `mode` are counted.
    pub fn contains_mode(&self, mode: Mode) -> (b: bool)
        ensures
            b == spec_contains_mode(self.spec_modes(), mode),
    {
        match &self.modes {
            None => true,
            Some(modes) => contains_mode(modes.as_slice(), mode),
        }
    }
}

/// A filter without rating groups counts every group. One with groups
/// counts a group when it lists it, except that the 2800 and 3200 groups
/// count when it lists the 2500 group: so listing 2500 counts the games of
/// the two groups above and gives a top group.
pub proof fn lemma_contains_rating_group(ratings: Seq<RatingGroup>, g: RatingGroup)
    ensures
        spec_contains_rating_group(None, g),
        rating_group_index(g) <= rating_group_index(RatingGroup::Group2500) ==> (
        spec_contains_rating_group(Some(ratings), g) == ratings.contains(g)),
        rating_group_index(g) > rating_group_index(RatingGroup::Group2500) ==> (
        spec_contains_rating_group(Some(ratings), g) == ratings.contains(RatingGroup::Group2500)),
        ratings.contains(RatingGroup::Group2500) ==> spec_top_group(Some(ratings)) is Some,
{
}

} // verus!
