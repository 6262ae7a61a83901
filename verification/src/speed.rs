//! Time-control categories of games, and a container with one value for
//! each of them.
use vstd::prelude::*;

use crate::buf::bytes_eq;
use vstd::string::StringSliceAdditionalSpecFns;

verus! {

#[derive(Clone, Copy, Debug, PartialEq, Eq, Structural)]
pub enum Speed {
    UltraBullet,
    Bullet,
    Blitz,
    Rapid,
    Classical,
    Correspondence,
}

/// The position of a speed in the order from fastest to slowest.
pub open spec fn speed_index(sp: Speed) -> nat {
    match sp {
        Speed::UltraBullet => 0,
        Speed::Bullet => 1,
        Speed::Blitz => 2,
        Speed::Rapid => 3,
        Speed::Classical => 4,
        Speed::Correspondence => 5,
    }
}

/// The speed at position `i`, from fastest to slowest.
pub open spec fn speed_at(i: nat) -> Speed {
    if i == 0 {
        Speed::UltraBullet
    } else if i == 1 {
        Speed::Bullet
    } else if i == 2 {
        Speed::Blitz
    } else if i == 3 {
        Speed::Rapid
    } else if i == 4 {
        Speed::Classical
    } else {
        Speed::Correspondence
    }
}

/// The name of a speed in queries and responses.
pub open spec fn speed_name(sp: Speed) -> Seq<u8> {
    match sp {
        Speed::UltraBullet => "ultraBullet".spec_bytes(),
        Speed::Bullet => "bullet".spec_bytes(),
        Speed::Blitz => "blitz".spec_bytes(),
        Speed::Rapid => "rapid".spec_bytes(),
        Speed::Classical => "classical".spec_bytes(),
        Speed::Correspondence => "correspondence".spec_bytes(),
    }
}

/// The speed of a time control of `seconds` plus `increment` per move,
/// by the estimated duration `seconds + 40 * increment`.
pub open spec fn spec_speed_of(seconds: nat, increment: nat) -> Speed {
    let total = seconds + 40 * increment;
    if total < 30 {
        Speed::UltraBullet
    } else if total < 180 {
        Speed::Bullet
    } else if total < 480 {
        Speed::Blitz
    } else if total < 1500 {
        Speed::Rapid
    } else if total < 21_600 {
        Speed::Classical
    } else {
        Speed::Correspondence
    }
}

/// The name of a speed is unknown.
#[derive(Debug)]
pub struct InvalidSpeed;

impl Speed {
    /// The speed at position `i` (below `6`), from fastest to slowest.
    pub fn from_index(i: usize) -> (sp: Speed)
        requires
            i < 6,
        ensures
            sp == speed_at(i as nat),
            speed_index(sp) == i,
    {
        if i == 0 {
            Speed::UltraBullet
        } else if i == 1 {
            Speed::Bullet
        } else if i == 2 {
            Speed::Blitz
        } else if i == 3 {
            Speed::Rapid
        } else if i == 4 {
            Speed::Classical
        } else {
            Speed::Correspondence
        }
    }

    /// The position of the speed, from fastest to slowest.
    pub fn index(self) -> (i: usize)
        ensures
            i == speed_index(self),
            i < 6,
    {
        match self {
            Speed::UltraBullet => 0,
            Speed::Bullet => 1,
            Speed::Blitz => 2,
            Speed::Rapid => 3,
            Speed::Classical => 4,
            Speed::Correspondence => 5,
        }
    }

    /// The speed named `name` (`ultraBullet`, `bullet`, `blitz`, `rapid`,
    /// `classical` or `correspondence`).
    pub fn from_name(name: &[u8]) -> (r: Result<Speed, InvalidSpeed>)
        ensures
            match r {
                Ok(sp) => name@ == speed_name(sp),
                Err(_) => forall|sp: Speed| name@ != #[trigger] speed_name(sp),
            },
    {
        if bytes_eq(name, "ultraBullet".as_bytes()) {
            Ok(Speed::UltraBullet)
        } else if bytes_eq(name, "bullet".as_bytes()) {
            Ok(Speed::Bullet)
        } else if bytes_eq(name, "blitz".as_bytes()) {
            Ok(Speed::Blitz)
        } else if bytes_eq(name, "rapid".as_bytes()) {
            Ok(Speed::Rapid)
        } else if bytes_eq(name, "classical".as_bytes()) {
            Ok(Speed::Classical)
        } else if bytes_eq(name, "correspondence".as_bytes()) {
            Ok(Speed::Correspondence)
        } else {
            proof {
                assert forall|sp: Speed| name@ != #[trigger] speed_name(sp) by {
                    match sp {
                        Speed::UltraBullet => {},
                        Speed::Bullet => {},
                        Speed::Blitz => {},
                        Speed::Rapid => {},
                        Speed::Classical => {},
                        Speed::Correspondence => {},
                    }
                }
            }
            Err(InvalidSpeed)
        }
    }

    /// The speed of a time control of `seconds` plus `increment` seconds per
    /// move.
    pub fn from_seconds_and_increment(seconds: u64, increment: u64) -> (sp: Speed)
        requires
            seconds + 40 * increment <= u64::MAX,
        ensures
            sp == spec_speed_of(seconds as nat, increment as nat),
    {
        let total = seconds + 40 * increment;

        if total < 30 {
            Speed::UltraBullet
        } else if total < 180 {
            Speed::Bullet
        } else if total < 480 {
            Speed::Blitz
        } else if total < 1500 {
            Speed::Rapid
        } else if total < 21_600 {
            Speed::Classical
        } else {
            Speed::Correspondence
        }
    }
}

impl std::str::FromStr for Speed {
    type Err = InvalidSpeed;

    fn from_str(s: &str) -> (r: Result<Speed, InvalidSpeed>)
        ensures
            match r {
                Ok(sp) => s.spec_bytes() == speed_name(sp),
                Err(_) => forall|sp: Speed| s.spec_bytes() != #[trigger] speed_name(sp),
            },
    {
        Speed::from_name(s.as_bytes())
    }
}

/// One value for each speed.
#[derive(Debug, Default)]
pub struct BySpeed<T> {
    pub ultra_bullet: T,
    pub bullet: T,
    pub blitz: T,
    pub rapid: T,
    pub classical: T,
    pub correspondence: T,
}

impl<T> BySpeed<T> {
    /// The values in order, as `into_iter` yields them.
    pub fn into_vec(self) -> (v: Vec<T>)
        ensures
            v@ == seq![self.ultra_bullet, self.bullet, self.blitz, self.rapid, self.classical, self.correspondence],
    {
        let mut v: Vec<T> = Vec::new();
        v.push(self.ultra_bullet);
        v.push(self.bullet);
        v.push(self.blitz);
        v.push(self.rapid);
        v.push(self.classical);
        v.push(self.correspondence);
        proof {
            assert(v@ =~= seq![self.ultra_bullet, self.bullet, self.blitz, self.rapid, self.classical, self.correspondence]);
        }
        v
    }

    /// The value for `speed`.
    pub open spec fn get(self, speed: Speed) -> T {
        match speed {
            Speed::UltraBullet => self.ultra_bullet,
            Speed::Bullet => self.bullet,
            Speed::Blitz => self.blitz,
            Speed::Rapid => self.rapid,
            Speed::Classical => self.classical,
            Speed::Correspondence => self.correspondence,
        }
    }

    /// The same values, but the one for `speed` replaced by `v`.
    pub open spec fn set(self, speed: Speed, v: T) -> BySpeed<T> {
        match speed {
            Speed::UltraBullet => BySpeed { ultra_bullet: v, ..self },
            Speed::Bullet => BySpeed { bullet: v, ..self },
            Speed::Blitz => BySpeed { blitz: v, ..self },
            Speed::Rapid => BySpeed { rapid: v, ..self },
            Speed::Classical => BySpeed { classical: v, ..self },
            Speed::Correspondence => BySpeed { correspondence: v, ..self },
        }
    }

    /// The value for `speed`.
    pub fn by_speed(&self, speed: Speed) -> (r: &T)
        ensures
            *r == self.get(speed),
    {
        match speed {
            Speed::UltraBullet => &self.ultra_bullet,
            Speed::Bullet => &self.bullet,
            Speed::Blitz => &self.blitz,
            Speed::Rapid => &self.rapid,
            Speed::Classical => &self.classical,
            Speed::Correspondence => &self.correspondence,
        }
    }

    /// The value for `speed`, to change it in place.
    pub fn by_speed_mut(&mut self, speed: Speed) -> (r: &mut T)
        ensures
            *r == old(self).get(speed),
            *final(self) == old(self).set(speed, *final(r)),
    {
        match speed {
            Speed::UltraBullet => &mut self.ultra_bullet,
            Speed::Bullet => &mut self.bullet,
            Speed::Blitz => &mut self.blitz,
            Speed::Rapid => &mut self.rapid,
            Speed::Classical => &mut self.classical,
            Speed::Correspondence => &mut self.correspondence,
        }
    }

    /// References to the values.
    pub fn as_ref(&self) -> (r: BySpeed<&T>)
        ensures
            forall|sp: Speed| *#[trigger] r.get(sp) == self.get(sp),
    {
        BySpeed {
            ultra_bullet: &self.ultra_bullet,
            bullet: &self.bullet,
            blitz: &self.blitz,
            rapid: &self.rapid,
            classical: &self.classical,
            correspondence: &self.correspondence,
        }
    }

    /// Each value paired with its speed.
    pub fn zip_speed(self) -> (r: BySpeed<(Speed, T)>)
        ensures
            forall|sp: Speed| #[trigger] r.get(sp) == (sp, self.get(sp)),
    {
        BySpeed {
            ultra_bullet: (Speed::UltraBullet, self.ultra_bullet),
            bullet: (Speed::Bullet, self.bullet),
            blitz: (Speed::Blitz, self.blitz),
            rapid: (Speed::Rapid, self.rapid),
            classical: (Speed::Classical, self.classical),
            correspondence: (Speed::Correspondence, self.correspondence),
        }
    }
}

/// The speed of a time control is the class of its estimated duration,
/// the base time plus forty increments, by the bounds of 30 seconds, 3, 8
/// and 25 minutes and 6 hours: time controls of the same estimated duration
/// have the same speed, and more base time or a larger increment never
/// gives a faster speed.
pub proof fn lemma_speed_of_duration(s1: nat, i1: nat, s2: nat, i2: nat)
    ensures
        ({
            let t = s1 + 40 * i1;
            let sp = spec_speed_of(s1, i1);
            &&& (sp == Speed::UltraBullet <==> t < 30)
            &&& (sp == Speed::Bullet <==> 30 <= t < 180)
            &&& (sp == Speed::Blitz <==> 180 <= t < 480)
            &&& (sp == Speed::Rapid <==> 480 <= t < 1500)
            &&& (sp == Speed::Classical <==> 1500 <= t < 21_600)
            &&& (sp == Speed::Correspondence <==> 21_600 <= t)
        }),
        s1 + 40 * i1 == s2 + 40 * i2 ==> spec_speed_of(s1, i1) == spec_speed_of(s2, i2),
        s1 <= s2 && i1 <= i2 ==> speed_index(spec_speed_of(s1, i1)) <= speed_index(
            spec_speed_of(s2, i2),
        ),
        i1 <= i2 ==> speed_index(spec_speed_of(s1, i1)) <= speed_index(spec_speed_of(s1, i2)),
{
}

} // verus!
