//! Rated and casual games, and a container with one value for each.
use vstd::prelude::*;

use crate::buf::bytes_eq;
use vstd::string::StringSliceAdditionalSpecFns;

verus! {

#[derive(Clone, Copy, Debug, PartialEq, Eq, Structural)]
pub enum Mode {
    Rated,
    Casual,
}

/// The name of a mode in queries.
pub open spec fn mode_name(m: Mode) -> Seq<u8> {
    match m {
        Mode::Rated => "rated".spec_bytes(),
        Mode::Casual => "casual".spec_bytes(),
    }
}

/// The name of a mode is unknown.
#[derive(Debug)]
pub struct InvalidMode;

impl Mode {
    /// Rated if `rated`, else casual.
    pub fn from_rated(rated: bool) -> (m: Mode)
        ensures
            m == (if rated { Mode::Rated } else { Mode::Casual }),
    {
        if rated {
            Mode::Rated
        } else {
            Mode::Casual
        }
    }

    /// Whether the mode is rated.
    pub fn is_rated(self) -> (b: bool)
        ensures
            b == (self == Mode::Rated),
    {
        self == Mode::Rated
    }

    /// The mode named `name` (`rated` or `casual`).
    pub fn from_name(name: &[u8]) -> (r: Result<Mode, InvalidMode>)
        ensures
            match r {
                Ok(m) => name@ == mode_name(m),
                Err(_) => name@ != mode_name(Mode::Rated) && name@ != mode_name(Mode::Casual),
            },
    {
        if bytes_eq(name, "rated".as_bytes()) {
            Ok(Mode::Rated)
        } else if bytes_eq(name, "casual".as_bytes()) {
            Ok(Mode::Casual)
        } else {
            Err(InvalidMode)
        }
    }
}

impl std::str::FromStr for Mode {
    type Err = InvalidMode;

    fn from_str(s: &str) -> (r: Result<Mode, InvalidMode>)
        ensures
            match r {
                Ok(m) => s.spec_bytes() == mode_name(m),
                Err(_) => s.spec_bytes() != mode_name(Mode::Rated) && s.spec_bytes() != mode_name(
                    Mode::Casual,
                ),
            },
    {
        Mode::from_name(s.as_bytes())
    }
}

/// One value for each mode.
#[derive(Debug, Default)]
pub struct ByMode<T> {
    pub rated: T,
    pub casual: T,
}

impl<T> ByMode<T> {
    /// The values in order, as `into_iter` yields them.
    pub fn into_vec(self) -> (v: Vec<T>)
        ensures
            v@ == seq![self.rated, self.casual],
    {
        let mut v: Vec<T> = Vec::new();
        v.push(self.rated);
        v.push(self.casual);
        proof {
            assert(v@ =~= seq![self.rated, self.casual]);
        }
        v
    }

    /// The value for `mode`.
    pub open spec fn get(self, mode: Mode) -> T {
        match mode {
            Mode::Rated => self.rated,
            Mode::Casual => self.casual,
        }
    }

    /// The same values, but the one for `mode` replaced by `v`.
    pub open spec fn set(self, mode: Mode, v: T) -> ByMode<T> {
        match mode {
            Mode::Rated => ByMode { rated: v, ..self },
            Mode::Casual => ByMode { casual: v, ..self },
        }
    }

    /// The value for `mode`.
    pub fn by_mode(&self, mode: Mode) -> (r: &T)
        ensures
            *r == self.get(mode),
    {
        match mode {
            Mode::Rated => &self.rated,
            Mode::Casual => &self.casual,
        }
    }

    /// The value for `mode`, to change it in place.
    pub fn by_mode_mut(&mut self, mode: Mode) -> (r: &mut T)
        ensures
            *r == old(self).get(mode),
            *final(self) == old(self).set(mode, *final(r)),
    {
        match mode {
            Mode::Rated => &mut self.rated,
            Mode::Casual => &mut self.casual,
        }
    }

    /// References to the values.
    pub fn as_ref(&self) -> (r: ByMode<&T>)
        ensures
            *r.rated == self.rated,
            *r.casual == self.casual,
    {
        ByMode { rated: &self.rated, casual: &self.casual }
    }

    /// Each value paired with its mode.
    pub fn zip_mode(self) -> (r: ByMode<(Mode, T)>)
        ensures
            r.rated == (Mode::Rated, self.rated),
            r.casual == (Mode::Casual, self.casual),
    {
        ByMode { rated: (Mode::Rated, self.rated), casual: (Mode::Casual, self.casual) }
    }

    /// Maps each value with its mode through `f`, rated first; the first
    /// error stops the map and is the result.
    pub fn try_map<U, E, F: Fn(Mode, T) -> Result<U, E>>(self, f: F) -> (r: Result<ByMode<U>, E>)
        requires
            f.requires((Mode::Rated, self.rated)),
            f.requires((Mode::Casual, self.casual)),
        ensures
            match r {
                Ok(m) => f.ensures((Mode::Rated, self.rated), Ok(m.rated)) && f.ensures(
                    (Mode::Casual, self.casual),
                    Ok(m.casual),
                ),
                Err(e) => f.ensures((Mode::Rated, self.rated), Err(e)) || exists|u: U|
                    f.ensures((Mode::Rated, self.rated), Ok(u)) && f.ensures(
                        (Mode::Casual, self.casual),
                        Err(e),
                    ),
            },
    {
        let rated = match f(Mode::Rated, self.rated) {
            Ok(u) => u,
            Err(e) => {
                return Err(e);
            },
        };
        let casual = match f(Mode::Casual, self.casual) {
            Ok(u) => u,
            Err(e) => {
                return Err(e);
            },
        };
        Ok(ByMode { rated, casual })
    }
}

} // verus!
