//! The earlier indexer of an export: games are sampled by their time
//! control and the players' ratings, rewritten with their main tags and at
//! most fifty plies, and sent in batches of text.
use vstd::prelude::*;

use crate::pgn_import::{
    spec_black_elo, spec_lichess_id, spec_site, spec_standard, spec_time_control,
    spec_time_control_of, spec_time_control_parts, spec_unknown, spec_variant, spec_white_elo,
    spec_after_last_slash, InvalidTag, TimeControl,
};

verus! {

/// The most games in a batch.
pub const BATCH_SIZE: usize = 50;

/// The most plies of a game that are kept.
pub const MAX_INDEX_PLIES: usize = 50;

/// The denominator of sampling chances: chances are counted in 840ths.
pub const CHANCE_SCALE: u32 = 840;

/// A tag line: `[KEY "VALUE"]` and a line feed.
pub open spec fn spec_tag_line(key: Seq<u8>, value: Seq<u8>) -> Seq<u8> {
    seq![91u8] + key + seq![32u8, 34] + value + seq![34u8, 93, 10]
}

/// `[Variant "Standard"]` and a line feed.
pub open spec fn spec_standard_line() -> Seq<u8> {
    spec_tag_line(spec_variant(), spec_standard())
}

/// The value of `b` as `btoi::btoi::<i16>` reads it.
pub open spec fn spec_elo(b: Seq<u8>) -> Option<int> {
    crate::pgn_import::spec_btoi_i16(b)
}

/// The chance in 840ths that a game is sampled: by its time control and
/// mean rating for standard chess, always for variants.
pub open spec fn spec_chance(standard: bool, tc: TimeControl, rating: int) -> u32 {
    if !standard {
        840
    } else {
        match tc {
            TimeControl::Correspondence | TimeControl::Classical => 840,
            TimeControl::Rapid => if rating >= 2000 {
                840
            } else if rating >= 1800 {
                336
            } else {
                105
            },
            TimeControl::Blitz => if rating >= 2000 {
                840
            } else if rating >= 1800 {
                210
            } else {
                56
            },
            TimeControl::Bullet => if rating >= 2300 {
                840
            } else if rating >= 2200 {
                672
            } else if rating >= 2000 {
                210
            } else if rating >= 1800 {
                120
            } else {
                42
            },
            TimeControl::UltraBullet => 42,
        }
    }
}

/// The mean of two ratings, rounded toward zero.
pub open spec fn spec_mean(a: i16, b: i16) -> int {
    let s = a + b;
    if s >= 0 {
        s / 2
    } else {
        -((-s) / 2)
    }
}

/// `fastrand::u32(0..840)`: a number below 840 from the thread's generator.
#[verifier::external_body]
fn random_chance_roll() -> (r: u32)
    ensures
        r < 840,
{
    fastrand::u32(0..840)
}

/// Appends bytes.
fn push_all(buf: &mut Vec<u8>, b: &[u8])
    ensures
        final(buf)@ == old(buf)@ + b@,
{
    let ghost start = buf@;
    let mut i: usize = 0;
    while i < b.len()
        invariant
            i <= b@.len(),
            buf@ == start + b@.take(i as int),
        decreases b@.len() - i,
    {
        buf.push(b[i]);
        proof {
            assert(b@.take(i + 1) =~= b@.take(i as int).push(b@[i as int]));
        }
        i = i + 1;
    }
    proof {
        assert(b@.take(b@.len() as int) =~= b@);
    }
}

/// Appends a tag line.
fn push_tag_line(buf: &mut Vec<u8>, key: &[u8], value: &[u8])
    ensures
        final(buf)@ == old(buf)@ + spec_tag_line(key@, value@),
{
    let ghost start = buf@;
    buf.push(91);
    push_all(buf, key);
    buf.push(32);
    buf.push(34);
    push_all(buf, value);
    buf.push(34);
    buf.push(93);
    buf.push(10);
    proof {
        assert(buf@ =~= start + spec_tag_line(key@, value@));
    }
}

fn bytes_of(name: &[u8]) -> (v: Vec<u8>)
    ensures
        v@ == name@,
{
    crate::date::slice_range(name, 0, name.len())
}

/// Indexes the games of an export into batches of text.
#[derive(Debug)]
pub struct Indexer {
    pub context: String,
    pub white_elo: i16,
    pub black_elo: i16,
    pub time_control: TimeControl,
    pub skip: bool,
    pub current_game: Vec<u8>,
    pub plies: usize,
    pub standard: bool,
    pub batch: Vec<u8>,
    pub batch_size: usize,
}

impl Indexer {
    /// An indexer of the export named `context`: no game yet, skipping.
    pub fn new(context: &str) -> (idx: Indexer)
        ensures
            idx.context@ == context@,
            idx.white_elo == 0 && idx.black_elo == 0,
            idx.time_control == TimeControl::Correspondence,
            idx.skip,
            idx.current_game@.len() == 0,
            idx.plies == 0,
            idx.standard,
            idx.batch@.len() == 0,
            idx.batch_size == 0,
    {
        let mut c = String::new();
        crate::text::push_str(&mut c, context);
        Indexer {
            context: c,
            white_elo: 0,
            black_elo: 0,
            time_control: TimeControl::Correspondence,
            skip: true,
            current_game: Vec::new(),
            plies: 0,
            standard: true,
            batch: Vec::new(),
            batch_size: 0,
        }
    }

    /// A new game begins: no text, no ply.
    pub fn begin_game(&mut self)
        ensures
            final(self).current_game@.len() == 0,
            final(self).plies == 0,
            final(self).batch@ == old(self).batch@,
            final(self).batch_size == old(self).batch_size,
            final(self).skip == old(self).skip,
    {
        self.current_game.clear();
        self.plies = 0;
    }

    /// The tags begin: unrated, correspondence and standard until read.
    pub fn begin_headers(&mut self)
        ensures
            final(self).white_elo == 0 && final(self).black_elo == 0,
            final(self).time_control == TimeControl::Correspondence,
            final(self).standard,
            final(self).current_game@ == old(self).current_game@,
            final(self).batch@ == old(self).batch@,
            final(self).batch_size == old(self).batch_size,
            final(self).plies == old(self).plies,
    {
        self.white_elo = 0;
        self.black_elo = 0;
        self.time_control = TimeControl::Correspondence;
        self.standard = true;
    }

    /// Takes a tag: the ratings (`?` for zero), the time control and the
    /// variant are noted; every tag but a standard variant is written to the
    /// game's text, the site as `LichessID` with the end of its address.
    /// Fails on a rating or time control that cannot be read.
    pub fn header(&mut self, key: &[u8], value: &[u8]) -> (r: Result<(), InvalidTag>)
        ensures
            final(self).batch@ == old(self).batch@,
            final(self).batch_size == old(self).batch_size,
            final(self).plies == old(self).plies,
            key@ == spec_white_elo() && value@ == spec_unknown() ==> r is Ok && final(self).white_elo == 0,
            key@ == spec_white_elo() && value@ != spec_unknown() ==> match spec_elo(value@) {
                Some(v) => r is Ok && final(self).white_elo == v,
                None => r is Err,
            },
            key@ == spec_black_elo() && value@ == spec_unknown() ==> r is Ok && final(self).black_elo == 0,
            key@ == spec_black_elo() && value@ != spec_unknown() ==> match spec_elo(value@) {
                Some(v) => r is Ok && final(self).black_elo == v,
                None => r is Err,
            },
            key@ == spec_time_control() && value@ == seq![45u8] ==> r is Ok && final(self).time_control
                == TimeControl::Correspondence,
            key@ == spec_time_control() && value@ != seq![45u8] ==> match spec_time_control_parts(value@) {
                Some((s, inc)) => r is Ok && final(self).time_control == spec_time_control_of(s, inc),
                None => r is Err,
            },
            key@ == spec_variant() ==> final(self).standard == (value@ == spec_standard()),
            key@ == spec_variant() && value@ == spec_standard() ==> r is Ok && final(self).current_game@
                == old(self).current_game@,
            r is Ok && key@ == spec_site() ==> final(self).current_game@ == old(self).current_game@
                + spec_tag_line(spec_lichess_id(), spec_after_last_slash(value@)),
            r is Ok && key@ != spec_site() && !(key@ == spec_variant() && value@ == spec_standard())
                ==> final(self).current_game@ == old(self).current_game@ + spec_tag_line(key@, value@),
    {
        let white_elo = crate::pgn_import::white_elo_bytes();
        let black_elo = crate::pgn_import::black_elo_bytes();
        let time_control = crate::pgn_import::time_control_bytes();
        let variant = crate::pgn_import::variant_bytes();
        let unknown = crate::pgn_import::unknown_bytes();
        if crate::buf::bytes_eq(key, white_elo.as_slice()) {
            self.white_elo = if crate::buf::bytes_eq(value, unknown.as_slice()) {
                0
            } else {
                match crate::pgn_import::parse_i16(value) {
                    Some(v) => v,
                    None => return Err(InvalidTag),
                }
            };
        } else if crate::buf::bytes_eq(key, black_elo.as_slice()) {
            self.black_elo = if crate::buf::bytes_eq(value, unknown.as_slice()) {
                0
            } else {
                match crate::pgn_import::parse_i16(value) {
                    Some(v) => v,
                    None => return Err(InvalidTag),
                }
            };
        } else if crate::buf::bytes_eq(key, time_control.as_slice()) {
            match TimeControl::from_bytes(value) {
                Ok(tc) => self.time_control = tc,
                Err(_) => return Err(InvalidTag),
            }
        } else if crate::buf::bytes_eq(key, variant.as_slice()) {
            let standard = crate::pgn_import::standard_bytes();
            self.standard = crate::buf::bytes_eq(value, standard.as_slice());
            if self.standard {
                return Ok(());
            }
        }
        let site = crate::pgn_import::site_bytes();
        if crate::buf::bytes_eq(key, site.as_slice()) {
            let id = crate::pgn_import::after_last_slash(value);
            let k = crate::pgn_import::lichess_id_bytes();
            push_tag_line(&mut self.current_game, k.as_slice(), id.as_slice());
        } else {
            push_tag_line(&mut self.current_game, key, value);
        }
        Ok(())
    }

    /// The tags are read, with the chance roll `roll` (below 840): the
    /// standard variant's tag and an empty line end the tags; the game is
    /// kept when both players are rated at least 1500 and the roll is below
    /// its chance. Gives whether the game is skipped.
    pub fn end_headers_with(&mut self, roll: u32) -> (skip: bool)
        requires
            roll < 840,
        ensures
            skip == final(self).skip,
            final(self).current_game@ == old(self).current_game@ + (if old(self).standard {
                spec_standard_line()
            } else {
                Seq::empty()
            }) + seq![10u8],
            final(self).skip == !((if old(self).white_elo < old(self).black_elo {
                old(self).white_elo
            } else {
                old(self).black_elo
            }) >= 1500 && roll < spec_chance(
                old(self).standard,
                old(self).time_control,
                spec_mean(old(self).white_elo, old(self).black_elo),
            )),
            final(self).batch@ == old(self).batch@,
            final(self).batch_size == old(self).batch_size,
            final(self).plies == old(self).plies,
    {
        let s: i32 = self.white_elo as i32 + self.black_elo as i32;
        let rating: i32 = if s >= 0 {
            s / 2
        } else {
            -((-s) / 2)
        };
        let chance: u32 = if self.standard {
            let v = crate::pgn_import::variant_bytes();
            let st = crate::pgn_import::standard_bytes();
            push_tag_line(&mut self.current_game, v.as_slice(), st.as_slice());
            match self.time_control {
                TimeControl::Correspondence | TimeControl::Classical => 840,
                TimeControl::Rapid => if rating >= 2000 {
                    840
                } else if rating >= 1800 {
                    336
                } else {
                    105
                },
                TimeControl::Blitz => if rating >= 2000 {
                    840
                } else if rating >= 1800 {
                    210
                } else {
                    56
                },
                TimeControl::Bullet => if rating >= 2300 {
                    840
                } else if rating >= 2200 {
                    672
                } else if rating >= 2000 {
                    210
                } else if rating >= 1800 {
                    120
                } else {
                    42
                },
                TimeControl::UltraBullet => 42,
            }
        } else {
            840
        };
        self.current_game.push(10);
        let lowest = if self.white_elo < self.black_elo {
            self.white_elo
        } else {
            self.black_elo
        };
        let accept = lowest >= 1500 && roll < chance;
        self.skip = !accept;
        self.skip
    }

    /// The tags are read: as `end_headers_with`, the roll drawn at random.
    pub fn end_headers(&mut self) -> (skip: bool)
        ensures
            skip == final(self).skip,
            final(self).current_game@ == old(self).current_game@ + (if old(self).standard {
                spec_standard_line()
            } else {
                Seq::empty()
            }) + seq![10u8],
            (if old(self).white_elo < old(self).black_elo {
                old(self).white_elo
            } else {
                old(self).black_elo
            }) < 1500 ==> final(self).skip,
            final(self).batch@ == old(self).batch@,
            final(self).batch_size == old(self).batch_size,
    {
        let roll = random_chance_roll();
        self.end_headers_with(roll)
    }

    /// Takes a move of the main line in SAN: the first fifty are written,
    /// separated by spaces.
    pub fn san(&mut self, san: &[u8])
        ensures
            old(self).plies < MAX_INDEX_PLIES ==> final(self).plies == old(self).plies + 1
                && final(self).current_game@ == old(self).current_game@ + (if old(self).plies > 0 {
                seq![32u8]
            } else {
                Seq::empty()
            }) + san@,
            old(self).plies >= MAX_INDEX_PLIES ==> final(self).plies == old(self).plies
                && final(self).current_game@ == old(self).current_game@,
            final(self).batch@ == old(self).batch@,
            final(self).batch_size == old(self).batch_size,
            final(self).skip == old(self).skip,
    {
        if self.plies < MAX_INDEX_PLIES {
            let ghost start = self.current_game@;
            if self.plies > 0 {
                self.current_game.push(32);
            }
            push_all(&mut self.current_game, san);
            self.plies = self.plies + 1;
            proof {
                assert(self.current_game@ =~= start + (if old(self).plies > 0 {
                    seq![32u8]
                } else {
                    Seq::empty()
                }) + san@);
            }
        }
    }

    /// Variations are skipped: only the main line is read.
    pub fn begin_variation(&self) -> (skip: bool)
        ensures
            skip,
    {
        true
    }

    /// The game is read: a kept game of more than eight plies joins the
    /// batch, after three line feeds if the batch has games; a full batch is
    /// first handed out to be sent.
    pub fn end_game(&mut self) -> (sent: Option<Vec<u8>>)
        ensures
            (old(self).skip || old(self).plies <= 8) ==> sent is None && final(self).batch@ == old(self).batch@
                && final(self).batch_size == old(self).batch_size,
            !(old(self).skip || old(self).plies <= 8) && old(self).batch_size >= BATCH_SIZE ==> sent
                == Some(old(self).batch) && final(self).batch@ == old(self).current_game@
                && final(self).batch_size == 1,
            !(old(self).skip || old(self).plies <= 8) && old(self).batch_size < BATCH_SIZE ==> sent is None
                && final(self).batch@ == old(self).batch@ + (if old(self).batch_size > 0 {
                seq![10u8, 10, 10]
            } else {
                Seq::empty()
            }) + old(self).current_game@ && final(self).batch_size == old(self).batch_size + 1,
    {
        if self.skip || self.plies <= 8 {
            return None;
        }
        let sent = if self.batch_size >= BATCH_SIZE {
            self.send()
        } else {
            None
        };
        let ghost start = self.batch@;
        if self.batch_size > 0 {
            self.batch.push(10);
            self.batch.push(10);
            self.batch.push(10);
        }
        let game = bytes_of(self.current_game.as_slice());
        push_all(&mut self.batch, game.as_slice());
        self.batch_size = self.batch_size + 1;
        proof {
            assert(self.batch@ =~= start + (if old(self).batch_size >= BATCH_SIZE || old(self).batch_size == 0 {
                Seq::empty()
            } else {
                seq![10u8, 10, 10]
            }) + old(self).current_game@);
        }
        sent
    }

    /// Hands out the batch to be sent, if it has games, leaving an empty
    /// one.
    pub fn send(&mut self) -> (sent: Option<Vec<u8>>)
        ensures
            old(self).batch_size > 0 ==> sent == Some(old(self).batch) && final(self).batch@.len() == 0
                && final(self).batch_size == 0,
            old(self).batch_size == 0 ==> sent is None && final(self).batch@ == old(self).batch@
                && final(self).batch_size == 0,
            final(self).current_game@ == old(self).current_game@,
            final(self).skip == old(self).skip,
            final(self).plies == old(self).plies,
    {
        if self.batch_size > 0 {
            self.batch_size = 0;
            let mut b: Vec<u8> = Vec::new();
            std::mem::swap(&mut b, &mut self.batch);
            Some(b)
        } else {
            None
        }
    }
}

} // verus!
