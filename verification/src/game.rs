//! What the database keeps of a game of the server: its outcome, speed,
//! mode, players, month and by whom it was indexed, packed into bytes, and
//! how two records of one game merge.
use vstd::prelude::*;

use crate::buf::{le_bytes, le_value, lemma_pow256_8, put_uint_le, Reader};
use crate::chess::{Color, Outcome};
use crate::date::Month;
use crate::mode::Mode;
use crate::speed::{speed_at, speed_index, Speed};
use crate::uint::{encode_uint, read_uint, spec_read_uint, write_uint};
use vstd::utf8::{decode_utf8, encode_utf8, valid_utf8};

verus! {

broadcast use vstd::utf8::encode_utf8_valid_utf8, vstd::utf8::encode_utf8_decode_utf8, vstd::utf8::decode_utf8_encode_utf8;

/// `String::from_utf8`: the string of `bytes` if they are valid UTF-8.
#[verifier::external_body]
pub(crate) fn string_from_utf8(bytes: Vec<u8>) -> (r: Option<String>)
    ensures
        r is Some == valid_utf8(bytes@),
        r is Some ==> r->0@ == decode_utf8(bytes@),
{
    String::from_utf8(bytes).ok()
}

/// One value for each color.
#[derive(Debug, Clone, Copy, PartialEq, Eq, Structural, Default)]
pub struct ByColor<T> {
    pub white: T,
    pub black: T,
}

impl<T> ByColor<T> {
    /// The value for `color`.
    pub open spec fn spec_get(self, color: Color) -> T {
        match color {
            Color::White => self.white,
            Color::Black => self.black,
        }
    }

    /// The value for `color`.
    pub fn get(&self, color: Color) -> (r: &T)
        ensures
            *r == self.spec_get(color),
    {
        match color {
            Color::White => &self.white,
            Color::Black => &self.black,
        }
    }
}

/// A player of a game: the name and the rating.
#[derive(Debug, Clone)]
pub struct GamePlayer {
    pub name: String,
    pub rating: u16,
}

/// A player as a value: the bytes of the name and the rating.
pub type PlayerModel = (Seq<u8>, u16);

impl View for GamePlayer {
    type V = PlayerModel;

    open spec fn view(&self) -> PlayerModel {
        (encode_utf8(self.name@), self.rating)
    }
}

/// The written form of a player: the length of the name, the name, and the
/// rating in two bytes, little endian.
pub open spec fn spec_player_bytes(p: PlayerModel) -> Seq<u8> {
    encode_uint(p.0.len()) + p.0 + le_bytes(p.1 as nat, 2)
}

/// Reading a player: the player and the bytes that follow, or nothing when
/// the bytes end early or the name is not UTF-8.
pub open spec fn spec_read_player(b: Seq<u8>) -> Option<(PlayerModel, Seq<u8>)> {
    match spec_read_uint(b) {
        None => None,
        Some((len, l)) => {
            let rest = b.skip(l as int);
            if rest.len() < len + 2 || !valid_utf8(rest.take(len as int)) {
                None
            } else {
                Some(
                    (
                        (rest.take(len as int), le_value(rest.skip(len as int).take(2)) as u16),
                        rest.skip(len + 2),
                    ),
                )
            }
        },
    }
}

impl GamePlayer {
    /// Appends the written form.
    pub fn write(&self, buf: &mut Vec<u8>)
        ensures
            final(buf)@ == old(buf)@ + spec_player_bytes(self@),
    {
        let ghost start = buf@;
        let bytes = self.name.as_str().as_bytes();
        proof {
            assert(bytes@ == encode_utf8(self.name@));
        }
        write_uint(buf, bytes.len() as u64);
        let mut i: usize = 0;
        let ghost mid = buf@;
        while i < bytes.len()
            invariant
                i <= bytes@.len(),
                buf@ == mid + bytes@.take(i as int),
            decreases bytes@.len() - i,
        {
            buf.push(bytes[i]);
            proof {
                assert(buf@ =~= mid + bytes@.take(i + 1));
            }
            i = i + 1;
        }
        put_uint_le(buf, self.rating as u64, 2);
        proof {
            assert(bytes@.take(i as int) =~= bytes@);
            assert(buf@ =~= start + spec_player_bytes(self@));
        }
    }

    /// Reads a player; nothing when the bytes end early or the name is not
    /// UTF-8.
    pub fn read(reader: &mut Reader) -> (r: Option<GamePlayer>)
        ensures
            match spec_read_player(old(reader)@) {
                None => r is None,
                Some((p, rest)) => r matches Some(g) && g@ == p && final(reader)@ == rest,
            },
    {
        let ghost b = reader@;
        proof {
            crate::uint::lemma_read_uint_len(b);
        }
        let len = match read_uint(reader) {
            Some(len) => len,
            None => return None,
        };
        if (reader.remaining() as u64) < 2 || len > reader.remaining() as u64 - 2 {
            return None;
        }
        let name = match reader.read_bytes(len as usize) {
            Some(name) => name,
            None => return None,
        };
        let ghost nb = name@;
        let rating = match reader.read_uint_le(2) {
            Some(v) => v,
            None => return None,
        };
        proof {
            lemma_pow256_8();
            let l = spec_read_uint(b).unwrap().1;
            let rest = b.skip(l as int);
            assert(reader@ =~= rest.skip(len + 2));
        }
        let name = match string_from_utf8(name) {
            Some(s) => s,
            None => return None,
        };
        Some(GamePlayer { name, rating: rating as u16 })
    }
}

/// A game as a value.
pub struct LichessGameModel {
    pub outcome: Outcome,
    pub speed: Speed,
    pub mode: Mode,
    pub white: PlayerModel,
    pub black: PlayerModel,
    pub month: u16,
    pub indexed_white: bool,
    pub indexed_black: bool,
    pub indexed_lichess: bool,
}

/// The number of an outcome: `0` for a black win, `1` for a white win, `2`
/// for a draw.
pub open spec fn outcome_code(o: Outcome) -> nat {
    match o {
        Outcome::Decisive { winner: Color::Black } => 0,
        Outcome::Decisive { winner: Color::White } => 1,
        Outcome::Draw => 2,
    }
}

pub open spec fn bit(b: bool) -> nat {
    if b {
        1
    } else {
        0
    }
}

/// The first byte of a written game: the speed in the low three bits, the
/// outcome in the next two, then whether it is rated, and whether it was
/// indexed for white and for black.
pub open spec fn spec_game_flags(
    speed: Speed,
    outcome: Outcome,
    mode: Mode,
    iw: bool,
    ib: bool,
) -> u8 {
    (speed_index(speed) + 8 * outcome_code(outcome) + 32 * bit(mode == Mode::Rated) + 64 * bit(iw)
        + 128 * bit(ib)) as u8
}

/// The written form of a game: the first byte, the two players, the month
/// in two bytes, little endian, and whether it was indexed for the server's
/// explorer.
pub open spec fn spec_lichess_game_bytes(g: LichessGameModel) -> Seq<u8> {
    seq![spec_game_flags(g.speed, g.outcome, g.mode, g.indexed_white, g.indexed_black)]
        + spec_player_bytes(g.white) + spec_player_bytes(g.black) + le_bytes(g.month as nat, 2)
        + seq![bit(g.indexed_lichess) as u8]
}

/// The outcome of a number.
pub open spec fn spec_outcome_of(code: nat) -> Outcome {
    if code == 0 {
        Outcome::Decisive { winner: Color::Black }
    } else if code == 1 {
        Outcome::Decisive { winner: Color::White }
    } else {
        Outcome::Draw
    }
}

/// Reading a written game; nothing when the bytes end early, the speed or
/// outcome is unknown, a name is not UTF-8 or the month is out of range.
pub open spec fn spec_read_lichess_game(b: Seq<u8>) -> Option<LichessGameModel> {
    if b.len() == 0 {
        None
    } else {
        let n = b[0];
        if n % 8 > 5 || (n / 8) % 4 == 3 {
            None
        } else {
            match spec_read_player(b.drop_first()) {
                None => None,
                Some((white, r1)) => match spec_read_player(r1) {
                    None => None,
                    Some((black, r2)) => if r2.len() < 3 {
                        None
                    } else {
                        let month = le_value(r2.take(2)) as u16;
                        if !Month::spec_from(month).wf() {
                            None
                        } else {
                            Some(
                                LichessGameModel {
                                    outcome: spec_outcome_of(((n / 8) % 4) as nat),
                                    speed: speed_at((n % 8) as nat),
                                    mode: if (n / 32) % 2 == 1 {
                                        Mode::Rated
                                    } else {
                                        Mode::Casual
                                    },
                                    white,
                                    black,
                                    month,
                                    indexed_white: (n / 64) % 2 == 1,
                                    indexed_black: n / 128 == 1,
                                    indexed_lichess: r2[2] != 0,
                                },
                            )
                        }
                    },
                },
            }
        }
    }
}

/// A game of the server as the database keeps it.
#[derive(Debug)]
pub struct LichessGame {
    pub outcome: Outcome,
    pub speed: Speed,
    pub mode: Mode,
    pub players: ByColor<GamePlayer>,
    pub month: Month,
    pub indexed_player: ByColor<bool>,
    pub indexed_lichess: bool,
}

impl View for LichessGame {
    type V = LichessGameModel;

    open spec fn view(&self) -> LichessGameModel {
        LichessGameModel {
            outcome: self.outcome,
            speed: self.speed,
            mode: self.mode,
            white: self.players.white@,
            black: self.players.black@,
            month: self.month.value(),
            indexed_white: self.indexed_player.white,
            indexed_black: self.indexed_player.black,
            indexed_lichess: self.indexed_lichess,
        }
    }
}

/// The bytes are not a written game.
#[derive(Debug)]
pub struct InvalidGame;

/// The first byte of a written game.
pub(crate) fn game_flags(speed: Speed, outcome: Outcome, mode: Mode, iw: bool, ib: bool) -> (b: u8)
    ensures
        b == spec_game_flags(speed, outcome, mode, iw, ib),
{
    let o: u8 = match outcome {
        Outcome::Decisive { winner: Color::Black } => 0,
        Outcome::Decisive { winner: Color::White } => 1,
        Outcome::Draw => 2,
    };
    (speed.index() as u8) + 8 * o + if mode.is_rated() {
        32
    } else {
        0
    } + if iw {
        64
    } else {
        0
    } + if ib {
        128
    } else {
        0
    }
}

/// The speed, outcome, mode and indexed flags of a first byte, if the speed
/// and outcome are known.
pub(crate) fn read_game_flags(n: u8) -> (r: Option<(Speed, Outcome, Mode, bool, bool)>)
    ensures
        n % 8 > 5 || (n / 8) % 4 == 3 ==> r is None,
        !(n % 8 > 5 || (n / 8) % 4 == 3) ==> r == Some(
            (
                speed_at((n % 8) as nat),
                spec_outcome_of(((n / 8) % 4) as nat),
                if (n / 32) % 2 == 1 {
                    Mode::Rated
                } else {
                    Mode::Casual
                },
                (n / 64) % 2 == 1,
                n / 128 == 1,
            ),
        ),
{
    if n % 8 > 5 || (n / 8) % 4 == 3 {
        return None;
    }
    let speed = Speed::from_index((n % 8) as usize);
    let code = (n / 8) % 4;
    let outcome = if code == 0 {
        Outcome::Decisive { winner: Color::Black }
    } else if code == 1 {
        Outcome::Decisive { winner: Color::White }
    } else {
        Outcome::Draw
    };
    let mode = Mode::from_rated((n / 32) % 2 == 1);
    Some((speed, outcome, mode, (n / 64) % 2 == 1, n / 128 == 1))
}

impl LichessGame {
    /// The number of bytes that a written game usually takes at most.
    pub const SIZE_HINT: usize = 49;

    /// Appends the written form.
    pub fn write(&self, buf: &mut Vec<u8>)
        ensures
            final(buf)@ == old(buf)@ + spec_lichess_game_bytes(self@),
    {
        let ghost start = buf@;
        buf.push(
            game_flags(
                self.speed,
                self.outcome,
                self.mode,
                self.indexed_player.white,
                self.indexed_player.black,
            ),
        );
        self.players.white.write(buf);
        self.players.black.write(buf);
        put_uint_le(buf, self.month.to_u16() as u64, 2);
        buf.push(
            if self.indexed_lichess {
                1
            } else {
                0
            },
        );
        proof {
            assert(buf@ =~= start + spec_lichess_game_bytes(self@));
        }
    }

    /// Reads a written game.
    pub fn read(reader: &mut Reader) -> (r: Result<LichessGame, InvalidGame>)
        ensures
            match spec_read_lichess_game(old(reader)@) {
                None => r is Err,
                Some(g) => r matches Ok(v) && v@ == g,
            },
    {
        let ghost b = reader@;
        let n = match reader.read_u8() {
            Some(n) => n,
            None => return Err(InvalidGame),
        };
        let (speed, outcome, mode, iw, ib) = match read_game_flags(n) {
            Some(f) => f,
            None => return Err(InvalidGame),
        };
        let white = match GamePlayer::read(reader) {
            Some(p) => p,
            None => return Err(InvalidGame),
        };
        let black = match GamePlayer::read(reader) {
            Some(p) => p,
            None => return Err(InvalidGame),
        };
        let ghost r2 = reader@;
        if reader.remaining() < 3 {
            return Err(InvalidGame);
        }
        proof {
            lemma_pow256_8();
        }
        let m = match reader.read_uint_le(2) {
            Some(m) => m as u16,
            None => return Err(InvalidGame),
        };
        let month = match Month::try_from_u16(m) {
            Ok(month) => month,
            Err(_) => {
                proof {
                    Month::lemma_from(m);
                }
                return Err(InvalidGame);
            },
        };
        let last = match reader.read_u8() {
            Some(x) => x,
            None => return Err(InvalidGame),
        };
        proof {
            assert(r2.skip(2)[0] == r2[2]);
            Month::lemma_from(m);
        }
        Ok(
            LichessGame {
                outcome,
                speed,
                mode,
                players: ByColor { white, black },
                month,
                indexed_player: ByColor { white: iw, black: ib },
                indexed_lichess: last != 0,
            },
        )
    }
}

/// The record of a game after merging `new` over `old`: the newer record,
/// with the indexed flags of both.
pub open spec fn spec_merge_games(old: LichessGameModel, new: LichessGameModel) -> LichessGameModel {
    LichessGameModel {
        indexed_white: new.indexed_white || old.indexed_white,
        indexed_black: new.indexed_black || old.indexed_black,
        indexed_lichess: new.indexed_lichess || old.indexed_lichess,
        ..new
    }
}

/// Merging written records of a game in order, starting from `acc`.
pub open spec fn spec_merge_game_records(acc: Option<LichessGameModel>, ops: Seq<Seq<u8>>) -> Option<
    Option<LichessGameModel>,
>
    decreases ops.len(),
{
    if ops.len() == 0 {
        Some(acc)
    } else {
        match spec_read_lichess_game(ops[0]) {
            None => None,
            Some(g) => spec_merge_game_records(
                match acc {
                    Some(o) => Some(spec_merge_games(o, g)),
                    None => Some(g),
                },
                ops.drop_first(),
            ),
        }
    }
}

/// Merges the written records of a game in order: the latest record, with
/// the indexed flags of all. Nothing when there is no record; an error when
/// a record cannot be read.
pub fn merge_game_records(records: &[&[u8]]) -> (r: Result<Option<Vec<u8>>, InvalidGame>)
    ensures
        match spec_merge_game_records(None, records@.map_values(|x: &[u8]| x@)) {
            None => r is Err,
            Some(None) => r matches Ok(None),
            Some(Some(g)) => r matches Ok(Some(b)) && b@ == spec_lichess_game_bytes(g),
        },
{
    let ghost ops = records@.map_values(|x: &[u8]| x@);
    let mut info: Option<LichessGame> = None;
    let mut i: usize = 0;
    proof {
        assert(ops.skip(0) =~= ops);
    }
    while i < records.len()
        invariant
            i <= records@.len(),
            ops == records@.map_values(|x: &[u8]| x@),
            spec_merge_game_records(None, ops) == spec_merge_game_records(
                match info {
                    Some(g) => Some(g@),
                    None => None,
                },
                ops.skip(i as int),
            ),
        decreases records@.len() - i,
    {
        let mut reader = Reader::new(records[i]);
        let mut new_info = match LichessGame::read(&mut reader) {
            Ok(g) => g,
            Err(e) => {
                proof {
                    assert(ops.skip(i as int)[0] == records@[i as int]@);
                }
                return Err(e);
            },
        };
        match info {
            Some(old_info) => {
                new_info.indexed_player.white = new_info.indexed_player.white
                    || old_info.indexed_player.white;
                new_info.indexed_player.black = new_info.indexed_player.black
                    || old_info.indexed_player.black;
                new_info.indexed_lichess = new_info.indexed_lichess || old_info.indexed_lichess;
            },
            None => {},
        }
        proof {
            assert(ops.skip(i as int)[0] == records@[i as int]@);
            assert(ops.skip(i as int).drop_first() =~= ops.skip(i + 1));
        }
        info = Some(new_info);
        i = i + 1;
    }
    match info {
        Some(g) => {
            let mut buf: Vec<u8> = Vec::new();
            g.write(&mut buf);
            proof {
                assert(ops.skip(i as int) =~= Seq::<Seq<u8>>::empty());
                assert(buf@ =~= spec_lichess_game_bytes(g@));
            }
            Ok(Some(buf))
        },
        None => {
            proof {
                assert(ops.skip(i as int) =~= Seq::<Seq<u8>>::empty());
            }
            Ok(None)
        },
    }
}


pub(crate) proof fn lemma_player_roundtrip(p: PlayerModel, t: Seq<u8>)
    requires
        valid_utf8(p.0),
        p.0.len() <= u64::MAX,
    ensures
        spec_read_player(spec_player_bytes(p) + t) == Some((p, t)),
{
    let e = encode_uint(p.0.len());
    let rb = le_bytes(p.1 as nat, 2);
    let b = spec_player_bytes(p) + t;
    assert(b =~= e + (p.0 + rb + t));
    crate::uint::lemma_uint_roundtrip(p.0.len() as u64, p.0 + rb + t);
    crate::uint::lemma_skip_concat(e, p.0 + rb + t);
    let rest = p.0 + rb + t;
    assert(rest.take(p.0.len() as int) =~= p.0);
    crate::buf::lemma_le_roundtrip(p.1 as nat, 2);
    lemma_pow256_8();
    assert(rest.skip(p.0.len() as int).take(2) =~= rb);
    assert(rest.skip((p.0.len() + 2) as int) =~= t);
}

/// Reading back a written game gives the same game, when its names are
/// UTF-8 and its month is in range.
pub proof fn lemma_lichess_game_roundtrip(g: LichessGameModel, t: Seq<u8>)
    requires
        valid_utf8(g.white.0),
        valid_utf8(g.black.0),
        g.white.0.len() <= u64::MAX,
        g.black.0.len() <= u64::MAX,
        Month::spec_from(g.month).wf(),
    ensures
        spec_read_lichess_game(spec_lichess_game_bytes(g) + t) == Some(g),
{
    let f = spec_game_flags(g.speed, g.outcome, g.mode, g.indexed_white, g.indexed_black);
    let w = spec_player_bytes(g.white);
    let k = spec_player_bytes(g.black);
    let m = le_bytes(g.month as nat, 2);
    let last = seq![bit(g.indexed_lichess) as u8];
    let b = spec_lichess_game_bytes(g) + t;
    assert(b =~= seq![f] + (w + (k + (m + last + t))));
    assert(b.drop_first() =~= w + (k + (m + last + t)));
    lemma_player_roundtrip(g.white, k + (m + last + t));
    lemma_player_roundtrip(g.black, m + last + t);
    crate::buf::lemma_le_roundtrip(g.month as nat, 2);
    lemma_pow256_8();
    assert((m + last + t).take(2) =~= m);
    assert((m + last + t)[2] == bit(g.indexed_lichess) as u8);
    lemma_flags_roundtrip(g);
}

pub(crate) proof fn lemma_flags_roundtrip(g: LichessGameModel)
    ensures
        ({
            let f = spec_game_flags(g.speed, g.outcome, g.mode, g.indexed_white, g.indexed_black);
            &&& f % 8 == speed_index(g.speed)
            &&& (f / 8) % 4 == outcome_code(g.outcome)
            &&& ((f / 32) % 2 == 1) == (g.mode == Mode::Rated)
            &&& ((f / 64) % 2 == 1) == g.indexed_white
            &&& (f / 128 == 1) == g.indexed_black
            &&& speed_at(speed_index(g.speed)) == g.speed
            &&& spec_outcome_of(outcome_code(g.outcome)) == g.outcome
        }),
{
    let f = spec_game_flags(g.speed, g.outcome, g.mode, g.indexed_white, g.indexed_black);
    let s = speed_index(g.speed);
    let o = outcome_code(g.outcome);
    let r = bit(g.mode == Mode::Rated);
    let iw = bit(g.indexed_white);
    let ib = bit(g.indexed_black);
    assert(f % 8 == s && (f / 8) % 4 == o && (f / 32) % 2 == r && (f / 64) % 2 == iw && f / 128 == ib)
        by (nonlinear_arith)
        requires
            f == s + 8 * o + 32 * r + 64 * iw + 128 * ib,
            s < 6,
            o < 3,
            r < 2,
            iw < 2,
            ib < 2,
    ;
}

} // verus!
