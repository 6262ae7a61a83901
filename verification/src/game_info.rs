//! The earlier record of a game: like the record of `game`, but without the
//! flag of the server's explorer.
use vstd::prelude::*;

use crate::buf::{le_bytes, le_value, lemma_pow256_8, put_uint_le, Reader};
use crate::chess::Outcome;
use crate::date::Month;
use crate::game::{
    bit, game_flags, lemma_flags_roundtrip, lemma_player_roundtrip, read_game_flags,
    spec_game_flags, spec_outcome_of, spec_player_bytes, spec_read_player, ByColor, GamePlayer,
    LichessGameModel, PlayerModel,
};
use crate::mode::Mode;
use crate::speed::{speed_at, Speed};
use vstd::utf8::valid_utf8;

verus! {

/// A player of a game: the name and the rating, written as in `game`.
pub type GameInfoPlayer = GamePlayer;

/// A game as a value.
pub struct GameInfoModel {
    pub outcome: Outcome,
    pub speed: Speed,
    pub mode: Mode,
    pub white: PlayerModel,
    pub black: PlayerModel,
    pub month: u16,
    pub indexed_white: bool,
    pub indexed_black: bool,
}

/// The written form of a game: the first byte (speed, outcome, mode and
/// indexed flags), the two players, and the month in two bytes, little
/// endian.
pub open spec fn spec_game_info_bytes(g: GameInfoModel) -> Seq<u8> {
    seq![spec_game_flags(g.speed, g.outcome, g.mode, g.indexed_white, g.indexed_black)]
        + spec_player_bytes(g.white) + spec_player_bytes(g.black) + le_bytes(g.month as nat, 2)
}

/// Reading a written game; nothing when the bytes end early, the speed or
/// outcome is unknown, a name is not UTF-8 or the month is out of range.
pub open spec fn spec_read_game_info(b: Seq<u8>) -> Option<GameInfoModel> {
    if b.len() == 0 {
        None
    } else {
        let n = b[0];
        if n % 8 > 5 || (n / 8) % 4 == 3 {
            None
        } else {
            match spec_read_player(b.drop_first()) {
                None => None,
                Some((white, r1)) => match spec_read_player(r1) {
                    None => None,
                    Some((black, r2)) => if r2.len() < 2 {
                        None
                    } else {
                        let month = le_value(r2.take(2)) as u16;
                        if !Month::spec_from(month).wf() {
                            None
                        } else {
                            Some(
                                GameInfoModel {
                                    outcome: spec_outcome_of(((n / 8) % 4) as nat),
                                    speed: speed_at((n % 8) as nat),
                                    mode: if (n / 32) % 2 == 1 {
                                        Mode::Rated
                                    } else {
                                        Mode::Casual
                                    },
                                    white,
                                    black,
                                    month,
                                    indexed_white: (n / 64) % 2 == 1,
                                    indexed_black: n / 128 == 1,
                                },
                            )
                        }
                    },
                },
            }
        }
    }
}

/// A game of the server as the database kept it before the server's
/// explorer was indexed too.
#[derive(Debug)]
pub struct GameInfo {
    pub outcome: Outcome,
    pub speed: Speed,
    pub mode: Mode,
    pub players: ByColor<GameInfoPlayer>,
    pub month: Month,
    pub indexed: ByColor<bool>,
}

impl View for GameInfo {
    type V = GameInfoModel;

    open spec fn view(&self) -> GameInfoModel {
        GameInfoModel {
            outcome: self.outcome,
            speed: self.speed,
            mode: self.mode,
            white: self.players.white@,
            black: self.players.black@,
            month: self.month.value(),
            indexed_white: self.indexed.white,
            indexed_black: self.indexed.black,
        }
    }
}

/// The bytes are not a written game.
#[derive(Debug)]
pub struct InvalidGameInfo;

impl GameInfo {
    /// The number of bytes that a written game usually takes at most.
    pub const SIZE_HINT: usize = 48;

    /// Appends the written form.
    pub fn write(&self, buf: &mut Vec<u8>)
        ensures
            final(buf)@ == old(buf)@ + spec_game_info_bytes(self@),
    {
        let ghost start = buf@;
        buf.push(
            game_flags(self.speed, self.outcome, self.mode, self.indexed.white, self.indexed.black),
        );
        self.players.white.write(buf);
        self.players.black.write(buf);
        put_uint_le(buf, self.month.to_u16() as u64, 2);
        proof {
            assert(buf@ =~= start + spec_game_info_bytes(self@));
        }
    }

    /// Reads a written game.
    pub fn read(reader: &mut Reader) -> (r: Result<GameInfo, InvalidGameInfo>)
        ensures
            match spec_read_game_info(old(reader)@) {
                None => r is Err,
                Some(g) => r matches Ok(v) && v@ == g,
            },
    {
        let n = match reader.read_u8() {
            Some(n) => n,
            None => return Err(InvalidGameInfo),
        };
        let (speed, outcome, mode, iw, ib) = match read_game_flags(n) {
            Some(f) => f,
            None => return Err(InvalidGameInfo),
        };
        let white = match GamePlayer::read(reader) {
            Some(p) => p,
            None => return Err(InvalidGameInfo),
        };
        let black = match GamePlayer::read(reader) {
            Some(p) => p,
            None => return Err(InvalidGameInfo),
        };
        if reader.remaining() < 2 {
            return Err(InvalidGameInfo);
        }
        proof {
            lemma_pow256_8();
        }
        let m = match reader.read_uint_le(2) {
            Some(m) => m as u16,
            None => return Err(InvalidGameInfo),
        };
        let month = match Month::try_from_u16(m) {
            Ok(month) => month,
            Err(_) => {
                proof {
                    Month::lemma_from(m);
                }
                return Err(InvalidGameInfo);
            },
        };
        proof {
            Month::lemma_from(m);
        }
        Ok(
            GameInfo {
                outcome,
                speed,
                mode,
                players: ByColor { white, black },
                month,
                indexed: ByColor { white: iw, black: ib },
            },
        )
    }
}

/// Reading back a written game gives the same game, when its names are
/// UTF-8 and its month is in range.
pub proof fn lemma_game_info_roundtrip(g: GameInfoModel, t: Seq<u8>)
    requires
        valid_utf8(g.white.0),
        valid_utf8(g.black.0),
        g.white.0.len() <= u64::MAX,
        g.black.0.len() <= u64::MAX,
        Month::spec_from(g.month).wf(),
    ensures
        spec_read_game_info(spec_game_info_bytes(g) + t) == Some(g),
{
    let f = spec_game_flags(g.speed, g.outcome, g.mode, g.indexed_white, g.indexed_black);
    let w = spec_player_bytes(g.white);
    let k = spec_player_bytes(g.black);
    let m = le_bytes(g.month as nat, 2);
    let b = spec_game_info_bytes(g) + t;
    assert(b =~= seq![f] + (w + (k + (m + t))));
    assert(b.drop_first() =~= w + (k + (m + t)));
    lemma_player_roundtrip(g.white, k + (m + t));
    lemma_player_roundtrip(g.black, m + t);
    crate::buf::lemma_le_roundtrip(g.month as nat, 2);
    lemma_pow256_8();
    assert((m + t).take(2) =~= m);
    lemma_flags_roundtrip(
        LichessGameModel {
            outcome: g.outcome,
            speed: g.speed,
            mode: g.mode,
            white: g.white,
            black: g.black,
            month: g.month,
            indexed_white: g.indexed_white,
            indexed_black: g.indexed_black,
            indexed_lichess: false,
        },
    );
}

} // verus!
