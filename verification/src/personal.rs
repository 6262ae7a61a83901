//! The explorer of one player: for each move, speed and mode, the counts
//! of the player's games and the latest of them, and the player's indexing
//! status.
use vstd::prelude::*;

use crate::buf::{le_bytes, le_value, Reader};
use crate::chess::{Outcome, Uci};
use crate::game_id::{spec_read_game_id, GameId, GAME_ID_LIMIT};
use crate::lichess::{
    spec_empty_group, spec_latest, spec_move_pos, stats_of_sums, sums_add, sums_fit, sums_le,
    sums_nonneg, sums_of, sums_zero, GroupModel, InvalidEntry, LichessGroup, Sums,
};
use crate::mode::Mode;
use crate::query::{spec_contains_mode, spec_contains_speed, PlayerLimits, PlayerQueryFilter};
use crate::response::{spec_unkeyed, unkeyed, PreparedMove, PreparedResponse};
use crate::speed::{speed_at, speed_index, Speed};
use crate::stats::{
    spec_add, spec_average_rating, spec_can_add, spec_empty_stats, spec_read_stats, spec_single,
    spec_stats_bytes, spec_total, Stats,
};
use crate::uci::{spec_pack, spec_unpack, RawUciMove};
use crate::uint::{encode_uint, read_uint, spec_read_uint, write_uint};
use crate::util::{is_top_selection, take_best};

verus! {

/// The most games that an answer lists, and that a group keeps.
pub const MAX_PERSONAL_GAMES: u64 = 15;

/// The marker before each group of games of a move, or the end of a move.
#[derive(Debug, Clone, Copy, PartialEq, Eq, Structural)]
pub enum Header {
    Group { mode: Mode, speed: Speed, num_games: usize },
    End,
}

/// The index of a mode among the groups of a speed: rated first.
pub open spec fn mode_index(m: Mode) -> nat {
    match m {
        Mode::Rated => 0,
        Mode::Casual => 1,
    }
}

/// The byte of a header: the speed plus one in the low three bits, whether
/// the games are rated in the next, and the number of games in the top four
/// (of which only the low four bits are kept). The end marker is zero.
pub open spec fn spec_header_byte(h: Header) -> u8 {
    match h {
        Header::End => 0,
        Header::Group { mode, speed, num_games } => ((speed_index(speed) + 1 + 8 * (
        if mode == Mode::Rated {
            1int
        } else {
            0int
        }) + 16 * num_games) % 256) as u8,
    }
}

/// Reading a header from the front of `b`: the header, or nothing when no
/// byte remains or the speed is unknown.
pub open spec fn spec_read_header(b: Seq<u8>) -> Option<Header> {
    if b.len() == 0 {
        None
    } else {
        let n = b[0];
        if n % 8 == 0 {
            Some(Header::End)
        } else if n % 8 == 7 {
            None
        } else {
            Some(
                Header::Group {
                    speed: speed_at((n % 8 - 1) as nat),
                    mode: if (n / 8) % 2 == 1 {
                        Mode::Rated
                    } else {
                        Mode::Casual
                    },
                    num_games: (n / 16) as usize,
                },
            )
        }
    }
}

/// The header that reading back a written header gives: the same, with the
/// number of games taken modulo sixteen.
pub open spec fn spec_header_as_read(h: Header) -> Header {
    match h {
        Header::End => Header::End,
        Header::Group { mode, speed, num_games } => Header::Group {
            mode,
            speed,
            num_games: (num_games % 16) as usize,
        },
    }
}

/// The header could not be read.
#[derive(Debug, Clone, Copy, PartialEq, Eq, Structural)]
pub enum InvalidHeader {
    /// No byte remained.
    UnexpectedEof,
    /// The speed is unknown.
    InvalidData,
}

impl Header {
    /// Reads a header.
    pub fn read(reader: &mut Reader) -> (r: Result<Header, InvalidHeader>)
        ensures
            old(reader)@.len() == 0 ==> r == Err::<Header, InvalidHeader>(
                InvalidHeader::UnexpectedEof,
            ),
            old(reader)@.len() > 0 ==> match spec_read_header(old(reader)@) {
                Some(h) => r == Ok::<Header, InvalidHeader>(h) && final(reader)@ == old(
                    reader,
                )@.drop_first(),
                None => r == Err::<Header, InvalidHeader>(InvalidHeader::InvalidData),
            },
    {
        let n = match reader.read_u8() {
            Some(n) => n,
            None => return Err(InvalidHeader::UnexpectedEof),
        };
        if n % 8 == 0 {
            return Ok(Header::End);
        }
        if n % 8 == 7 {
            return Err(InvalidHeader::InvalidData);
        }
        let speed = Speed::from_index((n % 8 - 1) as usize);
        let mode = Mode::from_rated((n / 8) % 2 == 1);
        Ok(Header::Group { mode, speed, num_games: (n / 16) as usize })
    }

    /// Appends the header's byte.
    pub fn write(&self, buf: &mut Vec<u8>)
        ensures
            final(buf)@ == old(buf)@.push(spec_header_byte(*self)),
    {
        let byte: u8 = match *self {
            Header::End => 0,
            Header::Group { mode, speed, num_games } => {
                let s = (speed.index() + 1) as u8;
                let r: u8 = if mode.is_rated() {
                    8
                } else {
                    0
                };
                let g: u8 = ((num_games % 16) * 16) as u8;
                proof {
                    assert(((speed_index(speed) + 1 + 8 * (if mode == Mode::Rated { 1int } else { 0int }) + 16 * num_games) % 256) == s + r + g) by (nonlinear_arith)
                        requires
                            s == speed_index(speed) + 1,
                            s < 8,
                            r == 8 * (if mode == Mode::Rated { 1int } else { 0int }),
                            g == (num_games % 16) * 16,
                    ;
                }
                s + r + g
            },
        };
        buf.push(byte);
    }
}

/// Reading back a written header gives the header, with the number of
/// games modulo sixteen.
pub proof fn lemma_header_roundtrip(h: Header, t: Seq<u8>)
    ensures
        spec_read_header(seq![spec_header_byte(h)] + t) == Some(spec_header_as_read(h)),
{
    let b = seq![spec_header_byte(h)] + t;
    assert(b[0] == spec_header_byte(h));
    match h {
        Header::End => {},
        Header::Group { mode, speed, num_games } => {
            let s = speed_index(speed);
            let r: int = if mode == Mode::Rated { 1 } else { 0 };
            let n = spec_header_byte(h);
            assert(n == s + 1 + 8 * r + 16 * (num_games % 16)) by (nonlinear_arith)
                requires
                    n == ((s + 1 + 8 * r + 16 * num_games) % 256),
                    0 <= s < 6,
                    0 <= r <= 1,
                    num_games >= 0,
            ;
            assert(n % 8 == s + 1) by (nonlinear_arith)
                requires
                    n == s + 1 + 8 * r + 16 * (num_games % 16),
                    0 <= s < 6,
                    0 <= r <= 1,
            ;
            assert((n / 8) % 2 == r) by (nonlinear_arith)
                requires
                    n == s + 1 + 8 * r + 16 * (num_games % 16),
                    0 <= s < 6,
                    0 <= r <= 1,
            ;
            assert(n / 16 == num_games % 16) by (nonlinear_arith)
                requires
                    n == s + 1 + 8 * r + 16 * (num_games % 16),
                    0 <= s < 6,
                    0 <= r <= 1,
            ;
            assert(speed_at(s) == speed);
        },
    }
}


/// The place of the group for `speed` and `mode` among the twelve groups of
/// a move.
pub open spec fn spec_personal_slot(speed: Speed, mode: Mode) -> nat {
    speed_index(speed) * 2 + mode_index(mode)
}

/// A player's entry as a value: the groups of the move at position `i` are
/// those at `12 * i` to `12 * i + 11`; `max` is the highest game index.
pub struct PersonalModel {
    pub moves: Seq<u16>,
    pub groups: Seq<GroupModel>,
    pub max: u64,
}

pub open spec fn spec_empty_personal() -> PersonalModel {
    PersonalModel { moves: Seq::empty(), groups: Seq::empty(), max: 0 }
}

pub open spec fn spec_personal_add_move(e: PersonalModel, uci: u16) -> PersonalModel {
    if e.moves.contains(uci) {
        e
    } else {
        PersonalModel {
            moves: e.moves.push(uci),
            groups: e.groups + Seq::new(12, |j: int| spec_empty_group()),
            ..e
        }
    }
}

/// Reading `n` games into the group at `k`: each an index relative to
/// `base` and a game identifier.
pub open spec fn spec_personal_games(e: PersonalModel, k: int, b: Seq<u8>, n: nat, base: nat) -> Option<
    (PersonalModel, Seq<u8>),
>
    decreases n,
{
    if n == 0 {
        Some((e, b))
    } else {
        match spec_read_uint(b) {
            None => None,
            Some((d, l)) => match spec_read_game_id(b.skip(l as int)) {
                None => None,
                Some(id) => if base + d > u64::MAX {
                    None
                } else {
                    let idx = (base + d) as u64;
                    spec_personal_games(
                        PersonalModel {
                            groups: e.groups.update(k, (e.groups[k].0, e.groups[k].1.push((idx, id)))),
                            max: if e.max > idx {
                                e.max
                            } else {
                                idx
                            },
                            ..e
                        },
                        k,
                        b.skip((l + 6) as int),
                        (n - 1) as nat,
                        base,
                    )
                },
            },
        }
    }
}

/// Reading one group after its header.
pub open spec fn spec_personal_group(
    e: PersonalModel,
    i: int,
    speed: Speed,
    mode: Mode,
    num_games: nat,
    b: Seq<u8>,
    base: nat,
) -> Option<(PersonalModel, Seq<u8>)> {
    match spec_read_stats(b) {
        None => None,
        Some((s, l)) => {
            let k = 12 * i + spec_personal_slot(speed, mode);
            if !spec_can_add(e.groups[k].0, s) {
                None
            } else {
                spec_personal_games(
                    PersonalModel {
                        groups: e.groups.update(k, (spec_add(e.groups[k].0, s), e.groups[k].1)),
                        ..e
                    },
                    k,
                    b.skip(l as int),
                    num_games,
                    base,
                )
            }
        },
    }
}

/// Reading the groups of the move at position `i` up to its end marker.
pub open spec fn spec_personal_groups(e: PersonalModel, i: int, b: Seq<u8>, base: nat) -> Option<
    (PersonalModel, Seq<u8>),
>
    decreases b.len(),
{
    match spec_read_header(b) {
        None => None,
        Some(Header::End) => Some((e, b.drop_first())),
        Some(Header::Group { mode, speed, num_games }) => match spec_personal_group(
            e,
            i,
            speed,
            mode,
            num_games as nat,
            b.drop_first(),
            base,
        ) {
            None => None,
            Some((e2, rest)) => if rest.len() < b.len() {
                spec_personal_groups(e2, i, rest, base)
            } else {
                None
            },
        },
    }
}

/// Reading moves, each a packed move and its groups, until fewer than two
/// bytes remain; the games of each move are counted from one past the
/// highest index before it.
pub open spec fn spec_extend_personal(e: PersonalModel, b: Seq<u8>) -> Option<PersonalModel>
    decreases b.len(),
{
    if b.len() < 2 {
        Some(e)
    } else {
        let uci = le_value(b.take(2)) as u16;
        let e1 = spec_personal_add_move(e, uci);
        match spec_personal_groups(e1, spec_move_pos(e1.moves, uci), b.skip(2), (e1.max + 1) as nat) {
            None => None,
            Some((e2, rest)) => if rest.len() < b.len() {
                spec_extend_personal(e2, rest)
            } else {
                None
            },
        }
    }
}

/// Twelve groups per move, no move twice, only game identifiers, and no
/// game above the highest index.
pub open spec fn spec_personal_wf(e: PersonalModel) -> bool {
    &&& e.groups.len() == 12 * e.moves.len()
    &&& spec_personal_inner_wf(e)
}

#[verifier::opaque]
pub open spec fn spec_personal_inner_wf(e: PersonalModel) -> bool {
    &&& forall|a: int, b: int| 0 <= a < b < e.moves.len() ==> e.moves[a] != e.moves[b]
    &&& forall|k: int, j: int|
        #![trigger e.groups[k].1[j]]
        0 <= k < e.groups.len() && 0 <= j < e.groups[k].1.len() ==> e.groups[k].1[j].1
            < GAME_ID_LIMIT && e.groups[k].1[j].0 <= e.max
}

/// A player's statistics of one position and color.
#[derive(Debug)]
pub struct PersonalEntry {
    moves: Vec<RawUciMove>,
    groups: Vec<LichessGroup>,
    max_game_idx: u64,
}

impl View for PersonalEntry {
    type V = PersonalModel;

    closed spec fn view(&self) -> PersonalModel {
        PersonalModel {
            moves: self.moves@.map_values(|m: RawUciMove| m.0),
            groups: self.groups@.map_values(|g: LichessGroup| g@),
            max: self.max_game_idx,
        }
    }
}

/// The entry for one game of the player: one move, and in the group of the
/// speed and mode the counts of the game and the game itself at index zero.
pub open spec fn spec_personal_single(
    uci: Uci,
    speed: Speed,
    mode: Mode,
    game_id: GameId,
    outcome: Outcome,
    opponent_rating: u16,
) -> PersonalModel {
    PersonalModel {
        moves: seq![spec_pack(uci)],
        groups: Seq::new(
            12,
            |j: int|
                if j == spec_personal_slot(speed, mode) {
                    (spec_single(outcome, opponent_rating), seq![(0u64, game_id.value())])
                } else {
                    spec_empty_group()
                },
        ),
        max: 0,
    }
}

impl PersonalEntry {
    /// Whether the entry is well formed.
    pub open spec fn wf(&self) -> bool {
        spec_personal_wf(self@)
    }

    /// The entry without any move.
    pub fn new() -> (e: PersonalEntry)
        ensures
            e@ == spec_empty_personal(),
            e.wf(),
    {
        reveal(spec_personal_inner_wf);
        let e = PersonalEntry { moves: Vec::new(), groups: Vec::new(), max_game_idx: 0 };
        proof {
            assert(e@.moves =~= Seq::<u16>::empty());
            assert(e@.groups =~= Seq::<GroupModel>::empty());
        }
        e
    }

    /// The number of moves.
    pub fn num_moves(&self) -> (n: usize)
        ensures
            n == self@.moves.len(),
    {
        self.moves.len()
    }

    /// The highest game index.
    pub fn max_game_idx(&self) -> (m: u64)
        ensures
            m == self@.max,
    {
        self.max_game_idx
    }

    /// The group of `uci` for `speed` and `mode`, if the move is there.
    pub fn group(&self, uci: RawUciMove, speed: Speed, mode: Mode) -> (r: Option<&LichessGroup>)
        requires
            self.wf(),
        ensures
            match r {
                Some(g) => self@.moves.contains(uci.0) && g@ == self@.groups[12 * spec_move_pos(
                    self@.moves,
                    uci.0,
                ) + spec_personal_slot(speed, mode)],
                None => !self@.moves.contains(uci.0),
            },
    {
        let i = self.move_pos(uci);
        if i < self.moves.len() {
            let glen = self.groups.len();
            assert(12 * i + 11 < glen) by (nonlinear_arith)
                requires
                    glen == 12 * self@.moves.len(),
                    i < self@.moves.len(),
            ;
            let m: usize = if mode.is_rated() {
                0
            } else {
                1
            };
            Some(&self.groups[12 * i + speed.index() * 2 + m])
        } else {
            None
        }
    }

    fn move_pos(&self, uci: RawUciMove) -> (i: usize)
        requires
            self.wf(),
        ensures
            i == spec_move_pos(self@.moves, uci.0),
            i < self@.moves.len() <==> self@.moves.contains(uci.0),
            i <= self@.moves.len(),
    {
        let n = self.moves.len();
        let mut i: usize = 0;
        while i < n
            invariant
                self.wf(),
                n == self@.moves.len(),
                i <= n,
                forall|j: int| 0 <= j < i ==> self@.moves[j] != uci.0,
            decreases n - i,
        {
            if self.moves[i].0 == uci.0 {
                proof {
                    reveal(spec_personal_inner_wf);
                    let ms = self@.moves;
                    assert(ms[i as int] == uci.0);
                    let c = choose|j: int| 0 <= j < ms.len() && ms[j] == uci.0;
                    assert(c == i);
                }
                return i;
            }
            i = i + 1;
        }
        n
    }

    fn add_move(&mut self, uci: RawUciMove) -> (i: usize)
        requires
            old(self).wf(),
        ensures
            final(self).wf(),
            final(self)@ == spec_personal_add_move(old(self)@, uci.0),
            i == spec_move_pos(final(self)@.moves, uci.0),
            i < final(self)@.moves.len(),
    {
        reveal(spec_personal_inner_wf);
        let i = self.move_pos(uci);
        if i < self.moves.len() {
            return i;
        }
        let ghost e0 = self@;
        self.moves.push(uci);
        let mut j: usize = 0;
        while j < 12
            invariant
                j <= 12,
                self.moves@.map_values(|m: RawUciMove| m.0) == e0.moves.push(uci.0),
                self.groups@.map_values(|g: LichessGroup| g@) == e0.groups + Seq::new(
                    j as nat,
                    |x: int| spec_empty_group(),
                ),
                self.max_game_idx == e0.max,
            decreases 12 - j,
        {
            let ghost before = self.groups@.map_values(|g: LichessGroup| g@);
            let g = LichessGroup { stats: Stats::from_counts(0, 0, 0, 0), games: Vec::new() };
            proof {
                assert(g.games@.map_values(|p: (u64, GameId)| (p.0, p.1.value())) =~= Seq::<(u64, u64)>::empty());
            }
            self.groups.push(g);
            proof {
                assert(self.groups@.map_values(|g: LichessGroup| g@) =~= before.push(spec_empty_group()));
                assert(e0.groups + Seq::new((j + 1) as nat, |x: int| spec_empty_group()) =~= before.push(
                    spec_empty_group(),
                ));
            }
            j = j + 1;
        }
        proof {
            let e1 = self@;
            assert(e1.moves =~= e0.moves.push(uci.0));
            assert(e1 == spec_personal_add_move(e0, uci.0));
            assert(e1.moves[i as int] == uci.0);
            let c = choose|x: int| 0 <= x < e1.moves.len() && e1.moves[x] == uci.0;
            assert(c == i as int);
            assert forall|k: int, x: int|
                #![trigger e1.groups[k].1[x]]
                0 <= k < e1.groups.len() && 0 <= x < e1.groups[k].1.len() implies e0.groups[k].1[x]
                == e1.groups[k].1[x] && k < e0.groups.len() by {
                if k >= e0.groups.len() {
                    assert(e1.groups[k] == spec_empty_group());
                }
            }
        }
        i
    }

    fn add_game(&mut self, k: usize, idx: u64, id: GameId)
        requires
            old(self).wf(),
            k < old(self)@.groups.len(),
            id.wf(),
        ensures
            final(self).wf(),
            final(self)@ == (PersonalModel {
                groups: old(self)@.groups.update(
                    k as int,
                    (old(self)@.groups[k as int].0, old(self)@.groups[k as int].1.push((idx, id.value()))),
                ),
                max: if old(self)@.max > idx {
                    old(self)@.max
                } else {
                    idx
                },
                ..old(self)@
            }),
    {
        reveal(spec_personal_inner_wf);
        let ghost e0 = self@;
        let ghost g0 = self.groups@;
        self.groups[k].games.push((idx, id));
        proof {
            let g1 = self.groups@;
            assert(g1[k as int].games@.map_values(|p: (u64, GameId)| (p.0, p.1.value())) =~= g0[k as int].games@.map_values(|p: (u64, GameId)| (p.0, p.1.value())).push((idx, id.value())));
            assert(forall|q: int| 0 <= q < g1.len() && q != k ==> g1[q] == g0[q]);
        }
        if idx > self.max_game_idx {
            self.max_game_idx = idx;
        }
        proof {
            let e1 = self@;
            assert(e1.groups =~= e0.groups.update(
                k as int,
                (e0.groups[k as int].0, e0.groups[k as int].1.push((idx, id.value()))),
            ));
            assert(e1.moves =~= e0.moves);
            assert forall|q: int, x: int|
                #![trigger e1.groups[q].1[x]]
                0 <= q < e1.groups.len() && 0 <= x < e1.groups[q].1.len() implies e1.groups[q].1[x].1
                < GAME_ID_LIMIT && e1.groups[q].1[x].0 <= e1.max by {
                if q != k || x < e0.groups[q].1.len() {
                    assert(e1.groups[q].1[x] == e0.groups[q].1[x]);
                }
            }
        }
    }

    fn add_stats(&mut self, k: usize, s: &Stats)
        requires
            old(self).wf(),
            k < old(self)@.groups.len(),
            spec_can_add(old(self)@.groups[k as int].0, *s),
        ensures
            final(self).wf(),
            final(self)@ == (PersonalModel {
                groups: old(self)@.groups.update(
                    k as int,
                    (spec_add(old(self)@.groups[k as int].0, *s), old(self)@.groups[k as int].1),
                ),
                ..old(self)@
            }),
    {
        reveal(spec_personal_inner_wf);
        let ghost e0 = self@;
        self.groups[k].stats.add_assign(s);
        proof {
            let e1 = self@;
            assert(e1.groups =~= e0.groups.update(
                k as int,
                (spec_add(e0.groups[k as int].0, *s), e0.groups[k as int].1),
            ));
            assert forall|q: int, x: int|
                #![trigger e1.groups[q].1[x]]
                0 <= q < e1.groups.len() && 0 <= x < e1.groups[q].1.len() implies e1.groups[q].1[x]
                == e0.groups[q].1[x] by {}
        }
    }

    #[verifier::loop_isolation(false)]
    fn extend_games(&mut self, k: usize, reader: &mut Reader, n: usize, base: u128) -> (ok: bool)
        requires
            old(self).wf(),
            k < old(self)@.groups.len(),
            base <= 0x1_0000_0000_0000_0000,
        ensures
            final(self).wf(),
            final(self)@.moves == old(self)@.moves,
            final(self)@.groups.len() == old(self)@.groups.len(),
            ok ==> final(reader)@.len() <= old(reader)@.len(),
            match spec_personal_games(old(self)@, k as int, old(reader)@, n as nat, base as nat) {
                None => !ok,
                Some((e, rest)) => ok && final(self)@ == e && final(reader)@ == rest,
            },
    {
        let ghost e0 = self@;
        let ghost b0 = reader@;
        let mut left = n;
        while left > 0
            invariant
                self.wf(),
                k < self@.groups.len(),
                self@.moves == e0.moves,
                self@.groups.len() == e0.groups.len(),
                reader@.len() <= b0.len(),
                spec_personal_games(self@, k as int, reader@, left as nat, base as nat)
                    == spec_personal_games(e0, k as int, b0, n as nat, base as nat),
            decreases left,
        {
            let ghost b = reader@;
            proof {
                crate::uint::lemma_read_uint_len(b);
            }
            let d = match read_uint(reader) {
                Some(d) => d,
                None => return false,
            };
            let id = match GameId::read(reader) {
                Some(id) => id,
                None => return false,
            };
            let idx: u128 = base + d as u128;
            if idx > u64::MAX as u128 {
                return false;
            }
            self.add_game(k, idx as u64, id);
            left = left - 1;
            proof {
                let l = spec_read_uint(b).unwrap().1;
                crate::uint::lemma_skip_skip(b, l, 6);
            }
        }
        true
    }

    fn extend_group(
        &mut self,
        i: usize,
        speed: Speed,
        mode: Mode,
        num_games: usize,
        reader: &mut Reader,
        base: u128,
    ) -> (ok: bool)
        requires
            old(self).wf(),
            i < old(self)@.moves.len(),
            base <= 0x1_0000_0000_0000_0000,
        ensures
            final(self).wf(),
            final(self)@.moves == old(self)@.moves,
            ok ==> final(reader)@.len() <= old(reader)@.len(),
            match spec_personal_group(
                old(self)@,
                i as int,
                speed,
                mode,
                num_games as nat,
                old(reader)@,
                base as nat,
            ) {
                None => !ok,
                Some((e, rest)) => ok && final(self)@ == e && final(reader)@ == rest,
            },
    {
        let ghost b = reader@;
        let s = match Stats::read(reader) {
            Some(s) => s,
            None => return false,
        };
        proof {
            crate::stats::lemma_read_stats_len(b);
        }
        let glen = self.groups.len();
        assert(glen == self@.groups.len());
        assert(12 * i + 11 < glen) by (nonlinear_arith)
            requires
                glen == 12 * self@.moves.len(),
                i < self@.moves.len(),
        ;
        let m: usize = if mode.is_rated() {
            0
        } else {
            1
        };
        let k = 12 * i + speed.index() * 2 + m;
        if !self.groups[k].stats.can_add(&s) {
            return false;
        }
        self.add_stats(k, &s);
        self.extend_games(k, reader, num_games, base)
    }

    #[verifier::loop_isolation(false)]
    fn extend_groups(&mut self, i: usize, reader: &mut Reader, base: u128) -> (ok: bool)
        requires
            old(self).wf(),
            i < old(self)@.moves.len(),
            base <= 0x1_0000_0000_0000_0000,
        ensures
            final(self).wf(),
            final(self)@.moves == old(self)@.moves,
            ok ==> final(reader)@.len() <= old(reader)@.len(),
            match spec_personal_groups(old(self)@, i as int, old(reader)@, base as nat) {
                None => !ok,
                Some((e, rest)) => ok && final(self)@ == e && final(reader)@ == rest,
            },
    {
        let ghost e0 = self@;
        let ghost b0 = reader@;
        loop
            invariant
                self.wf(),
                i < self@.moves.len(),
                self@.moves == e0.moves,
                reader@.len() <= b0.len(),
                spec_personal_groups(self@, i as int, reader@, base as nat) == spec_personal_groups(
                    e0,
                    i as int,
                    b0,
                    base as nat,
                ),
            decreases reader@.len(),
        {
            let ghost b = reader@;
            let h = match Header::read(reader) {
                Ok(h) => h,
                Err(_) => return false,
            };
            match h {
                Header::End => {
                    return true;
                },
                Header::Group { mode, speed, num_games } => {
                    if !self.extend_group(i, speed, mode, num_games, reader, base) {
                        return false;
                    }
                },
            }
        }
    }

    /// Merges the written entries that remain in `reader`: each move's
    /// groups are added to those of the same move, and their games appended
    /// with their indices counted from one past the highest index so far.
    /// Reading stops when fewer than two bytes remain. Fails when the bytes
    /// are not written entries or a count overflows; the entry is then left
    /// with part of the bytes merged.
    #[verifier::loop_isolation(false)]
    pub fn extend_from_reader(&mut self, reader: &mut Reader) -> (r: Result<(), InvalidEntry>)
        requires
            old(self).wf(),
        ensures
            final(self).wf(),
            match spec_extend_personal(old(self)@, old(reader)@) {
                None => r is Err,
                Some(e) => r is Ok && final(self)@ == e,
            },
    {
        let ghost e0 = self@;
        let ghost b0 = reader@;
        while reader.remaining() >= 2
            invariant
                self.wf(),
                spec_extend_personal(self@, reader@) == spec_extend_personal(e0, b0),
            decreases reader@.len(),
        {
            let ghost b = reader@;
            let uci = match RawUciMove::read(reader) {
                Some(uci) => uci,
                None => return Err(InvalidEntry),
            };
            let i = self.add_move(uci);
            let base: u128 = self.max_game_idx as u128 + 1;
            if !self.extend_groups(i, reader, base) {
                return Err(InvalidEntry);
            }
        }
        Ok(())
    }

    /// The entry for one game of the player: `uci` played at `speed` in
    /// `mode`, in the game `game_id` with `outcome`, against an opponent
    /// rated `opponent_rating`. The game has index zero.
    pub fn new_single(
        uci: Uci,
        speed: Speed,
        mode: Mode,
        game_id: GameId,
        outcome: Outcome,
        opponent_rating: u16,
    ) -> (e: PersonalEntry)
        requires
            game_id.wf(),
        ensures
            e.wf(),
            e@ == spec_personal_single(uci, speed, mode, game_id, outcome, opponent_rating),
            e@.moves == seq![spec_pack(uci)],
            e@.max == 0,
            forall|j: int|
                0 <= j < 12 ==> #[trigger] e@.groups[j] == if j == spec_personal_slot(speed, mode) {
                    (spec_single(outcome, opponent_rating), seq![(0u64, game_id.value())])
                } else {
                    spec_empty_group()
                },
    {
        let mut e = PersonalEntry::new();
        let raw = RawUciMove::from_uci(uci);
        let i = e.add_move(raw);
        let m: usize = if mode.is_rated() {
            0
        } else {
            1
        };
        let k = speed.index() * 2 + m;
        let s = Stats::new_single(outcome, opponent_rating);
        proof {
            assert(e@.groups[k as int] == spec_empty_group());
        }
        e.add_stats(k, &s);
        e.add_game(k, 0, game_id);
        proof {
            crate::stats::lemma_add_empty(s);
            let t = spec_personal_single(uci, speed, mode, game_id, outcome, opponent_rating);
            assert(e@.groups =~= t.groups);
        }
        e
    }
}


/// The index below which games are dropped when the entry is written: the
/// highest index less fifteen, or zero.
pub open spec fn spec_discarded(e: PersonalModel) -> u64 {
    if e.max >= 15 {
        (e.max - 15) as u64
    } else {
        0
    }
}

/// The games after index `d`, in order.
pub open spec fn spec_games_after(games: Seq<(u64, u64)>, d: u64) -> Seq<(u64, u64)>
    decreases games.len(),
{
    if games.len() == 0 {
        Seq::empty()
    } else {
        spec_games_after(games.drop_last(), d) + if games.last().0 > d {
            seq![games.last()]
        } else {
            Seq::empty()
        }
    }
}

/// The games that a group keeps when written: its only game, or those after
/// index `d`.
pub open spec fn spec_personal_kept(games: Seq<(u64, u64)>, d: u64) -> Seq<(u64, u64)> {
    if games.len() == 1 {
        games
    } else {
        spec_games_after(games, d)
    }
}

/// The written form of games: each index and game identifier.
pub open spec fn spec_personal_games_bytes(games: Seq<(u64, u64)>) -> Seq<u8>
    decreases games.len(),
{
    if games.len() == 0 {
        Seq::empty()
    } else {
        encode_uint(games[0].0 as nat) + le_bytes(games[0].1 as nat, 6) + spec_personal_games_bytes(
            games.drop_first(),
        )
    }
}

/// The mode of slot `j` of a speed: rated first.
pub open spec fn mode_at(j: nat) -> Mode {
    if j == 0 {
        Mode::Rated
    } else {
        Mode::Casual
    }
}

/// The written form of the group at slot `j`: nothing when it keeps no
/// game and has no game counted, else its header, counts and kept games.
pub open spec fn spec_personal_group_bytes(j: int, g: GroupModel, d: u64) -> Seq<u8> {
    let kept = spec_personal_kept(g.1, d);
    if kept.len() > 0 || spec_total(g.0) != 0 {
        seq![
            spec_header_byte(
                Header::Group {
                    speed: speed_at((j / 2) as nat),
                    mode: mode_at((j % 2) as nat),
                    num_games: kept.len() as usize,
                },
            ),
        ] + spec_stats_bytes(g.0) + spec_personal_games_bytes(kept)
    } else {
        Seq::empty()
    }
}

/// The written form of the groups of one move from slot `j` on.
pub open spec fn spec_personal_groups_bytes(gs: Seq<GroupModel>, j: int, d: u64) -> Seq<u8>
    decreases 12 - j,
{
    if j < 0 || j >= 12 {
        Seq::empty()
    } else {
        spec_personal_group_bytes(j, gs[j], d) + spec_personal_groups_bytes(gs, j + 1, d)
    }
}

/// The written form of the moves from position `i` on: each its packed
/// form, its groups and an end marker.
pub open spec fn spec_personal_moves_bytes(e: PersonalModel, i: int) -> Seq<u8>
    decreases e.moves.len() - i,
{
    if i < 0 || i >= e.moves.len() {
        Seq::empty()
    } else {
        le_bytes(e.moves[i] as nat, 2) + spec_personal_groups_bytes(
            e.groups.subrange(12 * i, 12 * i + 12),
            0,
            spec_discarded(e),
        ) + seq![0u8] + spec_personal_moves_bytes(e, i + 1)
    }
}

/// Every count of white wins can be written.
pub open spec fn spec_personal_writable(e: PersonalModel) -> bool {
    forall|k: int| 0 <= k < e.groups.len() ==> #[trigger] e.groups[k].0.white + 3 <= u64::MAX
}

/// The games of a group that it keeps when written.
fn personal_kept(g: &LichessGroup, d: u64) -> (r: Vec<(u64, GameId)>)
    ensures
        r@.map_values(|p: (u64, GameId)| (p.0, p.1.value())) == spec_personal_kept(g@.1, d),
{
    let ghost gs = g@.1;
    let mut r: Vec<(u64, GameId)> = Vec::new();
    if g.games.len() == 1 {
        r.push(g.games[0]);
        proof {
            assert(r@.map_values(|p: (u64, GameId)| (p.0, p.1.value())) =~= gs);
        }
        return r;
    }
    let mut x: usize = 0;
    while x < g.games.len()
        invariant
            gs == g@.1,
            x <= g.games@.len(),
            r@.map_values(|p: (u64, GameId)| (p.0, p.1.value())) == spec_games_after(gs.take(x as int), d),
        decreases g.games@.len() - x,
    {
        let (idx, id) = g.games[x];
        let ghost before = r@;
        proof {
            assert(gs[x as int] == (idx, id.value()));
            assert(gs.take(x + 1).drop_last() =~= gs.take(x as int));
            assert(gs.take(x + 1).last() == (idx, id.value()));
        }
        if idx > d {
            r.push((idx, id));
            proof {
                assert(r@.map_values(|p: (u64, GameId)| (p.0, p.1.value())) =~= before.map_values(|p: (u64, GameId)| (p.0, p.1.value())).push((idx, id.value())));
            }
        }
        x = x + 1;
    }
    proof {
        assert(gs.take(x as int) =~= gs);
    }
    r
}

impl PersonalEntry {
    /// Appends the written form: for each move, its packed form, the groups
    /// that keep a game or count one, each with its header, counts and kept
    /// games (its only game, or those after the highest index less
    /// fifteen), and an end marker.
    pub fn write(&self, buf: &mut Vec<u8>)
        requires
            self.wf(),
            spec_personal_writable(self@),
        ensures
            final(buf)@ == old(buf)@ + spec_personal_moves_bytes(self@, 0),
    {
        let ghost e = self@;
        let d: u64 = if self.max_game_idx >= MAX_PERSONAL_GAMES {
            self.max_game_idx - MAX_PERSONAL_GAMES
        } else {
            0
        };
        let n = self.moves.len();
        let glen = self.groups.len();
        let mut i: usize = 0;
        while i < n
            invariant
                e == self@,
                self.wf(),
                spec_personal_writable(e),
                d == spec_discarded(e),
                n == e.moves.len(),
                glen == e.groups.len(),
                i <= n,
                buf@ + spec_personal_moves_bytes(e, i as int) == old(buf)@ + spec_personal_moves_bytes(e, 0),
            decreases n - i,
        {
            let ghost start = buf@;
            self.moves[i].write(buf);
            let ghost gs = e.groups.subrange(12 * i, 12 * i + 12);
            proof {
                assert(12 * i + 12 <= glen) by (nonlinear_arith)
                    requires
                        glen == 12 * n,
                        i < n,
                ;
                assert(buf@ + spec_personal_groups_bytes(gs, 0, d) + seq![0u8] + spec_personal_moves_bytes(e, i + 1) =~= start
                    + spec_personal_moves_bytes(e, i as int));
            }
            let mut j: usize = 0;
            while j < 12
                invariant
                    e == self@,
                    spec_personal_writable(e),
                    glen == e.groups.len(),
                    12 * i + 12 <= glen,
                    gs == e.groups.subrange(12 * i, 12 * i + 12),
                    j <= 12,
                    buf@ + spec_personal_groups_bytes(gs, j as int, d) + seq![0u8] + spec_personal_moves_bytes(e, i + 1) == start
                        + spec_personal_moves_bytes(e, i as int),
                decreases 12 - j,
            {
                let ghost before = buf@;
                let g = &self.groups[12 * i + j];
                assert(g@ == e.groups[12 * i + j]);
                assert(gs[j as int] == e.groups[12 * i + j]);
                let kept = personal_kept(g, d);
                let ghost kv = kept@.map_values(|p: (u64, GameId)| (p.0, p.1.value()));
                if kept.len() > 0 || !g.stats.is_empty() {
                    let mode = Mode::from_rated(j % 2 == 0);
                    let header = Header::Group {
                        speed: Speed::from_index(j / 2),
                        mode,
                        num_games: kept.len(),
                    };
                    proof {
                        assert(mode == mode_at((j % 2) as nat));
                    }
                    header.write(buf);
                    assert(e.groups[12 * i + j].0.white + 3 <= u64::MAX);
                    g.stats.write(buf);
                    let ghost b2 = buf@;
                    let mut x: usize = 0;
                    proof {
                        assert(kv.skip(0) =~= kv);
                    }
                    while x < kept.len()
                        invariant
                            x <= kept@.len(),
                            kv == kept@.map_values(|p: (u64, GameId)| (p.0, p.1.value())),
                            buf@ + spec_personal_games_bytes(kv.skip(x as int)) == b2 + spec_personal_games_bytes(kv),
                        decreases kept@.len() - x,
                    {
                        let ghost b1 = buf@;
                        let (idx, id) = kept[x];
                        write_uint(buf, idx);
                        id.write(buf);
                        proof {
                            let rest = kv.skip(x as int);
                            assert(rest[0] == (idx, id.value()));
                            assert(rest.drop_first() =~= kv.skip(x + 1));
                            assert(buf@ + spec_personal_games_bytes(kv.skip(x + 1)) =~= b1 + spec_personal_games_bytes(rest));
                        }
                        x = x + 1;
                    }
                    proof {
                        assert(kv.skip(x as int) =~= Seq::<(u64, u64)>::empty());
                        assert(kv.skip(0) =~= kv);
                    }
                }
                proof {
                    assert(buf@ =~= before + spec_personal_group_bytes(j as int, gs[j as int], d));
                    assert(buf@ + spec_personal_groups_bytes(gs, j + 1, d) =~= before + spec_personal_groups_bytes(gs, j as int, d));
                }
                j = j + 1;
            }
            Header::End.write(buf);
            proof {
                assert(spec_personal_groups_bytes(gs, 12, d) =~= Seq::<u8>::empty());
            }
            i = i + 1;
        }
    }
}


#[verifier::external_type_specification]
#[verifier::external_body]
pub struct ExSystemTime(std::time::SystemTime);

/// `SystemTime::now`: the time of the system clock. It depends on the
/// clock, so nothing is stated of it.
#[verifier::external_body]
fn system_now() -> std::time::SystemTime {
    std::time::SystemTime::now()
}

/// `SystemTime::duration_since` with `UNIX_EPOCH`: the time passed since
/// the Unix epoch, none when `t` is earlier. It depends on `t`, which comes
/// from the clock, so nothing more is stated of it.
#[verifier::external_body]
fn since_epoch(t: &std::time::SystemTime) -> Option<std::time::Duration> {
    t.duration_since(std::time::UNIX_EPOCH).ok()
}

/// `Duration::as_secs`: the whole seconds of a duration.
#[verifier::external_body]
fn duration_secs(d: &std::time::Duration) -> u64 {
    d.as_secs()
}

/// `Duration::subsec_nanos`: the nanoseconds past the whole seconds, which
/// the documentation gives as below one billion.
#[verifier::external_body]
fn duration_nanos(d: &std::time::Duration) -> (n: u32)
    ensures
        n < 1_000_000_000,
{
    d.subsec_nanos()
}

/// The current time as seconds and nanoseconds since the Unix epoch; zero
/// before the epoch.
fn now_since_epoch() -> (r: (u64, u32))
    ensures
        r.1 < 1_000_000_000,
{
    match since_epoch(&system_now()) {
        Some(d) => (duration_secs(&d), duration_nanos(&d)),
        None => (0, 0),
    }
}

/// Whether more than `limit` seconds passed from `since` (whole seconds) to
/// `now` (seconds and nanoseconds); no time passed when `now` is earlier.
pub open spec fn spec_elapsed_over(since: u64, now_secs: u64, now_nanos: u32, limit: u64) -> bool {
    now_secs >= since && (now_secs - since > limit || (now_secs - since == limit && now_nanos > 0))
}

/// When a player was last indexed and what remains to be looked at.
#[derive(Debug, Clone, Copy, PartialEq, Eq, Structural)]
pub struct PersonalStatus {
    /// The creation time of the latest game indexed, in milliseconds.
    pub latest_created_at: u64,
    /// The creation time of the first game that was still being played.
    pub revisit_ongoing_created_at: Option<u64>,
    /// When the player was last indexed, in seconds since the Unix epoch.
    pub indexed_at: u64,
}

/// The written form of a status: three variable-length integers.
pub open spec fn spec_status_bytes(s: PersonalStatus) -> Seq<u8> {
    encode_uint(s.latest_created_at as nat) + encode_uint(
        match s.revisit_ongoing_created_at {
            Some(t) => t as nat,
            None => 0,
        },
    ) + encode_uint(s.indexed_at as nat)
}

impl Default for PersonalStatus {
    /// Never indexed.
    fn default() -> (s: PersonalStatus)
        ensures
            s.latest_created_at == 0,
            s.revisit_ongoing_created_at is None,
            s.indexed_at == 0,
    {
        PersonalStatus { latest_created_at: 0, revisit_ongoing_created_at: None, indexed_at: 0 }
    }
}

impl PersonalStatus {
    /// The number of bytes that a written status usually takes.
    pub const SIZE_HINT: usize = 24;

    /// At `now`: the creation time of the game to revisit, taken out of the
    /// status, if more than a day passed since the last indexing.
    pub fn maybe_revisit_ongoing_at(&mut self, now_secs: u64, now_nanos: u32) -> (r: Option<u64>)
        ensures
            spec_elapsed_over(old(self).indexed_at, now_secs, now_nanos, 86400) ==> r == old(
                self,
            ).revisit_ongoing_created_at && *final(self) == (PersonalStatus {
                revisit_ongoing_created_at: None,
                ..*old(self)
            }),
            !spec_elapsed_over(old(self).indexed_at, now_secs, now_nanos, 86400) ==> r is None
                && *final(self) == *old(self),
    {
        if elapsed_over(self.indexed_at, now_secs, now_nanos, 86400) {
            let r = self.revisit_ongoing_created_at;
            self.revisit_ongoing_created_at = None;
            r
        } else {
            None
        }
    }

    /// The creation time of the game to revisit, taken out of the status, if
    /// more than a day passed since the last indexing.
    pub fn maybe_revisit_ongoing(&mut self) -> (r: Option<u64>)
        ensures
            r is None || r == old(self).revisit_ongoing_created_at,
            old(self).revisit_ongoing_created_at is None ==> r is None && *final(self) == *old(self),
            (r is None && *final(self) == *old(self)) || (r == old(self).revisit_ongoing_created_at
                && *final(self) == (PersonalStatus { revisit_ongoing_created_at: None, ..*old(self) })),
    {
        let (secs, nanos) = now_since_epoch();
        self.maybe_revisit_ongoing_at(secs, nanos)
    }

    /// At `now`: if more than a minute passed since the last indexing, the
    /// creation time from which to index, one millisecond after the latest
    /// game indexed.
    pub fn maybe_index_at(&self, now_secs: u64, now_nanos: u32) -> (r: Option<u64>)
        ensures
            spec_elapsed_over(self.indexed_at, now_secs, now_nanos, 60) ==> r == Some(
                if self.latest_created_at == u64::MAX {
                    u64::MAX
                } else {
                    (self.latest_created_at + 1) as u64
                },
            ),
            !spec_elapsed_over(self.indexed_at, now_secs, now_nanos, 60) ==> r is None,
    {
        if elapsed_over(self.indexed_at, now_secs, now_nanos, 60) {
            Some(if self.latest_created_at == u64::MAX {
                u64::MAX
            } else {
                self.latest_created_at + 1
            })
        } else {
            None
        }
    }

    /// An indexing run that finished at `now_secs` seconds since the Unix
    /// epoch: the player counts as indexed then.
    pub fn finish_index_run_at(&mut self, now_secs: u64)
        ensures
            final(self).indexed_at == now_secs,
            final(self).latest_created_at == old(self).latest_created_at,
            final(self).revisit_ongoing_created_at == old(self).revisit_ongoing_created_at,
    {
        self.indexed_at = now_secs;
    }

    /// If more than a minute passed since the last indexing, the creation
    /// time from which to index.
    pub fn maybe_index(&self) -> (r: Option<u64>)
        ensures
            r is None || r == Some(
                if self.latest_created_at == u64::MAX {
                    u64::MAX
                } else {
                    (self.latest_created_at + 1) as u64
                },
            ),
    {
        let (secs, nanos) = now_since_epoch();
        self.maybe_index_at(secs, nanos)
    }

    /// Reads a status; nothing when it cannot be read.
    pub fn read(reader: &mut Reader) -> (r: Option<PersonalStatus>)
        ensures
            ({
                let b = old(reader)@;
                match spec_read_uint(b) {
                    None => r is None,
                    Some((a, l1)) => match spec_read_uint(b.skip(l1 as int)) {
                        None => r is None,
                        Some((o, l2)) => match spec_read_uint(b.skip((l1 + l2) as int)) {
                            None => r is None,
                            Some((t, l3)) => r == Some(
                                PersonalStatus {
                                    latest_created_at: a,
                                    revisit_ongoing_created_at: if o != 0 {
                                        Some(o)
                                    } else {
                                        None
                                    },
                                    indexed_at: t,
                                },
                            ),
                        },
                    },
                }
            }),
    {
        let ghost b = reader@;
        proof {
            crate::uint::lemma_read_uint_len(b);
        }
        let a = match read_uint(reader) {
            Some(v) => v,
            None => return None,
        };
        let ghost l1 = spec_read_uint(b).unwrap().1;
        proof {
            crate::uint::lemma_read_uint_len(b.skip(l1 as int));
        }
        let o = match read_uint(reader) {
            Some(v) => v,
            None => return None,
        };
        let ghost l2 = spec_read_uint(b.skip(l1 as int)).unwrap().1;
        proof {
            crate::uint::lemma_skip_skip(b, l1, l2);
        }
        let t = match read_uint(reader) {
            Some(v) => v,
            None => return None,
        };
        Some(
            PersonalStatus {
                latest_created_at: a,
                revisit_ongoing_created_at: if o != 0 {
                    Some(o)
                } else {
                    None
                },
                indexed_at: t,
            },
        )
    }

    /// Appends the written form.
    pub fn write(&self, buf: &mut Vec<u8>)
        ensures
            final(buf)@ == old(buf)@ + spec_status_bytes(*self),
    {
        let ghost start = buf@;
        write_uint(buf, self.latest_created_at);
        write_uint(
            buf,
            match self.revisit_ongoing_created_at {
                Some(t) => t,
                None => 0,
            },
        );
        write_uint(buf, self.indexed_at);
        proof {
            assert(buf@ =~= start + spec_status_bytes(*self));
        }
    }
}

/// Whether more than `limit` seconds passed from `since` to `now`.
fn elapsed_over(since: u64, now_secs: u64, now_nanos: u32, limit: u64) -> (b: bool)
    ensures
        b == spec_elapsed_over(since, now_secs, now_nanos, limit),
{
    now_secs >= since && (now_secs - since > limit || (now_secs - since == limit && now_nanos > 0))
}

/// Reading back a written status gives it, except that a revisit time of
/// zero reads as none.
pub proof fn lemma_status_roundtrip(s: PersonalStatus, t: Seq<u8>)
    requires
        s.revisit_ongoing_created_at != Some(0u64),
    ensures
        ({
            let b = spec_status_bytes(s) + t;
            let e1 = encode_uint(s.latest_created_at as nat);
            let o = match s.revisit_ongoing_created_at {
                Some(x) => x,
                None => 0u64,
            };
            let e2 = encode_uint(o as nat);
            &&& spec_read_uint(b) == Some((s.latest_created_at, e1.len()))
            &&& spec_read_uint(b.skip(e1.len() as int)) == Some((o, e2.len()))
            &&& spec_read_uint(b.skip((e1.len() + e2.len()) as int)) == Some(
                (s.indexed_at, encode_uint(s.indexed_at as nat).len()),
            )
        }),
{
    let e1 = encode_uint(s.latest_created_at as nat);
    let o = match s.revisit_ongoing_created_at {
        Some(x) => x,
        None => 0u64,
    };
    let e2 = encode_uint(o as nat);
    let e3 = encode_uint(s.indexed_at as nat);
    let b = spec_status_bytes(s) + t;
    assert(b =~= e1 + (e2 + (e3 + t)));
    crate::uint::lemma_uint_roundtrip(s.latest_created_at, e2 + (e3 + t));
    assert(b.skip(e1.len() as int) =~= e2 + (e3 + t));
    crate::uint::lemma_uint_roundtrip(o, e3 + t);
    assert(b.skip((e1.len() + e2.len()) as int) =~= e3 + t);
    crate::uint::lemma_uint_roundtrip(s.indexed_at, t);
}


impl PersonalEntry {
    /// Whether every group can be written: its count of white wins leaves
    /// room for the header.
    pub fn is_writable(&self) -> (b: bool)
        ensures
            b == spec_personal_writable(self@),
    {
        let n = self.groups.len();
        let mut k: usize = 0;
        while k < n
            invariant
                k <= n,
                n == self@.groups.len(),
                forall|j: int| 0 <= j < k ==> #[trigger] self@.groups[j].0.white + 3 <= u64::MAX,
            decreases n - k,
        {
            proof {
                assert(self@.groups[k as int] == self.groups@[k as int]@);
            }
            if self.groups[k].stats.white > u64::MAX - 3 {
                proof {
                    assert(!(self@.groups[k as int].0.white + 3 <= u64::MAX));
                }
                return false;
            }
            k = k + 1;
        }
        true
    }
}

/// Whether a filter counts the group at slot `j` of a move: its speed and
/// its mode are counted.
pub open spec fn spec_personal_selected(speeds: Option<Seq<Speed>>, modes: Option<Seq<Mode>>, j: int) -> bool {
    spec_contains_speed(speeds, speed_at((j / 2) as nat)) && spec_contains_mode(
        modes,
        mode_at((j % 2) as nat),
    )
}

/// The counts of the groups from `lo` to `hi` that the filter counts.
pub open spec fn spec_personal_sum(
    gs: Seq<GroupModel>,
    speeds: Option<Seq<Speed>>,
    modes: Option<Seq<Mode>>,
    lo: int,
    hi: int,
) -> Sums
    decreases hi - lo,
{
    if hi <= lo {
        sums_zero()
    } else {
        sums_add(
            spec_personal_sum(gs, speeds, modes, lo, hi - 1),
            if spec_personal_selected(speeds, modes, (hi - 1) % 12) {
                sums_of(gs[hi - 1].0)
            } else {
                sums_zero()
            },
        )
    }
}

/// The counts of all groups together fit in 64 bits.
pub open spec fn spec_personal_sums_fit(e: PersonalModel) -> bool {
    sums_fit(spec_personal_sum(e.groups, None, None, 0, e.groups.len() as int))
}

proof fn lemma_personal_sum_bounds(
    gs: Seq<GroupModel>,
    speeds: Option<Seq<Speed>>,
    modes: Option<Seq<Mode>>,
    lo: int,
    hi: int,
)
    ensures
        sums_nonneg(spec_personal_sum(gs, speeds, modes, lo, hi)),
        sums_le(spec_personal_sum(gs, speeds, modes, lo, hi), spec_personal_sum(gs, None, None, lo, hi)),
    decreases hi - lo,
{
    if hi > lo {
        lemma_personal_sum_bounds(gs, speeds, modes, lo, hi - 1);
    }
}

proof fn lemma_personal_sum_split(
    gs: Seq<GroupModel>,
    speeds: Option<Seq<Speed>>,
    modes: Option<Seq<Mode>>,
    lo: int,
    mid: int,
    hi: int,
)
    requires
        lo <= mid <= hi,
    ensures
        spec_personal_sum(gs, speeds, modes, lo, hi) == sums_add(
            spec_personal_sum(gs, speeds, modes, lo, mid),
            spec_personal_sum(gs, speeds, modes, mid, hi),
        ),
    decreases hi - mid,
{
    if hi > mid {
        lemma_personal_sum_split(gs, speeds, modes, lo, mid, hi - 1);
    }
}

proof fn lemma_personal_sum_within(
    gs: Seq<GroupModel>,
    speeds: Option<Seq<Speed>>,
    modes: Option<Seq<Mode>>,
    lo: int,
    a: int,
    b: int,
    hi: int,
)
    requires
        lo <= a <= b <= hi,
    ensures
        sums_le(spec_personal_sum(gs, speeds, modes, a, b), spec_personal_sum(gs, None, None, lo, hi)),
{
    lemma_personal_sum_bounds(gs, speeds, modes, a, b);
    lemma_personal_sum_split(gs, None, None, lo, a, hi);
    lemma_personal_sum_split(gs, None, None, a, b, hi);
    lemma_personal_sum_bounds(gs, None, None, lo, a);
    lemma_personal_sum_bounds(gs, None, None, b, hi);
}

/// The games that the filter counts among the groups of the move at
/// position `i`, from slot `0` to `j`, in order.
pub open spec fn spec_personal_move_games(
    e: PersonalModel,
    speeds: Option<Seq<Speed>>,
    modes: Option<Seq<Mode>>,
    i: int,
    j: int,
) -> Seq<(u64, u64)>
    decreases j,
{
    if j <= 0 {
        Seq::empty()
    } else {
        spec_personal_move_games(e, speeds, modes, i, j - 1) + if spec_personal_selected(
            speeds,
            modes,
            j - 1,
        ) {
            e.groups[12 * i + j - 1].1
        } else {
            Seq::empty()
        }
    }
}

/// The row of the move at position `i`: its counts under the filter, the
/// average rating of the opponents, and its game if it was played in
/// exactly one.
pub open spec fn spec_personal_row(
    e: PersonalModel,
    speeds: Option<Seq<Speed>>,
    modes: Option<Seq<Mode>>,
    i: int,
) -> PreparedMove {
    let st = stats_of_sums(spec_personal_sum(e.groups, speeds, modes, 12 * i, 12 * i + 12));
    PreparedMove {
        uci: spec_unpack(e.moves[i]),
        stats: st,
        game: if spec_total(st) == 1 {
            match spec_latest(spec_personal_move_games(e, speeds, modes, i, 12)) {
                Some(g) => Some(GameId::spec_from(g.1)),
                None => None,
            }
        } else {
            None
        },
        average_rating: None,
        average_opponent_rating: spec_average_rating(st),
        performance: None,
    }
}

/// Whether the move at position `i` has a row: it has counts or games
/// under the filter.
pub open spec fn spec_personal_has_row(
    e: PersonalModel,
    speeds: Option<Seq<Speed>>,
    modes: Option<Seq<Mode>>,
    i: int,
) -> bool {
    spec_total(spec_personal_row(e, speeds, modes, i).stats) != 0 || spec_latest(
        spec_personal_move_games(e, speeds, modes, i, 12),
    ) is Some
}

/// The rows of the moves before position `i`, with their numbers of games
/// as keys.
pub open spec fn spec_personal_rows(
    e: PersonalModel,
    speeds: Option<Seq<Speed>>,
    modes: Option<Seq<Mode>>,
    i: int,
) -> Seq<(u128, PreparedMove)>
    decreases i,
{
    if i <= 0 {
        Seq::empty()
    } else {
        let row = spec_personal_row(e, speeds, modes, i - 1);
        spec_personal_rows(e, speeds, modes, i - 1) + if spec_personal_has_row(e, speeds, modes, i - 1) {
            seq![(crate::response::spec_move_key(row), row)]
        } else {
            Seq::empty()
        }
    }
}

/// The counts of the moves before position `i` that have rows.
pub open spec fn spec_personal_total(
    e: PersonalModel,
    speeds: Option<Seq<Speed>>,
    modes: Option<Seq<Mode>>,
    i: int,
) -> Sums
    decreases i,
{
    if i <= 0 {
        sums_zero()
    } else {
        sums_add(
            spec_personal_total(e, speeds, modes, i - 1),
            if spec_personal_has_row(e, speeds, modes, i - 1) {
                spec_personal_sum(e.groups, speeds, modes, 12 * (i - 1), 12 * (i - 1) + 12)
            } else {
                sums_zero()
            },
        )
    }
}

/// The games of a group for the move `uci`, keyed by their index.
pub open spec fn spec_personal_game_rows_of(games: Seq<(u64, u64)>, uci: Uci) -> Seq<(u128, (Uci, GameId))> {
    games.map_values(|g: (u64, u64)| (g.0 as u128, (uci, GameId::spec_from(g.1))))
}

/// The games of the groups before `k` that the filter counts, keyed by
/// their index.
pub open spec fn spec_personal_game_rows(
    e: PersonalModel,
    speeds: Option<Seq<Speed>>,
    modes: Option<Seq<Mode>>,
    k: int,
) -> Seq<(u128, (Uci, GameId))>
    decreases k,
{
    if k <= 0 {
        Seq::empty()
    } else {
        spec_personal_game_rows(e, speeds, modes, k - 1) + if spec_personal_selected(
            speeds,
            modes,
            (k - 1) % 12,
        ) {
            spec_personal_game_rows_of(e.groups[k - 1].1, spec_unpack(e.moves[(k - 1) / 12]))
        } else {
            Seq::empty()
        }
    }
}

/// What `prepare` answers for the player's entry `e` under the filter: the
/// total of the counts of the moves with rows, all rows with the most games
/// first, and the fifteen most recent games.
pub open spec fn spec_personal_prepared(e: PersonalModel, filter: PlayerQueryFilter, r: PreparedResponse) -> bool {
    let sp = filter.spec_speeds();
    let md = filter.spec_modes();
    let n = e.moves.len() as int;
    let rows = spec_personal_rows(e, sp, md, n);
    &&& r.total == stats_of_sums(spec_personal_total(e, sp, md, n))
    &&& exists|sel: Seq<(u128, PreparedMove)>|
        is_top_selection(rows, sel, rows.len()) && r.moves@ == spec_unkeyed(sel)
    &&& exists|sel: Seq<(u128, (Uci, GameId))>|
        is_top_selection(spec_personal_game_rows(e, sp, md, 12 * n), sel, MAX_PERSONAL_GAMES as nat)
            && r.recent_games@ == spec_unkeyed(sel)
    &&& r.top_games@.len() == 0
}

/// Goes through the games of a group: the latest game of `prefix` and the
/// group's games, and the group's games appended as rows.
fn scan_personal_games(
    g: &LichessGroup,
    uci: Uci,
    latest: Option<(u64, GameId)>,
    rows: &mut Vec<(u128, (Uci, GameId))>,
    Ghost(prefix): Ghost<Seq<(u64, u64)>>,
) -> (r: Option<(u64, GameId)>)
    requires
        match spec_latest(prefix) {
            Some(gm) => latest matches Some(y) && y.0 == gm.0 && y.1 == GameId::spec_from(gm.1),
            None => latest is None,
        },
    ensures
        match spec_latest(prefix + g@.1) {
            Some(gm) => r matches Some(y) && y.0 == gm.0 && y.1 == GameId::spec_from(gm.1),
            None => r is None,
        },
        final(rows)@ == old(rows)@ + spec_personal_game_rows_of(g@.1, uci),
{
    let ghost rows0 = rows@;
    let ghost games = g@.1;
    let mut latest = latest;
    let len = g.games.len();
    let mut x: usize = 0;
    proof {
        assert(prefix + games.take(0) =~= prefix);
    }
    while x < len
        invariant
            x <= len,
            len == g.games@.len(),
            games == g@.1,
            match spec_latest(prefix + games.take(x as int)) {
                Some(gm) => latest matches Some(y) && y.0 == gm.0 && y.1 == GameId::spec_from(gm.1),
                None => latest is None,
            },
            rows@ == rows0 + spec_personal_game_rows_of(games, uci).take(x as int),
        decreases len - x,
    {
        let (idx, id) = g.games[x];
        proof {
            assert(games[x as int] == (idx, id.value()));
            GameId::lemma_value(id.value());
            GameId::lemma_eq(id, GameId::spec_from(id.value()));
            let s1 = prefix + games.take(x + 1);
            assert(s1.drop_last() =~= prefix + games.take(x as int));
            assert(s1.last() == (idx, id.value()));
        }
        let newer = match latest {
            Some(l) => l.0 < idx,
            None => true,
        };
        if newer {
            latest = Some((idx, id));
        }
        rows.push((idx as u128, (uci, id)));
        proof {
            assert(rows@ =~= rows0 + spec_personal_game_rows_of(games, uci).take(x + 1));
        }
        x = x + 1;
    }
    proof {
        assert(games.take(len as int) =~= games);
        assert(spec_personal_game_rows_of(games, uci).take(len as int) =~= spec_personal_game_rows_of(games, uci));
    }
    latest
}

impl PersonalEntry {
    /// Whether the counts of all groups together fit in 64 bits.
    pub fn sums_fit(&self) -> (b: bool)
        ensures
            b == spec_personal_sums_fit(self@),
    {
        let ghost gs = self@.groups;
        let n = self.groups.len();
        let mut a: (u64, u64, u64, u64) = (0, 0, 0, 0);
        let mut k: usize = 0;
        while k < n
            invariant
                k <= n,
                n == gs.len(),
                gs == self@.groups,
                (a.0 as int, a.1 as int, a.2 as int, a.3 as int) == spec_personal_sum(gs, None, None, 0, k as int),
            decreases n - k,
        {
            let s = self.groups[k].stats;
            proof {
                assert(gs[k as int] == self.groups@[k as int]@);
                assert(spec_personal_selected(None, None, k as int % 12));
            }
            let t0 = a.0 as u128 + s.rating_sum as u128;
            let t1 = a.1 as u128 + s.white as u128;
            let t2 = a.2 as u128 + s.draws as u128;
            let t3 = a.3 as u128 + s.black as u128;
            if t0 > u64::MAX as u128 || t1 > u64::MAX as u128 || t2 > u64::MAX as u128 || t3 > u64::MAX as u128 {
                proof {
                    lemma_personal_sum_split(gs, None, None, 0, k + 1, n as int);
                    lemma_personal_sum_bounds(gs, None, None, k + 1, n as int);
                }
                return false;
            }
            a = (t0 as u64, t1 as u64, t2 as u64, t3 as u64);
            k = k + 1;
        }
        proof {
            lemma_personal_sum_bounds(gs, None, None, 0, n as int);
        }
        true
    }

    /// The counts and latest game of the move at position `i` under the
    /// filter, its games appended as rows.
    #[verifier::loop_isolation(false)]
    fn personal_move_summary(
        &self,
        filter: &PlayerQueryFilter,
        i: usize,
        rows: &mut Vec<(u128, (Uci, GameId))>,
    ) -> (r: (Stats, Option<(u64, GameId)>))
        requires
            self.wf(),
            spec_personal_sums_fit(self@),
            i < self@.moves.len(),
            old(rows)@ == spec_personal_game_rows(self@, filter.spec_speeds(), filter.spec_modes(), 12 * i),
        ensures
            r.0 == stats_of_sums(
                spec_personal_sum(self@.groups, filter.spec_speeds(), filter.spec_modes(), 12 * i, 12 * i + 12),
            ),
            match spec_latest(spec_personal_move_games(self@, filter.spec_speeds(), filter.spec_modes(), i as int, 12)) {
                Some(g) => r.1 matches Some(x) && x.0 == g.0 && x.1 == GameId::spec_from(g.1),
                None => r.1 is None,
            },
            final(rows)@ == spec_personal_game_rows(self@, filter.spec_speeds(), filter.spec_modes(), 12 * i + 12),
    {
        let ghost e = self@;
        let ghost sp = filter.spec_speeds();
        let ghost md = filter.spec_modes();
        let n = self.groups.len();
        proof {
            assert(12 * i + 12 <= n) by (nonlinear_arith)
                requires
                    n == 12 * e.moves.len(),
                    i < e.moves.len(),
            ;
        }
        let uci = self.moves[i].to_uci();
        proof {
            assert(e.moves[i as int] == self.moves@[i as int].0);
        }
        let mut stats = Stats::from_counts(0, 0, 0, 0);
        let mut latest: Option<(u64, GameId)> = None;
        let mut j: usize = 0;
        while j < 12
            invariant
                j <= 12,
                stats == stats_of_sums(spec_personal_sum(e.groups, sp, md, 12 * i, 12 * i + j)),
                match spec_latest(spec_personal_move_games(e, sp, md, i as int, j as int)) {
                    Some(g) => latest matches Some(x) && x.0 == g.0 && x.1 == GameId::spec_from(g.1),
                    None => latest is None,
                },
                rows@ == spec_personal_game_rows(e, sp, md, 12 * i + j),
            decreases 12 - j,
        {
            let k = 12 * i + j;
            let speed = Speed::from_index(j / 2);
            let mode = if j % 2 == 0 { Mode::Rated } else { Mode::Casual };
            proof {
                assert((k as int) % 12 == j as int) by (nonlinear_arith)
                    requires
                        k == 12 * i + j,
                        j < 12,
                ;
                assert((k as int) / 12 == i as int) by (nonlinear_arith)
                    requires
                        k == 12 * i + j,
                        j < 12,
                ;
                assert(mode == mode_at((j % 2) as nat));
                lemma_personal_sum_within(e.groups, sp, md, 0, 12 * i, k + 1, n as int);
                lemma_personal_sum_bounds(e.groups, sp, md, 12 * i, k as int);
            }
            let selected = filter.contains_speed(speed) && filter.contains_mode(mode);
            if selected {
                let g = &self.groups[k];
                assert(g@ == e.groups[k as int]);
                stats.add_assign(&g.stats);
                latest = scan_personal_games(g, uci, latest, rows, Ghost(spec_personal_move_games(e, sp, md, i as int, j as int)));
                proof {
                    assert(spec_personal_move_games(e, sp, md, i as int, j + 1) =~= spec_personal_move_games(
                        e,
                        sp,
                        md,
                        i as int,
                        j as int,
                    ) + e.groups[k as int].1);
                }
            } else {
                proof {
                    assert(spec_personal_move_games(e, sp, md, i as int, j + 1) =~= spec_personal_move_games(
                        e,
                        sp,
                        md,
                        i as int,
                        j as int,
                    ));
                }
            }
            j = j + 1;
        }
        (stats, latest)
    }
}

proof fn lemma_personal_total_bound(
    e: PersonalModel,
    speeds: Option<Seq<Speed>>,
    modes: Option<Seq<Mode>>,
    i: int,
)
    requires
        0 <= i,
        12 * i <= e.groups.len(),
    ensures
        sums_le(spec_personal_total(e, speeds, modes, i), spec_personal_sum(e.groups, speeds, modes, 0, 12 * i)),
        sums_nonneg(spec_personal_total(e, speeds, modes, i)),
    decreases i,
{
    if i > 0 {
        lemma_personal_total_bound(e, speeds, modes, i - 1);
        lemma_personal_sum_split(e.groups, speeds, modes, 0, 12 * (i - 1), 12 * i);
        lemma_personal_sum_bounds(e.groups, speeds, modes, 12 * (i - 1), 12 * i);
    }
}

impl PersonalEntry {
    /// The answer for the player's position under `filter`: a row for each
    /// move that has counts or games, with its counts, the average rating of
    /// the opponents and its game if it was played in exactly one, the rows
    /// with the most games first; their total; and the fifteen most recent
    /// games.
    pub fn prepare(self, filter: &PlayerQueryFilter) -> (r: PreparedResponse)
        requires
            self.wf(),
            spec_personal_sums_fit(self@),
        ensures
            spec_personal_prepared(self@, *filter, r),
    {
        let ghost e = self@;
        let ghost sp = filter.spec_speeds();
        let ghost md = filter.spec_modes();
        let n = self.moves.len();
        let mut total = Stats::from_counts(0, 0, 0, 0);
        let mut rows: Vec<(u128, PreparedMove)> = Vec::new();
        let mut games: Vec<(u128, (Uci, GameId))> = Vec::new();
        let mut i: usize = 0;
        while i < n
            invariant
                e == self@,
                self.wf(),
                spec_personal_sums_fit(e),
                n == e.moves.len(),
                i <= n,
                total == stats_of_sums(spec_personal_total(e, sp, md, i as int)),
                rows@ == spec_personal_rows(e, sp, md, i as int),
                games@ == spec_personal_game_rows(e, sp, md, 12 * i),
                sp == filter.spec_speeds(),
                md == filter.spec_modes(),
            decreases n - i,
        {
            let uci = self.moves[i].to_uci();
            let (stats, latest) = self.personal_move_summary(filter, i, &mut games);
            proof {
                assert(e.moves[i as int] == self.moves@[i as int].0);
                assert(12 * i + 12 <= e.groups.len()) by (nonlinear_arith)
                    requires
                        e.groups.len() == 12 * n,
                        i < n,
                ;
                lemma_personal_total_bound(e, sp, md, i as int);
                lemma_personal_sum_split(e.groups, sp, md, 0, 12 * i, 12 * i + 12);
                lemma_personal_sum_bounds(e.groups, sp, md, 12 * i, 12 * i + 12);
                lemma_personal_sum_within(e.groups, sp, md, 0, 0, 12 * i + 12, e.groups.len() as int);
            }
            if !stats.is_empty() || latest.is_some() {
                total.add_assign(&stats);
                let game = if stats.is_single() {
                    match latest {
                        Some(l) => Some(l.1),
                        None => None,
                    }
                } else {
                    None
                };
                let row = PreparedMove {
                    uci,
                    stats,
                    game,
                    average_rating: None,
                    average_opponent_rating: stats.average_rating(),
                    performance: None,
                };
                let key: u128 = stats.white as u128 + stats.draws as u128 + stats.black as u128;
                rows.push((key, row));
            }
            proof {
                assert(rows@ =~= spec_personal_rows(e, sp, md, i + 1));
            }
            i = i + 1;
        }
        let all = rows.len();
        let best = take_best(rows, all);
        let moves = unkeyed(best);
        let recent = take_best(games, MAX_PERSONAL_GAMES as usize);
        let recent_games = unkeyed(recent);
        PreparedResponse { total, moves, recent_games, top_games: Vec::new() }
    }

    /// As `prepare`, with at most `limits.moves` moves and at most
    /// `limits.recent_games` recent games, the first ones kept.
    pub fn prepare_limited(self, filter: &PlayerQueryFilter, limits: &PlayerLimits) -> (r: PreparedResponse)
        requires
            self.wf(),
            spec_personal_sums_fit(self@),
        ensures
            exists|full: PreparedResponse|
                #![trigger spec_personal_prepared(self@, *filter, full)]
                {
                    &&& spec_personal_prepared(self@, *filter, full)
                    &&& r.total == full.total
                    &&& r.moves@ == spec_first(full.moves@, limits.moves as nat)
                    &&& r.recent_games@ == spec_first(full.recent_games@, limits.recent_games as nat)
                    &&& r.top_games@ == full.top_games@
                },
    {
        let ghost me = self@;
        let mut r = self.prepare(filter);
        let ghost full = r;
        r.moves.truncate(limits.moves);
        r.recent_games.truncate(limits.recent_games);
        proof {
            assert(spec_personal_prepared(me, *filter, full));
        }
        r
    }
}

/// The first `n` items of `s`, or all of them if there are fewer.
pub open spec fn spec_first<T>(s: Seq<T>, n: nat) -> Seq<T> {
    if n < s.len() {
        s.take(n as int)
    } else {
        s
    }
}

/// The games `gs` with their indices counted from `base`.
pub open spec fn spec_personal_rebase(gs: Seq<(u64, u64)>, base: nat) -> Seq<(u64, u64)> {
    Seq::new(gs.len(), |x: int| ((base + gs[x].0) as u64, gs[x].1))
}

/// The entry after the games `gs` are read into the group at `k`, their
/// indices counted from `base`.
pub open spec fn spec_personal_add_games(e: PersonalModel, k: int, gs: Seq<(u64, u64)>, base: nat) -> PersonalModel
    decreases gs.len(),
{
    if gs.len() == 0 {
        e
    } else {
        let idx = (base + gs[0].0) as u64;
        spec_personal_add_games(
            PersonalModel {
                groups: e.groups.update(k, (e.groups[k].0, e.groups[k].1.push((idx, gs[0].1)))),
                max: if e.max > idx {
                    e.max
                } else {
                    idx
                },
                ..e
            },
            k,
            gs.drop_first(),
            base,
        )
    }
}

proof fn lemma_personal_add_games_shape(e: PersonalModel, k: int, gs: Seq<(u64, u64)>, base: nat, bound: nat)
    requires
        0 <= k < e.groups.len(),
        forall|x: int| 0 <= x < gs.len() ==> base + (#[trigger] gs[x]).0 <= u64::MAX,
    ensures
        spec_personal_add_games(e, k, gs, base).moves == e.moves,
        spec_personal_add_games(e, k, gs, base).groups == e.groups.update(
            k,
            (e.groups[k].0, e.groups[k].1 + spec_personal_rebase(gs, base)),
        ),
        e.max <= bound && (forall|x: int| 0 <= x < gs.len() ==> base + (#[trigger] gs[x]).0 <= bound)
            ==> spec_personal_add_games(e, k, gs, base).max <= bound,
    decreases gs.len(),
{
    if gs.len() == 0 {
        assert(e.groups[k].1 + spec_personal_rebase(gs, base) =~= e.groups[k].1);
        assert(e.groups.update(k, (e.groups[k].0, e.groups[k].1)) =~= e.groups);
    } else {
        let idx = (base + gs[0].0) as u64;
        let e1 = PersonalModel {
            groups: e.groups.update(k, (e.groups[k].0, e.groups[k].1.push((idx, gs[0].1)))),
            max: if e.max > idx {
                e.max
            } else {
                idx
            },
            ..e
        };
        assert forall|x: int| 0 <= x < gs.drop_first().len() implies base + (#[trigger] gs.drop_first()[x]).0
            <= u64::MAX by {
            assert(gs.drop_first()[x] == gs[x + 1]);
        }
        lemma_personal_add_games_shape(e1, k, gs.drop_first(), base, bound);
        assert(e1.groups[k].1 + spec_personal_rebase(gs.drop_first(), base) =~= e.groups[k].1
            + spec_personal_rebase(gs, base));
        assert(e1.groups.update(k, (e1.groups[k].0, e1.groups[k].1 + spec_personal_rebase(gs.drop_first(), base)))
            =~= e.groups.update(k, (e.groups[k].0, e.groups[k].1 + spec_personal_rebase(gs, base))));
        if e.max <= bound && (forall|x: int| 0 <= x < gs.len() ==> base + (#[trigger] gs[x]).0 <= bound) {
            assert(base + gs[0].0 <= bound);
            assert forall|x: int| 0 <= x < gs.drop_first().len() implies base + (#[trigger] gs.drop_first()[x]).0
                <= bound by {
                assert(gs.drop_first()[x] == gs[x + 1]);
            }
        }
    }
}

proof fn lemma_personal_games_roundtrip(e: PersonalModel, k: int, gs: Seq<(u64, u64)>, base: nat, t: Seq<u8>)
    requires
        0 <= k < e.groups.len(),
        forall|x: int| 0 <= x < gs.len() ==> (#[trigger] gs[x]).1 < GAME_ID_LIMIT && base + gs[x].0 <= u64::MAX,
    ensures
        spec_personal_games(e, k, spec_personal_games_bytes(gs) + t, gs.len(), base) == Some(
            (spec_personal_add_games(e, k, gs, base), t),
        ),
    decreases gs.len(),
{
    if gs.len() == 0 {
        assert(spec_personal_games_bytes(gs) + t =~= t);
    } else {
        let d = gs[0].0;
        let id = gs[0].1;
        let enc = encode_uint(d as nat);
        let gb = le_bytes(id as nat, 6);
        let tail = spec_personal_games_bytes(gs.drop_first()) + t;
        let b = spec_personal_games_bytes(gs) + t;
        assert(b =~= enc + (gb + tail));
        crate::uint::lemma_uint_roundtrip(d, gb + tail);
        crate::uint::lemma_skip_concat(enc, gb + tail);
        GameId::lemma_value(id);
        crate::game_id::lemma_game_id_bytes_roundtrip(GameId::spec_from(id), tail);
        assert((gb + tail).skip(6) =~= tail);
        assert(b.skip((enc.len() + 6) as int) =~= tail);
        let idx = (base + d) as u64;
        let e1 = PersonalModel {
            groups: e.groups.update(k, (e.groups[k].0, e.groups[k].1.push((idx, id)))),
            max: if e.max > idx {
                e.max
            } else {
                idx
            },
            ..e
        };
        assert forall|x: int| 0 <= x < gs.drop_first().len() implies (#[trigger] gs.drop_first()[x]).1
            < GAME_ID_LIMIT && base + gs.drop_first()[x].0 <= u64::MAX by {
            assert(gs.drop_first()[x] == gs[x + 1]);
        }
        lemma_personal_games_roundtrip(e1, k, gs.drop_first(), base, t);
    }
}

/// Every game that a group keeps is one of its games.
proof fn lemma_games_after_from(games: Seq<(u64, u64)>, d: u64)
    ensures
        forall|z: int|
            0 <= z < spec_games_after(games, d).len() ==> exists|y: int|
                0 <= y < games.len() && #[trigger] spec_games_after(games, d)[z] == games[y],
    decreases games.len(),
{
    if games.len() > 0 {
        let init = games.drop_last();
        lemma_games_after_from(init, d);
        let a = spec_games_after(init, d);
        let full = spec_games_after(games, d);
        assert forall|z: int| 0 <= z < full.len() implies exists|y: int|
            0 <= y < games.len() && #[trigger] full[z] == games[y] by {
            if z < a.len() {
                assert(full[z] == a[z]);
                let y = choose|y: int| 0 <= y < init.len() && a[z] == init[y];
                assert(init[y] == games[y]);
            } else {
                assert(full[z] == games.last());
                assert(games.last() == games[games.len() - 1]);
            }
        }
    }
}

proof fn lemma_personal_kept_from(games: Seq<(u64, u64)>, d: u64)
    ensures
        forall|z: int|
            0 <= z < spec_personal_kept(games, d).len() ==> exists|y: int|
                0 <= y < games.len() && #[trigger] spec_personal_kept(games, d)[z] == games[y],
{
    lemma_games_after_from(games, d);
}

/// The entry after the group `g` at slot `j` of the move at position `i`
/// is read into an empty group, its games counted from `base`.
pub open spec fn spec_personal_group_read(e: PersonalModel, i: int, j: int, g: GroupModel, d: u64, base: nat) -> PersonalModel {
    let k = 12 * i + j;
    spec_personal_add_games(
        PersonalModel { groups: e.groups.update(k, (g.0, e.groups[k].1)), ..e },
        k,
        spec_personal_kept(g.1, d),
        base,
    )
}

proof fn lemma_personal_slot_of(j: int)
    requires
        0 <= j < 12,
    ensures
        spec_personal_slot(speed_at((j / 2) as nat), mode_at((j % 2) as nat)) == j,
{
}

/// Reading the written form of a group that keeps games or counts some
/// into an empty group of the move at position `i` sets that group.
#[verifier::rlimit(60)]
#[verifier::spinoff_prover]
proof fn lemma_personal_group_roundtrip(
    e: PersonalModel,
    i: int,
    j: int,
    g: GroupModel,
    d: u64,
    base: nat,
    t: Seq<u8>,
)
    requires
        0 <= i,
        0 <= j < 12,
        12 * i + 12 <= e.groups.len(),
        e.groups[12 * i + j] == spec_empty_group(),
        spec_personal_kept(g.1, d).len() > 0 || spec_total(g.0) != 0,
        spec_personal_kept(g.1, d).len() < 16,
        g.0.white + 3 <= u64::MAX,
        forall|x: int|
            0 <= x < spec_personal_kept(g.1, d).len() ==> (#[trigger] spec_personal_kept(g.1, d)[x]).1
                < GAME_ID_LIMIT && base + spec_personal_kept(g.1, d)[x].0 <= u64::MAX,
    ensures
        spec_personal_groups(e, i, spec_personal_group_bytes(j, g, d) + t, base) == spec_personal_groups(
            spec_personal_group_read(e, i, j, g, d, base),
            i,
            t,
            base,
        ),
{
    let kept = spec_personal_kept(g.1, d);
    let h = Header::Group { speed: speed_at((j / 2) as nat), mode: mode_at((j % 2) as nat), num_games: kept.len() as usize };
    let hb = seq![spec_header_byte(h)];
    let sb = spec_stats_bytes(g.0);
    let gb = spec_personal_games_bytes(kept);
    let b = spec_personal_group_bytes(j, g, d) + t;
    assert(b =~= hb + (sb + (gb + t)));
    lemma_header_roundtrip(h, sb + (gb + t));
    assert(b.drop_first() =~= sb + (gb + t));
    crate::stats::lemma_stats_roundtrip(g.0, gb + t);
    crate::uint::lemma_skip_concat(sb, gb + t);
    lemma_personal_slot_of(j);
    let k = 12 * i + j;
    crate::stats::lemma_add_empty(g.0);
    let e1 = PersonalModel { groups: e.groups.update(k, (g.0, e.groups[k].1)), ..e };
    lemma_personal_games_roundtrip(e1, k, kept, base, t);
    assert(spec_personal_group(
        e,
        i,
        speed_at((j / 2) as nat),
        mode_at((j % 2) as nat),
        kept.len(),
        b.drop_first(),
        base,
    ) == Some((spec_personal_group_read(e, i, j, g, d, base), t)));
}

/// A group as it is read back from its written form, its games counted
/// from `base`: its counts and kept games when it keeps games or counts
/// some, else empty.
pub open spec fn spec_personal_group_as_read(g: GroupModel, d: u64, base: nat) -> GroupModel {
    if spec_personal_kept(g.1, d).len() > 0 || spec_total(g.0) != 0 {
        (g.0, spec_personal_rebase(spec_personal_kept(g.1, d), base))
    } else {
        spec_empty_group()
    }
}

/// The groups of `e` once the slots from `j` on of the move at position
/// `i` are read back from the groups `gs`.
pub open spec fn spec_personal_set_groups(
    e: PersonalModel,
    i: int,
    j: int,
    gs: Seq<GroupModel>,
    d: u64,
    base: nat,
) -> Seq<GroupModel> {
    Seq::new(
        e.groups.len(),
        |k: int|
            if 12 * i + j <= k < 12 * i + 12 {
                spec_personal_group_as_read(gs[k - 12 * i], d, base)
            } else {
                e.groups[k]
            },
    )
}

#[verifier::rlimit(60)]
#[verifier::spinoff_prover]
proof fn lemma_personal_groups_roundtrip(
    e: PersonalModel,
    i: int,
    j: int,
    gs: Seq<GroupModel>,
    d: u64,
    base: nat,
    bound: nat,
    t: Seq<u8>,
)
    requires
        0 <= i,
        0 <= j <= 12,
        12 * i + 12 <= e.groups.len(),
        gs.len() == 12,
        forall|k: int| 12 * i + j <= k < 12 * i + 12 ==> #[trigger] e.groups[k] == spec_empty_group(),
        forall|x: int|
            0 <= x < 12 ==> (#[trigger] gs[x]).0.white + 3 <= u64::MAX && spec_personal_kept(gs[x].1, d).len()
                < 16,
        forall|x: int, y: int|
            0 <= x < 12 && 0 <= y < gs[x].1.len() ==> (#[trigger] gs[x].1[y]).1 < GAME_ID_LIMIT && base
                + gs[x].1[y].0 <= bound,
        bound <= u64::MAX,
        e.max <= bound,
        t.len() > 0,
        t[0] == 0,
    ensures
        spec_personal_groups(e, i, spec_personal_groups_bytes(gs, j, d) + t, base) matches Some((r, rest))
            && r.moves == e.moves && r.groups == spec_personal_set_groups(e, i, j, gs, d, base) && rest
            == t.drop_first() && r.max <= bound,
    decreases 12 - j,
{
    if j == 12 {
        assert(spec_personal_groups_bytes(gs, j, d) + t =~= t);
        assert(spec_personal_set_groups(e, i, j, gs, d, base) =~= e.groups);
    } else {
        let g = gs[j];
        let kept = spec_personal_kept(g.1, d);
        let rest_bytes = spec_personal_groups_bytes(gs, j + 1, d) + t;
        if kept.len() > 0 || spec_total(g.0) != 0 {
            assert(spec_personal_groups_bytes(gs, j, d) + t =~= spec_personal_group_bytes(j, g, d) + rest_bytes);
            lemma_personal_kept_from(g.1, d);
            assert forall|x: int| 0 <= x < kept.len() implies (#[trigger] kept[x]).1 < GAME_ID_LIMIT && base
                + kept[x].0 <= bound by {
                let y = choose|y: int| 0 <= y < g.1.len() && kept[x] == g.1[y];
                assert(gs[j].1[y] == g.1[y]);
            }
            lemma_personal_group_roundtrip(e, i, j, g, d, base, rest_bytes);
            let k = 12 * i + j;
            let e0 = PersonalModel { groups: e.groups.update(k, (g.0, e.groups[k].1)), ..e };
            lemma_personal_add_games_shape(e0, k, kept, base, bound);
            let e1 = spec_personal_group_read(e, i, j, g, d, base);
            assert(e.groups[k].1 =~= Seq::<(u64, u64)>::empty());
            assert(Seq::<(u64, u64)>::empty() + spec_personal_rebase(kept, base) =~= spec_personal_rebase(kept, base));
            lemma_personal_groups_roundtrip(e1, i, j + 1, gs, d, base, bound, t);
            assert(spec_personal_set_groups(e1, i, j + 1, gs, d, base) =~= spec_personal_set_groups(
                e,
                i,
                j,
                gs,
                d,
                base,
            ));
        } else {
            assert(spec_personal_groups_bytes(gs, j, d) + t =~= rest_bytes);
            lemma_personal_groups_roundtrip(e, i, j + 1, gs, d, base, bound, t);
            assert(spec_personal_set_groups(e, i, j + 1, gs, d, base) =~= spec_personal_set_groups(
                e,
                i,
                j,
                gs,
                d,
                base,
            ));
        }
    }
}

/// The counts and game identifiers of a group.
pub open spec fn spec_stats_and_ids(g: GroupModel) -> (Stats, Seq<u64>) {
    (g.0, g.1.map_values(|p: (u64, u64)| p.1))
}

/// The counts and game identifiers of each group of `gs`.
pub open spec fn spec_groups_stats_and_ids(gs: Seq<GroupModel>) -> Seq<(Stats, Seq<u64>)> {
    Seq::new(gs.len(), |k: int| spec_stats_and_ids(gs[k]))
}

/// The counts and game identifiers of each group of `e` as they are read
/// back from its written form: those of a group that keeps games or counts
/// some, the kept games in order; nothing for the others.
pub open spec fn spec_personal_read_back(e: PersonalModel) -> Seq<(Stats, Seq<u64>)> {
    Seq::new(
        e.groups.len(),
        |k: int| spec_stats_and_ids(spec_personal_group_as_read(e.groups[k], spec_discarded(e), 0)),
    )
}

proof fn lemma_as_read_ids(g: GroupModel, d: u64, base: nat)
    ensures
        spec_stats_and_ids(spec_personal_group_as_read(g, d, base)) == spec_stats_and_ids(
            spec_personal_group_as_read(g, d, 0),
        ),
{
    let kept = spec_personal_kept(g.1, d);
    assert(spec_personal_rebase(kept, base).map_values(|p: (u64, u64)| p.1) =~= spec_personal_rebase(
        kept,
        0,
    ).map_values(|p: (u64, u64)| p.1));
}

proof fn lemma_bases(i: int, n: int, m: int)
    requires
        0 <= i < n,
        0 <= m,
        (n + 1) * (m + 1) <= u64::MAX,
    ensures
        (i + 1) * (m + 1) == i * (m + 1) + m + 1,
        (i + 1) * (m + 1) <= u64::MAX,
        0 <= i * (m + 1),
{
    assert((i + 1) * (m + 1) == i * (m + 1) + m + 1) by (nonlinear_arith);
    assert((i + 1) * (m + 1) <= (n + 1) * (m + 1)) by (nonlinear_arith)
        requires
            0 <= i < n,
            0 <= m,
    ;
    assert(0 <= i * (m + 1)) by (nonlinear_arith)
        requires
            0 <= i,
            0 <= m,
    ;
}

#[verifier::rlimit(100)]
#[verifier::spinoff_prover]
proof fn lemma_personal_moves_roundtrip(e: PersonalModel, i: int, cur: PersonalModel)
    requires
        spec_personal_wf(e),
        spec_personal_writable(e),
        forall|k: int|
            0 <= k < e.groups.len() ==> spec_personal_kept((#[trigger] e.groups[k]).1, spec_discarded(e)).len()
                < 16,
        (e.moves.len() + 1) * (e.max + 1) <= u64::MAX,
        0 <= i <= e.moves.len(),
        cur.moves == e.moves.take(i),
        cur.groups.len() == 12 * i,
        spec_groups_stats_and_ids(cur.groups) == spec_personal_read_back(e).take(12 * i),
        cur.max <= i * (e.max + 1),
    ensures
        spec_extend_personal(cur, spec_personal_moves_bytes(e, i)) matches Some(r) && r.moves == e.moves
            && spec_groups_stats_and_ids(r.groups) == spec_personal_read_back(e),
    decreases e.moves.len() - i,
{
    reveal(spec_personal_inner_wf);
    let n = e.moves.len() as int;
    let d = spec_discarded(e);
    if i == n {
        assert(spec_personal_moves_bytes(e, i) =~= Seq::<u8>::empty());
        assert(cur.moves =~= e.moves);
        assert(spec_personal_read_back(e).take(12 * i) =~= spec_personal_read_back(e));
    } else {
        let uci = e.moves[i];
        let gs = e.groups.subrange(12 * i, 12 * i + 12);
        let gsb = spec_personal_groups_bytes(gs, 0, d);
        let m = spec_personal_moves_bytes(e, i + 1);
        let ub = le_bytes(uci as nat, 2);
        let t = seq![0u8] + m;
        let b = spec_personal_moves_bytes(e, i);
        assert(12 * i + 12 <= e.groups.len()) by (nonlinear_arith)
            requires
                e.groups.len() == 12 * n,
                i < n,
        ;
        assert(b =~= ub + (gsb + t));
        crate::buf::lemma_le_roundtrip(uci as nat, 2);
        crate::buf::lemma_pow256_8();
        assert(b.take(2) =~= ub);
        assert(b.skip(2) =~= gsb + t);
        assert(!cur.moves.contains(uci)) by {
            if cur.moves.contains(uci) {
                let x = choose|x: int| 0 <= x < cur.moves.len() && cur.moves[x] == uci;
                assert(e.moves[x] == e.moves[i]);
            }
        }
        let e1 = spec_personal_add_move(cur, uci);
        assert(e1.moves =~= e.moves.take(i + 1));
        assert(e1.moves[i] == uci);
        let c = choose|x: int| 0 <= x < e1.moves.len() && e1.moves[x] == uci;
        assert(c == i);
        assert(spec_move_pos(e1.moves, uci) == i);
        let base = (e1.max + 1) as nat;
        let bound = ((i + 1) * (e.max + 1)) as nat;
        lemma_bases(i, n, e.max as int);
        assert forall|x: int, y: int|
            0 <= x < 12 && 0 <= y < gs[x].1.len() implies (#[trigger] gs[x].1[y]).1 < GAME_ID_LIMIT && base
            + gs[x].1[y].0 <= bound by {
            assert(gs[x] == e.groups[12 * i + x]);
            assert(e.groups[12 * i + x].1[y] == gs[x].1[y]);
        }
        assert forall|x: int|
            0 <= x < 12 implies (#[trigger] gs[x]).0.white + 3 <= u64::MAX && spec_personal_kept(gs[x].1, d).len()
            < 16 by {
            assert(gs[x] == e.groups[12 * i + x]);
        }
        assert forall|k: int| 12 * i + 0 <= k < 12 * i + 12 implies #[trigger] e1.groups[k] == spec_empty_group() by {
            assert(e1.groups[k] == spec_empty_group());
        }
        lemma_personal_groups_roundtrip(e1, i, 0, gs, d, base, bound, t);
        let r1 = spec_personal_groups(e1, i, gsb + t, base).unwrap().0;
        let rest = spec_personal_groups(e1, i, gsb + t, base).unwrap().1;
        assert(rest =~= m);
        let rb = spec_personal_read_back(e);
        assert forall|k: int| 0 <= k < 12 * (i + 1) implies #[trigger] spec_groups_stats_and_ids(r1.groups)[k]
            == rb.take(12 * (i + 1))[k] by {
            if k < 12 * i {
                assert(r1.groups[k] == e1.groups[k]);
                assert(e1.groups[k] == cur.groups[k]);
                assert(spec_groups_stats_and_ids(cur.groups)[k] == rb.take(12 * i)[k]);
            } else {
                assert(gs[k - 12 * i] == e.groups[k]);
                lemma_as_read_ids(e.groups[k], d, base);
            }
        }
        assert(spec_groups_stats_and_ids(r1.groups) =~= rb.take(12 * (i + 1)));
        lemma_personal_moves_roundtrip(e, i + 1, r1);
    }
}

/// Reading a player's entry back from its written form into an empty entry
/// gives the same moves, and for each group its counts and the identifiers
/// of the games it keeps (its only game, or its games among the fifteen
/// latest indices), in order; a group without games or counts comes back
/// empty. The indices of the games are counted anew as they are read. This
/// holds when no group keeps sixteen games or more, as its header counts
/// them in four bits, and the indices read stay within 64 bits.
pub proof fn lemma_personal_write_read(e: PersonalModel)
    requires
        spec_personal_wf(e),
        spec_personal_writable(e),
        forall|k: int|
            0 <= k < e.groups.len() ==> spec_personal_kept((#[trigger] e.groups[k]).1, spec_discarded(e)).len()
                < 16,
        (e.moves.len() + 1) * (e.max + 1) <= u64::MAX,
    ensures
        spec_extend_personal(spec_empty_personal(), spec_personal_moves_bytes(e, 0)) matches Some(r)
            && r.moves == e.moves && spec_groups_stats_and_ids(r.groups) == spec_personal_read_back(e),
{
    let cur = spec_empty_personal();
    assert(cur.moves =~= e.moves.take(0));
    assert(spec_groups_stats_and_ids(cur.groups) =~= spec_personal_read_back(e).take(0));
    lemma_personal_moves_roundtrip(e, 0, cur);
}

} // verus!
