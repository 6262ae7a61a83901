//! Statistics of the rated games played on the server that reached one
//! position: for each move, speed and rating group, the counts and the
//! latest games, packed into bytes and merged from many such records.
use vstd::prelude::*;

use crate::buf::{le_bytes, le_value, Reader};
use crate::chess::Outcome;
use crate::game_id::{spec_read_game_id, GameId};
use crate::rating::{rating_group_at, rating_group_index, RatingGroup};
use crate::speed::{speed_at, speed_index, Speed};
use crate::stats::{spec_add, spec_can_add, spec_empty_stats, spec_read_stats, spec_single, spec_stats_bytes, spec_total, Stats};
use crate::uci::RawUciMove;
use crate::chess::Uci;
use crate::uint::{encode_uint, read_uint, spec_read_uint, write_uint};
use crate::query::{spec_contains_rating_group, spec_contains_speed, spec_top_group, LichessQueryFilter, Limits};
use crate::util::{is_top_selection, lemma_top_selection_from, take_best};
use crate::stats::spec_average_rating;
use crate::uci::spec_unpack;
use crate::response::{spec_keyed_moves, spec_move_key, spec_unkeyed, unkeyed, PreparedMove, PreparedResponse};

verus! {

/// The marker before each group of games of a move, or the end of a move.
#[derive(Clone, Copy, Debug, PartialEq, Eq, Structural)]
pub enum LichessHeader {
    Group { rating_group: RatingGroup, speed: Speed, num_games: u64 },
    End,
}

/// The first byte of a header: the speed plus one in the low three bits,
/// the rating group in the next four, and whether the group holds exactly
/// one game in the top bit. The end marker is zero.
pub open spec fn spec_lichess_header_byte(h: LichessHeader) -> u8 {
    match h {
        LichessHeader::End => 0,
        LichessHeader::Group { rating_group, speed, num_games } => (speed_index(speed) + 1 + 8
            * rating_group_index(rating_group) + if num_games == 1 {
            128int
        } else {
            0int
        }) as u8,
    }
}

/// The written form of a header: the first byte, then the number of games
/// as a variable-length integer unless it is one.
pub open spec fn spec_lichess_header_bytes(h: LichessHeader) -> Seq<u8> {
    match h {
        LichessHeader::End => seq![0u8],
        LichessHeader::Group { num_games, .. } => seq![spec_lichess_header_byte(h)] + if num_games
            == 1 {
            Seq::empty()
        } else {
            encode_uint(num_games as nat)
        },
    }
}

/// Reading a header from the front of `b`: the header and the number of
/// bytes it takes, or nothing when the bytes do not form one.
pub open spec fn spec_read_lichess_header(b: Seq<u8>) -> Option<(LichessHeader, nat)> {
    if b.len() == 0 {
        None
    } else {
        let n = b[0];
        if n % 8 == 0 {
            Some((LichessHeader::End, 1))
        } else if n % 8 == 7 || (n / 8) % 16 > 10 {
            None
        } else {
            let speed = speed_at((n % 8 - 1) as nat);
            let rating_group = rating_group_at(((n / 8) % 16) as nat);
            if n / 128 != 0 {
                Some((LichessHeader::Group { rating_group, speed, num_games: 1 }, 1))
            } else {
                match spec_read_uint(b.skip(1)) {
                    None => None,
                    Some((k, l)) => Some(
                        (LichessHeader::Group { rating_group, speed, num_games: k }, 1 + l),
                    ),
                }
            }
        }
    }
}

impl LichessHeader {
    /// Reads a header. When none can be read, the reader is left anywhere.
    pub fn read(reader: &mut Reader) -> (r: Option<LichessHeader>)
        ensures
            match spec_read_lichess_header(old(reader)@) {
                None => r is None,
                Some((h, l)) => r == Some(h) && final(reader)@ == old(reader)@.skip(l as int),
            },
    {
        let ghost b = reader@;
        let n = match reader.read_u8() {
            Some(n) => n,
            None => return None,
        };
        if n % 8 == 0 {
            return Some(LichessHeader::End);
        }
        if n % 8 == 7 || (n / 8) % 16 > 10 {
            return None;
        }
        let speed = Speed::from_index((n % 8 - 1) as usize);
        let rating_group = RatingGroup::from_index(((n / 8) % 16) as usize);
        if n / 128 != 0 {
            proof {
                assert(b.drop_first() =~= b.skip(1));
            }
            Some(LichessHeader::Group { rating_group, speed, num_games: 1 })
        } else {
            proof {
                assert(reader@ =~= b.skip(1));
            }
            match read_uint(reader) {
                Some(k) => {
                    proof {
                        crate::uint::lemma_read_uint_len(b.skip(1));
                        crate::uint::lemma_skip_skip(b, 1, spec_read_uint(b.skip(1)).unwrap().1);
                    }
                    Some(LichessHeader::Group { rating_group, speed, num_games: k })
                },
                None => None,
            }
        }
    }

    /// Appends the written form.
    pub fn write(&self, buf: &mut Vec<u8>)
        ensures
            final(buf)@ == old(buf)@ + spec_lichess_header_bytes(*self),
    {
        let ghost start = buf@;
        match *self {
            LichessHeader::End => buf.push(0),
            LichessHeader::Group { rating_group, speed, num_games } => {
                let single = num_games == 1;
                let top: usize = if single {
                    128
                } else {
                    0
                };
                let byte = (speed.index() + 1 + 8 * rating_group.index() + top) as u8;
                buf.push(byte);
                if !single {
                    write_uint(buf, num_games);
                }
            },
        }
        proof {
            assert(buf@ =~= start + spec_lichess_header_bytes(*self));
        }
    }
}

/// A header takes at least one byte and at most what there is.
pub proof fn lemma_read_lichess_header_len(b: Seq<u8>)
    ensures
        spec_read_lichess_header(b) matches Some((h, l)) ==> 1 <= l <= b.len(),
{
    if b.len() > 0 {
        crate::uint::lemma_read_uint_len(b.skip(1));
    }
}

/// Reading back a written header gives the same header and consumes
/// exactly what was written, whatever follows.
pub proof fn lemma_lichess_header_roundtrip(h: LichessHeader, t: Seq<u8>)
    ensures
        spec_read_lichess_header(spec_lichess_header_bytes(h) + t) == Some(
            (h, spec_lichess_header_bytes(h).len()),
        ),
{
    let b = spec_lichess_header_bytes(h) + t;
    match h {
        LichessHeader::End => {},
        LichessHeader::Group { rating_group, speed, num_games } => {
            let s = speed_index(speed);
            let g = rating_group_index(rating_group);
            assert(s < 6 && g < 11);
            assert(speed_at(s) == speed);
            assert(rating_group_at(g) == rating_group);
            if num_games != 1 {
                assert(b.skip(1) =~= encode_uint(num_games as nat) + t);
                crate::uint::lemma_uint_roundtrip(num_games, t);
            }
        },
    }
}

/// The number of groups of a move: one per speed and rating group.
pub const NUM_SLOTS: usize = 66;

/// The most games that are kept per group.
pub const MAX_LICHESS_GAMES: usize = 8;

/// The place of the group for `speed` and `rating_group` among the groups of
/// a move: speeds from fastest, rating groups from lowest within a speed.
pub open spec fn spec_slot(speed: Speed, rating_group: RatingGroup) -> nat {
    speed_index(speed) * 11 + rating_group_index(rating_group)
}

/// A group as a value: the counts, and the games as their index in the
/// order of merging and their number.
pub type GroupModel = (Stats, Seq<(u64, u64)>);

/// An entry as a value. The groups of the move at position `i` are those at
/// `66 * i` to `66 * i + 65`.
pub struct LichessModel {
    pub moves: Seq<u16>,
    pub groups: Seq<GroupModel>,
    pub min: Option<u64>,
    pub max: Option<u64>,
}

pub open spec fn spec_empty_group() -> GroupModel {
    (spec_empty_stats(), Seq::empty())
}

/// The entry without any move.
pub open spec fn spec_empty_lichess() -> LichessModel {
    LichessModel { moves: Seq::empty(), groups: Seq::empty(), min: None, max: None }
}

/// The position of `uci` among the moves, or the number of moves when it is
/// not among them.
pub open spec fn spec_move_pos(moves: Seq<u16>, uci: u16) -> int {
    if exists|i: int| 0 <= i < moves.len() && moves[i] == uci {
        choose|i: int| 0 <= i < moves.len() && moves[i] == uci
    } else {
        moves.len() as int
    }
}

/// The entry with `uci` among its moves: unchanged if it is there, else with
/// the move and its empty groups appended.
pub open spec fn spec_add_move(e: LichessModel, uci: u16) -> LichessModel {
    if e.moves.contains(uci) {
        e
    } else {
        LichessModel {
            moves: e.moves.push(uci),
            groups: e.groups + Seq::new(66, |j: int| spec_empty_group()),
            ..e
        }
    }
}

/// The entry with the game `(idx, id)` appended to the group at `k`.
pub open spec fn spec_add_game(e: LichessModel, k: int, idx: u64, id: u64) -> LichessModel {
    LichessModel {
        groups: e.groups.update(k, (e.groups[k].0, e.groups[k].1.push((idx, id)))),
        min: Some(
            match e.min {
                Some(m) => if m < idx {
                    m
                } else {
                    idx
                },
                None => idx,
            },
        ),
        max: Some(
            match e.max {
                Some(m) => if m > idx {
                    m
                } else {
                    idx
                },
                None => idx,
            },
        ),
        ..e
    }
}

/// Reading `n` games into the group at `k`: each a variable-length index
/// relative to `base` and a game identifier. The entry after them and the
/// bytes that follow, or nothing when they cannot be read or an index
/// overflows.
pub open spec fn spec_extend_games(e: LichessModel, k: int, b: Seq<u8>, n: nat, base: nat) -> Option<
    (LichessModel, Seq<u8>),
>
    decreases n,
{
    if n == 0 {
        Some((e, b))
    } else {
        match spec_read_uint(b) {
            None => None,
            Some((d, l)) => match spec_read_game_id(b.skip(l as int)) {
                None => None,
                Some(id) => if base + d > u64::MAX {
                    None
                } else {
                    spec_extend_games(
                        spec_add_game(e, k, (base + d) as u64, id),
                        k,
                        b.skip((l + 6) as int),
                        (n - 1) as nat,
                        base,
                    )
                },
            },
        }
    }
}

/// Reading one group of the move at position `i`, after its header: the
/// counts, added to those of the group, then its games.
pub open spec fn spec_extend_group(
    e: LichessModel,
    i: int,
    speed: Speed,
    rating_group: RatingGroup,
    num_games: u64,
    b: Seq<u8>,
    base: nat,
) -> Option<(LichessModel, Seq<u8>)> {
    match spec_read_stats(b) {
        None => None,
        Some((s, l)) => {
            let k = 66 * i + spec_slot(speed, rating_group);
            if !spec_can_add(e.groups[k].0, s) {
                None
            } else {
                let e1 = LichessModel {
                    groups: e.groups.update(k, (spec_add(e.groups[k].0, s), e.groups[k].1)),
                    ..e
                };
                spec_extend_games(e1, k, b.skip(l as int), num_games as nat, base)
            }
        },
    }
}

/// Reading the groups of the move at position `i`, up to an end marker or
/// the end of the bytes. The entry after them and the bytes that follow.
pub open spec fn spec_extend_groups(e: LichessModel, i: int, b: Seq<u8>, base: nat) -> Option<
    (LichessModel, Seq<u8>),
>
    decreases b.len(),
{
    if b.len() == 0 {
        Some((e, b))
    } else {
        match spec_read_lichess_header(b) {
            None => None,
            Some((LichessHeader::End, l)) => Some((e, b.skip(l as int))),
            Some((LichessHeader::Group { rating_group, speed, num_games }, l)) => match spec_extend_group(
                e,
                i,
                speed,
                rating_group,
                num_games,
                b.skip(l as int),
                base,
            ) {
                None => None,
                Some((e2, rest)) => if rest.len() < b.len() {
                    spec_extend_groups(e2, i, rest, base)
                } else {
                    None
                },
            },
        }
    }
}

/// Reading moves, each a packed move and its groups, until the end of the
/// bytes.
pub open spec fn spec_extend_moves(e: LichessModel, b: Seq<u8>, base: nat) -> Option<LichessModel>
    decreases b.len(),
{
    if b.len() == 0 {
        Some(e)
    } else if b.len() < 2 {
        None
    } else {
        let uci = le_value(b.take(2)) as u16;
        let e1 = spec_add_move(e, uci);
        match spec_extend_groups(e1, spec_move_pos(e1.moves, uci), b.skip(2), base) {
            None => None,
            Some((e2, rest)) => if rest.len() < b.len() {
                spec_extend_moves(e2, rest, base)
            } else {
                None
            },
        }
    }
}

/// The index that the games read next are counted from: one past the
/// highest so far.
pub open spec fn spec_base(e: LichessModel) -> nat {
    match e.max {
        Some(m) => (m + 1) as nat,
        None => 0,
    }
}

/// Merging the written entries in `b` into `e`, or nothing when the bytes
/// are not a written entry or a count overflows.
pub open spec fn spec_extend_lichess(e: LichessModel, b: Seq<u8>) -> Option<LichessModel> {
    spec_extend_moves(e, b, spec_base(e))
}

/// The counts and latest games of one move, speed and rating group.
#[derive(Debug, Default)]
pub struct LichessGroup {
    pub stats: Stats,
    pub games: Vec<(u64, GameId)>,
}

impl View for LichessGroup {
    type V = GroupModel;

    open spec fn view(&self) -> GroupModel {
        (self.stats, self.games@.map_values(|p: (u64, GameId)| (p.0, p.1.value())))
    }
}

/// The bytes cannot be read as an entry, or a count would overflow.
#[derive(Debug)]
pub struct InvalidEntry;

/// The statistics of one position, for each move, speed and rating group.
#[derive(Debug)]
pub struct LichessEntry {
    moves: Vec<RawUciMove>,
    groups: Vec<LichessGroup>,
    min_game_idx: Option<u64>,
    max_game_idx: Option<u64>,
}

impl View for LichessEntry {
    type V = LichessModel;

    closed spec fn view(&self) -> LichessModel {
        LichessModel {
            moves: self.moves@.map_values(|m: RawUciMove| m.0),
            groups: self.groups@.map_values(|g: LichessGroup| g@),
            min: self.min_game_idx,
            max: self.max_game_idx,
        }
    }
}

/// No move twice, no game outside the lowest and highest index, and only
/// game identifiers.
#[verifier::opaque]
pub open spec fn spec_lichess_inner_wf(e: LichessModel) -> bool {
    &&& forall|a: int, b: int| 0 <= a < b < e.moves.len() ==> e.moves[a] != e.moves[b]
    &&& forall|k: int, j: int|
        #![trigger e.groups[k].1[j]]
        0 <= k < e.groups.len() && 0 <= j < e.groups[k].1.len() ==> {
            &&& e.groups[k].1[j].1 < crate::game_id::GAME_ID_LIMIT
            &&& (e.min matches Some(m) ==> m <= e.groups[k].1[j].0)
            &&& (e.max matches Some(m) ==> e.groups[k].1[j].0 <= m)
            &&& e.min is Some && e.max is Some
        }
}

/// The entry is well formed: 66 groups per move, no move twice, no game
/// outside the lowest and highest index, and only game identifiers.
pub open spec fn spec_lichess_wf(e: LichessModel) -> bool {
    &&& e.groups.len() == 66 * e.moves.len()
    &&& spec_lichess_inner_wf(e)
}

impl LichessEntry {
    /// Whether the entry is well formed.
    pub open spec fn wf(&self) -> bool {
        spec_lichess_wf(self@)
    }

    /// The entry without any move.
    pub fn new() -> (e: LichessEntry)
        ensures
            e@ == spec_empty_lichess(),
            e.wf(),
    {
        reveal(spec_lichess_inner_wf);
        let e = LichessEntry {
            moves: Vec::new(),
            groups: Vec::new(),
            min_game_idx: None,
            max_game_idx: None,
        };
        proof {
            assert(e@.moves =~= Seq::<u16>::empty());
            assert(e@.groups =~= Seq::<GroupModel>::empty());
        }
        e
    }

    /// The number of moves.
    pub fn num_moves(&self) -> (n: usize)
        ensures
            n == self@.moves.len(),
    {
        self.moves.len()
    }

    /// The highest game index, if there is a game.
    pub fn max_game_idx(&self) -> (m: Option<u64>)
        ensures
            m == self@.max,
    {
        self.max_game_idx
    }

    /// The lowest game index, if there is a game.
    pub fn min_game_idx(&self) -> (m: Option<u64>)
        ensures
            m == self@.min,
    {
        self.min_game_idx
    }

    /// The position of `uci` among the moves, or the number of moves.
    fn move_pos(&self, uci: RawUciMove) -> (i: usize)
        requires
            self.wf(),
        ensures
            i == spec_move_pos(self@.moves, uci.0),
            i < self@.moves.len() <==> self@.moves.contains(uci.0),
    {
        reveal(spec_lichess_inner_wf);
        let n = self.moves.len();
        let mut i: usize = 0;
        while i < n
            invariant
                self.wf(),
                n == self@.moves.len(),
                i <= n,
                forall|j: int| 0 <= j < i ==> self@.moves[j] != uci.0,
            decreases n - i,
        {
            if self.moves[i].0 == uci.0 {
                proof {
                    reveal(spec_lichess_inner_wf);
                    let ms = self@.moves;
                    assert(ms[i as int] == uci.0);
                    let c = choose|j: int| 0 <= j < ms.len() && ms[j] == uci.0;
                    assert(c == i);
                }
                return i;
            }
            i = i + 1;
        }
        proof {
            let ms = self@.moves;
            assert(!ms.contains(uci.0));
        }
        n
    }

    /// Adds `uci` to the moves if it is not among them; its position.
    fn add_move(&mut self, uci: RawUciMove) -> (i: usize)
        requires
            old(self).wf(),
        ensures
            final(self).wf(),
            final(self)@ == spec_add_move(old(self)@, uci.0),
            i == spec_move_pos(final(self)@.moves, uci.0),
            i < final(self)@.moves.len(),
    {
        reveal(spec_lichess_inner_wf);
        let i = self.move_pos(uci);
        if i < self.moves.len() {
            return i;
        }
        let ghost e0 = self@;
        self.moves.push(uci);
        let mut j: usize = 0;
        while j < NUM_SLOTS
            invariant
                j <= 66,
                self.moves@.map_values(|m: RawUciMove| m.0) == e0.moves.push(uci.0),
                self.groups@.map_values(|g: LichessGroup| g@) == e0.groups + Seq::new(
                    j as nat,
                    |x: int| spec_empty_group(),
                ),
                self.min_game_idx == e0.min,
                self.max_game_idx == e0.max,
            decreases 66 - j,
        {
            let ghost before = self.groups@.map_values(|g: LichessGroup| g@);
            let g = LichessGroup { stats: Stats::from_counts(0, 0, 0, 0), games: Vec::new() };
            proof {
                assert(g.games@.map_values(|p: (u64, GameId)| (p.0, p.1.value())) =~= Seq::<(u64, u64)>::empty());
            }
            self.groups.push(g);
            proof {
                assert(self.groups@.map_values(|g: LichessGroup| g@) =~= before.push(spec_empty_group()));
                assert(e0.groups + Seq::new((j + 1) as nat, |x: int| spec_empty_group()) =~= before.push(
                    spec_empty_group(),
                ));
            }
            j = j + 1;
        }
        proof {
            let e1 = self@;
            assert(e1.moves =~= e0.moves.push(uci.0));
            assert(e1 == spec_add_move(e0, uci.0));
            assert(e1.moves[i as int] == uci.0);
            let c = choose|x: int| 0 <= x < e1.moves.len() && e1.moves[x] == uci.0;
            assert(c == i as int);
            assert forall|k: int, x: int|
                #![trigger e1.groups[k].1[x]]
                0 <= k < e1.groups.len() && 0 <= x < e1.groups[k].1.len() implies e0.groups[k].1[x]
                == e1.groups[k].1[x] && k < e0.groups.len() by {
                if k >= e0.groups.len() {
                    assert(e1.groups[k] == spec_empty_group());
                }
            }
        }
        i
    }

    /// Appends the game `(idx, id)` to the group at `k`.
    fn add_game(&mut self, k: usize, idx: u64, id: GameId)
        requires
            old(self).wf(),
            k < old(self)@.groups.len(),
            id.wf(),
        ensures
            final(self).wf(),
            final(self)@ == spec_add_game(old(self)@, k as int, idx, id.value()),
    {
        reveal(spec_lichess_inner_wf);
        let ghost e0 = self@;
        let ghost g0 = self.groups@;
        self.groups[k].games.push((idx, id));
        proof {
            let g1 = self.groups@;
            assert(g1.len() == g0.len());
            assert(g1[k as int].stats == g0[k as int].stats);
            assert(g1[k as int].games@ == g0[k as int].games@.push((idx, id)));
            assert(g1[k as int].games@.map_values(|p: (u64, GameId)| (p.0, p.1.value())) =~= g0[k as int].games@.map_values(|p: (u64, GameId)| (p.0, p.1.value())).push((idx, id.value())));
            assert(forall|q: int| 0 <= q < g1.len() && q != k ==> g1[q] == g0[q]);
        }
        self.min_game_idx = match self.min_game_idx {
            Some(m) => Some(if m < idx { m } else { idx }),
            None => Some(idx),
        };
        self.max_game_idx = match self.max_game_idx {
            Some(m) => Some(if m > idx { m } else { idx }),
            None => Some(idx),
        };
        proof {
            let e1 = self@;
            let e2 = spec_add_game(e0, k as int, idx, id.value());
            assert(e1.groups =~= e2.groups);
            assert(e1.moves =~= e2.moves);
            assert forall|q: int, x: int|
                #![trigger e1.groups[q].1[x]]
                0 <= q < e1.groups.len() && 0 <= x < e1.groups[q].1.len() implies {
                &&& e1.groups[q].1[x].1 < crate::game_id::GAME_ID_LIMIT
                &&& (e1.min matches Some(m) ==> m <= e1.groups[q].1[x].0)
                &&& (e1.max matches Some(m) ==> e1.groups[q].1[x].0 <= m)
                &&& e1.min is Some && e1.max is Some
            } by {
                if q != k || x < e0.groups[q].1.len() {
                    assert(e1.groups[q].1[x] == e0.groups[q].1[x]);
                }
            }
        }
    }

    /// Adds `s` to the counts of the group at `k`.
    fn add_stats(&mut self, k: usize, s: &Stats)
        requires
            old(self).wf(),
            k < old(self)@.groups.len(),
            spec_can_add(old(self)@.groups[k as int].0, *s),
        ensures
            final(self).wf(),
            final(self)@ == (LichessModel {
                groups: old(self)@.groups.update(
                    k as int,
                    (spec_add(old(self)@.groups[k as int].0, *s), old(self)@.groups[k as int].1),
                ),
                ..old(self)@
            }),
    {
        reveal(spec_lichess_inner_wf);
        let ghost e0 = self@;
        self.groups[k].stats.add_assign(s);
        proof {
            let e1 = self@;
            assert(e1.groups =~= e0.groups.update(
                k as int,
                (spec_add(e0.groups[k as int].0, *s), e0.groups[k as int].1),
            ));
            assert forall|q: int, x: int|
                #![trigger e1.groups[q].1[x]]
                0 <= q < e1.groups.len() && 0 <= x < e1.groups[q].1.len() implies e1.groups[q].1[x]
                == e0.groups[q].1[x] by {}
        }
    }
}

/// The entry for one game: one move, and in the group of the speed and of
/// the rating group of the players' mean rating the counts of the game and
/// the game itself at index zero.
pub open spec fn spec_lichess_single(
    uci: Uci,
    speed: Speed,
    game_id: GameId,
    outcome: Outcome,
    mover_rating: u16,
    opponent_rating: u16,
) -> LichessModel {
    LichessModel {
        moves: seq![crate::uci::spec_pack(uci)],
        groups: Seq::new(
            66,
            |j: int|
                if j == spec_slot(
                    speed,
                    crate::rating::spec_select_avg(crate::rating::spec_midpoint(mover_rating, opponent_rating)),
                ) {
                    (spec_single(outcome, mover_rating), seq![(0u64, game_id.value())])
                } else {
                    spec_empty_group()
                },
        ),
        min: Some(0u64),
        max: Some(0u64),
    }
}

impl LichessEntry {
    /// Reads `n` games into the group at `k`, counting indices from `base`.
    #[verifier::loop_isolation(false)]
    fn extend_games(&mut self, k: usize, reader: &mut Reader, n: u64, base: u128) -> (ok: bool)
        requires
            old(self).wf(),
            k < old(self)@.groups.len(),
            base <= 0x1_0000_0000_0000_0000,
        ensures
            final(self).wf(),
            final(self)@.moves == old(self)@.moves,
            final(self)@.groups.len() == old(self)@.groups.len(),
            ok ==> final(reader)@.len() <= old(reader)@.len(),
            match spec_extend_games(old(self)@, k as int, old(reader)@, n as nat, base as nat) {
                None => !ok,
                Some((e, rest)) => ok && final(self)@ == e && final(reader)@ == rest,
            },
    {
        let ghost e0 = self@;
        let ghost b0 = reader@;
        let mut left = n;
        while left > 0
            invariant
                self.wf(),
                k < self@.groups.len(),
                self@.moves == e0.moves,
                self@.groups.len() == e0.groups.len(),
                reader@.len() <= b0.len(),
                spec_extend_games(self@, k as int, reader@, left as nat, base as nat)
                    == spec_extend_games(e0, k as int, b0, n as nat, base as nat),
            decreases left,
        {
            let ghost b = reader@;
            proof {
                crate::uint::lemma_read_uint_len(b);
            }
            let d = match read_uint(reader) {
                Some(d) => d,
                None => return false,
            };
            let id = match GameId::read(reader) {
                Some(id) => id,
                None => return false,
            };
            let idx: u128 = base + d as u128;
            if idx > u64::MAX as u128 {
                return false;
            }
            self.add_game(k, idx as u64, id);
            left = left - 1;
            proof {
                let l = spec_read_uint(b).unwrap().1;
                crate::uint::lemma_skip_skip(b, l, 6);
            }
        }
        true
    }

    /// Reads the groups of the move at position `i`.
    #[verifier::loop_isolation(false)]
    fn extend_groups(&mut self, i: usize, reader: &mut Reader, base: u128) -> (ok: bool)
        requires
            old(self).wf(),
            i < old(self)@.moves.len(),
            base <= 0x1_0000_0000_0000_0000,
        ensures
            final(self).wf(),
            final(self)@.moves == old(self)@.moves,
            ok ==> final(reader)@.len() <= old(reader)@.len(),
            match spec_extend_groups(old(self)@, i as int, old(reader)@, base as nat) {
                None => !ok,
                Some((e, rest)) => ok && final(self)@ == e && final(reader)@ == rest,
            },
    {
        let ghost e0 = self@;
        let ghost b0 = reader@;
        loop
            invariant
                self.wf(),
                i < self@.moves.len(),
                self@.moves == e0.moves,
                reader@.len() <= b0.len(),
                spec_extend_groups(self@, i as int, reader@, base as nat) == spec_extend_groups(
                    e0,
                    i as int,
                    b0,
                    base as nat,
                ),
            decreases reader@.len(),
        {
            let ghost b = reader@;
            let ghost e = self@;
            if !reader.has_remaining() {
                return true;
            }
            proof {
                lemma_read_lichess_header_len(b);
            }
            let h = match LichessHeader::read(reader) {
                Some(h) => h,
                None => return false,
            };
            match h {
                LichessHeader::End => {
                    return true;
                },
                LichessHeader::Group { rating_group, speed, num_games } => {
                    let ghost l = spec_read_lichess_header(b).unwrap().1;
                    if !self.extend_group(i, speed, rating_group, num_games, reader, base) {
                        return false;
                    }
                },
            }
        }
    }

    /// Reads one group of the move at position `i`, after its header.
    fn extend_group(
        &mut self,
        i: usize,
        speed: Speed,
        rating_group: RatingGroup,
        num_games: u64,
        reader: &mut Reader,
        base: u128,
    ) -> (ok: bool)
        requires
            old(self).wf(),
            i < old(self)@.moves.len(),
            base <= 0x1_0000_0000_0000_0000,
        ensures
            final(self).wf(),
            final(self)@.moves == old(self)@.moves,
            ok ==> final(reader)@.len() <= old(reader)@.len(),
            match spec_extend_group(
                old(self)@,
                i as int,
                speed,
                rating_group,
                num_games,
                old(reader)@,
                base as nat,
            ) {
                None => !ok,
                Some((e, rest)) => ok && final(self)@ == e && final(reader)@ == rest,
            },
    {
        let ghost b = reader@;
        let s = match Stats::read(reader) {
            Some(s) => s,
            None => return false,
        };
        proof {
            crate::stats::lemma_read_stats_len(b);
        }
        let glen = self.groups.len();
        assert(glen == self@.groups.len());
        assert(66 * i + 65 < glen) by (nonlinear_arith)
            requires
                glen == 66 * self@.moves.len(),
                i < self@.moves.len(),
        ;
        let k = 66 * i + speed.index() * 11 + rating_group.index();
        if !self.groups[k].stats.can_add(&s) {
            return false;
        }
        self.add_stats(k, &s);
        self.extend_games(k, reader, num_games, base)
    }

    /// Merges the written entries that remain in `reader`: each move's
    /// groups are added to those of the same move, and their games are
    /// appended with indices counted from one past the highest index so far.
    /// Fails when the bytes are not written entries or a count overflows;
    /// the entry is then left with part of the bytes merged.
    #[verifier::loop_isolation(false)]
    pub fn extend_from_reader(&mut self, reader: &mut Reader) -> (r: Result<(), InvalidEntry>)
        requires
            old(self).wf(),
        ensures
            final(self).wf(),
            match spec_extend_lichess(old(self)@, old(reader)@) {
                None => r is Err,
                Some(e) => r is Ok && final(self)@ == e,
            },
    {
        let ghost e0 = self@;
        let ghost b0 = reader@;
        let base: u128 = match self.max_game_idx {
            Some(m) => m as u128 + 1,
            None => 0,
        };
        while reader.has_remaining()
            invariant
                self.wf(),
                base == spec_base(e0),
                spec_extend_moves(self@, reader@, base as nat) == spec_extend_lichess(e0, b0),
            decreases reader@.len(),
        {
            let ghost b = reader@;
            if reader.remaining() < 2 {
                return Err(InvalidEntry);
            }
            let uci = match RawUciMove::read(reader) {
                Some(uci) => uci,
                None => return Err(InvalidEntry),
            };
            let i = self.add_move(uci);
            if !self.extend_groups(i, reader, base) {
                return Err(InvalidEntry);
            }
        }
        Ok(())
    }

    /// The entry for one game: `uci` played at `speed` in the game `game_id`
    /// with `outcome`, by a player rated `mover_rating` against one rated
    /// `opponent_rating`. The game has index zero.
    pub fn new_single(
        uci: Uci,
        speed: Speed,
        game_id: GameId,
        outcome: Outcome,
        mover_rating: u16,
        opponent_rating: u16,
    ) -> (e: LichessEntry)
        requires
            game_id.wf(),
        ensures
            e.wf(),
            e@ == spec_lichess_single(uci, speed, game_id, outcome, mover_rating, opponent_rating),
            e@.moves == seq![crate::uci::spec_pack(uci)],
            e@.min == Some(0u64),
            e@.max == Some(0u64),
            forall|j: int|
                0 <= j < 66 ==> #[trigger] e@.groups[j] == if j == spec_slot(
                    speed,
                    crate::rating::spec_select_avg(crate::rating::spec_midpoint(mover_rating, opponent_rating)),
                ) {
                    (spec_single(outcome, mover_rating), seq![(0u64, game_id.value())])
                } else {
                    spec_empty_group()
                },
    {
        let mut e = LichessEntry::new();
        let raw = RawUciMove::from_uci(uci);
        let i = e.add_move(raw);
        let rg = RatingGroup::select(mover_rating, opponent_rating);
        let k = speed.index() * 11 + rg.index();
        let s = Stats::new_single(outcome, mover_rating);
        proof {
            assert(e@.groups[k as int] == spec_empty_group());
        }
        e.add_stats(k, &s);
        e.add_game(k, 0, game_id);
        proof {
            crate::stats::lemma_add_empty(s);
            let t = spec_lichess_single(uci, speed, game_id, outcome, mover_rating, opponent_rating);
            assert(e@.groups =~= t.groups);
        }
        e
    }
}

/// The lowest game index, from which written indices are counted.
pub open spec fn spec_min_or_zero(e: LichessModel) -> u64 {
    match e.min {
        Some(m) => m,
        None => 0,
    }
}

/// The written form of games: each index counted from `min`, then the game
/// identifier.
pub open spec fn spec_games_bytes(games: Seq<(u64, u64)>, min: u64) -> Seq<u8>
    decreases games.len(),
{
    if games.len() == 0 {
        Seq::empty()
    } else {
        encode_uint((games[0].0 - min) as nat) + le_bytes(games[0].1 as nat, 6) + spec_games_bytes(
            games.drop_first(),
            min,
        )
    }
}

/// The games that a group keeps when it is written: its latest eight.
pub open spec fn spec_kept_games(games: Seq<(u64, u64)>) -> Seq<(u64, u64)> {
    if games.len() <= 8 {
        games
    } else {
        games.skip(games.len() - 8)
    }
}

/// The header of the group at slot `j` with `n` games.
pub open spec fn spec_slot_header(j: int, n: nat) -> LichessHeader {
    LichessHeader::Group {
        rating_group: rating_group_at((j % 11) as nat),
        speed: speed_at((j / 11) as nat),
        num_games: n as u64,
    }
}

/// The written form of the group at slot `j`: nothing when it holds no game,
/// else its header, its counts and its kept games.
pub open spec fn spec_group_bytes(j: int, g: GroupModel, min: u64) -> Seq<u8> {
    if spec_total(g.0) == 0 {
        Seq::empty()
    } else {
        let kept = spec_kept_games(g.1);
        spec_lichess_header_bytes(spec_slot_header(j, kept.len())) + spec_stats_bytes(g.0)
            + spec_games_bytes(kept, min)
    }
}

/// The written form of the groups of one move from slot `j` on.
pub open spec fn spec_groups_bytes(gs: Seq<GroupModel>, j: int, min: u64) -> Seq<u8>
    decreases 66 - j,
{
    if j < 0 || j >= 66 {
        Seq::empty()
    } else {
        spec_group_bytes(j, gs[j], min) + spec_groups_bytes(gs, j + 1, min)
    }
}

/// The groups of the move at position `i`.
pub open spec fn spec_move_groups(e: LichessModel, i: int) -> Seq<GroupModel> {
    e.groups.subrange(66 * i, 66 * i + 66)
}

/// The written form of the moves from position `i` on, each after an end
/// marker but the first.
pub open spec fn spec_moves_bytes(e: LichessModel, i: int) -> Seq<u8>
    decreases e.moves.len() - i,
{
    if i < 0 || i >= e.moves.len() {
        Seq::empty()
    } else {
        (if i > 0 {
            seq![0u8]
        } else {
            Seq::empty()
        }) + le_bytes(e.moves[i] as nat, 2) + spec_groups_bytes(
            spec_move_groups(e, i),
            0,
            spec_min_or_zero(e),
        ) + spec_moves_bytes(e, i + 1)
    }
}

/// The written form of an entry.
pub open spec fn spec_write_lichess(e: LichessModel) -> Seq<u8> {
    spec_moves_bytes(e, 0)
}

/// Every count of white wins can be written.
pub open spec fn spec_lichess_writable(e: LichessModel) -> bool {
    forall|k: int| 0 <= k < e.groups.len() ==> #[trigger] e.groups[k].0.white + 3 <= u64::MAX
}

impl LichessEntry {
    /// Appends the written form: the moves one after the other, separated
    /// by end markers; for each, its packed form and the groups that hold
    /// games, each with its header, its counts and its latest eight games,
    /// their indices counted from the lowest index.
    pub fn write(&self, buf: &mut Vec<u8>)
        requires
            self.wf(),
            spec_lichess_writable(self@),
        ensures
            final(buf)@ == old(buf)@ + spec_write_lichess(self@),
    {
        let ghost e = self@;
        let min: u64 = match self.min_game_idx {
            Some(m) => m,
            None => 0,
        };
        let n = self.moves.len();
        let glen = self.groups.len();
        let mut i: usize = 0;
        while i < n
            invariant
                e == self@,
                self.wf(),
                spec_lichess_writable(e),
                min == spec_min_or_zero(e),
                n == e.moves.len(),
                glen == e.groups.len(),
                i <= n,
                buf@ + spec_moves_bytes(e, i as int) == old(buf)@ + spec_moves_bytes(e, 0),
            decreases n - i,
        {
            let ghost start = buf@;
            if i > 0 {
                LichessHeader::End.write(buf);
            }
            self.moves[i].write(buf);
            let ghost gs = spec_move_groups(e, i as int);
            proof {
                assert(66 * i + 66 <= glen) by (nonlinear_arith)
                    requires
                        glen == 66 * n,
                        i < n,
                ;
                assert(buf@ + spec_groups_bytes(gs, 0, min) + spec_moves_bytes(e, i + 1) =~= start
                    + spec_moves_bytes(e, i as int));
            }
            let mut j: usize = 0;
            while j < NUM_SLOTS
                invariant
                    e == self@,
                    self.wf(),
                    spec_lichess_writable(e),
                    min == spec_min_or_zero(e),
                    glen == e.groups.len(),
                    i < n,
                    66 * i + 66 <= glen,
                    gs == spec_move_groups(e, i as int),
                    j <= 66,
                    buf@ + spec_groups_bytes(gs, j as int, min) + spec_moves_bytes(e, i + 1) == start
                        + spec_moves_bytes(e, i as int),
                decreases 66 - j,
            {
                let ghost before = buf@;
                self.write_group(66 * i + j, j, min, buf);
                proof {
                    assert(gs[j as int] == e.groups[66 * i + j]);
                    assert(buf@ + spec_groups_bytes(gs, j + 1, min) =~= before + spec_groups_bytes(
                        gs,
                        j as int,
                        min,
                    ));
                }
                j = j + 1;
            }
            i = i + 1;
        }
    }

    /// Appends the written form of the group at `k`, which is at slot `j`
    /// of its move.
    fn write_group(&self, k: usize, j: usize, min: u64, buf: &mut Vec<u8>)
        requires
            self.wf(),
            spec_lichess_writable(self@),
            min == spec_min_or_zero(self@),
            k < self@.groups.len(),
            j < 66,
        ensures
            final(buf)@ == old(buf)@ + spec_group_bytes(j as int, self@.groups[k as int], min),
    {
        let ghost e = self@;
        let g = &self.groups[k];
        assert(g@ == e.groups[k as int]);
        if g.stats.is_empty() {
            assert(spec_group_bytes(j as int, e.groups[k as int], min) =~= Seq::<u8>::empty());
            return ;
        }
        let ghost start = buf@;
        let len = g.games.len();
        let num: usize = if len < MAX_LICHESS_GAMES {
            len
        } else {
            MAX_LICHESS_GAMES
        };
        let ghost kept = spec_kept_games(e.groups[k as int].1);
        let header = LichessHeader::Group {
            rating_group: RatingGroup::from_index(j % 11),
            speed: Speed::from_index(j / 11),
            num_games: num as u64,
        };
        proof {
            assert(kept.len() == num);
            assert(header == spec_slot_header(j as int, num as nat));
        }
        header.write(buf);
        assert(e.groups[k as int].0.white + 3 <= u64::MAX);
        g.stats.write(buf);
        let mut x: usize = len - num;
        proof {
            reveal(spec_lichess_inner_wf);
            assert(kept =~= e.groups[k as int].1.skip(x as int));
        }
        while x < len
            invariant
                e == self@,
                spec_lichess_inner_wf(e),
                min == spec_min_or_zero(e),
                k < e.groups.len(),
                g@ == e.groups[k as int],
                len == g.games@.len(),
                len - num <= x <= len,
                buf@ + spec_games_bytes(e.groups[k as int].1.skip(x as int), min) == start
                    + spec_group_bytes(j as int, e.groups[k as int], min),
            decreases len - x,
        {
            let ghost before = buf@;
            let ghost rest = e.groups[k as int].1.skip(x as int);
            let (idx, id) = g.games[x];
            proof {
                reveal(spec_lichess_inner_wf);
                assert(e.groups[k as int].1[x as int] == (idx, id.value()));
                assert(min <= idx);
                assert(rest[0] == (idx, id.value()));
                assert(rest.drop_first() =~= e.groups[k as int].1.skip(x + 1));
            }
            write_uint(buf, idx - min);
            id.write(buf);
            proof {
                assert(buf@ + spec_games_bytes(e.groups[k as int].1.skip(x + 1), min) =~= before
                    + spec_games_bytes(rest, min));
            }
            x = x + 1;
        }
        proof {
            assert(e.groups[k as int].1.skip(len as int) =~= Seq::<(u64, u64)>::empty());
        }
    }
}

/// Games with their indices counted from `min`.
pub open spec fn spec_rebase(games: Seq<(u64, u64)>, min: u64) -> Seq<(u64, u64)> {
    games.map_values(|p: (u64, u64)| ((p.0 - min) as u64, p.1))
}

/// What a group becomes when it is written and read back into an empty
/// entry: nothing if it holds no game, else its counts and its latest eight
/// games, their indices counted from `min`.
pub open spec fn spec_normalized_group(g: GroupModel, min: u64) -> GroupModel {
    if spec_total(g.0) == 0 {
        spec_empty_group()
    } else {
        (g.0, spec_rebase(spec_kept_games(g.1), min))
    }
}

/// The groups of `e` as they are read back from its written form.
pub open spec fn spec_normalized_groups(e: LichessModel) -> Seq<GroupModel> {
    Seq::new(
        e.groups.len(),
        |k: int| spec_normalized_group(e.groups[k], spec_min_or_zero(e)),
    )
}

/// The written form of the move at position `i` without the end marker
/// before it, and of the moves after it.
pub open spec fn spec_move_tail(e: LichessModel, i: int) -> Seq<u8> {
    if i < 0 || i >= e.moves.len() {
        Seq::empty()
    } else {
        le_bytes(e.moves[i] as nat, 2) + spec_groups_bytes(
            spec_move_groups(e, i),
            0,
            spec_min_or_zero(e),
        ) + spec_moves_bytes(e, i + 1)
    }
}

/// The entry with the games `gs` appended to the group at `k` one by one.
pub open spec fn spec_add_games(e: LichessModel, k: int, gs: Seq<(u64, u64)>) -> LichessModel
    decreases gs.len(),
{
    if gs.len() == 0 {
        e
    } else {
        spec_add_games(spec_add_game(e, k, gs[0].0, gs[0].1), k, gs.drop_first())
    }
}

proof fn lemma_add_games_shape(e: LichessModel, k: int, gs: Seq<(u64, u64)>)
    requires
        0 <= k < e.groups.len(),
    ensures
        spec_add_games(e, k, gs).moves == e.moves,
        spec_add_games(e, k, gs).groups == e.groups.update(k, (e.groups[k].0, e.groups[k].1 + gs)),
    decreases gs.len(),
{
    if gs.len() == 0 {
        assert(e.groups[k].1 + gs =~= e.groups[k].1);
        assert(e.groups.update(k, (e.groups[k].0, e.groups[k].1)) =~= e.groups);
    } else {
        let e1 = spec_add_game(e, k, gs[0].0, gs[0].1);
        lemma_add_games_shape(e1, k, gs.drop_first());
        assert(e1.groups[k].1 + gs.drop_first() =~= e.groups[k].1 + gs);
        assert(e1.groups.update(k, (e1.groups[k].0, e1.groups[k].1 + gs.drop_first()))
            =~= e.groups.update(k, (e.groups[k].0, e.groups[k].1 + gs)));
    }
}

proof fn lemma_games_roundtrip(e: LichessModel, k: int, gs: Seq<(u64, u64)>, min: u64, t: Seq<u8>)
    requires
        0 <= k < e.groups.len(),
        forall|x: int|
            0 <= x < gs.len() ==> min <= #[trigger] gs[x].0 && gs[x].1
                < crate::game_id::GAME_ID_LIMIT,
    ensures
        spec_extend_games(e, k, spec_games_bytes(gs, min) + t, gs.len(), 0) == Some(
            (spec_add_games(e, k, spec_rebase(gs, min)), t),
        ),
    decreases gs.len(),
{
    if gs.len() == 0 {
        assert(spec_games_bytes(gs, min) + t =~= t);
        assert(spec_rebase(gs, min) =~= Seq::<(u64, u64)>::empty());
    } else {
        let d = (gs[0].0 - min) as u64;
        let id = gs[0].1;
        let enc = encode_uint(d as nat);
        let gb = le_bytes(id as nat, 6);
        let tail = spec_games_bytes(gs.drop_first(), min) + t;
        let b = spec_games_bytes(gs, min) + t;
        assert(b =~= enc + (gb + tail));
        crate::uint::lemma_uint_roundtrip(d, gb + tail);
        crate::uint::lemma_skip_concat(enc, gb + tail);
        GameId::lemma_value(id);
        crate::game_id::lemma_game_id_bytes_roundtrip(GameId::spec_from(id), tail);
        assert((gb + tail).skip(6) =~= tail);
        assert(b.skip((enc.len() + 6) as int) =~= tail);
        let e1 = spec_add_game(e, k, d, id);
        lemma_games_roundtrip(e1, k, gs.drop_first(), min, t);
        let rb = spec_rebase(gs, min);
        assert(rb[0] == (d, id));
        assert(rb.drop_first() =~= spec_rebase(gs.drop_first(), min));
    }
}

proof fn lemma_slot_of(j: int)
    requires
        0 <= j < 66,
    ensures
        spec_slot(speed_at((j / 11) as nat), rating_group_at((j % 11) as nat)) == j,
        speed_index(speed_at((j / 11) as nat)) == j / 11,
        rating_group_index(rating_group_at((j % 11) as nat)) == j % 11,
{
}

/// The entry after the group `g` with games is read into the empty group
/// at slot `j` of the move at position `i`.
pub open spec fn spec_group_read_model(
    e: LichessModel,
    i: int,
    j: int,
    g: GroupModel,
    min: u64,
) -> LichessModel {
    let k = 66 * i + j;
    spec_add_games(
        LichessModel { groups: e.groups.update(k, (g.0, e.groups[k].1)), ..e },
        k,
        spec_rebase(spec_kept_games(g.1), min),
    )
}

/// Reading the written form of a group with games into an empty group at
/// slot `j` of the move at position `i` sets that group to its normalized
/// form.
#[verifier::rlimit(60)]
#[verifier::spinoff_prover]
proof fn lemma_group_roundtrip(
    e: LichessModel,
    i: int,
    j: int,
    g: GroupModel,
    min: u64,
    t: Seq<u8>,
)
    requires
        0 <= i,
        0 <= j < 66,
        66 * i + 66 <= e.groups.len(),
        e.groups[66 * i + j] == spec_empty_group(),
        spec_total(g.0) != 0,
        g.0.white + 3 <= u64::MAX,
        forall|x: int|
            0 <= x < g.1.len() ==> min <= #[trigger] g.1[x].0 && g.1[x].1
                < crate::game_id::GAME_ID_LIMIT,
    ensures
        spec_extend_groups(e, i, spec_group_bytes(j, g, min) + t, 0) == spec_extend_groups(
            spec_group_read_model(e, i, j, g, min),
            i,
            t,
            0,
        ),
        spec_group_read_model(e, i, j, g, min).moves == e.moves,
        spec_group_read_model(e, i, j, g, min).groups == e.groups.update(
            66 * i + j,
            spec_normalized_group(g, min),
        ),
{
    let kept = spec_kept_games(g.1);
    let h = spec_slot_header(j, kept.len());
    let hb = spec_lichess_header_bytes(h);
    let sb = spec_stats_bytes(g.0);
    let gb = spec_games_bytes(kept, min);
    let b = spec_group_bytes(j, g, min) + t;
    assert(b =~= hb + (sb + (gb + t)));
    assert(kept.len() <= 8);
    lemma_lichess_header_roundtrip(h, sb + (gb + t));
    crate::uint::lemma_skip_concat(hb, sb + (gb + t));
    crate::stats::lemma_stats_roundtrip(g.0, gb + t);
    crate::uint::lemma_skip_concat(sb, gb + t);
    lemma_slot_of(j);
    let k = 66 * i + j;
    crate::stats::lemma_add_empty(g.0);
    let e1 = LichessModel { groups: e.groups.update(k, (g.0, e.groups[k].1)), ..e };
    assert forall|x: int| 0 <= x < kept.len() implies min <= #[trigger] kept[x].0 && kept[x].1
        < crate::game_id::GAME_ID_LIMIT by {
        if g.1.len() > 8 {
            assert(kept[x] == g.1[x + g.1.len() - 8]);
        }
    }
    lemma_games_roundtrip(e1, k, kept, min, t);
    lemma_add_games_shape(e1, k, spec_rebase(kept, min));
    assert(Seq::<(u64, u64)>::empty() + spec_rebase(kept, min) =~= spec_rebase(kept, min));
    assert(e1.groups.update(k, (e1.groups[k].0, e1.groups[k].1 + spec_rebase(kept, min)))
        =~= e.groups.update(k, spec_normalized_group(g, min)));
    assert(b.skip(hb.len() as int) =~= sb + (gb + t));
    assert((sb + (gb + t)).skip(sb.len() as int) =~= gb + t);
    assert(spec_extend_group(e, i, speed_at((j / 11) as nat), rating_group_at((j % 11) as nat), kept.len() as u64, b.skip(hb.len() as int), 0)
        == Some((spec_group_read_model(e, i, j, g, min), t)));
}

/// The groups at slots `j` to `65` of the move at position `i` are set to
/// their normalized form.
pub open spec fn spec_set_move_groups(
    e: LichessModel,
    i: int,
    j: int,
    gs: Seq<GroupModel>,
    min: u64,
) -> Seq<GroupModel> {
    Seq::new(
        e.groups.len(),
        |k: int|
            if 66 * i + j <= k < 66 * i + 66 {
                spec_normalized_group(gs[k - 66 * i], min)
            } else {
                e.groups[k]
            },
    )
}

#[verifier::rlimit(40)]
proof fn lemma_groups_roundtrip(
    e: LichessModel,
    i: int,
    j: int,
    gs: Seq<GroupModel>,
    min: u64,
    t: Seq<u8>,
)
    requires
        0 <= i,
        0 <= j <= 66,
        66 * i + 66 <= e.groups.len(),
        gs.len() == 66,
        forall|k: int| 66 * i + j <= k < 66 * i + 66 ==> #[trigger] e.groups[k] == spec_empty_group(),
        forall|x: int| 0 <= x < 66 ==> #[trigger] gs[x].0.white + 3 <= u64::MAX,
        forall|x: int, y: int|
            0 <= x < 66 && 0 <= y < gs[x].1.len() ==> min <= #[trigger] gs[x].1[y].0 && gs[x].1[y].1
                < crate::game_id::GAME_ID_LIMIT,
        t.len() == 0 || t[0] == 0,
    ensures
        spec_extend_groups(e, i, spec_groups_bytes(gs, j, min) + t, 0) matches Some((r, rest))
            && r.moves == e.moves && r.groups == spec_set_move_groups(e, i, j, gs, min) && rest == (
        if t.len() == 0 {
            t
        } else {
            t.skip(1)
        }),
    decreases 66 - j,
{
    if j == 66 {
        assert(spec_groups_bytes(gs, j, min) + t =~= t);
        assert(spec_set_move_groups(e, i, j, gs, min) =~= e.groups);
    } else {
        let rest = spec_groups_bytes(gs, j + 1, min) + t;
        let g = gs[j];
        if spec_total(g.0) == 0 {
            assert(spec_groups_bytes(gs, j, min) + t =~= rest);
            lemma_groups_roundtrip(e, i, j + 1, gs, min, t);
            assert(spec_set_move_groups(e, i, j + 1, gs, min) =~= spec_set_move_groups(
                e,
                i,
                j,
                gs,
                min,
            ));
        } else {
            assert(spec_groups_bytes(gs, j, min) + t =~= spec_group_bytes(j, g, min) + rest);
            assert forall|x: int| 0 <= x < g.1.len() implies min <= #[trigger] g.1[x].0 && g.1[x].1
                < crate::game_id::GAME_ID_LIMIT by {
                assert(gs[j].1[x] == g.1[x]);
            }
            lemma_group_roundtrip(e, i, j, g, min, rest);
            let e1 = spec_group_read_model(e, i, j, g, min);
            lemma_groups_roundtrip(e1, i, j + 1, gs, min, t);
            assert(spec_set_move_groups(e1, i, j + 1, gs, min) =~= spec_set_move_groups(
                e,
                i,
                j,
                gs,
                min,
            ));
        }
    }
}


#[verifier::rlimit(100)]
#[verifier::spinoff_prover]
proof fn lemma_moves_roundtrip(e: LichessModel, i: int, cur: LichessModel)
    requires
        spec_lichess_wf(e),
        spec_lichess_writable(e),
        0 <= i <= e.moves.len(),
        cur.moves == e.moves.take(i),
        cur.groups == spec_normalized_groups(e).take(66 * i),
    ensures
        spec_extend_moves(cur, spec_move_tail(e, i), 0) matches Some(r) && r.moves == e.moves
            && r.groups == spec_normalized_groups(e),
    decreases e.moves.len() - i,
{
    reveal(spec_lichess_inner_wf);
    let n = e.moves.len();
    let norm = spec_normalized_groups(e);
    if i == n {
        assert(cur.moves =~= e.moves);
        assert(cur.groups =~= norm);
    } else {
        let uci = e.moves[i];
        let gs = spec_move_groups(e, i);
        let min = spec_min_or_zero(e);
        let gb = spec_groups_bytes(gs, 0, min);
        let m = spec_moves_bytes(e, i + 1);
        let ub = le_bytes(uci as nat, 2);
        let b = spec_move_tail(e, i);
        assert(66 * i + 66 <= e.groups.len()) by (nonlinear_arith)
            requires
                e.groups.len() == 66 * n,
                i < n,
        ;
        assert(b =~= ub + (gb + m));
        crate::buf::lemma_le_roundtrip(uci as nat, 2);
        crate::buf::lemma_pow256_8();
        assert(b.take(2) =~= ub);
        assert(b.skip(2) =~= gb + m);
        assert(!cur.moves.contains(uci)) by {
            if cur.moves.contains(uci) {
                let x = choose|x: int| 0 <= x < cur.moves.len() && cur.moves[x] == uci;
                assert(e.moves[x] == e.moves[i]);
            }
        }
        let e1 = spec_add_move(cur, uci);
        assert(e1.moves =~= e.moves.take(i + 1));
        assert(e1.moves[i] == uci);
        let c = choose|x: int| 0 <= x < e1.moves.len() && e1.moves[x] == uci;
        assert(c == i);
        assert(spec_move_pos(e1.moves, uci) == i);
        assert forall|x: int, y: int|
            0 <= x < 66 && 0 <= y < gs[x].1.len() implies min <= #[trigger] gs[x].1[y].0
            && gs[x].1[y].1 < crate::game_id::GAME_ID_LIMIT by {
            assert(gs[x] == e.groups[66 * i + x]);
            assert(e.groups[66 * i + x].1[y] == gs[x].1[y]);
        }
        assert forall|x: int| 0 <= x < 66 implies #[trigger] gs[x].0.white + 3 <= u64::MAX by {
            assert(gs[x] == e.groups[66 * i + x]);
        }
        if i + 1 < n {
            assert(m =~= seq![0u8] + spec_move_tail(e, i + 1));
        } else {
            assert(m =~= Seq::<u8>::empty());
        }
        lemma_groups_roundtrip(e1, i, 0, gs, min, m);
        let r1 = spec_extend_groups(e1, i, gb + m, 0).unwrap().0;
        let rest = spec_extend_groups(e1, i, gb + m, 0).unwrap().1;
        assert(rest =~= spec_move_tail(e, i + 1));
        assert(r1.groups =~= norm.take(66 * (i + 1)));
        lemma_moves_roundtrip(e, i + 1, r1);
    }
}

/// Reading an entry back from its written form into an empty entry gives
/// the same moves, and for each group its counts and its latest eight
/// games, their indices counted from the lowest index; groups without
/// games come back empty.
pub proof fn lemma_lichess_write_read(e: LichessModel)
    requires
        spec_lichess_wf(e),
        spec_lichess_writable(e),
    ensures
        spec_extend_lichess(spec_empty_lichess(), spec_write_lichess(e)) matches Some(r) && r.moves
            == e.moves && r.groups == spec_normalized_groups(e),
{
    let cur = spec_empty_lichess();
    assert(cur.moves =~= e.moves.take(0));
    assert(cur.groups =~= spec_normalized_groups(e).take(0));
    if e.moves.len() == 0 {
        assert(spec_write_lichess(e) =~= spec_move_tail(e, 0));
    } else {
        assert(spec_write_lichess(e) =~= spec_move_tail(e, 0));
    }
    lemma_moves_roundtrip(e, 0, cur);
}


/// Counts as integers: the rating sum, white wins, draws and black wins.
pub type Sums = (int, int, int, int);

pub open spec fn sums_zero() -> Sums {
    (0, 0, 0, 0)
}

pub open spec fn sums_of(s: Stats) -> Sums {
    (s.rating_sum as int, s.white as int, s.draws as int, s.black as int)
}

pub open spec fn sums_add(a: Sums, b: Sums) -> Sums {
    (a.0 + b.0, a.1 + b.1, a.2 + b.2, a.3 + b.3)
}

pub open spec fn sums_le(a: Sums, b: Sums) -> bool {
    a.0 <= b.0 && a.1 <= b.1 && a.2 <= b.2 && a.3 <= b.3
}

pub open spec fn sums_nonneg(a: Sums) -> bool {
    0 <= a.0 && 0 <= a.1 && 0 <= a.2 && 0 <= a.3
}

/// Counts that fit in the fields of `Stats`.
pub open spec fn sums_fit(a: Sums) -> bool {
    sums_nonneg(a) && a.0 <= u64::MAX && a.1 <= u64::MAX && a.2 <= u64::MAX && a.3 <= u64::MAX
}

pub open spec fn stats_of_sums(a: Sums) -> Stats {
    Stats { rating_sum: a.0 as u64, white: a.1 as u64, draws: a.2 as u64, black: a.3 as u64 }
}

/// Whether a filter counts the group at slot `j` of a move.
pub open spec fn spec_slot_selected(
    speeds: Option<Seq<Speed>>,
    ratings: Option<Seq<RatingGroup>>,
    j: int,
) -> bool {
    spec_contains_speed(speeds, speed_at((j / 11) as nat)) && spec_contains_rating_group(
        ratings,
        rating_group_at((j % 11) as nat),
    )
}

/// The counts of the groups from `lo` to `hi` that the filter counts.
pub open spec fn spec_group_sum(
    gs: Seq<GroupModel>,
    speeds: Option<Seq<Speed>>,
    ratings: Option<Seq<RatingGroup>>,
    lo: int,
    hi: int,
) -> Sums
    decreases hi - lo,
{
    if hi <= lo {
        sums_zero()
    } else {
        sums_add(
            spec_group_sum(gs, speeds, ratings, lo, hi - 1),
            if spec_slot_selected(speeds, ratings, (hi - 1) % 66) {
                sums_of(gs[hi - 1].0)
            } else {
                sums_zero()
            },
        )
    }
}

/// The counts of all groups together fit in 64 bits.
pub open spec fn spec_lichess_sums_fit(e: LichessModel) -> bool {
    sums_fit(spec_group_sum(e.groups, None, None, 0, e.groups.len() as int))
}

proof fn lemma_group_sum_bounds(
    gs: Seq<GroupModel>,
    speeds: Option<Seq<Speed>>,
    ratings: Option<Seq<RatingGroup>>,
    lo: int,
    hi: int,
)
    ensures
        sums_nonneg(spec_group_sum(gs, speeds, ratings, lo, hi)),
        sums_le(spec_group_sum(gs, speeds, ratings, lo, hi), spec_group_sum(gs, None, None, lo, hi)),
    decreases hi - lo,
{
    if hi > lo {
        lemma_group_sum_bounds(gs, speeds, ratings, lo, hi - 1);
    }
}

proof fn lemma_group_sum_split(
    gs: Seq<GroupModel>,
    speeds: Option<Seq<Speed>>,
    ratings: Option<Seq<RatingGroup>>,
    lo: int,
    mid: int,
    hi: int,
)
    requires
        lo <= mid <= hi,
    ensures
        spec_group_sum(gs, speeds, ratings, lo, hi) == sums_add(
            spec_group_sum(gs, speeds, ratings, lo, mid),
            spec_group_sum(gs, speeds, ratings, mid, hi),
        ),
    decreases hi - mid,
{
    if hi > mid {
        lemma_group_sum_split(gs, speeds, ratings, lo, mid, hi - 1);
    }
}

/// The counts from `a` to `b` that the filter counts are at most all counts
/// from `lo` to `hi` when the first range lies within the second.
proof fn lemma_group_sum_within(
    gs: Seq<GroupModel>,
    speeds: Option<Seq<Speed>>,
    ratings: Option<Seq<RatingGroup>>,
    lo: int,
    a: int,
    b: int,
    hi: int,
)
    requires
        lo <= a <= b <= hi,
    ensures
        sums_le(spec_group_sum(gs, speeds, ratings, a, b), spec_group_sum(gs, None, None, lo, hi)),
{
    lemma_group_sum_bounds(gs, speeds, ratings, a, b);
    lemma_group_sum_split(gs, None, None, lo, a, hi);
    lemma_group_sum_split(gs, None, None, a, b, hi);
    lemma_group_sum_bounds(gs, None, None, lo, a);
    lemma_group_sum_bounds(gs, None, None, b, hi);
}

impl LichessEntry {
    /// Whether the counts of all groups together fit in 64 bits.
    pub fn sums_fit(&self) -> (b: bool)
        ensures
            b == spec_lichess_sums_fit(self@),
    {
        let ghost gs = self@.groups;
        let n = self.groups.len();
        let mut a: (u64, u64, u64, u64) = (0, 0, 0, 0);
        let mut k: usize = 0;
        while k < n
            invariant
                k <= n,
                n == gs.len(),
                gs == self@.groups,
                (a.0 as int, a.1 as int, a.2 as int, a.3 as int) == spec_group_sum(gs, None, None, 0, k as int),
            decreases n - k,
        {
            let s = self.groups[k].stats;
            proof {
                assert(gs[k as int] == self.groups@[k as int]@);
                assert(spec_slot_selected(None, None, k as int % 66));
            }
            let t0 = a.0 as u128 + s.rating_sum as u128;
            let t1 = a.1 as u128 + s.white as u128;
            let t2 = a.2 as u128 + s.draws as u128;
            let t3 = a.3 as u128 + s.black as u128;
            if t0 > u64::MAX as u128 || t1 > u64::MAX as u128 || t2 > u64::MAX as u128 || t3 > u64::MAX as u128 {
                proof {
                    lemma_group_sum_split(gs, None, None, 0, k + 1, n as int);
                    lemma_group_sum_bounds(gs, None, None, k + 1, n as int);
                }
                return false;
            }
            a = (t0 as u64, t1 as u64, t2 as u64, t3 as u64);
            k = k + 1;
        }
        proof {
            lemma_group_sum_bounds(gs, None, None, 0, n as int);
        }
        true
    }

    /// Whether every group can be written: its count of white wins leaves
    /// room for the header.
    pub fn is_writable(&self) -> (b: bool)
        ensures
            b == spec_lichess_writable(self@),
    {
        let n = self.groups.len();
        let mut k: usize = 0;
        while k < n
            invariant
                k <= n,
                n == self@.groups.len(),
                forall|j: int| 0 <= j < k ==> #[trigger] self@.groups[j].0.white + 3 <= u64::MAX,
            decreases n - k,
        {
            proof {
                assert(self@.groups[k as int] == self.groups@[k as int]@);
            }
            if self.groups[k].stats.white > u64::MAX - 3 {
                proof {
                    assert(!(self@.groups[k as int].0.white + 3 <= u64::MAX));
                }
                return false;
            }
            k = k + 1;
        }
        true
    }
}

impl LichessEntry {
    /// The counts of all groups that `filter` counts.
    pub fn total(&self, filter: &LichessQueryFilter) -> (s: Stats)
        requires
            self.wf(),
            spec_lichess_sums_fit(self@),
        ensures
            s == stats_of_sums(
                spec_group_sum(
                    self@.groups,
                    filter.spec_speeds(),
                    filter.spec_ratings(),
                    0,
                    self@.groups.len() as int,
                ),
            ),
    {
        let ghost e = self@;
        let ghost sp = filter.spec_speeds();
        let ghost rt = filter.spec_ratings();
        let n = self.groups.len();
        let mut acc = Stats::from_counts(0, 0, 0, 0);
        let mut k: usize = 0;
        while k < n
            invariant
                e == self@,
                n == e.groups.len(),
                spec_lichess_sums_fit(e),
                k <= n,
                acc == stats_of_sums(spec_group_sum(e.groups, sp, rt, 0, k as int)),
                sp == filter.spec_speeds(),
                rt == filter.spec_ratings(),
            decreases n - k,
        {
            let j = k % 66;
            let speed = Speed::from_index(j / 11);
            let rg = RatingGroup::from_index(j % 11);
            proof {
                lemma_group_sum_within(e.groups, sp, rt, 0, 0, k + 1, n as int);
                lemma_group_sum_bounds(e.groups, sp, rt, 0, k as int);
            }
            if filter.contains_speed(speed) && filter.contains_rating_group(rg) {
                let g = &self.groups[k];
                assert(g@ == e.groups[k as int]);
                acc.add_assign(&g.stats);
            }
            k = k + 1;
        }
        acc
    }
}


/// A game offered in an answer, with what it is chosen by: its rating
/// group, speed, index, the move and the game.
pub type GameRow = (RatingGroup, Speed, u64, Uci, GameId);

/// The games that the filter counts among the groups of the move at
/// position `i`, from slot `0` to `j`, in order.
pub open spec fn spec_move_games(
    e: LichessModel,
    speeds: Option<Seq<Speed>>,
    ratings: Option<Seq<RatingGroup>>,
    i: int,
    j: int,
) -> Seq<(u64, u64)>
    decreases j,
{
    if j <= 0 {
        Seq::empty()
    } else {
        spec_move_games(e, speeds, ratings, i, j - 1) + if spec_slot_selected(
            speeds,
            ratings,
            j - 1,
        ) {
            e.groups[66 * i + j - 1].1
        } else {
            Seq::empty()
        }
    }
}

/// The first game with the highest index.
pub open spec fn spec_latest(s: Seq<(u64, u64)>) -> Option<(u64, u64)>
    decreases s.len(),
{
    if s.len() == 0 {
        None
    } else {
        let r = spec_latest(s.drop_last());
        match r {
            Some(b) => if b.0 < s.last().0 {
                Some(s.last())
            } else {
                r
            },
            None => Some(s.last()),
        }
    }
}

/// The row of the move at position `i`: its counts under the filter, their
/// average rating, and its game if it was played in exactly one.
pub open spec fn spec_move_row(
    e: LichessModel,
    speeds: Option<Seq<Speed>>,
    ratings: Option<Seq<RatingGroup>>,
    i: int,
) -> PreparedMove {
    let st = stats_of_sums(spec_group_sum(e.groups, speeds, ratings, 66 * i, 66 * i + 66));
    PreparedMove {
        uci: spec_unpack(e.moves[i]),
        stats: st,
        game: if spec_total(st) == 1 {
            match spec_latest(spec_move_games(e, speeds, ratings, i, 66)) {
                Some(g) => Some(GameId::spec_from(g.1)),
                None => None,
            }
        } else {
            None
        },
        average_rating: spec_average_rating(st),
        average_opponent_rating: None,
        performance: None,
    }
}

/// The rows of the moves before position `i` that have games under the
/// filter, with their numbers of games as keys.
pub open spec fn spec_move_rows(
    e: LichessModel,
    speeds: Option<Seq<Speed>>,
    ratings: Option<Seq<RatingGroup>>,
    i: int,
) -> Seq<(u128, PreparedMove)>
    decreases i,
{
    if i <= 0 {
        Seq::empty()
    } else {
        let row = spec_move_row(e, speeds, ratings, i - 1);
        spec_move_rows(e, speeds, ratings, i - 1) + if spec_total(row.stats) != 0 {
            seq![(spec_move_key(row), row)]
        } else {
            Seq::empty()
        }
    }
}

/// The counts of the moves before position `i` that have games under the
/// filter.
pub open spec fn spec_prepared_total(
    e: LichessModel,
    speeds: Option<Seq<Speed>>,
    ratings: Option<Seq<RatingGroup>>,
    i: int,
) -> Sums
    decreases i,
{
    if i <= 0 {
        sums_zero()
    } else {
        let row = spec_move_row(e, speeds, ratings, i - 1);
        sums_add(
            spec_prepared_total(e, speeds, ratings, i - 1),
            if spec_total(row.stats) != 0 {
                spec_group_sum(e.groups, speeds, ratings, 66 * (i - 1), 66 * (i - 1) + 66)
            } else {
                sums_zero()
            },
        )
    }
}

/// Games as rows of a group of `rating_group` and `speed` for the move
/// `uci`, keyed by their index.
pub open spec fn spec_game_rows_of(
    games: Seq<(u64, u64)>,
    rating_group: RatingGroup,
    speed: Speed,
    uci: Uci,
) -> Seq<(u128, GameRow)> {
    games.map_values(
        |g: (u64, u64)| (g.0 as u128, (rating_group, speed, g.0, uci, GameId::spec_from(g.1))),
    )
}

/// The games of the group at `k` as rows, keyed by their index.
pub open spec fn spec_group_game_rows(e: LichessModel, k: int) -> Seq<(u128, GameRow)> {
    spec_game_rows_of(
        e.groups[k].1,
        rating_group_at(((k % 66) % 11) as nat),
        speed_at(((k % 66) / 11) as nat),
        spec_unpack(e.moves[k / 66]),
    )
}

/// The games of the groups before `k` that the filter counts, as rows
/// keyed by their index.
pub open spec fn spec_game_rows(
    e: LichessModel,
    speeds: Option<Seq<Speed>>,
    ratings: Option<Seq<RatingGroup>>,
    k: int,
) -> Seq<(u128, GameRow)>
    decreases k,
{
    if k <= 0 {
        Seq::empty()
    } else {
        spec_game_rows(e, speeds, ratings, k - 1) + if spec_slot_selected(
            speeds,
            ratings,
            (k - 1) % 66,
        ) {
            spec_group_game_rows(e, k - 1)
        } else {
            Seq::empty()
        }
    }
}

/// The rows that may be top games: from `top_group` up, not by
/// correspondence, keyed by their rating group first and then their index.
pub open spec fn spec_top_candidates(rows: Seq<(u128, GameRow)>, top_group: RatingGroup) -> Seq<
    (u128, GameRow),
>
    decreases rows.len(),
{
    if rows.len() == 0 {
        Seq::empty()
    } else {
        let r = rows.last().1;
        spec_top_candidates(rows.drop_last(), top_group) + if rating_group_index(r.0)
            >= rating_group_index(top_group) && r.1 != Speed::Correspondence {
            seq![((rating_group_index(r.0) * 0x1_0000_0000_0000_0000 + r.2) as u128, r)]
        } else {
            Seq::empty()
        }
    }
}

/// The rows keyed by their index.
pub open spec fn spec_rekey_by_index(rows: Seq<(u128, GameRow)>) -> Seq<(u128, GameRow)> {
    rows.map_values(|x: (u128, GameRow)| (x.1.2 as u128, x.1))
}

/// The rows whose game is not among `tops`.
pub open spec fn spec_without_games(rows: Seq<(u128, GameRow)>, tops: Seq<(u128, GameRow)>) -> Seq<
    (u128, GameRow),
>
    decreases rows.len(),
{
    if rows.len() == 0 {
        Seq::empty()
    } else {
        spec_without_games(rows.drop_last(), tops) + if exists|t: int|
            0 <= t < tops.len() && tops[t].1.4 == rows.last().1.4 {
            Seq::empty()
        } else {
            seq![rows.last()]
        }
    }
}

/// The move and game of each row.
pub open spec fn spec_row_games(rows: Seq<(u128, GameRow)>) -> Seq<(Uci, GameId)> {
    rows.map_values(|x: (u128, GameRow)| (x.1.3, x.1.4))
}


/// The games that may be top games, keyed by rating group and index.
fn top_candidates(rows: &Vec<(u128, GameRow)>, top_group: RatingGroup) -> (r: Vec<(u128, GameRow)>)
    ensures
        r@ == spec_top_candidates(rows@, top_group),
{
    let mut out: Vec<(u128, GameRow)> = Vec::new();
    let mut i: usize = 0;
    let tg = top_group.index();
    while i < rows.len()
        invariant
            i <= rows@.len(),
            tg == rating_group_index(top_group),
            out@ == spec_top_candidates(rows@.take(i as int), top_group),
        decreases rows@.len() - i,
    {
        let r = rows[i].1;
        let ghost before = rows@.take(i as int);
        proof {
            assert(rows@.take(i + 1).drop_last() =~= before);
            assert(rows@.take(i + 1).last() == rows@[i as int]);
        }
        if r.0.index() >= tg && r.1 != Speed::Correspondence {
            let key: u128 = r.0.index() as u128 * 0x1_0000_0000_0000_0000 + r.2 as u128;
            out.push((key, r));
        }
        proof {
            assert(out@ =~= spec_top_candidates(rows@.take(i + 1), top_group));
        }
        i = i + 1;
    }
    proof {
        assert(rows@.take(i as int) =~= rows@);
    }
    out
}

/// The rows keyed by their index.
fn rekey_by_index(rows: Vec<(u128, GameRow)>) -> (r: Vec<(u128, GameRow)>)
    ensures
        r@ == spec_rekey_by_index(rows@),
{
    let mut out: Vec<(u128, GameRow)> = Vec::new();
    let mut i: usize = 0;
    while i < rows.len()
        invariant
            i <= rows@.len(),
            out@ == spec_rekey_by_index(rows@.take(i as int)),
        decreases rows@.len() - i,
    {
        let r = rows[i].1;
        out.push((r.2 as u128, r));
        proof {
            assert(out@ =~= spec_rekey_by_index(rows@.take(i + 1)));
        }
        i = i + 1;
    }
    proof {
        assert(rows@.take(i as int) =~= rows@);
    }
    out
}

/// The rows whose game is not among `tops`.
fn without_games(rows: Vec<(u128, GameRow)>, tops: &Vec<(u128, GameRow)>) -> (r: Vec<(u128, GameRow)>)
    ensures
        r@ == spec_without_games(rows@, tops@),
{
    let mut out: Vec<(u128, GameRow)> = Vec::new();
    let mut i: usize = 0;
    while i < rows.len()
        invariant
            i <= rows@.len(),
            out@ == spec_without_games(rows@.take(i as int), tops@),
        decreases rows@.len() - i,
    {
        let r = rows[i];
        let mut found = false;
        let mut t: usize = 0;
        while t < tops.len()
            invariant
                t <= tops@.len(),
                found == exists|x: int| 0 <= x < t && tops@[x].1.4 == r.1.4,
            decreases tops@.len() - t,
        {
            if tops[t].1.4 == r.1.4 {
                found = true;
            }
            t = t + 1;
        }
        proof {
            assert(rows@.take(i + 1).drop_last() =~= rows@.take(i as int));
            assert(rows@.take(i + 1).last() == r);
        }
        if !found {
            out.push(r);
        }
        proof {
            assert(out@ =~= spec_without_games(rows@.take(i + 1), tops@));
        }
        i = i + 1;
    }
    proof {
        assert(rows@.take(i as int) =~= rows@);
    }
    out
}

/// The move and game of each row.
fn row_games(rows: Vec<(u128, GameRow)>) -> (r: Vec<(Uci, GameId)>)
    ensures
        r@ == spec_row_games(rows@),
{
    let mut out: Vec<(Uci, GameId)> = Vec::new();
    let mut i: usize = 0;
    while i < rows.len()
        invariant
            i <= rows@.len(),
            out@ == spec_row_games(rows@.take(i as int)),
        decreases rows@.len() - i,
    {
        let r = rows[i].1;
        out.push((r.3, r.4));
        proof {
            assert(out@ =~= spec_row_games(rows@.take(i + 1)));
        }
        i = i + 1;
    }
    proof {
        assert(rows@.take(i as int) =~= rows@);
    }
    out
}

proof fn lemma_prepared_total_bound(
    e: LichessModel,
    speeds: Option<Seq<Speed>>,
    ratings: Option<Seq<RatingGroup>>,
    i: int,
)
    requires
        0 <= i,
    ensures
        sums_nonneg(spec_prepared_total(e, speeds, ratings, i)),
        sums_le(spec_prepared_total(e, speeds, ratings, i), spec_group_sum(e.groups, speeds, ratings, 0, 66 * i)),
    decreases i,
{
    if i > 0 {
        lemma_prepared_total_bound(e, speeds, ratings, i - 1);
        lemma_group_sum_split(e.groups, speeds, ratings, 0, 66 * (i - 1), 66 * i);
        lemma_group_sum_bounds(e.groups, speeds, ratings, 66 * (i - 1), 66 * i);
    }
}

impl LichessEntry {
    /// The counts, latest game and game rows of the move at position `i`
    /// under the filter; the game rows are appended when games are wanted.
    #[verifier::loop_isolation(false)]
    fn move_summary(
        &self,
        filter: &LichessQueryFilter,
        i: usize,
        wants: bool,
        rows: &mut Vec<(u128, GameRow)>,
    ) -> (r: (Stats, Option<(u64, GameId)>))
        requires
            self.wf(),
            spec_lichess_sums_fit(self@),
            i < self@.moves.len(),
            wants ==> old(rows)@ == spec_game_rows(
                self@,
                filter.spec_speeds(),
                filter.spec_ratings(),
                66 * i,
            ),
        ensures
            r.0 == stats_of_sums(
                spec_group_sum(
                    self@.groups,
                    filter.spec_speeds(),
                    filter.spec_ratings(),
                    66 * i,
                    66 * i + 66,
                ),
            ),
            match spec_latest(
                spec_move_games(self@, filter.spec_speeds(), filter.spec_ratings(), i as int, 66),
            ) {
                Some(g) => r.1 matches Some(x) && x.0 == g.0 && x.1 == GameId::spec_from(g.1),
                None => r.1 is None,
            },
            wants ==> final(rows)@ == spec_game_rows(
                self@,
                filter.spec_speeds(),
                filter.spec_ratings(),
                66 * i + 66,
            ),
            !wants ==> final(rows)@ == old(rows)@,
    {
        let ghost e = self@;
        let ghost sp = filter.spec_speeds();
        let ghost rt = filter.spec_ratings();
        let n = self.groups.len();
        proof {
            assert(66 * i + 66 <= n) by (nonlinear_arith)
                requires
                    n == 66 * e.moves.len(),
                    i < e.moves.len(),
            ;
        }
        let uci = self.moves[i].to_uci();
        let mut stats = Stats::from_counts(0, 0, 0, 0);
        let mut latest: Option<(u64, GameId)> = None;
        let mut j: usize = 0;
        while j < NUM_SLOTS
            invariant
                j <= 66,
                stats == stats_of_sums(spec_group_sum(e.groups, sp, rt, 66 * i, 66 * i + j)),
                match spec_latest(spec_move_games(e, sp, rt, i as int, j as int)) {
                    Some(g) => latest matches Some(x) && x.0 == g.0 && x.1 == GameId::spec_from(g.1),
                    None => latest is None,
                },
                wants ==> rows@ == spec_game_rows(e, sp, rt, 66 * i + j),
                !wants ==> rows@ == old(rows)@,
            decreases 66 - j,
        {
            let k = 66 * i + j;
            let speed = Speed::from_index(j / 11);
            let rg = RatingGroup::from_index(j % 11);
            proof {
                assert((k as int) % 66 == j as int) by (nonlinear_arith)
                    requires
                        k == 66 * i + j,
                        j < 66,
                ;
                assert((k as int) / 66 == i as int) by (nonlinear_arith)
                    requires
                        k == 66 * i + j,
                        j < 66,
                ;
                lemma_group_sum_within(e.groups, sp, rt, 0, 66 * i, k + 1, n as int);
                lemma_group_sum_bounds(e.groups, sp, rt, 66 * i, k as int);
            }
            let selected = filter.contains_speed(speed) && filter.contains_rating_group(rg);
            if selected {
                let g = &self.groups[k];
                assert(g@ == e.groups[k as int]);
                stats.add_assign(&g.stats);
                latest = scan_games(g, rg, speed, uci, wants, latest, rows, Ghost(spec_move_games(e, sp, rt, i as int, j as int)));
            }
            proof {
                if !selected {
                    assert(spec_move_games(e, sp, rt, i as int, j + 1) =~= spec_move_games(
                        e,
                        sp,
                        rt,
                        i as int,
                        j as int,
                    ));
                } else {
                    assert(spec_move_games(e, sp, rt, i as int, j + 1) =~= spec_move_games(
                        e,
                        sp,
                        rt,
                        i as int,
                        j as int,
                    ) + e.groups[k as int].1);
                }
            }
            j = j + 1;
        }
        (stats, latest)
    }
}


/// Goes through the games of a group: the latest game of `prefix` and the
/// group's games, and the group's games appended as rows when wanted.
fn scan_games(
    g: &LichessGroup,
    rg: RatingGroup,
    speed: Speed,
    uci: Uci,
    wants: bool,
    latest: Option<(u64, GameId)>,
    rows: &mut Vec<(u128, GameRow)>,
    Ghost(prefix): Ghost<Seq<(u64, u64)>>,
) -> (r: Option<(u64, GameId)>)
    requires
        match spec_latest(prefix) {
            Some(gm) => latest matches Some(y) && y.0 == gm.0 && y.1 == GameId::spec_from(gm.1),
            None => latest is None,
        },
    ensures
        match spec_latest(prefix + g@.1) {
            Some(gm) => r matches Some(y) && y.0 == gm.0 && y.1 == GameId::spec_from(gm.1),
            None => r is None,
        },
        wants ==> final(rows)@ == old(rows)@ + spec_game_rows_of(g@.1, rg, speed, uci),
        !wants ==> final(rows)@ == old(rows)@,
{
    let ghost rows0 = rows@;
    let ghost games = g@.1;
    let mut latest = latest;
    let len = g.games.len();
    let mut x: usize = 0;
    proof {
        assert(prefix + games.take(0) =~= prefix);
    }
    while x < len
        invariant
            x <= len,
            len == g.games@.len(),
            games == g@.1,
            match spec_latest(prefix + games.take(x as int)) {
                Some(gm) => latest matches Some(y) && y.0 == gm.0 && y.1 == GameId::spec_from(gm.1),
                None => latest is None,
            },
            wants ==> rows@ == rows0 + spec_game_rows_of(games, rg, speed, uci).take(x as int),
            !wants ==> rows@ == rows0,
        decreases len - x,
    {
        let (idx, id) = g.games[x];
        proof {
            assert(games[x as int] == (idx, id.value()));
            GameId::lemma_value(id.value());
            GameId::lemma_eq(id, GameId::spec_from(id.value()));
            let s1 = prefix + games.take(x + 1);
            assert(s1.drop_last() =~= prefix + games.take(x as int));
            assert(s1.last() == (idx, id.value()));
        }
        let newer = match latest {
            Some(l) => l.0 < idx,
            None => true,
        };
        if newer {
            latest = Some((idx, id));
        }
        if wants {
            rows.push((idx as u128, (rg, speed, idx, uci, id)));
            proof {
                assert(rows@ =~= rows0 + spec_game_rows_of(games, rg, speed, uci).take(x + 1));
            }
        }
        x = x + 1;
    }
    proof {
        assert(games.take(len as int) =~= games);
        assert(spec_game_rows_of(games, rg, speed, uci).take(len as int) =~= spec_game_rows_of(games, rg, speed, uci));
    }
    latest
}


/// The games among which an answer chooses: all that the filter counts, if
/// games are wanted.
pub open spec fn spec_answer_games(
    e: LichessModel,
    speeds: Option<Seq<Speed>>,
    ratings: Option<Seq<RatingGroup>>,
    limits: Limits,
) -> Seq<(u128, GameRow)> {
    if limits.top_games > 0 || limits.recent_games > 0 {
        spec_game_rows(e, speeds, ratings, 66 * e.moves.len() as int)
    } else {
        Seq::empty()
    }
}

/// The games that an answer offers as top games and recent games: the
/// chosen top games (keyed by index) and the chosen recent games.
pub open spec fn spec_games_chosen(
    cands: Seq<(u128, GameRow)>,
    ratings: Option<Seq<RatingGroup>>,
    recent_limit: nat,
    t8: Seq<(u128, GameRow)>,
    t4: Seq<(u128, GameRow)>,
    sel: Seq<(u128, GameRow)>,
) -> bool {
    match spec_top_group(ratings) {
        None => t4.len() == 0 && is_top_selection(
            cands,
            sel,
            if recent_limit < 8 {
                recent_limit
            } else {
                8
            },
        ),
        Some(tg) => {
            &&& is_top_selection(spec_top_candidates(cands, tg), t8, 8)
            &&& is_top_selection(spec_rekey_by_index(t8), t4, 4)
            &&& is_top_selection(
                spec_without_games(cands, t4),
                sel,
                if recent_limit < 8 - t4.len() {
                    recent_limit
                } else {
                    (8 - t4.len()) as nat
                },
            )
        },
    }
}

/// What `prepare` answers for the entry `e`: the total of the counts the
/// filter selects, the best moves by their number of games, and the games
/// chosen among the top and recent ones.
pub open spec fn spec_lichess_prepared(
    e: LichessModel,
    filter: LichessQueryFilter,
    limits: Limits,
    r: PreparedResponse,
) -> bool {
    let sp = filter.spec_speeds();
    let rt = filter.spec_ratings();
    let n = e.moves.len() as int;
    let cands = spec_answer_games(e, sp, rt, limits);
    &&& r.total == stats_of_sums(spec_prepared_total(e, sp, rt, n))
    &&& exists|sel: Seq<(u128, PreparedMove)>|
        is_top_selection(spec_move_rows(e, sp, rt, n), sel, limits.moves as nat)
            && r.moves@ == spec_unkeyed(sel)
    &&& exists|t8: Seq<(u128, GameRow)>, t4: Seq<(u128, GameRow)>, sel: Seq<(u128, GameRow)>|
        #![trigger spec_games_chosen(cands, rt, limits.recent_games as nat, t8, t4, sel)]
        spec_games_chosen(cands, rt, limits.recent_games as nat, t8, t4, sel)
            && r.top_games@ == spec_row_games(t4).take(
            if limits.top_games < t4.len() {
                limits.top_games as int
            } else {
                t4.len() as int
            },
        ) && r.recent_games@ == spec_row_games(sel)
}

impl LichessEntry {
    /// The answer for the position under `filter` and `limits`: the counts
    /// of the moves that have games; a row for each such move, with its
    /// counts, their average rating and its game if it was played in
    /// exactly one, the rows with the most games first, at most
    /// `limits.moves` of them; if games are wanted, up to four top games
    /// (the latest of the eight best by rating group, then index, from the
    /// top group of the filter up, not by correspondence) and the latest
    /// other games, eight games at most in all.
    pub fn prepare(self, filter: &LichessQueryFilter, limits: &Limits) -> (r: PreparedResponse)
        requires
            self.wf(),
            spec_lichess_sums_fit(self@),
        ensures
            spec_lichess_prepared(self@, *filter, *limits, r),
    {
        let ghost e = self@;
        let ghost sp = filter.spec_speeds();
        let ghost rt = filter.spec_ratings();
        let wants = limits.wants_games();
        let n = self.moves.len();
        let mut total = Stats::from_counts(0, 0, 0, 0);
        let mut rows: Vec<(u128, PreparedMove)> = Vec::new();
        let mut games: Vec<(u128, GameRow)> = Vec::new();
        let mut i: usize = 0;
        while i < n
            invariant
                e == self@,
                self.wf(),
                spec_lichess_sums_fit(e),
                n == e.moves.len(),
                i <= n,
                total == stats_of_sums(spec_prepared_total(e, sp, rt, i as int)),
                rows@ == spec_move_rows(e, sp, rt, i as int),
                wants ==> games@ == spec_game_rows(e, sp, rt, 66 * i),
                !wants ==> games@.len() == 0,
                sp == filter.spec_speeds(),
                rt == filter.spec_ratings(),
            decreases n - i,
        {
            let uci = self.moves[i].to_uci();
            let (stats, latest) = self.move_summary(filter, i, wants, &mut games);
            proof {
                assert(e.moves[i as int] == self.moves@[i as int].0);
                lemma_prepared_total_bound(e, sp, rt, i as int);
                lemma_group_sum_split(e.groups, sp, rt, 0, 66 * i, 66 * i + 66);
                lemma_group_sum_bounds(e.groups, sp, rt, 66 * i, 66 * i + 66);
                assert(66 * i + 66 <= e.groups.len()) by (nonlinear_arith)
                    requires
                        e.groups.len() == 66 * n,
                        i < n,
                ;
                lemma_group_sum_within(e.groups, sp, rt, 0, 0, 66 * i + 66, e.groups.len() as int);
            }
            if !stats.is_empty() {
                total.add_assign(&stats);
                let game = if stats.is_single() {
                    match latest {
                        Some(l) => Some(l.1),
                        None => None,
                    }
                } else {
                    None
                };
                let row = PreparedMove {
                    uci,
                    stats,
                    game,
                    average_rating: stats.average_rating(),
                    average_opponent_rating: None,
                    performance: None,
                };
                let key: u128 = stats.white as u128 + stats.draws as u128 + stats.black as u128;
                rows.push((key, row));
            }
            proof {
                assert(rows@ =~= spec_move_rows(e, sp, rt, i + 1));
            }
            i = i + 1;
        }
        let best = take_best(rows, limits.moves);
        let ghost best_moves = best@;
        let moves = unkeyed(best);
        let ghost cands = games@;
        proof {
            if !wants {
                assert(games@ =~= Seq::<(u128, GameRow)>::empty());
            }
        }
        let (top, recent, Ghost(t8)) = match filter.top_group() {
            Some(tg) => {
                let cands8 = top_candidates(&games, tg);
                let t8 = take_best(cands8, 8);
                let ghost t8v = t8@;
                let t8r = rekey_by_index(t8);
                let t4 = take_best(t8r, 4);
                let rest = without_games(games, &t4);
                (t4, rest, Ghost(t8v))
            },
            None => (Vec::new(), games, Ghost(Seq::empty())),
        };
        let ghost t4 = top@;
        let ghost rest = recent@;
        let valid = 8 - top.len();
        let limit = if limits.recent_games < valid {
            limits.recent_games
        } else {
            valid
        };
        let sel = take_best(recent, limit);
        let ghost selv = sel@;
        let mut top = top;
        let top_len = top.len();
        top.truncate(limits.top_games);
        proof {
            assert(top@ =~= t4.take(if limits.top_games < t4.len() { limits.top_games as int } else { t4.len() as int }));
            assert(spec_games_chosen(cands, rt, limits.recent_games as nat, t8, t4, selv));
        }
        let top_games = row_games(top);
        let recent_games = row_games(sel);
        proof {
            assert(spec_row_games(t4.take(if limits.top_games < t4.len() { limits.top_games as int } else { t4.len() as int })) =~= spec_row_games(t4).take(if limits.top_games < t4.len() { limits.top_games as int } else { t4.len() as int }));
        }
        let r = PreparedResponse { total, moves, recent_games, top_games };
        proof {
            let nn = e.moves.len() as int;
            assert(i == n);
            assert(r.total == stats_of_sums(spec_prepared_total(e, sp, rt, nn)));
            assert(is_top_selection(spec_move_rows(e, sp, rt, nn), best_moves, limits.moves as nat));
            assert(r.moves@ == spec_unkeyed(best_moves));
            let cands2 = spec_answer_games(e, sp, rt, *limits);
            assert(cands2 == cands);
            let tk = if limits.top_games < t4.len() { limits.top_games as int } else { t4.len() as int };
            assert(r.top_games@ == spec_row_games(t4).take(tk));
            assert(r.recent_games@ == spec_row_games(selv));
            assert(spec_games_chosen(cands2, rt, limits.recent_games as nat, t8, t4, selv)
                && r.top_games@ == spec_row_games(t4).take(tk) && r.recent_games@ == spec_row_games(selv));
        }
        r
    }
}

/// The candidates for top games are rows of their input, none of them by
/// correspondence and none below the top group.
proof fn lemma_top_candidates_rows(rows: Seq<(u128, GameRow)>, tg: RatingGroup)
    ensures
        forall|k: int|
            0 <= k < spec_top_candidates(rows, tg).len() ==> {
                let c = #[trigger] spec_top_candidates(rows, tg)[k];
                &&& c.1.1 != Speed::Correspondence
                &&& rating_group_index(c.1.0) >= rating_group_index(tg)
                &&& exists|j: int| 0 <= j < rows.len() && rows[j].1 == c.1
            },
    decreases rows.len(),
{
    if rows.len() > 0 {
        let rest = rows.drop_last();
        lemma_top_candidates_rows(rest, tg);
        let tc = spec_top_candidates(rows, tg);
        let t0 = spec_top_candidates(rest, tg);
        assert forall|k: int| 0 <= k < tc.len() implies {
            let c = #[trigger] tc[k];
            &&& c.1.1 != Speed::Correspondence
            &&& rating_group_index(c.1.0) >= rating_group_index(tg)
            &&& exists|j: int| 0 <= j < rows.len() && rows[j].1 == c.1
        } by {
            if k < t0.len() {
                assert(tc[k] == t0[k]);
                let j = choose|j: int| 0 <= j < rest.len() && rest[j].1 == t0[k].1;
                assert(rows[j] == rest[j]);
            } else {
                assert(rows[rows.len() - 1].1 == tc[k].1);
            }
        }
    }
}

/// No correspondence game is ever a top game: every top game chosen is a
/// game among the candidates, not by correspondence, and of the filter's
/// top group or above; without a top group there is none.
pub proof fn lemma_top_games_chosen(
    cands: Seq<(u128, GameRow)>,
    ratings: Option<Seq<RatingGroup>>,
    recent_limit: nat,
    t8: Seq<(u128, GameRow)>,
    t4: Seq<(u128, GameRow)>,
    sel: Seq<(u128, GameRow)>,
)
    requires
        spec_games_chosen(cands, ratings, recent_limit, t8, t4, sel),
    ensures
        forall|k: int|
            0 <= k < t4.len() ==> {
                &&& spec_top_group(ratings) matches Some(tg) && rating_group_index(
                    (#[trigger] t4[k]).1.0,
                ) >= rating_group_index(tg)
                &&& t4[k].1.1 != Speed::Correspondence
                &&& exists|j: int| 0 <= j < cands.len() && cands[j].1 == t4[k].1
            },
{
    match spec_top_group(ratings) {
        None => {},
        Some(tg) => {
            let tc = spec_top_candidates(cands, tg);
            let rk = spec_rekey_by_index(t8);
            lemma_top_candidates_rows(cands, tg);
            assert forall|k: int| 0 <= k < t4.len() implies {
                &&& spec_top_group(ratings) matches Some(tg) && rating_group_index(
                    (#[trigger] t4[k]).1.0,
                ) >= rating_group_index(tg)
                &&& t4[k].1.1 != Speed::Correspondence
                &&& exists|j: int| 0 <= j < cands.len() && cands[j].1 == t4[k].1
            } by {
                lemma_top_selection_from(rk, t4, 4, k);
                let a = choose|a: int| 0 <= a < rk.len() && rk[a] == t4[k];
                assert(rk[a].1 == t8[a].1);
                lemma_top_selection_from(tc, t8, 8, a);
                let b = choose|b: int| 0 <= b < tc.len() && tc[b] == t8[a];
                assert(tc[b].1 == t4[k].1);
            }
        },
    }
}

/// Whether `game` is the game of a row among `cands` that may be a top
/// game: not by correspondence, and of the top group of `ratings` or above.
pub open spec fn spec_top_game_counted(
    cands: Seq<(u128, GameRow)>,
    ratings: Option<Seq<RatingGroup>>,
    game: (Uci, GameId),
) -> bool {
    exists|row: (u128, GameRow)|
        #![trigger cands.contains(row)]
        {
            &&& cands.contains(row)
            &&& (row.1.3, row.1.4) == game
            &&& row.1.1 != Speed::Correspondence
            &&& spec_top_group(ratings) is Some && rating_group_index(row.1.0) >= rating_group_index(
                spec_top_group(ratings)->0,
            )
        }
}

/// The answer's top game at `k` is the game of a row the filter counts,
/// not by correspondence, and of the filter's top group or above.
proof fn lemma_prepared_top_game(
    cands: Seq<(u128, GameRow)>,
    ratings: Option<Seq<RatingGroup>>,
    recent_limit: nat,
    t8: Seq<(u128, GameRow)>,
    t4: Seq<(u128, GameRow)>,
    sel: Seq<(u128, GameRow)>,
    tops: Seq<(Uci, GameId)>,
    n: int,
    k: int,
)
    requires
        spec_games_chosen(cands, ratings, recent_limit, t8, t4, sel),
        0 <= n <= t4.len(),
        tops == spec_row_games(t4).take(n),
        0 <= k < tops.len(),
    ensures
        spec_top_game_counted(cands, ratings, tops[k]),
{
    lemma_top_games_chosen(cands, ratings, recent_limit, t8, t4, sel);
    assert(t4[k].1.1 != Speed::Correspondence);
    assert(tops[k] == (t4[k].1.3, t4[k].1.4));
    let j = choose|j: int| 0 <= j < cands.len() && cands[j].1 == t4[k].1;
    assert(cands.contains(cands[j]));
}

/// No correspondence game is ever among the top games of an answer: each
/// is the game of a row the filter counts, not by correspondence, and of
/// the filter's top group or above.
pub proof fn lemma_prepared_top_games(e: LichessModel, filter: LichessQueryFilter, limits: Limits, r: PreparedResponse)
    requires
        spec_lichess_prepared(e, filter, limits, r),
    ensures
        forall|k: int|
            0 <= k < r.top_games@.len() ==> #[trigger] spec_top_game_counted(
                spec_answer_games(e, filter.spec_speeds(), filter.spec_ratings(), limits),
                filter.spec_ratings(),
                r.top_games@[k],
            ),
{
    let sp = filter.spec_speeds();
    let rt = filter.spec_ratings();
    let cands = spec_answer_games(e, sp, rt, limits);
    let rl = limits.recent_games as nat;
    let (t8, t4, sel) = choose|t8: Seq<(u128, GameRow)>, t4: Seq<(u128, GameRow)>, sel: Seq<(u128, GameRow)>|
        spec_games_chosen(cands, rt, rl, t8, t4, sel)
            && r.top_games@ == spec_row_games(t4).take(
            if limits.top_games < t4.len() {
                limits.top_games as int
            } else {
                t4.len() as int
            },
        ) && r.recent_games@ == spec_row_games(sel);
    let n: int = if limits.top_games < t4.len() {
        limits.top_games as int
    } else {
        t4.len() as int
    };
    assert forall|k: int| 0 <= k < r.top_games@.len() implies #[trigger] spec_top_game_counted(
        cands,
        rt,
        r.top_games@[k],
    ) by {
        lemma_prepared_top_game(cands, rt, rl, t8, t4, sel, r.top_games@, n, k);
    }
}

} // verus!
