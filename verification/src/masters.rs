//! Statistics of the games of titled players that reached one position:
//! for each move, the counts and the games, ranked by the sum of the two
//! players' ratings; only the fifteen best games of a position are kept
//! when it is written.
use vstd::prelude::*;

use crate::buf::{le_bytes, le_value, lemma_pow256_8, Reader};
use crate::chess::{Outcome, Uci};
use crate::game_id::{spec_read_game_id, GameId, GAME_ID_LIMIT};
use crate::lichess::{
    stats_of_sums, sums_add, sums_fit, sums_le, sums_nonneg, sums_of, sums_zero, InvalidEntry,
    Sums,
};
use crate::query::Limits;
use crate::response::{
    spec_keyed_moves, spec_move_key, spec_unkeyed, unkeyed, PreparedMove, PreparedResponse,
};
use crate::stats::{
    spec_add, spec_average_rating, spec_can_add, spec_empty_stats, spec_read_stats, spec_single,
    spec_stats_bytes, spec_total, Stats,
};
use crate::uci::{spec_pack, spec_unpack, RawUciMove};
use crate::util::{is_top_selection, lemma_top_selection_from, take_best};

verus! {

broadcast use vstd::seq_lib::group_to_multiset_ensures;

/// The most games that a position keeps.
pub const MAX_MASTERS_GAMES: usize = 15;

/// A group as a value: the counts, and the games as their rank (the sum of
/// the players' ratings) and their number.
pub type MastersGroupModel = (Stats, Seq<(u16, u64)>);

/// An entry as a value: the moves and the group of each.
pub struct MastersModel {
    pub moves: Seq<u16>,
    pub groups: Seq<MastersGroupModel>,
}

/// The entry for one game: one move, its counts, and the game with its
/// rank, the sum of the ratings but at most `65535`.
pub open spec fn spec_masters_single(
    uci: Uci,
    id: GameId,
    outcome: Outcome,
    mover_rating: u16,
    opponent_rating: u16,
) -> MastersModel {
    MastersModel {
        moves: seq![spec_pack(uci)],
        groups: seq![
            (
                spec_single(outcome, mover_rating),
                seq![
                    (
                        if mover_rating + opponent_rating > 0xffff {
                            0xffffu16
                        } else {
                            (mover_rating + opponent_rating) as u16
                        },
                        id.value(),
                    ),
                ],
            ),
        ],
    }
}

pub open spec fn spec_empty_masters() -> MastersModel {
    MastersModel { moves: Seq::empty(), groups: Seq::empty() }
}

/// The entry with `uci` among its moves, appended with an empty group if
/// it was not there.
pub open spec fn spec_masters_add_move(e: MastersModel, uci: u16) -> MastersModel {
    if e.moves.contains(uci) {
        e
    } else {
        MastersModel {
            moves: e.moves.push(uci),
            groups: e.groups.push((spec_empty_stats(), Seq::empty())),
        }
    }
}

/// Reading `n` games: each a rank (two bytes, little endian) and a game
/// identifier.
pub open spec fn spec_read_masters_games(b: Seq<u8>, n: nat) -> Option<(Seq<(u16, u64)>, Seq<u8>)>
    decreases n,
{
    if n == 0 {
        Some((Seq::empty(), b))
    } else if b.len() < 2 {
        None
    } else {
        match spec_read_game_id(b.skip(2)) {
            None => None,
            Some(id) => match spec_read_masters_games(b.skip(8), (n - 1) as nat) {
                None => None,
                Some((rest, t)) => Some((seq![(le_value(b.take(2)) as u16, id)] + rest, t)),
            },
        }
    }
}

/// Merging written records into `e`: each a packed move, the counts, the
/// number of games in one byte, and the games. Nothing when the bytes are
/// not records or a count overflows.
pub open spec fn spec_extend_masters(e: MastersModel, b: Seq<u8>) -> Option<MastersModel>
    decreases b.len(),
{
    if b.len() == 0 {
        Some(e)
    } else if b.len() < 2 {
        None
    } else {
        let uci = le_value(b.take(2)) as u16;
        match spec_read_stats(b.skip(2)) {
            None => None,
            Some((s, l)) => {
                let c = b.skip((2 + l) as int);
                if c.len() == 0 {
                    None
                } else {
                    match spec_read_masters_games(c.drop_first(), c[0] as nat) {
                        None => None,
                        Some((gs, rest)) => {
                            let e1 = spec_masters_add_move(e, uci);
                            let i = crate::lichess::spec_move_pos(e1.moves, uci);
                            if !spec_can_add(e1.groups[i].0, s) || rest.len() >= b.len() {
                                None
                            } else {
                                spec_extend_masters(
                                    MastersModel {
                                        groups: e1.groups.update(
                                            i,
                                            (spec_add(e1.groups[i].0, s), e1.groups[i].1 + gs),
                                        ),
                                        ..e1
                                    },
                                    rest,
                                )
                            }
                        },
                    }
                }
            },
        }
    }
}

/// The counts and games of one move.
#[derive(Debug, Default)]
pub struct MastersGroup {
    pub stats: Stats,
    pub games: Vec<(u16, GameId)>,
}

impl View for MastersGroup {
    type V = MastersGroupModel;

    open spec fn view(&self) -> MastersGroupModel {
        (self.stats, self.games@.map_values(|p: (u16, GameId)| (p.0, p.1.value())))
    }
}

/// The statistics of one position in the games of titled players.
#[derive(Debug)]
pub struct MastersEntry {
    moves: Vec<RawUciMove>,
    groups: Vec<MastersGroup>,
}

impl View for MastersEntry {
    type V = MastersModel;

    closed spec fn view(&self) -> MastersModel {
        MastersModel {
            moves: self.moves@.map_values(|m: RawUciMove| m.0),
            groups: self.groups@.map_values(|g: MastersGroup| g@),
        }
    }
}

/// One group per move, no move twice, and only game identifiers.
pub open spec fn spec_masters_wf(e: MastersModel) -> bool {
    &&& e.groups.len() == e.moves.len()
    &&& forall|a: int, b: int| 0 <= a < b < e.moves.len() ==> e.moves[a] != e.moves[b]
    &&& forall|k: int, j: int|
        0 <= k < e.groups.len() && 0 <= j < e.groups[k].1.len() ==> #[trigger] e.groups[k].1[j].1
            < GAME_ID_LIMIT
}

impl MastersEntry {
    /// Whether the entry is well formed.
    pub open spec fn wf(&self) -> bool {
        spec_masters_wf(self@)
    }

    /// The entry without any move.
    pub fn new() -> (e: MastersEntry)
        ensures
            e@ == spec_empty_masters(),
            e.wf(),
    {
        let e = MastersEntry { moves: Vec::new(), groups: Vec::new() };
        proof {
            assert(e@.moves =~= Seq::<u16>::empty());
            assert(e@.groups =~= Seq::<MastersGroupModel>::empty());
        }
        e
    }

    /// The number of moves.
    pub fn num_moves(&self) -> (n: usize)
        ensures
            n == self@.moves.len(),
    {
        self.moves.len()
    }

    /// The group of `uci`, if the move is there.
    pub fn group(&self, uci: RawUciMove) -> (r: Option<&MastersGroup>)
        requires
            self.wf(),
        ensures
            match r {
                Some(g) => self@.moves.contains(uci.0) && g@ == self@.groups[crate::lichess::spec_move_pos(self@.moves, uci.0)],
                None => !self@.moves.contains(uci.0),
            },
    {
        let i = self.move_pos(uci);
        if i < self.moves.len() {
            Some(&self.groups[i])
        } else {
            None
        }
    }

    fn move_pos(&self, uci: RawUciMove) -> (i: usize)
        requires
            self.wf(),
        ensures
            i == crate::lichess::spec_move_pos(self@.moves, uci.0),
            i < self@.moves.len() <==> self@.moves.contains(uci.0),
            i <= self@.moves.len(),
    {
        let n = self.moves.len();
        let mut i: usize = 0;
        while i < n
            invariant
                self.wf(),
                n == self@.moves.len(),
                i <= n,
                forall|j: int| 0 <= j < i ==> self@.moves[j] != uci.0,
            decreases n - i,
        {
            if self.moves[i].0 == uci.0 {
                proof {
                    let ms = self@.moves;
                    assert(ms[i as int] == uci.0);
                    let c = choose|j: int| 0 <= j < ms.len() && ms[j] == uci.0;
                    assert(c == i);
                }
                return i;
            }
            i = i + 1;
        }
        n
    }

    fn add_move(&mut self, uci: RawUciMove) -> (i: usize)
        requires
            old(self).wf(),
        ensures
            final(self).wf(),
            final(self)@ == spec_masters_add_move(old(self)@, uci.0),
            i == crate::lichess::spec_move_pos(final(self)@.moves, uci.0),
            i < final(self)@.moves.len(),
    {
        let i = self.move_pos(uci);
        if i < self.moves.len() {
            return i;
        }
        let ghost e0 = self@;
        self.moves.push(uci);
        let g = MastersGroup { stats: Stats::from_counts(0, 0, 0, 0), games: Vec::new() };
        proof {
            assert(g.games@.map_values(|p: (u16, GameId)| (p.0, p.1.value())) =~= Seq::<(u16, u64)>::empty());
        }
        self.groups.push(g);
        proof {
            let e1 = self@;
            assert(e1.moves =~= e0.moves.push(uci.0));
            assert(e1.groups =~= e0.groups.push((spec_empty_stats(), Seq::empty())));
            let c = choose|x: int| 0 <= x < e1.moves.len() && e1.moves[x] == uci.0;
            assert(e1.moves[i as int] == uci.0);
            assert(c == i as int);
            assert forall|k: int, j: int|
                0 <= k < e1.groups.len() && 0 <= j < e1.groups[k].1.len() implies #[trigger] e1.groups[k].1[j].1
                < GAME_ID_LIMIT by {
                assert(k < e0.groups.len());
                assert(e1.groups[k] == e0.groups[k]);
            }
        }
        i
    }

    /// Reads the games of one record.
    #[verifier::loop_isolation(false)]
    fn read_games(reader: &mut Reader, n: u8) -> (r: Option<Vec<(u16, GameId)>>)
        ensures
            match spec_read_masters_games(old(reader)@, n as nat) {
                None => r is None,
                Some((gs, rest)) => r matches Some(v) && v@.map_values(
                    |p: (u16, GameId)| (p.0, p.1.value()),
                ) == gs && final(reader)@ == rest && rest.len() <= old(reader)@.len() && (forall|j: int|
                    0 <= j < v@.len() ==> #[trigger] v@[j].1.wf()),
            },
    {
        let ghost b0 = reader@;
        let mut out: Vec<(u16, GameId)> = Vec::new();
        let mut left: u8 = n;
        while left > 0
            invariant
                match spec_read_masters_games(b0, n as nat) {
                    None => spec_read_masters_games(reader@, left as nat) is None,
                    Some((gs, rest)) => spec_read_masters_games(reader@, left as nat) matches Some((
                        gs2,
                        rest2,
                    )) && rest2 == rest && gs == out@.map_values(
                        |p: (u16, GameId)| (p.0, p.1.value()),
                    ) + gs2,
                },
                forall|j: int| 0 <= j < out@.len() ==> #[trigger] out@[j].1.wf(),
                reader@.len() <= b0.len(),
            decreases left,
        {
            let ghost b = reader@;
            proof {
                lemma_pow256_8();
            }
            let key = match reader.read_uint_le(2) {
                Some(k) => k as u16,
                None => {
                    proof {
                        assert(spec_read_masters_games(b, left as nat) is None);
                    }
                    return None;
                },
            };
            let id = match GameId::read(reader) {
                Some(id) => id,
                None => {
                    proof {
                        assert(spec_read_masters_games(b, left as nat) is None);
                    }
                    return None;
                },
            };
            proof {
                assert(b.skip(2).skip(6) =~= b.skip(8));
                let ghost before = out@.map_values(|p: (u16, GameId)| (p.0, p.1.value()));
            }
            let ghost before = out@;
            out.push((key, id));
            proof {
                assert(out@.map_values(|p: (u16, GameId)| (p.0, p.1.value())) =~= before.map_values(
                    |p: (u16, GameId)| (p.0, p.1.value()),
                ).push((key, id.value())));
                if let Some((gs, rest)) = spec_read_masters_games(b0, n as nat) {
                    let (gs2, rest2) = spec_read_masters_games(b, left as nat).unwrap();
                    assert(gs2 =~= seq![(key, id.value())] + spec_read_masters_games(
                        reader@,
                        (left - 1) as nat,
                    ).unwrap().0);
                    assert(gs =~= out@.map_values(|p: (u16, GameId)| (p.0, p.1.value()))
                        + spec_read_masters_games(reader@, (left - 1) as nat).unwrap().0);
                }
            }
            left = left - 1;
        }
        proof {
            if let Some((gs, rest)) = spec_read_masters_games(b0, n as nat) {
                assert(gs =~= out@.map_values(|p: (u16, GameId)| (p.0, p.1.value())));
            }
        }
        Some(out)
    }

    /// Merges the written records that remain in `reader`: each move's
    /// counts are added to those of the same move and its games appended.
    /// Fails when the bytes are not records or a count overflows; the entry
    /// is then left with part of the bytes merged.
    #[verifier::loop_isolation(false)]
    pub fn extend_from_reader(&mut self, reader: &mut Reader) -> (r: Result<(), InvalidEntry>)
        requires
            old(self).wf(),
        ensures
            final(self).wf(),
            match spec_extend_masters(old(self)@, old(reader)@) {
                None => r is Err,
                Some(e) => r is Ok && final(self)@ == e,
            },
    {
        let ghost e0 = self@;
        let ghost b0 = reader@;
        while reader.has_remaining()
            invariant
                self.wf(),
                spec_extend_masters(self@, reader@) == spec_extend_masters(e0, b0),
            decreases reader@.len(),
        {
            let ghost b = reader@;
            let uci = match RawUciMove::read(reader) {
                Some(uci) => uci,
                None => return Err(InvalidEntry),
            };
            let s = match Stats::read(reader) {
                Some(s) => s,
                None => return Err(InvalidEntry),
            };
            proof {
                crate::stats::lemma_read_stats_len(b.skip(2));
                let l = spec_read_stats(b.skip(2)).unwrap().1;
                crate::uint::lemma_skip_skip(b, 2, l);
            }
            let ghost c = reader@;
            let n = match reader.read_u8() {
                Some(n) => n,
                None => return Err(InvalidEntry),
            };
            let games = match MastersEntry::read_games(reader, n) {
                Some(g) => g,
                None => return Err(InvalidEntry),
            };
            let ghost gs = games@.map_values(|p: (u16, GameId)| (p.0, p.1.value()));
            let i = self.add_move(uci);
            if !self.groups[i].stats.can_add(&s) {
                return Err(InvalidEntry);
            }
            self.append_group(i, &s, games);
        }
        Ok(())
    }

    fn append_group(&mut self, i: usize, s: &Stats, games: Vec<(u16, GameId)>)
        requires
            old(self).wf(),
            i < old(self)@.groups.len(),
            spec_can_add(old(self)@.groups[i as int].0, *s),
            forall|j: int| 0 <= j < games@.len() ==> #[trigger] games@[j].1.wf(),
        ensures
            final(self).wf(),
            final(self)@ == (MastersModel {
                groups: old(self)@.groups.update(
                    i as int,
                    (
                        spec_add(old(self)@.groups[i as int].0, *s),
                        old(self)@.groups[i as int].1 + games@.map_values(
                            |p: (u16, GameId)| (p.0, p.1.value()),
                        ),
                    ),
                ),
                ..old(self)@
            }),
    {
        let ghost e0 = self@;
        let ghost g0 = self.groups@;
        let ghost gv = games@;
        self.groups[i].stats.add_assign(s);
        let mut games = games;
        self.groups[i].games.append(&mut games);
        proof {
            let g1 = self.groups@;
            assert(g1[i as int].games@.map_values(|p: (u16, GameId)| (p.0, p.1.value())) =~= g0[i as int].games@.map_values(
                |p: (u16, GameId)| (p.0, p.1.value()),
            ) + gv.map_values(|p: (u16, GameId)| (p.0, p.1.value())));
            let e1 = self@;
            assert(e1.groups =~= e0.groups.update(
                i as int,
                (
                    spec_add(e0.groups[i as int].0, *s),
                    e0.groups[i as int].1 + gv.map_values(
                        |p: (u16, GameId)| (p.0, p.1.value()),
                    ),
                ),
            ));
            assert(e1.moves =~= e0.moves);
            assert forall|k: int, j: int|
                0 <= k < e1.groups.len() && 0 <= j < e1.groups[k].1.len() implies #[trigger] e1.groups[k].1[j].1
                < GAME_ID_LIMIT by {
                if k == i && j >= e0.groups[k].1.len() {
                    assert(gv[j - e0.groups[k].1.len()].1.wf());
                    assert(e1.groups[k].1[j] == (
                        gv[j - e0.groups[k].1.len()].0,
                        gv[j - e0.groups[k].1.len()].1.value(),
                    ));
                }
            }
        }
    }

    /// The entry for one game: `uci` played in the game `id` with `outcome`,
    /// by a player rated `mover_rating` against one rated `opponent_rating`.
    /// The game's rank is the sum of the ratings, at most `65535`.
    pub fn new_single(
        uci: Uci,
        id: GameId,
        outcome: Outcome,
        mover_rating: u16,
        opponent_rating: u16,
    ) -> (e: MastersEntry)
        requires
            id.wf(),
        ensures
            e.wf(),
            e@ == spec_masters_single(uci, id, outcome, mover_rating, opponent_rating),
            e@.moves == seq![spec_pack(uci)],
            e@.groups == seq![
                (
                    spec_single(outcome, mover_rating),
                    seq![
                        (
                            if mover_rating + opponent_rating > 0xffff {
                                0xffffu16
                            } else {
                                (mover_rating + opponent_rating) as u16
                            },
                            id.value(),
                        ),
                    ],
                ),
            ],
    {
        let mut e = MastersEntry::new();
        let raw = RawUciMove::from_uci(uci);
        let i = e.add_move(raw);
        let s = Stats::new_single(outcome, mover_rating);
        let rank: u16 = if mover_rating as u32 + opponent_rating as u32 > 0xffff {
            0xffff
        } else {
            mover_rating + opponent_rating
        };
        let mut games: Vec<(u16, GameId)> = Vec::new();
        games.push((rank, id));
        proof {
            crate::stats::lemma_add_empty(s);
            assert(games@.map_values(|p: (u16, GameId)| (p.0, p.1.value())) =~= seq![(rank, id.value())]);
            assert(e@.groups[i as int] == (spec_empty_stats(), Seq::<(u16, u64)>::empty()));
        }
        e.append_group(i, &s, games);
        proof {
            assert(e@.groups =~= seq![(spec_single(outcome, mover_rating), seq![(rank, id.value())])]);
        }
        e
    }
}


/// The key that games are ranked by: their rank, then their number.
pub open spec fn spec_masters_key(g: (u16, u64)) -> u128 {
    (g.0 as int * 0x1_0000_0000_0000_0000 + g.1) as u128
}

/// The keys of the games of the groups before `i`.
pub open spec fn spec_masters_keys(groups: Seq<MastersGroupModel>, i: int) -> Seq<(u128, ())>
    decreases i,
{
    if i <= 0 {
        Seq::empty()
    } else {
        spec_masters_keys(groups, i - 1) + groups[i - 1].1.map_values(
            |g: (u16, u64)| (spec_masters_key(g), ()),
        )
    }
}

/// `t` is the key of the lowest game that is kept: the fifteenth highest
/// key when there are more than fifteen games, else the lowest key.
pub open spec fn spec_masters_threshold(keys: Seq<(u128, ())>, t: u128) -> bool {
    if keys.len() > 15 {
        exists|sel: Seq<(u128, ())>| is_top_selection(keys, sel, 15) && sel[14].0 == t
    } else {
        &&& keys.len() > 0
        &&& forall|i: int| 0 <= i < keys.len() ==> t <= #[trigger] keys[i].0
        &&& exists|i: int| 0 <= i < keys.len() && keys[i].0 == t
    }
}

/// The games whose key is at least `t`.
pub open spec fn spec_games_from(games: Seq<(u16, u64)>, t: u128) -> Seq<(u16, u64)>
    decreases games.len(),
{
    if games.len() == 0 {
        Seq::empty()
    } else {
        spec_games_from(games.drop_last(), t) + if spec_masters_key(games.last()) >= t {
            seq![games.last()]
        } else {
            Seq::empty()
        }
    }
}

/// The games that a group keeps when written: its only game, or those from
/// the lowest kept key up.
pub open spec fn spec_masters_kept(games: Seq<(u16, u64)>, t: u128) -> Seq<(u16, u64)> {
    if games.len() == 1 {
        games
    } else {
        spec_games_from(games, t)
    }
}

/// The written form of games: each rank (two bytes, little endian) and
/// game identifier.
pub open spec fn spec_masters_games_bytes(games: Seq<(u16, u64)>) -> Seq<u8>
    decreases games.len(),
{
    if games.len() == 0 {
        Seq::empty()
    } else {
        le_bytes(games[0].0 as nat, 2) + le_bytes(games[0].1 as nat, 6) + spec_masters_games_bytes(
            games.drop_first(),
        )
    }
}

/// The written form of the record of the move at position `i`: the packed
/// move, the counts, the number of kept games in one byte (modulo 256) and
/// the kept games.
pub open spec fn spec_masters_record(e: MastersModel, i: int, t: u128) -> Seq<u8> {
    let kept = spec_masters_kept(e.groups[i].1, t);
    le_bytes(e.moves[i] as nat, 2) + spec_stats_bytes(e.groups[i].0) + seq![
        (kept.len() % 256) as u8,
    ] + spec_masters_games_bytes(kept)
}

/// The written form of the records from position `i` on.
pub open spec fn spec_masters_records(e: MastersModel, i: int, t: u128) -> Seq<u8>
    decreases e.moves.len() - i,
{
    if i < 0 || i >= e.moves.len() {
        Seq::empty()
    } else {
        spec_masters_record(e, i, t) + spec_masters_records(e, i + 1, t)
    }
}

/// Every count of white wins can be written.
pub open spec fn spec_masters_writable(e: MastersModel) -> bool {
    forall|k: int| 0 <= k < e.groups.len() ==> #[trigger] e.groups[k].0.white + 3 <= u64::MAX
}

/// Whether `b` is the written form of `e`: nothing without games, else
/// each move with its counts and the games ranked above the threshold of
/// the fifteen best.
pub open spec fn spec_masters_written(e: MastersModel, b: Seq<u8>) -> bool {
    let keys = spec_masters_keys(e.groups, e.groups.len() as int);
    &&& keys.len() == 0 ==> b.len() == 0
    &&& keys.len() > 0 ==> exists|t: u128| spec_masters_threshold(keys, t) && b == spec_masters_records(e, 0, t)
}

impl MastersEntry {
    /// The keys of all games.
    fn all_keys(&self) -> (r: Vec<(u128, ())>)
        ensures
            r@ == spec_masters_keys(self@.groups, self@.groups.len() as int),
    {
        let ghost e = self@;
        let mut out: Vec<(u128, ())> = Vec::new();
        let mut i: usize = 0;
        while i < self.groups.len()
            invariant
                e == self@,
                i <= e.groups.len(),
                out@ == spec_masters_keys(e.groups, i as int),
            decreases e.groups.len() - i,
        {
            let g = &self.groups[i];
            assert(g@ == e.groups[i as int]);
            let ghost before = out@;
            let mut x: usize = 0;
            while x < g.games.len()
                invariant
                    g@ == e.groups[i as int],
                    x <= g.games@.len(),
                    out@ == before + e.groups[i as int].1.take(x as int).map_values(
                        |h: (u16, u64)| (spec_masters_key(h), ()),
                    ),
                decreases g.games@.len() - x,
            {
                let (rank, id) = g.games[x];
                let key: u128 = rank as u128 * 0x1_0000_0000_0000_0000 + id.to_u64() as u128;
                out.push((key, ()));
                proof {
                    assert(e.groups[i as int].1[x as int] == (rank, id.value()));
                    assert(out@ =~= before + e.groups[i as int].1.take(x + 1).map_values(
                        |h: (u16, u64)| (spec_masters_key(h), ()),
                    ));
                }
                x = x + 1;
            }
            proof {
                assert(e.groups[i as int].1.take(x as int) =~= e.groups[i as int].1);
            }
            i = i + 1;
        }
        out
    }

    /// The key of the lowest game that is kept.
    fn threshold(keys: Vec<(u128, ())>) -> (t: u128)
        requires
            keys@.len() > 0,
        ensures
            spec_masters_threshold(keys@, t),
    {
        if keys.len() > MAX_MASTERS_GAMES {
            let ghost kv = keys@;
            let sel = take_best(keys, MAX_MASTERS_GAMES);
            let t = sel[14].0;
            proof {
                assert(is_top_selection(kv, sel@, 15) && sel@[14].0 == t);
            }
            t
        } else {
            let mut t = keys[0].0;
            let mut w: usize = 0;
            let mut i: usize = 1;
            while i < keys.len()
                invariant
                    keys@.len() > 0,
                    i <= keys@.len(),
                    w < i,
                    keys@[w as int].0 == t,
                    forall|j: int| 0 <= j < i ==> t <= #[trigger] keys@[j].0,
                decreases keys@.len() - i,
            {
                if keys[i].0 < t {
                    t = keys[i].0;
                    w = i;
                }
                i = i + 1;
            }
            t
        }
    }

    /// Appends the written form: nothing when there is no game; else, for
    /// each move, its packed form, its counts and its kept games, with
    /// their number in one byte. A move keeps its only game, or else its
    /// games from the fifteenth highest key of the position's games up.
    pub fn write(&self, buf: &mut Vec<u8>)
        requires
            self.wf(),
            spec_masters_writable(self@),
        ensures
            spec_masters_keys(self@.groups, self@.groups.len() as int).len() == 0 ==> final(buf)@
                == old(buf)@,
            spec_masters_keys(self@.groups, self@.groups.len() as int).len() > 0 ==> exists|t: u128|
                spec_masters_threshold(spec_masters_keys(self@.groups, self@.groups.len() as int), t)
                    && final(buf)@ == old(buf)@ + spec_masters_records(self@, 0, t),
    {
        let ghost e = self@;
        let keys = self.all_keys();
        if keys.len() == 0 {
            return ;
        }
        let ghost kv = keys@;
        let t = MastersEntry::threshold(keys);
        let n = self.moves.len();
        let mut i: usize = 0;
        while i < n
            invariant
                e == self@,
                self.wf(),
                spec_masters_writable(e),
                n == e.moves.len(),
                i <= n,
                buf@ + spec_masters_records(e, i as int, t) == old(buf)@ + spec_masters_records(e, 0, t),
            decreases n - i,
        {
            let ghost start = buf@;
            self.moves[i].write(buf);
            let g = &self.groups[i];
            assert(g@ == e.groups[i as int]);
            g.stats.write(buf);
            let kept = kept_games(g, t);
            buf.push((kept.len() % 256) as u8);
            let mut x: usize = 0;
            let ghost before = buf@;
            proof {
                assert(kept@.map_values(|p: (u16, GameId)| (p.0, p.1.value())).skip(0) =~= kept@.map_values(|p: (u16, GameId)| (p.0, p.1.value())));
            }
            while x < kept.len()
                invariant
                    x <= kept@.len(),
                    buf@ + spec_masters_games_bytes(kept@.map_values(|p: (u16, GameId)| (p.0, p.1.value())).skip(x as int)) == before + spec_masters_games_bytes(kept@.map_values(|p: (u16, GameId)| (p.0, p.1.value()))),
                decreases kept@.len() - x,
            {
                let ghost kv2 = kept@.map_values(|p: (u16, GameId)| (p.0, p.1.value()));
                let ghost b1 = buf@;
                let (rank, id) = kept[x];
                crate::buf::put_uint_le(buf, rank as u64, 2);
                id.write(buf);
                proof {
                    let rest = kv2.skip(x as int);
                    assert(rest[0] == (rank, id.value()));
                    assert(rest.drop_first() =~= kv2.skip(x + 1));
                    assert(buf@ + spec_masters_games_bytes(kv2.skip(x + 1)) =~= b1 + spec_masters_games_bytes(rest));
                }
                x = x + 1;
            }
            proof {
                let kv2 = kept@.map_values(|p: (u16, GameId)| (p.0, p.1.value()));
                assert(kv2.skip(x as int) =~= Seq::<(u16, u64)>::empty());
                assert(buf@ =~= start + spec_masters_record(e, i as int, t));
                assert(buf@ + spec_masters_records(e, i + 1, t) =~= start + spec_masters_records(e, i as int, t));
            }
            i = i + 1;
        }
    }
}

/// The games of a group that it keeps when written.
fn kept_games(g: &MastersGroup, t: u128) -> (r: Vec<(u16, GameId)>)
    ensures
        r@.map_values(|p: (u16, GameId)| (p.0, p.1.value())) == spec_masters_kept(g@.1, t),
{
    let ghost gs = g@.1;
    if g.games.len() == 1 {
        let mut r: Vec<(u16, GameId)> = Vec::new();
        r.push(g.games[0]);
        proof {
            assert(r@.map_values(|p: (u16, GameId)| (p.0, p.1.value())) =~= gs);
        }
        return r;
    }
    let mut r: Vec<(u16, GameId)> = Vec::new();
    let mut x: usize = 0;
    while x < g.games.len()
        invariant
            gs == g@.1,
            x <= g.games@.len(),
            r@.map_values(|p: (u16, GameId)| (p.0, p.1.value())) == spec_games_from(gs.take(x as int), t),
        decreases g.games@.len() - x,
    {
        let (rank, id) = g.games[x];
        let key: u128 = rank as u128 * 0x1_0000_0000_0000_0000 + id.to_u64() as u128;
        let ghost before = r@;
        proof {
            assert(gs[x as int] == (rank, id.value()));
            assert(gs.take(x + 1).drop_last() =~= gs.take(x as int));
            assert(gs.take(x + 1).last() == (rank, id.value()));
        }
        if key >= t {
            r.push((rank, id));
            proof {
                assert(r@.map_values(|p: (u16, GameId)| (p.0, p.1.value())) =~= before.map_values(|p: (u16, GameId)| (p.0, p.1.value())).push((rank, id.value())));
            }
        }
        x = x + 1;
    }
    proof {
        assert(gs.take(x as int) =~= gs);
    }
    r
}


/// The counts of the groups before `i`.
pub open spec fn spec_masters_sum(groups: Seq<MastersGroupModel>, i: int) -> Sums
    decreases i,
{
    if i <= 0 {
        sums_zero()
    } else {
        sums_add(spec_masters_sum(groups, i - 1), sums_of(groups[i - 1].0))
    }
}

proof fn lemma_masters_sum_mono(groups: Seq<MastersGroupModel>, i: int, j: int)
    requires
        0 <= i <= j,
    ensures
        sums_nonneg(spec_masters_sum(groups, i)),
        sums_le(spec_masters_sum(groups, i), spec_masters_sum(groups, j)),
    decreases j,
{
    if j > i {
        lemma_masters_sum_mono(groups, i, j - 1);
    } else if i > 0 {
        lemma_masters_sum_mono(groups, i - 1, i - 1);
    }
}

/// The row of the move at position `i`: its counts, their average rating,
/// and its first game when it was played in exactly one game.
pub open spec fn spec_masters_row(e: MastersModel, i: int) -> PreparedMove {
    let st = e.groups[i].0;
    PreparedMove {
        uci: spec_unpack(e.moves[i]),
        stats: st,
        game: if spec_total(st) == 1 && e.groups[i].1.len() > 0 {
            Some(GameId::spec_from(e.groups[i].1[0].1))
        } else {
            None
        },
        average_rating: spec_average_rating(st),
        average_opponent_rating: None,
        performance: None,
    }
}

/// The rows of the moves before position `i`, keyed by their number of
/// games.
pub open spec fn spec_masters_rows(e: MastersModel, i: int) -> Seq<(u128, PreparedMove)>
    decreases i,
{
    if i <= 0 {
        Seq::empty()
    } else {
        spec_masters_rows(e, i - 1) + seq![
            (spec_move_key(spec_masters_row(e, i - 1)), spec_masters_row(e, i - 1)),
        ]
    }
}

/// The games of the moves before position `i`, keyed by their rank.
pub open spec fn spec_masters_game_rows(e: MastersModel, i: int) -> Seq<(u128, (Uci, GameId))>
    decreases i,
{
    if i <= 0 {
        Seq::empty()
    } else {
        spec_masters_game_rows(e, i - 1) + e.groups[i - 1].1.map_values(
            |g: (u16, u64)| (g.0 as u128, (spec_unpack(e.moves[i - 1]), GameId::spec_from(g.1))),
        )
    }
}

impl MastersEntry {
    /// The answer for the position: the counts of all moves, a row for each
    /// move (the most played first, at most `limits.moves`), and the best
    /// ranked games, at most fifteen and at most `limits.top_games`.
    pub fn prepare(self, limits: &Limits) -> (r: PreparedResponse)
        requires
            self.wf(),
            sums_fit(spec_masters_sum(self@.groups, self@.groups.len() as int)),
        ensures
            r.total == stats_of_sums(spec_masters_sum(self@.groups, self@.groups.len() as int)),
            exists|sel: Seq<(u128, PreparedMove)>|
                is_top_selection(spec_masters_rows(self@, self@.moves.len() as int), sel, limits.moves as nat)
                    && r.moves@ == spec_unkeyed(sel),
            exists|sel: Seq<(u128, (Uci, GameId))>|
                is_top_selection(
                    spec_masters_game_rows(self@, self@.moves.len() as int),
                    sel,
                    if limits.top_games < 15 {
                        limits.top_games as nat
                    } else {
                        15
                    },
                ) && r.top_games@ == spec_unkeyed(sel),
            r.recent_games@.len() == 0,
    {
        let ghost e = self@;
        let n = self.moves.len();
        let mut total = Stats::from_counts(0, 0, 0, 0);
        let mut rows: Vec<(u128, PreparedMove)> = Vec::new();
        let mut games: Vec<(u128, (Uci, GameId))> = Vec::new();
        let mut i: usize = 0;
        while i < n
            invariant
                e == self@,
                self.wf(),
                n == e.moves.len(),
                sums_fit(spec_masters_sum(e.groups, e.groups.len() as int)),
                i <= n,
                total == stats_of_sums(spec_masters_sum(e.groups, i as int)),
                rows@ == spec_masters_rows(e, i as int),
                games@ == spec_masters_game_rows(e, i as int),
            decreases n - i,
        {
            let g = &self.groups[i];
            assert(g@ == e.groups[i as int]);
            let uci = self.moves[i].to_uci();
            assert(e.moves[i as int] == self.moves@[i as int].0);
            proof {
                lemma_masters_sum_mono(e.groups, i + 1, e.groups.len() as int);
                lemma_masters_sum_mono(e.groups, i as int, i as int);
            }
            total.add_assign(&g.stats);
            let game = if g.stats.is_single() && g.games.len() > 0 {
                Some(g.games[0].1)
            } else {
                None
            };
            proof {
                if g.games@.len() > 0 {
                    GameId::lemma_from_value(g.games@[0].1);
                }
            }
            let row = PreparedMove {
                uci,
                stats: g.stats,
                game,
                average_rating: g.stats.average_rating(),
                average_opponent_rating: None,
                performance: None,
            };
            let key: u128 = g.stats.white as u128 + g.stats.draws as u128 + g.stats.black as u128;
            rows.push((key, row));
            let ghost before = games@;
            let mut x: usize = 0;
            while x < g.games.len()
                invariant
                    g@ == e.groups[i as int],
                    uci == spec_unpack(e.moves[i as int]),
                    x <= g.games@.len(),
                    games@ == before + e.groups[i as int].1.take(x as int).map_values(
                        |h: (u16, u64)| (h.0 as u128, (spec_unpack(e.moves[i as int]), GameId::spec_from(h.1))),
                    ),
                decreases g.games@.len() - x,
            {
                let (rank, id) = g.games[x];
                games.push((rank as u128, (uci, id)));
                proof {
                    assert(e.groups[i as int].1[x as int] == (rank, id.value()));
                    GameId::lemma_from_value(id);
                    assert(games@ =~= before + e.groups[i as int].1.take(x + 1).map_values(
                        |h: (u16, u64)| (h.0 as u128, (spec_unpack(e.moves[i as int]), GameId::spec_from(h.1))),
                    ));
                }
                x = x + 1;
            }
            proof {
                assert(e.groups[i as int].1.take(x as int) =~= e.groups[i as int].1);
                assert(rows@ =~= spec_masters_rows(e, i + 1));
            }
            i = i + 1;
        }
        let top_limit = if limits.top_games < MAX_MASTERS_GAMES {
            limits.top_games
        } else {
            MAX_MASTERS_GAMES
        };
        let best_games = take_best(games, top_limit);
        let ghost bg = best_games@;
        let best_moves = take_best(rows, limits.moves);
        let ghost bm = best_moves@;
        let r = PreparedResponse {
            total,
            moves: unkeyed(best_moves),
            recent_games: Vec::new(),
            top_games: unkeyed(best_games),
        };
        proof {
            assert(is_top_selection(spec_masters_rows(e, e.moves.len() as int), bm, limits.moves as nat));
            assert(is_top_selection(spec_masters_game_rows(e, e.moves.len() as int), bg, top_limit as nat));
        }
        r
    }
}


proof fn lemma_masters_games_roundtrip(games: Seq<(u16, u64)>, t: Seq<u8>)
    requires
        forall|j: int| 0 <= j < games.len() ==> #[trigger] games[j].1 < GAME_ID_LIMIT,
    ensures
        spec_read_masters_games(spec_masters_games_bytes(games) + t, games.len()) == Some((games, t)),
    decreases games.len(),
{
    if games.len() == 0 {
        assert(spec_masters_games_bytes(games) + t =~= t);
        assert(games =~= Seq::<(u16, u64)>::empty());
    } else {
        let rb = le_bytes(games[0].0 as nat, 2);
        let ib = le_bytes(games[0].1 as nat, 6);
        let tail = spec_masters_games_bytes(games.drop_first()) + t;
        let b = spec_masters_games_bytes(games) + t;
        assert(b =~= rb + (ib + tail));
        crate::buf::lemma_le_roundtrip(games[0].0 as nat, 2);
        lemma_pow256_8();
        assert(b.take(2) =~= rb);
        assert(b.skip(2) =~= ib + tail);
        GameId::lemma_value(games[0].1);
        crate::game_id::lemma_game_id_bytes_roundtrip(GameId::spec_from(games[0].1), tail);
        assert(b.skip(8) =~= tail);
        assert forall|j: int| 0 <= j < games.drop_first().len() implies #[trigger] games.drop_first()[j].1
            < GAME_ID_LIMIT by {
            assert(games.drop_first()[j] == games[j + 1]);
        }
        lemma_masters_games_roundtrip(games.drop_first(), t);
        assert(seq![(le_value(b.take(2)) as u16, games[0].1)] + games.drop_first() =~= games);
    }
}

proof fn lemma_games_from_all(games: Seq<(u16, u64)>, t: u128)
    requires
        forall|j: int| 0 <= j < games.len() ==> t <= spec_masters_key(#[trigger] games[j]),
    ensures
        spec_games_from(games, t) == games,
    decreases games.len(),
{
    if games.len() > 0 {
        assert forall|j: int| 0 <= j < games.drop_last().len() implies t <= spec_masters_key(
            #[trigger] games.drop_last()[j],
        ) by {
            assert(games.drop_last()[j] == games[j]);
        }
        lemma_games_from_all(games.drop_last(), t);
        assert(games.drop_last().push(games.last()) =~= games);
    }
}

proof fn lemma_keys_contain(groups: Seq<MastersGroupModel>, n: int, i: int, j: int)
    requires
        0 <= i < n <= groups.len(),
        0 <= j < groups[i].1.len(),
    ensures
        exists|p: int|
            0 <= p < spec_masters_keys(groups, n).len() && #[trigger] spec_masters_keys(groups, n)[p]
                == (spec_masters_key(groups[i].1[j]), ()),
    decreases n,
{
    let prev = spec_masters_keys(groups, n - 1);
    let last = groups[n - 1].1.map_values(|g: (u16, u64)| (spec_masters_key(g), ()));
    if i < n - 1 {
        lemma_keys_contain(groups, n - 1, i, j);
        let p = choose|p: int| 0 <= p < prev.len() && #[trigger] prev[p] == (spec_masters_key(groups[i].1[j]), ());
        assert(spec_masters_keys(groups, n)[p] == prev[p]);
    } else {
        assert(spec_masters_keys(groups, n)[prev.len() + j] == last[j]);
    }
}

#[verifier::rlimit(100)]
#[verifier::spinoff_prover]
proof fn lemma_masters_records_roundtrip(e: MastersModel, i: int, t: u128, cur: MastersModel)
    requires
        spec_masters_wf(e),
        spec_masters_writable(e),
        0 <= i <= e.moves.len(),
        forall|k: int, j: int|
            0 <= k < e.groups.len() && 0 <= j < e.groups[k].1.len() ==> t <= spec_masters_key(
                #[trigger] e.groups[k].1[j],
            ),
        forall|k: int| 0 <= k < e.groups.len() ==> #[trigger] e.groups[k].1.len() < 256,
        cur.moves == e.moves.take(i),
        cur.groups == e.groups.take(i),
    ensures
        spec_extend_masters(cur, spec_masters_records(e, i, t)) == Some(e),
    decreases e.moves.len() - i,
{
    let n = e.moves.len() as int;
    if i == n {
        assert(cur.moves =~= e.moves);
        assert(cur.groups =~= e.groups);
        assert(spec_masters_records(e, i, t) =~= Seq::<u8>::empty());
    } else {
        let uci = e.moves[i];
        let g = e.groups[i];
        assert forall|j: int| 0 <= j < g.1.len() implies t <= spec_masters_key(#[trigger] g.1[j]) by {
            assert(e.groups[i].1[j] == g.1[j]);
        }
        lemma_games_from_all(g.1, t);
        let kept = spec_masters_kept(g.1, t);
        assert(kept == g.1);
        let ub = le_bytes(uci as nat, 2);
        let sb = spec_stats_bytes(g.0);
        let gb = spec_masters_games_bytes(g.1);
        let rest = spec_masters_records(e, i + 1, t);
        let b = spec_masters_records(e, i, t);
        assert(b =~= ub + (sb + (seq![(g.1.len() % 256) as u8] + (gb + rest))));
        crate::buf::lemma_le_roundtrip(uci as nat, 2);
        lemma_pow256_8();
        assert(b.take(2) =~= ub);
        assert(b.skip(2) =~= sb + (seq![(g.1.len() % 256) as u8] + (gb + rest)));
        crate::stats::lemma_stats_roundtrip(g.0, seq![(g.1.len() % 256) as u8] + (gb + rest));
        let c = b.skip((2 + sb.len()) as int);
        assert(c =~= seq![(g.1.len() % 256) as u8] + (gb + rest));
        assert(c.drop_first() =~= gb + rest);
        assert forall|j: int| 0 <= j < g.1.len() implies #[trigger] g.1[j].1 < GAME_ID_LIMIT by {
            assert(e.groups[i].1[j] == g.1[j]);
        }
        lemma_masters_games_roundtrip(g.1, rest);
        assert(!cur.moves.contains(uci)) by {
            if cur.moves.contains(uci) {
                let x = choose|x: int| 0 <= x < cur.moves.len() && cur.moves[x] == uci;
                assert(e.moves[x] == e.moves[i]);
            }
        }
        let e1 = spec_masters_add_move(cur, uci);
        assert(e1.moves =~= e.moves.take(i + 1));
        assert(e1.moves[i] == uci);
        let c2 = choose|x: int| 0 <= x < e1.moves.len() && e1.moves[x] == uci;
        assert(c2 == i);
        crate::stats::lemma_add_empty(g.0);
        let e2 = MastersModel {
            groups: e1.groups.update(i, (spec_add(e1.groups[i].0, g.0), e1.groups[i].1 + g.1)),
            ..e1
        };
        assert(e1.groups[i].1 + g.1 =~= g.1);
        assert(e2.groups =~= e.groups.take(i + 1));
        lemma_masters_records_roundtrip(e, i + 1, t, e2);
    }
}

/// A position with at most fifteen games (and at least one) loses nothing
/// when written: reading back what was written gives the same entry.
pub proof fn lemma_masters_write_read(e: MastersModel, t: u128)
    requires
        spec_masters_wf(e),
        spec_masters_writable(e),
        spec_masters_keys(e.groups, e.groups.len() as int).len() <= 15,
        spec_masters_threshold(spec_masters_keys(e.groups, e.groups.len() as int), t),
    ensures
        spec_extend_masters(spec_empty_masters(), spec_masters_records(e, 0, t)) == Some(e),
{
    let keys = spec_masters_keys(e.groups, e.groups.len() as int);
    assert forall|k: int, j: int|
        0 <= k < e.groups.len() && 0 <= j < e.groups[k].1.len() implies t <= spec_masters_key(
        #[trigger] e.groups[k].1[j],
    ) by {
        lemma_keys_contain(e.groups, e.groups.len() as int, k, j);
        let p = choose|p: int| 0 <= p < keys.len() && #[trigger] keys[p] == (spec_masters_key(e.groups[k].1[j]), ());
        assert(t <= keys[p].0);
    }
    assert forall|k: int| 0 <= k < e.groups.len() implies #[trigger] e.groups[k].1.len() < 256 by {
        lemma_keys_len(e.groups, e.groups.len() as int, k);
    }
    let cur = spec_empty_masters();
    assert(cur.moves =~= e.moves.take(0));
    assert(cur.groups =~= e.groups.take(0));
    lemma_masters_records_roundtrip(e, 0, t, cur);
}

proof fn lemma_keys_len(groups: Seq<MastersGroupModel>, n: int, k: int)
    requires
        0 <= k < n <= groups.len(),
    ensures
        groups[k].1.len() <= spec_masters_keys(groups, n).len(),
    decreases n,
{
    if k < n - 1 {
        lemma_keys_len(groups, n - 1, k);
    }
}


impl MastersEntry {
    /// Whether the counts of all groups together fit in 64 bits.
    pub fn sums_fit(&self) -> (b: bool)
        ensures
            b == sums_fit(spec_masters_sum(self@.groups, self@.groups.len() as int)),
    {
        let ghost gs = self@.groups;
        let n = self.groups.len();
        let mut a: (u64, u64, u64, u64) = (0, 0, 0, 0);
        let mut k: usize = 0;
        while k < n
            invariant
                k <= n,
                n == gs.len(),
                gs == self@.groups,
                (a.0 as int, a.1 as int, a.2 as int, a.3 as int) == spec_masters_sum(gs, k as int),
            decreases n - k,
        {
            let s = self.groups[k].stats;
            proof {
                assert(gs[k as int] == self.groups@[k as int]@);
            }
            let t0 = a.0 as u128 + s.rating_sum as u128;
            let t1 = a.1 as u128 + s.white as u128;
            let t2 = a.2 as u128 + s.draws as u128;
            let t3 = a.3 as u128 + s.black as u128;
            if t0 > u64::MAX as u128 || t1 > u64::MAX as u128 || t2 > u64::MAX as u128 || t3 > u64::MAX as u128 {
                proof {
                    lemma_masters_sum_mono(gs, k + 1, n as int);
                }
                return false;
            }
            a = (t0 as u64, t1 as u64, t2 as u64, t3 as u64);
            k = k + 1;
        }
        proof {
            lemma_masters_sum_mono(gs, 0, n as int);
        }
        true
    }
}

impl MastersEntry {
    /// Whether every group can be written: its count of white wins leaves
    /// room for the header.
    pub fn is_writable(&self) -> (b: bool)
        ensures
            b == spec_masters_writable(self@),
    {
        let n = self.groups.len();
        let mut k: usize = 0;
        while k < n
            invariant
                k <= n,
                n == self@.groups.len(),
                forall|j: int| 0 <= j < k ==> #[trigger] self@.groups[j].0.white + 3 <= u64::MAX,
            decreases n - k,
        {
            proof {
                assert(self@.groups[k as int] == self.groups@[k as int]@);
            }
            if self.groups[k].stats.white > u64::MAX - 3 {
                proof {
                    assert(!(self@.groups[k as int].0.white + 3 <= u64::MAX));
                }
                return false;
            }
            k = k + 1;
        }
        true
    }
}

/// The game at `j` of the move at `i`, keyed by its rank: the sum of its
/// players' ratings, at most 65535.
pub open spec fn spec_ranked_game(e: MastersModel, i: int, j: int) -> (u128, (Uci, GameId)) {
    (e.groups[i].1[j].0 as u128, (spec_unpack(e.moves[i]), GameId::spec_from(e.groups[i].1[j].1)))
}

/// Whether `x` is a game of one of the moves before `n`, keyed by its
/// rank.
pub open spec fn spec_is_ranked_game(e: MastersModel, n: int, x: (u128, (Uci, GameId))) -> bool {
    exists|i: int, j: int|
        #![trigger spec_ranked_game(e, i, j)]
        0 <= i < n && 0 <= j < e.groups[i].1.len() && x == spec_ranked_game(e, i, j)
}

/// The games of the moves before `n`, keyed by rank, are exactly the games
/// of those moves, each keyed by its own rank.
proof fn lemma_masters_game_rows(e: MastersModel, n: int)
    requires
        0 <= n <= e.moves.len(),
        e.groups.len() == e.moves.len(),
    ensures
        forall|k: int|
            0 <= k < spec_masters_game_rows(e, n).len() ==> spec_is_ranked_game(
                e,
                n,
                #[trigger] spec_masters_game_rows(e, n)[k],
            ),
        forall|i: int, j: int|
            0 <= i < n && 0 <= j < e.groups[i].1.len() ==> spec_masters_game_rows(e, n).contains(
                #[trigger] spec_ranked_game(e, i, j),
            ),
    decreases n,
{
    if n > 0 {
        lemma_masters_game_rows(e, n - 1);
        let prev = spec_masters_game_rows(e, n - 1);
        let rows = spec_masters_game_rows(e, n);
        let add = e.groups[n - 1].1.map_values(
            |g: (u16, u64)| (g.0 as u128, (spec_unpack(e.moves[n - 1]), GameId::spec_from(g.1))),
        );
        assert(rows == prev + add);
        assert forall|k: int| 0 <= k < rows.len() implies spec_is_ranked_game(e, n, #[trigger] rows[k]) by {
            if k < prev.len() {
                assert(rows[k] == prev[k]);
                assert(spec_is_ranked_game(e, n - 1, prev[k]));
                let (i, j) = choose|i: int, j: int|
                    0 <= i < n - 1 && 0 <= j < e.groups[i].1.len() && prev[k] == spec_ranked_game(e, i, j);
                assert(rows[k] == spec_ranked_game(e, i, j));
            } else {
                assert(rows[k] == spec_ranked_game(e, n - 1, k - prev.len()));
            }
        }
        assert forall|i: int, j: int| 0 <= i < n && 0 <= j < e.groups[i].1.len() implies rows.contains(
            #[trigger] spec_ranked_game(e, i, j),
        ) by {
            if i < n - 1 {
                let k = choose|k: int| 0 <= k < prev.len() && prev[k] == spec_ranked_game(e, i, j);
                assert(rows[k] == prev[k]);
            } else {
                assert(rows[prev.len() + j] == spec_ranked_game(e, i, j));
            }
        }
    }
}

/// The top games of a masters answer are the best-ranked games of the
/// entry: each chosen game is a game of the entry keyed by its rank (the
/// sum of its players' ratings), they come in order of rank from the
/// highest, and no game of the entry left out has a higher rank than one
/// chosen.
pub proof fn lemma_masters_top_games(e: MastersModel, len: nat, sel: Seq<(u128, (Uci, GameId))>)
    requires
        spec_masters_wf(e),
        is_top_selection(spec_masters_game_rows(e, e.moves.len() as int), sel, len),
    ensures
        forall|k: int|
            0 <= k < sel.len() ==> spec_is_ranked_game(e, e.moves.len() as int, #[trigger] sel[k]),
        forall|a: int, b: int| 0 <= a < b < sel.len() ==> sel[b].0 <= sel[a].0,
        forall|i: int, j: int, k: int|
            0 <= i < e.moves.len() && 0 <= j < e.groups[i].1.len() && 0 <= k < sel.len()
                && !sel.contains(#[trigger] spec_ranked_game(e, i, j)) ==> e.groups[i].1[j].0
                <= #[trigger] sel[k].0,
{
    let rows = spec_masters_game_rows(e, e.moves.len() as int);
    lemma_masters_game_rows(e, e.moves.len() as int);
    assert forall|k: int| 0 <= k < sel.len() implies spec_is_ranked_game(
        e,
        e.moves.len() as int,
        #[trigger] sel[k],
    ) by {
        lemma_top_selection_from(rows, sel, len, k);
        let m = choose|m: int| 0 <= m < rows.len() && rows[m] == sel[k];
        assert(rows[m] == sel[k]);
    }
    assert forall|i: int, j: int, k: int|
        0 <= i < e.moves.len() && 0 <= j < e.groups[i].1.len() && 0 <= k < sel.len()
            && !sel.contains(#[trigger] spec_ranked_game(e, i, j)) implies e.groups[i].1[j].0
            <= #[trigger] sel[k].0 by {
        let x = spec_ranked_game(e, i, j);
        rows.to_multiset_ensures();
        sel.to_multiset_ensures();
        assert(rows.contains(x));
        assert(sel.to_multiset().count(x) < rows.to_multiset().count(x));
    }
}

} // verus!
