//! Naming openings: positions reached by the moves of known openings, found
//! again by their short hash.
use vstd::prelude::*;
use vstd::string::StrSliceExecFns;

use crate::chess::{ChessVariant, Uci};
use crate::replay::{
    board_hash64, fen_text_parses, opt_text, parse_fen, parse_san, same_setup, san_move,
    san_text_parses, start_accepted, StartSetup, start_variant, uci_move, Board, ReplayError, Start,
};

verus! {

/// An opening: its ECO code and its name.
#[derive(Debug)]
pub struct Opening {
    pub eco: String,
    pub name: String,
}

impl Clone for Opening {
    fn clone(&self) -> (o: Opening)
        ensures
            o.eco@ == self.eco@,
            o.name@ == self.name@,
    {
        Opening { eco: self.eco.clone(), name: self.name.clone() }
    }
}

/// A row of the table of openings: the ECO code, the name, and the moves in
/// SAN separated by spaces (move numbers are skipped).
#[derive(Debug)]
pub struct OpeningRecord {
    pub eco: String,
    pub name: String,
    pub pgn: String,
}

/// Why the table of openings could not be loaded.
#[derive(Debug, Clone, Copy, PartialEq, Eq, Structural)]
pub enum OpeningError {
    /// A move of an opening is not legal where it is played.
    Replay(ReplayError),
    /// Two openings reach the same position.
    DuplicateOpening,
}

/// Whether openings are named in the variant: standard chess, crazyhouse,
/// three-check and king of the hill.
pub open spec fn spec_opening_sensible(v: ChessVariant) -> bool {
    v == ChessVariant::Chess || v == ChessVariant::Crazyhouse || v == ChessVariant::ThreeCheck
        || v == ChessVariant::KingOfTheHill
}

/// Whether openings are named in the variant.
pub fn opening_sensible(v: ChessVariant) -> (b: bool)
    ensures
        b == spec_opening_sensible(v),
{
    match v {
        ChessVariant::Chess | ChessVariant::Crazyhouse | ChessVariant::ThreeCheck
        | ChessVariant::KingOfTheHill => true,
        _ => false,
    }
}

/// The position of the opening with hash `h` in `data`, if there is one.
pub open spec fn spec_find_opening(data: Seq<(u64, Opening)>, h: u64) -> Option<int>
    decreases data.len(),
{
    if data.len() == 0 {
        None
    } else if data.last().0 == h {
        Some(data.len() - 1)
    } else {
        spec_find_opening(data.drop_last(), h)
    }
}

/// The opening known in `data` for the position reached from `start` by
/// `played`: none in a variant where openings are not named.
pub open spec fn spec_known(data: Seq<(u64, Opening)>, start: Start, played: Seq<Uci>) -> Option<Opening> {
    if !spec_opening_sensible(start_variant(start)) {
        None
    } else {
        match spec_find_opening(data, board_hash64(start, played)) {
            Some(i) => Some(data[i].1),
            None => None,
        }
    }
}

/// Playing `moves` from the position reached from `start` by `played`: the
/// moves played since the start at the end, and the opening of the last
/// position on the way that is a known one (`found` before the first
/// move); none if a move is not legal where it is played.
pub open spec fn spec_play_openings(
    data: Seq<(u64, Opening)>,
    start: Start,
    played: Seq<Uci>,
    moves: Seq<Uci>,
    found: Option<Opening>,
) -> Option<(Seq<Uci>, Option<Opening>)>
    decreases moves.len(),
{
    if moves.len() == 0 {
        Some((played, found))
    } else {
        match uci_move(start, played, moves[0]) {
            None => None,
            Some(u) => {
                let p2 = played.push(u);
                let f2 = match spec_known(data, start, p2) {
                    Some(o) => Some(o),
                    None => found,
                };
                spec_play_openings(data, start, p2, moves.drop_first(), f2)
            },
        }
    }
}

/// The opening a reference points to.
pub open spec fn deref_opening(o: Option<&Opening>) -> Option<Opening> {
    match o {
        Some(x) => Some(*x),
        None => None,
    }
}

/// The code and name of an opening, as text.
pub open spec fn opening_views(o: Option<Opening>) -> Option<(Seq<char>, Seq<char>)> {
    match o {
        Some(x) => Some((x.eco@, x.name@)),
        None => None,
    }
}

/// The known openings, each under the short hash of its position.
pub struct Openings {
    data: Vec<(u64, Opening)>,
}

impl Openings {
    /// The openings with their hashes, in the order they were loaded.
    pub closed spec fn spec_data(&self) -> Seq<(u64, Opening)> {
        self.data@
    }

    /// No hash twice.
    pub open spec fn wf(&self) -> bool {
        forall|i: int, j: int|
            0 <= i < j < self.spec_data().len() ==> self.spec_data()[i].0 != self.spec_data()[j].0
    }

    /// No opening known.
    pub fn new() -> (o: Openings)
        ensures
            o.spec_data().len() == 0,
            o.wf(),
    {
        Openings { data: Vec::new() }
    }

    /// Whether no opening is known.
    pub fn is_empty(&self) -> (b: bool)
        ensures
            b == (self.spec_data().len() == 0),
    {
        self.data.len() == 0
    }

    /// The number of known openings.
    pub fn len(&self) -> (n: usize)
        ensures
            n == self.spec_data().len(),
    {
        self.data.len()
    }

    fn find(&self, h: u64) -> (r: Option<usize>)
        ensures
            r matches Some(i) ==> spec_find_opening(self.spec_data(), h) == Some(i as int) && i
                < self.spec_data().len(),
            r is None ==> spec_find_opening(self.spec_data(), h) is None,
    {
        let mut i: usize = self.data.len();
        proof {
            assert(self.data@.take(i as int) =~= self.data@);
        }
        while i > 0
            invariant
                i <= self.data@.len(),
                spec_find_opening(self.data@, h) == spec_find_opening(self.data@.take(i as int), h),
            decreases i,
        {
            let ghost pre = self.data@.take(i as int);
            proof {
                assert(pre.drop_last() =~= self.data@.take(i - 1));
            }
            if self.data[i - 1].0 == h {
                return Some(i - 1);
            }
            i = i - 1;
        }
        None
    }

    /// The opening of the position with hash `hash` in `variant`: none in a
    /// variant where openings are not named.
    pub fn lookup(&self, variant: ChessVariant, hash: u64) -> (r: Option<&Opening>)
        ensures
            !spec_opening_sensible(variant) ==> r is None,
            spec_opening_sensible(variant) ==> match spec_find_opening(self.spec_data(), hash) {
                Some(i) => r == Some(&self.spec_data()[i].1),
                None => r is None,
            },
    {
        if !opening_sensible(variant) {
            return None;
        }
        match self.find(hash) {
            Some(i) => Some(&self.data[i].1),
            None => None,
        }
    }

    /// The opening of the board's position, if it is a known one.
    pub fn classify_exact(&self, board: &Board) -> (r: Option<&Opening>)
        ensures
            deref_opening(r) == spec_known(self.spec_data(), board.spec_start(), board.spec_played()),
            r matches Some(o) ==> exists|i: int|
                0 <= i < self.spec_data().len() && *o == self.spec_data()[i].1,
    {
        let variant = board.variant();
        let hash = board.hash64();
        let r = self.lookup(variant, hash);
        proof {
            if r is Some {
                lemma_find_bound(self.spec_data(), hash);
            }
        }
        r
    }

    /// Plays `play` from `root` and names the opening: that of the last
    /// position on the way, the root included, that is a known opening.
    /// Fails when a move is not legal where it is played.
    pub fn classify_and_play(&self, root: &mut Board, play: &[Uci]) -> (r: Result<
        Option<Opening>,
        ReplayError,
    >)
        ensures
            r matches Err(e) ==> e == ReplayError::IllegalUci,
            play@.len() == 0 ==> r is Ok,
            match spec_play_openings(
                self.spec_data(),
                old(root).spec_start(),
                old(root).spec_played(),
                play@,
                spec_known(self.spec_data(), old(root).spec_start(), old(root).spec_played()),
            ) {
                None => r is Err,
                Some((p, f)) => r matches Ok(o) && opening_views(o) == opening_views(f)
                    && final(root).spec_start() == old(root).spec_start() && final(root).spec_played() == p,
            },
            r matches Ok(Some(o)) ==> exists|i: int|
                0 <= i < self.spec_data().len() && o.eco@ == self.spec_data()[i].1.eco@ && o.name@
                    == self.spec_data()[i].1.name@,
    {
        let ghost data = self.spec_data();
        let ghost start = root.spec_start();
        let ghost whole = spec_play_openings(data, start, root.spec_played(), play@, spec_known(data, start, root.spec_played()));
        let mut opening = self.classify_exact(root);
        let mut i: usize = 0;
        proof {
            assert(play@.skip(0) =~= play@);
        }
        while i < play.len()
            invariant
                i <= play@.len(),
                data == self.spec_data(),
                root.spec_start() == start,
                start == old(root).spec_start(),
                whole == spec_play_openings(data, start, old(root).spec_played(), play@, spec_known(data, start, old(root).spec_played())),
                whole == spec_play_openings(data, start, root.spec_played(), play@.skip(i as int), deref_opening(opening)),
                opening matches Some(o) ==> exists|k: int|
                    0 <= k < self.spec_data().len() && *o == self.spec_data()[k].1,
            decreases play@.len() - i,
        {
            let ghost rest = play@.skip(i as int);
            proof {
                assert(rest[0] == play@[i as int]);
                assert(rest.drop_first() =~= play@.skip(i + 1));
            }
            play[i].check_wf();
            match root.play_uci(play[i]) {
                Some(_) => {},
                None => {
                    proof {
                        assert(spec_play_openings(data, start, root.spec_played(), rest, deref_opening(opening)) is None);
                    }
                    return Err(ReplayError::IllegalUci);
                },
            }
            match self.classify_exact(root) {
                Some(o) => opening = Some(o),
                None => {},
            }
            i = i + 1;
        }
        proof {
            assert(play@.skip(i as int) =~= Seq::<Uci>::empty());
        }
        match opening {
            Some(o) => Ok(Some(o.clone())),
            None => Ok(None),
        }
    }

    /// Loads openings: each is played out from the starting position of
    /// standard chess (tokens that are not SAN, such as move numbers, are
    /// skipped) and known under the hash of the position reached. Fails at
    /// a move that is not legal where it is played, or at a position that
    /// another opening reached.
    pub fn load_records(&mut self, records: &[OpeningRecord]) -> (r: Result<(), OpeningError>)
        requires
            old(self).wf(),
        ensures
            final(self).wf(),
            r is Ok ==> final(self).spec_data().len() == old(self).spec_data().len() + records@.len(),
            r is Ok ==> forall|k: int|
                0 <= k < records@.len() ==> {
                    let o = #[trigger] final(self).spec_data()[old(self).spec_data().len() + k].1;
                    o.eco@ == records@[k].eco@ && o.name@ == records@[k].name@
                },
            r is Ok ==> final(self).spec_data().take(old(self).spec_data().len() as int) == old(
                self,
            ).spec_data(),
            r matches Err(e) ==> e == OpeningError::DuplicateOpening || e == OpeningError::Replay(
                ReplayError::IllegalSan,
            ),
    {
        let ghost start = self.spec_data();
        let mut i: usize = 0;
        while i < records.len()
            invariant
                i <= records@.len(),
                self.wf(),
                self.spec_data().len() == start.len() + i,
                self.spec_data().take(start.len() as int) == start,
                forall|k: int|
                    0 <= k < i ==> {
                        let o = #[trigger] self.spec_data()[start.len() + k].1;
                        o.eco@ == records@[k].eco@ && o.name@ == records@[k].name@
                    },
            decreases records@.len() - i,
        {
            let hash = match play_opening(records[i].pgn.as_str()) {
                Ok(h) => h,
                Err(e) => {
                    return Err(OpeningError::Replay(e));
                },
            };
            match self.find(hash) {
                Some(_) => {
                    return Err(OpeningError::DuplicateOpening);
                },
                None => {},
            }
            proof {
                lemma_find_none(self.spec_data(), hash);
            }
            let ghost before = self.spec_data();
            self.data.push(
                (hash, Opening { eco: records[i].eco.clone(), name: records[i].name.clone() }),
            );
            proof {
                assert(self.spec_data() =~= before.push(self.spec_data().last()));
                assert(self.spec_data().take(start.len() as int) =~= before.take(start.len() as int));
            }
            i = i + 1;
        }
        Ok(())
    }
}

/// Plays the moves of an opening from the starting position of standard
/// chess, skipping tokens that are not SAN, and gives the short hash of the
/// position reached.
fn play_opening(pgn: &str) -> (r: Result<u64, ReplayError>)
    ensures
        r matches Err(e) ==> e == ReplayError::IllegalSan,
        (forall|a: int, b: int|
            0 <= a <= b <= pgn@.len() ==> !san_text_parses(#[trigger] pgn@.subrange(a, b))) ==> r is Ok,
{
    let mut pos = Board::new(ChessVariant::Chess);
    let n = pgn.unicode_len();
    let mut start: usize = 0;
    let mut i: usize = 0;
    while i < n
        invariant
            start <= i <= n,
            n == pgn@.len(),
        decreases n - i,
    {
        if pgn.get_char(i) == ' ' {
            if !play_token(&mut pos, pgn.substring_char(start, i)) {
                return Err(ReplayError::IllegalSan);
            }
            start = i + 1;
        }
        i = i + 1;
    }
    if !play_token(&mut pos, pgn.substring_char(start, n)) {
        return Err(ReplayError::IllegalSan);
    }
    Ok(pos.hash64())
}

/// Plays a token that is a move in SAN; other tokens are skipped. False
/// when the move is not legal where it is played.
fn play_token(pos: &mut Board, token: &str) -> (b: bool)
    ensures
        !san_text_parses(token@) ==> b && *final(pos) == *old(pos),
        san_text_parses(token@) ==> b == san_move(old(pos).spec_start(), old(pos).spec_played(), token@) is Some,
        !b ==> *final(pos) == *old(pos),
        final(pos).spec_start() == old(pos).spec_start(),
{
    match parse_san(token) {
        Some(_) => pos.play_san(token).is_some(),
        None => true,
    }
}

proof fn lemma_find_bound(data: Seq<(u64, Opening)>, h: u64)
    ensures
        spec_find_opening(data, h) matches Some(i) ==> 0 <= i < data.len() && data[i].0 == h,
    decreases data.len(),
{
    if data.len() > 0 && data.last().0 != h {
        lemma_find_bound(data.drop_last(), h);
    }
}

proof fn lemma_find_none(data: Seq<(u64, Opening)>, h: u64)
    requires
        spec_find_opening(data, h) is None,
    ensures
        forall|i: int| 0 <= i < data.len() ==> data[i].0 != h,
    decreases data.len(),
{
    if data.len() > 0 {
        lemma_find_none(data.drop_last(), h);
        assert forall|i: int| 0 <= i < data.len() implies data[i].0 != h by {
            if i < data.len() - 1 {
                assert(data.drop_last()[i] == data[i]);
            }
        }
    }
}

/// A position asked for: a variant, a starting position (that of the
/// variant if none) and moves in UCI form played from it.
#[derive(Debug, Clone)]
pub struct Play {
    pub variant: ChessVariant,
    pub fen: Option<String>,
    pub play: Vec<Uci>,
}

/// The position reached, and the name of its opening if known.
pub struct PlayPosition {
    pub pos: Board,
    pub opening: Option<Opening>,
}

impl Play {
    /// The position reached and its opening. The starting position may have
    /// invalid castling rights, an invalid en passant square or too much
    /// material. Fails when the FEN cannot be read or is not a position of
    /// the variant, or a move is not legal where it is played.
    pub fn position(self, openings: &Openings) -> (r: Result<PlayPosition, ReplayError>)
        ensures
            r matches Err(e) ==> (e == ReplayError::InvalidFen || e == ReplayError::InvalidPosition
                || e == ReplayError::IllegalUci),
            self.fen matches Some(t) && !fen_text_parses(t@) ==> r == Err::<PlayPosition, ReplayError>(
                ReplayError::InvalidFen,
            ),
            self.fen matches Some(t) && fen_text_parses(t@) && !start_accepted(self.spec_start())
                ==> r == Err::<PlayPosition, ReplayError>(ReplayError::InvalidPosition),
            self.fen is None || start_accepted(self.spec_start()) ==> match spec_play_openings(
                openings.spec_data(),
                self.spec_start(),
                Seq::empty(),
                self.play@,
                spec_known(openings.spec_data(), self.spec_start(), Seq::empty()),
            ) {
                None => r == Err::<PlayPosition, ReplayError>(ReplayError::IllegalUci),
                Some((p, f)) => r matches Ok(pp) && opening_views(pp.opening) == opening_views(f)
                    && pp.pos.spec_start() == self.spec_start() && pp.pos.spec_played() == p,
            },
            self.fen is None && self.play@.len() == 0 ==> r is Ok,
            r matches Ok(p) ==> (p.opening matches Some(o) ==> exists|i: int|
                0 <= i < openings.spec_data().len() && o.eco@ == openings.spec_data()[i].1.eco@
                    && o.name@ == openings.spec_data()[i].1.name@),
    {
        let mut pos = match &self.fen {
            Some(text) => match Board::from_fen_lax(self.variant, text.as_str()) {
                Some(pos) => pos,
                None => match parse_fen(text.as_str()) {
                    Some(_) => {
                        return Err(ReplayError::InvalidPosition);
                    },
                    None => {
                        return Err(ReplayError::InvalidFen);
                    },
                },
            },
            None => Board::new(self.variant),
        };
        let opening = openings.classify_and_play(&mut pos, self.play.as_slice())?;
        Ok(PlayPosition { pos, opening })
    }

    /// Where the position asked for starts: the FEN read leniently, or the
    /// starting position of the variant.
    pub open spec fn spec_start(&self) -> Start {
        match self.fen {
            Some(t) => Start::LaxFen(self.variant, t@),
            None => Start::New(self.variant),
        }
    }
}

/// Whether two sequences of moves are the same.
fn same_ucis(a: &[Uci], b: &[Uci]) -> (r: bool)
    ensures
        r == (a@ == b@),
{
    if a.len() != b.len() {
        return false;
    }
    let mut i: usize = 0;
    while i < a.len()
        invariant
            i <= a@.len(),
            a@.len() == b@.len(),
            forall|j: int| 0 <= j < i ==> a@[j] == b@[j],
        decreases a@.len() - i,
    {
        if a[i] != b[i] {
            return false;
        }
        i = i + 1;
    }
    proof {
        assert(a@ =~= b@);
    }
    true
}

impl Play {
    /// The setup of the starting position: that of the FEN, or that of the
    /// starting position of the variant; none when the FEN cannot be read.
    fn start_setup(&self) -> (r: Option<StartSetup>)
        ensures
            self.fen is None ==> r is Some,
            self.fen matches Some(t) ==> (r is Some == fen_text_parses(t@)),
            r matches Some(s) ==> s.spec_variant() == self.variant && s.spec_fen() == opt_text(
                self.fen,
            ),
    {
        match &self.fen {
            Some(text) => StartSetup::of_fen(self.variant, text.as_str()),
            None => Some(StartSetup::of_variant(self.variant)),
        }
    }

    /// Whether two requests ask for the same position: the same variant,
    /// starting positions with the same setup, and the same moves. A FEN
    /// that cannot be read has no setup and matches nothing.
    pub fn same_position(&self, other: &Play) -> (b: bool)
        ensures
            b == (self.variant == other.variant && self.play@ == other.play@ && (
            (self.fen is None && other.fen is None) || (spec_fen_reads(self.fen) && spec_fen_reads(
                other.fen,
            ) && same_setup(self.variant, opt_text(self.fen), other.variant, opt_text(other.fen))))),
    {
        if self.variant != other.variant || !same_ucis(self.play.as_slice(), other.play.as_slice()) {
            return false;
        }
        if self.fen.is_none() && other.fen.is_none() {
            return true;
        }
        match (self.start_setup(), other.start_setup()) {
            (Some(a), Some(b)) => a.same(&b),
            _ => false,
        }
    }
}

/// Whether a FEN that may be missing is read: missing, or a FEN.
pub open spec fn spec_fen_reads(fen: Option<String>) -> bool {
    match fen {
        Some(t) => fen_text_parses(t@),
        None => true,
    }
}

} // verus!
