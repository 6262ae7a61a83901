//! What the database does with the bytes it holds: the merge of written
//! entries, the key ranges that queries read, the folding of what a range
//! read gives, the statistics of the block cache, and whether a read fills
//! the cache.
use vstd::prelude::*;
use vstd::string::StrSliceExecFns;
use vstd::string::StringSliceAdditionalSpecFns;

use crate::buf::Reader;
use crate::date::{Month, Year};
use crate::decimal::{parse_u64, spec_parse_u64};
use crate::history::{spec_gap, spec_next_month, History, HistoryBuilder, HistorySegment};
use crate::key::{be_bytes2, Key, KeyPrefix};
use crate::lichess::{
    spec_group_sum, stats_of_sums, spec_empty_lichess, spec_extend_lichess, spec_lichess_prepared, spec_lichess_sums_fit,
    spec_lichess_writable, spec_lichess_wf, spec_write_lichess, InvalidEntry, LichessEntry,
    LichessModel,
};
use crate::masters::{
    spec_empty_masters, spec_extend_masters, spec_masters_writable, spec_masters_written,
    spec_masters_wf, MastersEntry, MastersModel,
};
use crate::personal::{
    spec_empty_personal, spec_extend_personal, spec_personal_moves_bytes, spec_personal_writable,
    spec_personal_wf, PersonalEntry, PersonalModel,
};
use crate::query::{LichessQueryFilter, Limits};
use crate::response::PreparedResponse;
use crate::stats::{spec_empty_stats, spec_le, spec_minus, Stats};

verus! {

/// Where the database lives and how it is tuned.
#[derive(Debug, Clone)]
pub struct DbOpt {
    /// Path to the database.
    pub db: String,
    /// Tune compaction readahead for spinning disks.
    pub db_compaction_readahead: bool,
    /// Size of the block cache in bytes.
    pub db_cache: usize,
    /// Rate limit for writes to disk in bytes per second.
    pub db_rate_limit: i64,
}

/// Hits and misses of the block cache, by kind of block.
#[derive(Debug, Clone, Copy, PartialEq, Eq, Structural)]
pub struct DbStats {
    pub block_index_miss: u64,
    pub block_index_hit: u64,
    pub block_filter_miss: u64,
    pub block_filter_hit: u64,
    pub block_data_miss: u64,
    pub block_data_hit: u64,
}

impl Default for DbStats {
    fn default() -> (s: DbStats)
        ensures
            s == spec_zero_db_stats(),
    {
        DbStats {
            block_index_miss: 0,
            block_index_hit: 0,
            block_filter_miss: 0,
            block_filter_hit: 0,
            block_data_miss: 0,
            block_data_hit: 0,
        }
    }
}

pub open spec fn spec_zero_db_stats() -> DbStats {
    DbStats {
        block_index_miss: 0,
        block_index_hit: 0,
        block_filter_miss: 0,
        block_filter_hit: 0,
        block_data_miss: 0,
        block_data_hit: 0,
    }
}

/// `rocksdb.block.cache.` as bytes.
pub open spec fn spec_cache_prefix() -> Seq<u8> {
    seq![114u8, 111, 99, 107, 115, 100, 98, 46, 98, 108, 111, 99, 107, 46, 99, 97, 99, 104, 101, 46]
}

/// ` COUNT : ` as bytes.
pub open spec fn spec_count_sep() -> Seq<u8> {
    seq![32u8, 67, 79, 85, 78, 84, 32, 58, 32]
}

/// The statistics' names after the common prefix, in the order of the
/// fields: `index.miss`, `index.hit`, `filter.miss`, `filter.hit`,
/// `data.miss`, `data.hit`.
pub open spec fn spec_stat_name(k: int) -> Seq<u8> {
    if k == 0 {
        seq![105u8, 110, 100, 101, 120, 46, 109, 105, 115, 115]
    } else if k == 1 {
        seq![105u8, 110, 100, 101, 120, 46, 104, 105, 116]
    } else if k == 2 {
        seq![102u8, 105, 108, 116, 101, 114, 46, 109, 105, 115, 115]
    } else if k == 3 {
        seq![102u8, 105, 108, 116, 101, 114, 46, 104, 105, 116]
    } else if k == 4 {
        seq![100u8, 97, 116, 97, 46, 109, 105, 115, 115]
    } else {
        seq![100u8, 97, 116, 97, 46, 104, 105, 116]
    }
}

/// The count on a line `NAME COUNT : n` for the statistic `k`, if the line
/// is one.
pub open spec fn spec_count(line: Seq<u8>, k: int) -> Option<u64> {
    let p = spec_cache_prefix() + spec_stat_name(k) + spec_count_sep();
    if line.len() >= p.len() && line.take(p.len() as int) == p {
        spec_parse_u64(line.skip(p.len() as int))
    } else {
        None
    }
}

/// The statistics with field `k` set to `c`.
pub open spec fn spec_set_stat(s: DbStats, k: int, c: u64) -> DbStats {
    if k == 0 {
        DbStats { block_index_miss: c, ..s }
    } else if k == 1 {
        DbStats { block_index_hit: c, ..s }
    } else if k == 2 {
        DbStats { block_filter_miss: c, ..s }
    } else if k == 3 {
        DbStats { block_filter_hit: c, ..s }
    } else if k == 4 {
        DbStats { block_data_miss: c, ..s }
    } else {
        DbStats { block_data_hit: c, ..s }
    }
}

/// The statistics after a line: the first statistic from `k` on whose
/// count the line gives is set to it.
pub open spec fn spec_apply_line(s: DbStats, line: Seq<u8>, k: int) -> DbStats
    decreases 6 - k,
{
    if k >= 6 {
        s
    } else {
        match spec_count(line, k) {
            Some(c) => spec_set_stat(s, k, c),
            None => spec_apply_line(s, line, k + 1),
        }
    }
}

/// The length of the first line: the bytes up to the first line feed.
pub open spec fn spec_line_len(t: Seq<u8>) -> nat
    decreases t.len(),
{
    if t.len() == 0 || t[0] == 10 {
        0
    } else {
        1 + spec_line_len(t.drop_first())
    }
}

/// A line without the carriage return before its line feed.
pub open spec fn spec_line_text(t: Seq<u8>, n: nat) -> Seq<u8> {
    if n < t.len() && n > 0 && t[n - 1] == 13 {
        t.take(n - 1)
    } else {
        t.take(n as int)
    }
}

/// The statistics after all lines of `t`, each line ending at a line feed
/// (a carriage return before it is not part of the line) or at the end.
pub open spec fn spec_read_lines(s: DbStats, t: Seq<u8>) -> DbStats
    decreases t.len(),
{
    let n = spec_line_len(t);
    let s1 = spec_apply_line(s, spec_line_text(t, n), 0);
    if n < t.len() {
        spec_read_lines(s1, t.skip(n + 1 as int))
    } else {
        s1
    }
}

proof fn lemma_line_len(t: Seq<u8>, q: int)
    requires
        0 <= q <= t.len(),
        forall|j: int| 0 <= j < q ==> t[j] != 10,
        q == t.len() || t[q] == 10,
    ensures
        spec_line_len(t) == q,
    decreases t.len(),
{
    lemma_line_len_bounds(t);
    if t.len() > 0 && t[0] != 10 {
        assert(q > 0);
        lemma_line_len(t.drop_first(), q - 1);
    }
}

proof fn lemma_line_len_bounds(t: Seq<u8>)
    ensures
        spec_line_len(t) <= t.len(),
    decreases t.len(),
{
    if t.len() > 0 && t[0] != 10 {
        lemma_line_len_bounds(t.drop_first());
    }
}

/// Whether `line` starts with `p`.
fn starts_with(line: &[u8], p: &[u8]) -> (b: bool)
    ensures
        b == (line@.len() >= p@.len() && line@.take(p@.len() as int) == p@),
{
    if line.len() < p.len() {
        return false;
    }
    let mut i: usize = 0;
    while i < p.len()
        invariant
            i <= p@.len() <= line@.len(),
            forall|j: int| 0 <= j < i ==> line@[j] == p@[j],
        decreases p@.len() - i,
    {
        if line[i] != p[i] {
            proof {
                assert(line@.take(p@.len() as int)[i as int] != p@[i as int]);
            }
            return false;
        }
        i = i + 1;
    }
    proof {
        assert(line@.take(p@.len() as int) =~= p@);
    }
    true
}

/// The name of statistic `k` with its prefix and separator, as bytes.
fn stat_pattern(k: usize) -> (p: Vec<u8>)
    requires
        k < 6,
    ensures
        p@ == spec_cache_prefix() + spec_stat_name(k as int) + spec_count_sep(),
{
    let mut p: Vec<u8> = vec![114u8, 111, 99, 107, 115, 100, 98, 46, 98, 108, 111, 99, 107, 46, 99, 97, 99, 104, 101, 46];
    let name: Vec<u8> = if k == 0 {
        vec![105u8, 110, 100, 101, 120, 46, 109, 105, 115, 115]
    } else if k == 1 {
        vec![105u8, 110, 100, 101, 120, 46, 104, 105, 116]
    } else if k == 2 {
        vec![102u8, 105, 108, 116, 101, 114, 46, 109, 105, 115, 115]
    } else if k == 3 {
        vec![102u8, 105, 108, 116, 101, 114, 46, 104, 105, 116]
    } else if k == 4 {
        vec![100u8, 97, 116, 97, 46, 109, 105, 115, 115]
    } else {
        vec![100u8, 97, 116, 97, 46, 104, 105, 116]
    };
    let ghost p0 = p@;
    let mut i: usize = 0;
    while i < name.len()
        invariant
            i <= name@.len(),
            p@ == p0 + name@.take(i as int),
        decreases name@.len() - i,
    {
        p.push(name[i]);
        proof {
            assert(name@.take(i + 1) =~= name@.take(i as int).push(name@[i as int]));
        }
        i = i + 1;
    }
    let sep: Vec<u8> = vec![32u8, 67, 79, 85, 78, 84, 32, 58, 32];
    let ghost p1 = p@;
    let mut j: usize = 0;
    while j < sep.len()
        invariant
            j <= sep@.len(),
            p@ == p1 + sep@.take(j as int),
        decreases sep@.len() - j,
    {
        p.push(sep[j]);
        proof {
            assert(sep@.take(j + 1) =~= sep@.take(j as int).push(sep@[j as int]));
        }
        j = j + 1;
    }
    proof {
        assert(name@.take(name@.len() as int) =~= name@);
        assert(sep@.take(sep@.len() as int) =~= sep@);
        assert(p0 =~= spec_cache_prefix());
        assert(name@ =~= spec_stat_name(k as int));
        assert(sep@ =~= spec_count_sep());
    }
    p
}

impl DbStats {
    /// Sets field `k` to `c`.
    fn set_stat(&mut self, k: usize, c: u64)
        requires
            k < 6,
        ensures
            *final(self) == spec_set_stat(*old(self), k as int, c),
    {
        if k == 0 {
            self.block_index_miss = c;
        } else if k == 1 {
            self.block_index_hit = c;
        } else if k == 2 {
            self.block_filter_miss = c;
        } else if k == 3 {
            self.block_filter_hit = c;
        } else if k == 4 {
            self.block_data_miss = c;
        } else {
            self.block_data_hit = c;
        }
    }

    /// Takes the counts from one line of the database's statistics.
    fn read_line(&mut self, line: &[u8])
        ensures
            *final(self) == spec_apply_line(*old(self), line@, 0),
    {
        let mut k: usize = 0;
        while k < 6
            invariant
                k <= 6,
                forall|j: int| 0 <= j < k ==> spec_count(line@, j) is None,
                *self == *old(self),
            decreases 6 - k,
        {
            let p = stat_pattern(k);
            if starts_with(line, p.as_slice()) {
                let rest = crate::date::slice_range(line, p.len(), line.len());
                match parse_u64(rest.as_slice()) {
                    Some(c) => {
                        proof {
                            lemma_apply_line_at(*old(self), line@, k as int);
                        }
                        self.set_stat(k, c);
                        return;
                    },
                    None => {},
                }
            }
            k = k + 1;
        }
        proof {
            lemma_apply_line_none(*old(self), line@, 0);
        }
    }

    /// Takes the counts of the block cache from the text of the database's
    /// statistics: each line `rocksdb.block.cache.KIND.EVENT COUNT : n`
    /// sets the count of that kind and event.
    pub fn read_options_statistics(&mut self, s: &str)
        ensures
            *final(self) == spec_read_lines(*old(self), s.spec_bytes()),
    {
        let b = s.as_bytes_vec();
        let n = b.len();
        let mut p: usize = 0;
        proof {
            assert(b@.skip(0) =~= b@);
        }
        while p < n
            invariant
                p <= n,
                n == b@.len(),
                spec_read_lines(*old(self), s.spec_bytes()) == spec_read_lines(*self, b@.skip(p as int)),
            decreases n - p,
        {
            let ghost t = b@.skip(p as int);
            let mut q: usize = p;
            while q < n && b[q] != 10
                invariant
                    p <= q <= n,
                    n == b@.len(),
                    forall|j: int| p <= j < q ==> b@[j] != 10,
                decreases n - q,
            {
                q = q + 1;
            }
            proof {
                lemma_line_len(t, q - p);
            }
            let end: usize = if q < n && q > p && b[q - 1] == 13 { q - 1 } else { q };
            let line = crate::date::slice_range(b.as_slice(), p, end);
            proof {
                assert(line@ =~= spec_line_text(t, (q - p) as nat));
            }
            self.read_line(line.as_slice());
            if q < n {
                proof {
                    assert(t.skip(q - p + 1) =~= b@.skip(q + 1));
                }
                p = q + 1;
            } else {
                return;
            }
        }
        proof {
            lemma_read_lines_empty(*self, b@.skip(p as int));
        }
    }
}

proof fn lemma_apply_line_at(s: DbStats, line: Seq<u8>, k: int)
    requires
        0 <= k < 6,
        forall|j: int| 0 <= j < k ==> spec_count(line, j) is None,
        spec_count(line, k) is Some,
    ensures
        spec_apply_line(s, line, 0) == spec_set_stat(s, k, spec_count(line, k)->0),
    decreases k,
{
    lemma_apply_line_from(s, line, 0, k);
}

proof fn lemma_apply_line_from(s: DbStats, line: Seq<u8>, i: int, k: int)
    requires
        0 <= i <= k < 6,
        forall|j: int| i <= j < k ==> spec_count(line, j) is None,
    ensures
        spec_apply_line(s, line, i) == spec_apply_line(s, line, k),
    decreases k - i,
{
    if i < k {
        lemma_apply_line_from(s, line, i + 1, k);
    }
}

proof fn lemma_apply_line_none(s: DbStats, line: Seq<u8>, i: int)
    requires
        0 <= i <= 6,
        forall|j: int| i <= j < 6 ==> spec_count(line, j) is None,
    ensures
        spec_apply_line(s, line, i) == s,
    decreases 6 - i,
{
    if i < 6 {
        lemma_apply_line_none(s, line, i + 1);
    }
}

proof fn lemma_read_lines_empty(s: DbStats, t: Seq<u8>)
    requires
        t.len() == 0,
    ensures
        spec_read_lines(s, t) == s,
{
    let line = spec_line_text(t, spec_line_len(t));
    assert(line.len() == 0);
    assert forall|j: int| 0 <= j < 6 implies spec_count(line, j) is None by {
        assert((spec_cache_prefix() + spec_stat_name(j) + spec_count_sep()).len() > 0);
    }
    lemma_apply_line_none(s, line, 0);
}

/// A hint on how likely a read is to be repeated: reads of positions near
/// the start of a game are.
#[derive(Debug, Clone, Copy, PartialEq, Eq, Structural)]
pub struct CacheHint {
    ply: u32,
}

/// The chance in percent that a read at `ply` fills the cache: always
/// before ply 5, then 90, 70, 40 and 10 percent by steps of five plies, and
/// 2 percent from ply 25 on.
pub open spec fn spec_fill_percent(ply: u32) -> u32 {
    if ply < 5 {
        100
    } else if ply < 10 {
        90
    } else if ply < 15 {
        70
    } else if ply < 20 {
        40
    } else if ply < 25 {
        10
    } else {
        2
    }
}

/// `fastrand::u32(0..100)`: a number below 100 from the thread's generator.
#[verifier::external_body]
fn random_percent() -> (r: u32)
    ensures
        r < 100,
{
    fastrand::u32(0..100)
}

/// Whether a read at `ply` fills the cache when the number drawn is `roll`.
pub open spec fn spec_roll_fills(ply: u32, roll: u32) -> bool {
    roll < spec_fill_percent(ply)
}

impl CacheHint {
    pub closed spec fn spec_ply(self) -> u32 {
        self.ply
    }

    /// The hint for a position at `ply`.
    pub fn from_ply(ply: u32) -> (h: CacheHint)
        ensures
            h.spec_ply() == ply,
    {
        CacheHint { ply }
    }

    /// The hint for a read that should always fill the cache.
    pub fn always() -> (h: CacheHint)
        ensures
            h.spec_ply() == 0,
    {
        CacheHint { ply: 0 }
    }

    /// Whether a read with this hint fills the block cache, decided by a
    /// number `roll` below 100: with a chance of `fill_percent` percent.
    pub fn fills_cache_with(&self, roll: u32) -> (b: bool)
        ensures
            b == (roll < spec_fill_percent(self.spec_ply())),
    {
        let percent: u32 = if self.ply < 5 {
            100
        } else if self.ply < 10 {
            90
        } else if self.ply < 15 {
            70
        } else if self.ply < 20 {
            40
        } else if self.ply < 25 {
            10
        } else {
            2
        };
        roll < percent
    }

    /// Whether a read with this hint fills the block cache: always before
    /// ply 5, later with a chance that falls with the ply.
    pub fn should_fill_cache(&self) -> (b: bool)
        ensures
            self.spec_ply() < 5 ==> b,
            exists|roll: u32| roll < 100 && b == #[trigger] spec_roll_fills(self.spec_ply(), roll),
    {
        let roll = random_percent();
        let b = self.fills_cache_with(roll);
        assert(b == spec_roll_fills(self.spec_ply(), roll));
        b
    }
}

/// The estimated numbers of keys of the masters columns.
#[derive(Debug, Clone, Copy, PartialEq, Eq, Structural)]
pub struct MastersStats {
    pub num_masters: u64,
    pub num_masters_game: u64,
}

/// The estimated numbers of keys of the lichess and player columns.
#[derive(Debug, Clone, Copy, PartialEq, Eq, Structural)]
pub struct LichessStats {
    pub num_lichess: u64,
    pub num_lichess_game: u64,
    pub num_player: u64,
    pub num_player_status: u64,
}

/// The key range of a position over months: from `since` (the first month
/// if none) to just before the month after `until` (the last month if
/// none), both ends saturating.
pub fn month_range(key: &KeyPrefix, since: Option<Month>, until: Option<Month>) -> (r: (Key, Key))
    ensures
        r.0.spec_bytes() == key.spec_prefix().take(12) + be_bytes2(
            match since {
                Some(m) => m.value(),
                None => 0u16,
            },
        ),
        r.1.spec_bytes() == key.spec_prefix().take(12) + be_bytes2(
            match until {
                Some(m) => if m.value() + 1 > crate::date::MAX_YEAR * 12 + 11 {
                    (crate::date::MAX_YEAR * 12 + 11) as u16
                } else {
                    (m.value() + 1) as u16
                },
                None => (crate::date::MAX_YEAR * 12 + 11) as u16,
            },
        ),
{
    let lo = match since {
        Some(m) => m,
        None => Month::min_value(),
    };
    let hi = match until {
        Some(m) => m.add_months_saturating(1),
        None => Month::max_value(),
    };
    (key.with_month(lo), key.with_month(hi))
}

/// The key range of a position over years: from `since` to just before the
/// year after `until`, saturating.
pub fn year_range(key: &KeyPrefix, since: Year, until: Year) -> (r: (Key, Key))
    ensures
        r.0.spec_bytes() == key.spec_prefix().take(12) + be_bytes2(since.value()),
        r.1.spec_bytes() == key.spec_prefix().take(12) + be_bytes2(
            if until.value() + 1 > crate::date::MAX_YEAR {
                crate::date::MAX_YEAR
            } else {
                (until.value() + 1) as u16
            },
        ),
{
    (key.with_year(since), key.with_year(until.add_years_saturating(1)))
}

/// The views of byte slices.
pub open spec fn slice_views(v: Seq<&[u8]>) -> Seq<Seq<u8>> {
    v.map_values(|x: &[u8]| x@)
}

/// The lichess entry that merging written entries in order gives, if each
/// can be read.
pub open spec fn spec_fold_lichess(e: LichessModel, ops: Seq<Seq<u8>>) -> Option<LichessModel>
    decreases ops.len(),
{
    if ops.len() == 0 {
        Some(e)
    } else {
        match spec_fold_lichess(e, ops.drop_last()) {
            Some(x) => spec_extend_lichess(x, ops.last()),
            None => None,
        }
    }
}

/// The masters entry that merging written entries in order gives.
pub open spec fn spec_fold_masters(e: MastersModel, ops: Seq<Seq<u8>>) -> Option<MastersModel>
    decreases ops.len(),
{
    if ops.len() == 0 {
        Some(e)
    } else {
        match spec_fold_masters(e, ops.drop_last()) {
            Some(x) => spec_extend_masters(x, ops.last()),
            None => None,
        }
    }
}

/// The player entry that merging written entries in order gives.
pub open spec fn spec_fold_personal(e: PersonalModel, ops: Seq<Seq<u8>>) -> Option<PersonalModel>
    decreases ops.len(),
{
    if ops.len() == 0 {
        Some(e)
    } else {
        match spec_fold_personal(e, ops.drop_last()) {
            Some(x) => spec_extend_personal(x, ops.last()),
            None => None,
        }
    }
}

/// Merges written lichess entries in order into one entry.
pub fn fold_lichess(records: &[&[u8]]) -> (r: Result<LichessEntry, InvalidEntry>)
    ensures
        match spec_fold_lichess(spec_empty_lichess(), slice_views(records@)) {
            Some(e) => r matches Ok(x) && x@ == e && x.wf(),
            None => r is Err,
        },
{
    let mut entry = LichessEntry::new();
    let mut i: usize = 0;
    while i < records.len()
        invariant
            i <= records@.len(),
            entry.wf(),
            spec_fold_lichess(spec_empty_lichess(), slice_views(records@).take(i as int)) == Some(entry@),
        decreases records@.len() - i,
    {
        let mut reader = Reader::new(records[i]);
        let ghost ops = slice_views(records@).take(i + 1);
        proof {
            assert(ops.drop_last() =~= slice_views(records@).take(i as int));
            assert(ops.last() == records@[i as int]@);
        }
        match entry.extend_from_reader(&mut reader) {
            Ok(()) => {},
            Err(e) => {
                proof {
                    lemma_fold_lichess_none(slice_views(records@), i + 1);
                }
                return Err(e);
            },
        }
        i = i + 1;
    }
    proof {
        assert(slice_views(records@).take(records@.len() as int) =~= slice_views(records@));
    }
    Ok(entry)
}

proof fn lemma_fold_lichess_none(ops: Seq<Seq<u8>>, i: int)
    requires
        0 < i <= ops.len(),
        spec_fold_lichess(spec_empty_lichess(), ops.take(i)) is None,
    ensures
        spec_fold_lichess(spec_empty_lichess(), ops) is None,
    decreases ops.len() - i,
{
    if i < ops.len() {
        assert(ops.take(i + 1).drop_last() =~= ops.take(i));
        lemma_fold_lichess_none(ops, i + 1);
    } else {
        assert(ops.take(i) =~= ops);
    }
}

/// Merges written masters entries in order into one entry.
pub fn fold_masters(records: &[&[u8]]) -> (r: Result<MastersEntry, InvalidEntry>)
    ensures
        match spec_fold_masters(spec_empty_masters(), slice_views(records@)) {
            Some(e) => r matches Ok(x) && x@ == e && x.wf(),
            None => r is Err,
        },
{
    let mut entry = MastersEntry::new();
    let mut i: usize = 0;
    while i < records.len()
        invariant
            i <= records@.len(),
            entry.wf(),
            spec_fold_masters(spec_empty_masters(), slice_views(records@).take(i as int)) == Some(entry@),
        decreases records@.len() - i,
    {
        let mut reader = Reader::new(records[i]);
        let ghost ops = slice_views(records@).take(i + 1);
        proof {
            assert(ops.drop_last() =~= slice_views(records@).take(i as int));
            assert(ops.last() == records@[i as int]@);
        }
        match entry.extend_from_reader(&mut reader) {
            Ok(()) => {},
            Err(e) => {
                proof {
                    lemma_fold_masters_none(slice_views(records@), i + 1);
                }
                return Err(e);
            },
        }
        i = i + 1;
    }
    proof {
        assert(slice_views(records@).take(records@.len() as int) =~= slice_views(records@));
    }
    Ok(entry)
}

proof fn lemma_fold_masters_none(ops: Seq<Seq<u8>>, i: int)
    requires
        0 < i <= ops.len(),
        spec_fold_masters(spec_empty_masters(), ops.take(i)) is None,
    ensures
        spec_fold_masters(spec_empty_masters(), ops) is None,
    decreases ops.len() - i,
{
    if i < ops.len() {
        assert(ops.take(i + 1).drop_last() =~= ops.take(i));
        lemma_fold_masters_none(ops, i + 1);
    } else {
        assert(ops.take(i) =~= ops);
    }
}

/// Merges written player entries in order into one entry.
pub fn read_player(records: &[&[u8]]) -> (r: Result<PersonalEntry, InvalidEntry>)
    ensures
        match spec_fold_personal(spec_empty_personal(), slice_views(records@)) {
            Some(e) => r matches Ok(x) && x@ == e && x.wf(),
            None => r is Err,
        },
{
    let mut entry = PersonalEntry::new();
    let mut i: usize = 0;
    while i < records.len()
        invariant
            i <= records@.len(),
            entry.wf(),
            spec_fold_personal(spec_empty_personal(), slice_views(records@).take(i as int)) == Some(entry@),
        decreases records@.len() - i,
    {
        let mut reader = Reader::new(records[i]);
        let ghost ops = slice_views(records@).take(i + 1);
        proof {
            assert(ops.drop_last() =~= slice_views(records@).take(i as int));
            assert(ops.last() == records@[i as int]@);
        }
        match entry.extend_from_reader(&mut reader) {
            Ok(()) => {},
            Err(e) => {
                proof {
                    lemma_fold_personal_none(slice_views(records@), i + 1);
                }
                return Err(e);
            },
        }
        i = i + 1;
    }
    proof {
        assert(slice_views(records@).take(records@.len() as int) =~= slice_views(records@));
    }
    Ok(entry)
}

proof fn lemma_fold_personal_none(ops: Seq<Seq<u8>>, i: int)
    requires
        0 < i <= ops.len(),
        spec_fold_personal(spec_empty_personal(), ops.take(i)) is None,
    ensures
        spec_fold_personal(spec_empty_personal(), ops) is None,
    decreases ops.len() - i,
{
    if i < ops.len() {
        assert(ops.take(i + 1).drop_last() =~= ops.take(i));
        lemma_fold_personal_none(ops, i + 1);
    } else {
        assert(ops.take(i) =~= ops);
    }
}

/// The merge of the lichess column: the written form of the entry that
/// merging the records in order gives; an error when a record cannot be
/// read or a count cannot be written.
pub fn merge_lichess_records(records: &[&[u8]]) -> (r: Result<Vec<u8>, InvalidEntry>)
    ensures
        match spec_fold_lichess(spec_empty_lichess(), slice_views(records@)) {
            Some(e) => if spec_lichess_writable(e) {
                r matches Ok(b) && b@ == spec_write_lichess(e)
            } else {
                r is Err
            },
            None => r is Err,
        },
{
    let entry = fold_lichess(records)?;
    if !entry.is_writable() {
        return Err(InvalidEntry);
    }
    let mut buf: Vec<u8> = Vec::new();
    entry.write(&mut buf);
    Ok(buf)
}

/// The merge of the masters column.
pub fn merge_masters_records(records: &[&[u8]]) -> (r: Result<Vec<u8>, InvalidEntry>)
    ensures
        match spec_fold_masters(spec_empty_masters(), slice_views(records@)) {
            Some(e) => if spec_masters_writable(e) {
                r matches Ok(b) && spec_masters_written(e, b@)
            } else {
                r is Err
            },
            None => r is Err,
        },
{
    let entry = fold_masters(records)?;
    if !entry.is_writable() {
        return Err(InvalidEntry);
    }
    let mut buf: Vec<u8> = Vec::new();
    entry.write(&mut buf);
    proof {
        assert(spec_masters_written(entry@, buf@));
    }
    Ok(buf)
}

/// The merge of the player column.
pub fn merge_player_records(records: &[&[u8]]) -> (r: Result<Vec<u8>, InvalidEntry>)
    ensures
        match spec_fold_personal(spec_empty_personal(), slice_views(records@)) {
            Some(e) => if spec_personal_writable(e) {
                r matches Ok(b) && b@ == spec_personal_moves_bytes(e, 0)
            } else {
                r is Err
            },
            None => r is Err,
        },
{
    let entry = read_player(records)?;
    if !entry.is_writable() {
        return Err(InvalidEntry);
    }
    let mut buf: Vec<u8> = Vec::new();
    entry.write(&mut buf);
    Ok(buf)
}

/// Whether the history of a position is wanted with the answer.
#[derive(Debug, Clone, Copy, PartialEq, Eq, Structural)]
pub enum HistoryWanted {
    No,
    Yes,
}

/// The total under `filter` of the counts of a merged lichess entry.
pub open spec fn spec_filtered_total(e: LichessModel, filter: LichessQueryFilter) -> Stats {
    stats_of_sums(
        spec_group_sum(e.groups, filter.spec_speeds(), filter.spec_ratings(), 0, e.groups.len() as int),
    )
}

/// The month number that a stored key of fourteen bytes ends with.
pub open spec fn spec_key_month(key: Seq<u8>) -> u16 {
    (key[12] * 256 + key[13]) as u16
}

/// The history of the first `n` records of a read range (`keys` and their
/// written entries `ops`, in key order), from the running totals under
/// `filter` of their merge, month by month as the keys give them: the
/// segments, the last running total, and the month from which the next gap
/// is filled. None when a key does not end in a month, the merge cannot be
/// read or its counts overflow, or a running total goes down.
pub open spec fn spec_history_state(
    keys: Seq<Seq<u8>>,
    ops: Seq<Seq<u8>>,
    filter: LichessQueryFilter,
    n: int,
) -> Option<(Seq<HistorySegment>, Stats, Option<Month>)>
    decreases n,
{
    if n <= 0 {
        Some((Seq::empty(), spec_empty_stats(), filter.since))
    } else {
        match spec_history_state(keys, ops, filter, n - 1) {
            None => None,
            Some(st) => spec_history_step(
                st,
                keys[n - 1],
                spec_fold_lichess(spec_empty_lichess(), ops.take(n)),
                filter,
            ),
        }
    }
}

/// One step of a history: after the segments `st.0` with the running total
/// `st.1` and the gap start `st.2`, the record under `key` whose merge with
/// all before it is `merged`.
pub open spec fn spec_history_step(
    st: (Seq<HistorySegment>, Stats, Option<Month>),
    key: Seq<u8>,
    merged: Option<LichessModel>,
    filter: LichessQueryFilter,
) -> Option<(Seq<HistorySegment>, Stats, Option<Month>)> {
    let (segs, last, last_month) = st;
    let m = spec_key_month(key);
    match merged {
        Some(e) => {
            let total = spec_filtered_total(e, filter);
            if key.len() == 14 && Month::spec_from(m).wf() && spec_lichess_sums_fit(e) && spec_le(
                last,
                total,
            ) {
                Some(
                    (
                        segs + match last_month {
                            Some(l) => spec_gap(l.value(), m),
                            None => Seq::empty(),
                        } + seq![HistorySegment { month: Month::spec_from(m), stats: spec_minus(total, last) }],
                        total,
                        Some(Month::spec_from(spec_next_month(m))),
                    ),
                )
            } else {
                None
            }
        },
        None => None,
    }
}

/// The history of a read range: the segments of all its records, without
/// the last month when the filter has no end, as that month may not be
/// over.
pub open spec fn spec_history(keys: Seq<Seq<u8>>, ops: Seq<Seq<u8>>, filter: LichessQueryFilter) -> Option<
    Seq<HistorySegment>,
> {
    match spec_history_state(keys, ops, filter, keys.len() as int) {
        Some((segs, _, _)) => Some(
            if filter.until is None && segs.len() > 0 {
                segs.drop_last()
            } else {
                segs
            },
        ),
        None => None,
    }
}

proof fn lemma_history_none(keys: Seq<Seq<u8>>, ops: Seq<Seq<u8>>, filter: LichessQueryFilter, i: int, n: int)
    requires
        0 <= i <= n,
        spec_history_state(keys, ops, filter, i) is None,
    ensures
        spec_history_state(keys, ops, filter, n) is None,
    decreases n - i,
{
    if i < n {
        lemma_history_none(keys, ops, filter, i + 1, n);
    }
}

/// Why a read range of the lichess column cannot be answered.
#[derive(Debug, Clone, Copy, PartialEq, Eq, Structural)]
pub enum ReadError {
    /// A stored entry cannot be read, or its counts overflow.
    InvalidEntry,
    /// A stored key does not end in a month.
    InvalidKey,
}

/// One record's step of the history: notes the running total under
/// `filter` of the merge so far, for the month that the record's key ends
/// with.
fn record_history_step(
    b: &mut HistoryBuilder,
    key: &[u8],
    entry: &LichessEntry,
    filter: &LichessQueryFilter,
    Ghost(keys): Ghost<Seq<Seq<u8>>>,
    Ghost(ops): Ghost<Seq<Seq<u8>>>,
    Ghost(n): Ghost<int>,
) -> (r: Result<(), ReadError>)
    requires
        1 <= n <= keys.len(),
        n <= ops.len(),
        keys[n - 1] == key@,
        entry.wf(),
        spec_fold_lichess(spec_empty_lichess(), ops.take(n)) == Some(entry@),
        spec_history_state(keys, ops, *filter, n - 1) == Some(
            (old(b).spec_segments(), old(b).spec_last_total(), old(b).spec_last_month()),
        ),
    ensures
        r is Ok <==> spec_history_state(keys, ops, *filter, n) is Some,
        r is Ok ==> spec_history_state(keys, ops, *filter, n) == Some(
            (final(b).spec_segments(), final(b).spec_last_total(), final(b).spec_last_month()),
        ),
        final(b).spec_until_is_none() == old(b).spec_until_is_none(),
{
    let ghost st = (b.spec_segments(), b.spec_last_total(), b.spec_last_month());
    let r = record_step(b, key, entry, filter);
    proof {
        assert(spec_history_state(keys, ops, *filter, n) == spec_history_step(st, keys[n - 1], Some(entry@), *filter));
    }
    r
}

/// Records the running total under `filter` of `entry` for the month that
/// `key` ends with.
fn record_step(b: &mut HistoryBuilder, key: &[u8], entry: &LichessEntry, filter: &LichessQueryFilter) -> (r: Result<(), ReadError>)
    requires
        entry.wf(),
    ensures
        ({
            let st = (old(b).spec_segments(), old(b).spec_last_total(), old(b).spec_last_month());
            &&& r is Ok <==> spec_history_step(st, key@, Some(entry@), *filter) is Some
            &&& r is Ok ==> spec_history_step(st, key@, Some(entry@), *filter) == Some(
                (final(b).spec_segments(), final(b).spec_last_total(), final(b).spec_last_month()),
            )
        }),
        final(b).spec_until_is_none() == old(b).spec_until_is_none(),
{
    let month = match Key::try_from_slice(key) {
        Ok(k) => match k.month() {
            Ok(m) => m,
            Err(_) => {
                return Err(ReadError::InvalidKey);
            },
        },
        Err(_) => {
            return Err(ReadError::InvalidKey);
        },
    };
    if !entry.sums_fit() {
        return Err(ReadError::InvalidEntry);
    }
    let total = entry.total(filter);
    proof {
        Month::lemma_from(spec_key_month(key@));
        Month::lemma_eq(month, Month::spec_from(spec_key_month(key@)));
    }
    if !b.can_record(month, &total) {
        return Err(ReadError::InvalidEntry);
    }
    b.record_difference(month, total);
    Ok(())
}

/// Answers a query of the lichess explorer from the records of the key
/// range, in key order: merges them, prepares the answer under `filter` and
/// `limits`, and when the history is wanted records after each record the
/// total under `filter` for the month of its key.
pub fn read_lichess(
    items: &[(Vec<u8>, Vec<u8>)],
    filter: &LichessQueryFilter,
    limits: &Limits,
    history: HistoryWanted,
) -> (r: Result<(PreparedResponse, Option<History>), ReadError>)
    ensures
        ({
            let keys = items@.map_values(|x: (Vec<u8>, Vec<u8>)| x.0@);
            let ops = items@.map_values(|x: (Vec<u8>, Vec<u8>)| x.1@);
            &&& r matches Ok((p, h)) ==> {
                &&& spec_fold_lichess(spec_empty_lichess(), ops) matches Some(e)
                    && spec_lichess_prepared(e, *filter, *limits, p)
                &&& history == HistoryWanted::No ==> h is None
                &&& history == HistoryWanted::Yes ==> (h matches Some(hv) && spec_history(
                    keys,
                    ops,
                    *filter,
                ) == Some(hv@))
            }
            &&& (r is Ok <==> (spec_fold_lichess(spec_empty_lichess(), ops) matches Some(e)
                && spec_lichess_sums_fit(e) && (history == HistoryWanted::Yes ==> spec_history(
                keys,
                ops,
                *filter,
            ) is Some)))
        }),
{
    let ghost ops = items@.map_values(|x: (Vec<u8>, Vec<u8>)| x.1@);
    let ghost keys = items@.map_values(|x: (Vec<u8>, Vec<u8>)| x.0@);
    let mut entry = LichessEntry::new();
    let mut builder = match history {
        HistoryWanted::No => None,
        HistoryWanted::Yes => Some(HistoryBuilder::new_between(filter.since, filter.until)),
    };
    let mut i: usize = 0;
    while i < items.len()
        invariant
            i <= items@.len(),
            entry.wf(),
            ops == items@.map_values(|x: (Vec<u8>, Vec<u8>)| x.1@),
            spec_fold_lichess(spec_empty_lichess(), ops.take(i as int)) == Some(entry@),
            (builder is Some <==> history == HistoryWanted::Yes),
            keys == items@.map_values(|x: (Vec<u8>, Vec<u8>)| x.0@),
            builder matches Some(b) ==> {
                &&& spec_history_state(keys, ops, *filter, i as int) == Some(
                    (b.spec_segments(), b.spec_last_total(), b.spec_last_month()),
                )
                &&& b.spec_until_is_none() == (filter.until is None)
            },
        decreases items@.len() - i,
    {
        let mut reader = Reader::new(items[i].1.as_slice());
        proof {
            assert(ops.take(i + 1).drop_last() =~= ops.take(i as int));
            assert(ops.take(i + 1).last() == items@[i as int].1@);
        }
        match entry.extend_from_reader(&mut reader) {
            Ok(()) => {},
            Err(_) => {
                proof {
                    lemma_fold_lichess_none(ops, i + 1);
                }
                return Err(ReadError::InvalidEntry);
            },
        }
        proof {
            assert(keys[i as int] == items@[i as int].0@);
        }
        match builder {
            Some(ref mut b) => {
                let step = record_history_step(
                    b,
                    items[i].0.as_slice(),
                    &entry,
                    filter,
                    Ghost(keys),
                    Ghost(ops),
                    Ghost(i + 1),
                );
                if step.is_err() {
                    proof {
                        lemma_history_none(keys, ops, *filter, i + 1, items@.len() as int);
                    }
                    return Err(step.unwrap_err());
                }
            },
            None => {},
        }
        i = i + 1;
    }
    proof {
        assert(ops.take(items@.len() as int) =~= ops);
    }
    if !entry.sums_fit() {
        return Err(ReadError::InvalidEntry);
    }
    let prepared = entry.prepare(filter, limits);
    let h = match builder {
        Some(b) => Some(b.build()),
        None => None,
    };
    Ok((prepared, h))
}

} // verus!
