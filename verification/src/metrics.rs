//! Counters of the explorer's requests, by source and by ply, for all
//! requests and for the slow ones, and their report as an Influx line.
use vstd::prelude::*;

use crate::text::{push_dec_text, push_str, spec_dec_text, string_push};

verus! {

/// Where a request comes from.
#[derive(Debug, Clone, Copy, PartialEq, Eq, Structural)]
pub enum Source {
    Analysis,
    Mobile,
    Fishnet,
    Opening,
    OpeningCrawler,
}

/// The width of a ply group.
pub const PLY_GROUP_WIDTH: u32 = 5;

/// Requests counted by ply, in groups of five plies; requests from ply 50
/// on are not counted.
#[derive(Debug, Clone, Copy)]
pub struct PlyMetrics {
    pub groups: [u64; 10],
}

/// One more, wrapping around.
pub open spec fn spec_wrap_inc(v: u64) -> u64 {
    if v == u64::MAX {
        0
    } else {
        (v + 1) as u64
    }
}

/// The counters after a request at `ply`: its group counts one more,
/// wrapping around.
pub open spec fn spec_ply_inc(groups: Seq<u64>, ply: u32) -> Seq<u64> {
    let g = ply / 5;
    if g < 10 {
        groups.update(g as int, spec_wrap_inc(groups[g as int]))
    } else {
        groups
    }
}

/// One counter as an Influx field: `PREFIXNAME=VALUEu`.
pub open spec fn spec_field(prefix: Seq<char>, name: Seq<char>, v: u64) -> Seq<char> {
    prefix + name + seq!['='] + spec_dec_text(v as nat) + seq!['u']
}

/// The ply groups from `i` on as Influx fields, each named by its first
/// ply, separated by commas.
pub open spec fn spec_ply_fields(groups: Seq<u64>, prefix: Seq<char>, i: nat) -> Seq<char>
    decreases 10 - i,
{
    if i >= 10 {
        Seq::empty()
    } else {
        (if i > 0 {
            seq![',']
        } else {
            Seq::empty()
        }) + spec_field(prefix, spec_dec_text(5 * i), groups[i as int]) + spec_ply_fields(
            groups,
            prefix,
            i + 1,
        )
    }
}

impl PlyMetrics {
    /// No request counted.
    pub fn new() -> (m: PlyMetrics)
        ensures
            m.groups@ == Seq::new(10, |i: int| 0u64),
    {
        let m = PlyMetrics { groups: [0u64; 10] };
        proof {
            assert(m.groups@ =~= Seq::new(10, |i: int| 0u64));
        }
        m
    }

    /// Counts a request at `ply`.
    pub fn inc(&mut self, ply: u32)
        ensures
            final(self).groups@ == spec_ply_inc(old(self).groups@, ply),
    {
        let g = (ply / PLY_GROUP_WIDTH) as usize;
        if g < 10 {
            let v = self.groups[g].wrapping_add(1);
            self.groups[g] = v;
            proof {
                assert(final(self).groups@ =~= spec_ply_inc(old(self).groups@, ply));
            }
        }
    }

    /// The counters as Influx fields named `PREFIX0`, `PREFIX5`, ...,
    /// `PREFIX45`.
    pub fn to_influx_string(&self, field_prefix: &str) -> (s: String)
        ensures
            s@ == spec_ply_fields(self.groups@, field_prefix@, 0),
    {
        let mut s = String::new();
        let mut i: usize = 10;
        let mut tail = String::new();
        while i > 0
            invariant
                i <= 10,
                tail@ == spec_ply_fields(self.groups@, field_prefix@, i as nat),
            decreases i,
        {
            i = i - 1;
            let mut f = String::new();
            if i > 0 {
                string_push(&mut f, ',');
            }
            push_str(&mut f, field_prefix);
            push_dec_text(&mut f, (5 * i) as u64);
            string_push(&mut f, '=');
            push_dec_text(&mut f, self.groups[i]);
            string_push(&mut f, 'u');
            push_str(&mut f, tail.as_str());
            proof {
                assert(f@ =~= spec_ply_fields(self.groups@, field_prefix@, i as nat));
            }
            tail = f;
        }
        push_str(&mut s, tail.as_str());
        proof {
            assert(s@ =~= tail@);
        }
        s
    }
}

/// Requests counted by kind, by source and by ply.
#[derive(Debug, Clone, Copy)]
pub struct HitMetrics {
    pub lichess_miss: u64,
    pub masters_miss: u64,
    pub source_none: u64,
    pub source_analysis_lichess: u64,
    pub source_analysis_masters: u64,
    pub source_analysis_player: u64,
    pub source_analysis_player_incomplete: u64,
    pub source_fishnet: u64,
    pub source_opening: u64,
    pub source_opening_crawler: u64,
    pub lichess_ply: PlyMetrics,
    pub masters_ply: PlyMetrics,
    pub player_ply: PlyMetrics,
}

/// No request counted.
pub open spec fn spec_is_zero(h: HitMetrics) -> bool {
    &&& h.lichess_miss == 0 && h.masters_miss == 0 && h.source_none == 0
    &&& h.source_analysis_lichess == 0 && h.source_analysis_masters == 0
    &&& h.source_analysis_player == 0 && h.source_analysis_player_incomplete == 0
    &&& h.source_fishnet == 0 && h.source_opening == 0 && h.source_opening_crawler == 0
    &&& h.lichess_ply.groups@ == Seq::new(10, |i: int| 0u64)
    &&& h.masters_ply.groups@ == Seq::new(10, |i: int| 0u64)
    &&& h.player_ply.groups@ == Seq::new(10, |i: int| 0u64)
}

/// The counters after a request from `source` to the lichess explorer
/// (`lichess`) or the masters explorer: the counter of the source counts
/// one more, analysis and mobile requests on the counter of the explorer.
pub open spec fn spec_inc_source(h: HitMetrics, source: Option<Source>, lichess: bool) -> HitMetrics {
    match source {
        None => HitMetrics { source_none: spec_wrap_inc(h.source_none), ..h },
        Some(Source::Analysis) | Some(Source::Mobile) => if lichess {
            HitMetrics { source_analysis_lichess: spec_wrap_inc(h.source_analysis_lichess), ..h }
        } else {
            HitMetrics { source_analysis_masters: spec_wrap_inc(h.source_analysis_masters), ..h }
        },
        Some(Source::Fishnet) => HitMetrics { source_fishnet: spec_wrap_inc(h.source_fishnet), ..h },
        Some(Source::Opening) => HitMetrics { source_opening: spec_wrap_inc(h.source_opening), ..h },
        Some(Source::OpeningCrawler) => HitMetrics {
            source_opening_crawler: spec_wrap_inc(h.source_opening_crawler),
            ..h
        },
    }
}


/// `after` counts one more request to the lichess explorer than `before`:
/// one more miss, one more for its source and one more for its ply group,
/// nothing else changed.
pub open spec fn spec_lichess_counted(
    before: HitMetrics,
    after: HitMetrics,
    source: Option<Source>,
    ply: u32,
) -> bool {
    let h = spec_inc_source(
        HitMetrics { lichess_miss: spec_wrap_inc(before.lichess_miss), ..before },
        source,
        true,
    );
    &&& after.lichess_ply.groups@ == spec_ply_inc(before.lichess_ply.groups@, ply)
    &&& after == HitMetrics { lichess_ply: after.lichess_ply, ..h }
}

/// `after` counts one more request to the masters explorer than `before`:
/// one more miss, one more for its source and one more for its ply group,
/// nothing else changed.
pub open spec fn spec_masters_counted(
    before: HitMetrics,
    after: HitMetrics,
    source: Option<Source>,
    ply: u32,
) -> bool {
    let h = spec_inc_source(
        HitMetrics { masters_miss: spec_wrap_inc(before.masters_miss), ..before },
        source,
        false,
    );
    &&& after.masters_ply.groups@ == spec_ply_inc(before.masters_ply.groups@, ply)
    &&& after == HitMetrics { masters_ply: after.masters_ply, ..h }
}

/// `after` counts one more response of the player explorer than `before`:
/// one more complete or incomplete one and one more for its ply group,
/// nothing else changed.
pub open spec fn spec_player_counted(before: HitMetrics, after: HitMetrics, done: bool, ply: u32) -> bool {
    &&& after.player_ply.groups@ == spec_ply_inc(before.player_ply.groups@, ply)
    &&& after == if done {
        HitMetrics {
            source_analysis_player: spec_wrap_inc(before.source_analysis_player),
            player_ply: after.player_ply,
            ..before
        }
    } else {
        HitMetrics {
            source_analysis_player_incomplete: spec_wrap_inc(before.source_analysis_player_incomplete),
            player_ply: after.player_ply,
            ..before
        }
    }
}

/// The counters of one kind of request as Influx fields.
pub open spec fn spec_hit_fields(h: HitMetrics, p: Seq<char>) -> Seq<char> {
    spec_field(p, "source_none"@, h.source_none) + seq![','] + spec_field(
        p,
        "source_analysis_lichess"@,
        h.source_analysis_lichess,
    ) + seq![','] + spec_field(p, "source_analysis_masters"@, h.source_analysis_masters) + seq![
        ',',
    ] + spec_field(p, "source_fishnet"@, h.source_fishnet) + seq![','] + spec_field(
        p,
        "source_opening"@,
        h.source_opening,
    ) + seq![','] + spec_field(p, "source_opening_crawler"@, h.source_opening_crawler) + seq![
        ',',
    ] + spec_field(p, "source_analysis_player"@, h.source_analysis_player) + seq![','] + spec_field(
        p,
        "source_analysis_player_incomplete"@,
        h.source_analysis_player_incomplete,
    ) + seq![','] + spec_ply_fields(h.lichess_ply.groups@, p + "lichess_ply_"@, 0) + seq![','] + spec_ply_fields(
        h.masters_ply.groups@,
        p + "masters_ply_"@,
        0,
    ) + seq![','] + spec_ply_fields(h.player_ply.groups@, p + "player_ply_"@, 0)
}

/// Appends `,` and then a counter as an Influx field.
fn push_field(s: &mut String, comma: bool, prefix: &str, name: &str, v: u64)
    ensures
        final(s)@ == old(s)@ + (if comma {
            seq![',']
        } else {
            Seq::empty()
        }) + spec_field(prefix@, name@, v),
{
    let ghost start = s@;
    if comma {
        string_push(s, ',');
    }
    push_str(s, prefix);
    push_str(s, name);
    string_push(s, '=');
    push_dec_text(s, v);
    string_push(s, 'u');
    proof {
        assert(s@ =~= start + (if comma {
            seq![',']
        } else {
            Seq::empty()
        }) + spec_field(prefix@, name@, v));
    }
}

/// `prefix` followed by `name`.
fn prefixed(prefix: &str, name: &str) -> (s: String)
    ensures
        s@ == prefix@ + name@,
{
    let mut s = String::new();
    push_str(&mut s, prefix);
    push_str(&mut s, name);
    s
}

impl HitMetrics {
    /// No request counted.
    pub fn new() -> (h: HitMetrics)
        ensures
            spec_is_zero(h),
    {
        HitMetrics {
            lichess_miss: 0,
            masters_miss: 0,
            source_none: 0,
            source_analysis_lichess: 0,
            source_analysis_masters: 0,
            source_analysis_player: 0,
            source_analysis_player_incomplete: 0,
            source_fishnet: 0,
            source_opening: 0,
            source_opening_crawler: 0,
            lichess_ply: PlyMetrics::new(),
            masters_ply: PlyMetrics::new(),
            player_ply: PlyMetrics::new(),
        }
    }

    fn inc_source(&mut self, source: Option<Source>, lichess: bool)
        ensures
            *final(self) == spec_inc_source(*old(self), source, lichess),
    {
        match source {
            None => self.source_none = self.source_none.wrapping_add(1),
            Some(Source::Analysis) | Some(Source::Mobile) => if lichess {
                self.source_analysis_lichess = self.source_analysis_lichess.wrapping_add(1);
            } else {
                self.source_analysis_masters = self.source_analysis_masters.wrapping_add(1);
            },
            Some(Source::Fishnet) => self.source_fishnet = self.source_fishnet.wrapping_add(1),
            Some(Source::Opening) => self.source_opening = self.source_opening.wrapping_add(1),
            Some(Source::OpeningCrawler) => self.source_opening_crawler =
                self.source_opening_crawler.wrapping_add(1),
        }
    }

    /// Counts a request to the lichess explorer: one more miss, one more
    /// for its source and one more for its ply group.
    pub fn inc_lichess(&mut self, source: Option<Source>, ply: u32)
        ensures
            spec_lichess_counted(*old(self), *final(self), source, ply),
    {
        self.lichess_miss = self.lichess_miss.wrapping_add(1);
        self.inc_source(source, true);
        self.lichess_ply.inc(ply);
    }

    /// Counts a request to the masters explorer: one more miss, one more
    /// for its source and one more for its ply group.
    pub fn inc_masters(&mut self, source: Option<Source>, ply: u32)
        ensures
            spec_masters_counted(*old(self), *final(self), source, ply),
    {
        self.masters_miss = self.masters_miss.wrapping_add(1);
        self.inc_source(source, false);
        self.masters_ply.inc(ply);
    }

    /// Counts a response of the player explorer: one more complete or
    /// incomplete one, and one more for its ply group.
    pub fn inc_player(&mut self, done: bool, ply: u32)
        ensures
            spec_player_counted(*old(self), *final(self), done, ply),
    {
        if done {
            self.source_analysis_player = self.source_analysis_player.wrapping_add(1);
        } else {
            self.source_analysis_player_incomplete = self.source_analysis_player_incomplete.wrapping_add(
                1,
            );
        }
        self.player_ply.inc(ply);
    }

    /// The counters as Influx fields, each name after `field_prefix`.
    pub fn to_influx_string(&self, field_prefix: &str) -> (s: String)
        ensures
            s@ == spec_hit_fields(*self, field_prefix@),
    {
        let mut s = String::new();
        push_field(&mut s, false, field_prefix, "source_none", self.source_none);
        push_field(&mut s, true, field_prefix, "source_analysis_lichess", self.source_analysis_lichess);
        push_field(&mut s, true, field_prefix, "source_analysis_masters", self.source_analysis_masters);
        push_field(&mut s, true, field_prefix, "source_fishnet", self.source_fishnet);
        push_field(&mut s, true, field_prefix, "source_opening", self.source_opening);
        push_field(&mut s, true, field_prefix, "source_opening_crawler", self.source_opening_crawler);
        push_field(&mut s, true, field_prefix, "source_analysis_player", self.source_analysis_player);
        push_field(
            &mut s,
            true,
            field_prefix,
            "source_analysis_player_incomplete",
            self.source_analysis_player_incomplete,
        );
        let ghost head = s@;
        string_push(&mut s, ',');
        let p = prefixed(field_prefix, "lichess_ply_");
        push_str(&mut s, self.lichess_ply.to_influx_string(p.as_str()).as_str());
        string_push(&mut s, ',');
        let p = prefixed(field_prefix, "masters_ply_");
        push_str(&mut s, self.masters_ply.to_influx_string(p.as_str()).as_str());
        string_push(&mut s, ',');
        let p = prefixed(field_prefix, "player_ply_");
        push_str(&mut s, self.player_ply.to_influx_string(p.as_str()).as_str());
        proof {
            assert(s@ =~= spec_hit_fields(*self, field_prefix@));
        }
        s
    }
}

/// The threshold in milliseconds from which a request is slow.
pub const SLOW_DURATION_MS: u64 = 500;

/// The counters of all requests and of the slow ones, and whether the
/// deploy event was sent.
#[derive(Debug, Clone, Copy)]
pub struct Metrics {
    pub deploy_event_sent: bool,
    pub hit: HitMetrics,
    pub slow_hit: HitMetrics,
}

impl Metrics {
    /// No request counted, no deploy event sent.
    pub fn new() -> (m: Metrics)
        ensures
            !m.deploy_event_sent,
            spec_is_zero(m.hit),
            spec_is_zero(m.slow_hit),
    {
        Metrics { deploy_event_sent: false, hit: HitMetrics::new(), slow_hit: HitMetrics::new() }
    }

    /// Marks the deploy event sent, telling whether it was before.
    pub fn fetch_set_deploy_event_sent(&mut self) -> (was: bool)
        ensures
            was == old(self).deploy_event_sent,
            final(self).deploy_event_sent,
            final(self).hit == old(self).hit,
            final(self).slow_hit == old(self).slow_hit,
    {
        let was = self.deploy_event_sent;
        self.deploy_event_sent = true;
        was
    }

    /// All counters as Influx fields: those of all requests, then those of
    /// the slow ones with the prefix `slow_`.
    pub fn to_influx_string(&self) -> (s: String)
        ensures
            s@ == spec_hit_fields(self.hit, Seq::empty()) + seq![','] + spec_hit_fields(
                self.slow_hit,
                "slow_"@,
            ),
    {
        let mut s = self.hit.to_influx_string("");
        string_push(&mut s, ',');
        push_str(&mut s, self.slow_hit.to_influx_string("slow_").as_str());
        proof {
            reveal_strlit("");
        }
        s
    }

    /// Counts a request to the lichess explorer that took `duration_ms`
    /// milliseconds, also as slow if it took at least half a second.
    pub fn inc_lichess(&mut self, duration_ms: u64, source: Option<Source>, ply: u32)
        ensures
            final(self).deploy_event_sent == old(self).deploy_event_sent,
            spec_lichess_counted(old(self).hit, final(self).hit, source, ply),
            duration_ms >= SLOW_DURATION_MS ==> spec_lichess_counted(old(self).slow_hit, final(self).slow_hit, source, ply),
            duration_ms < SLOW_DURATION_MS ==> final(self).slow_hit == old(self).slow_hit,
    {
        self.hit.inc_lichess(source, ply);
        if SLOW_DURATION_MS <= duration_ms {
            self.slow_hit.inc_lichess(source, ply);
        }
    }

    /// Counts a request to the masters explorer that took `duration_ms`
    /// milliseconds, also as slow if it took at least half a second.
    pub fn inc_masters(&mut self, duration_ms: u64, source: Option<Source>, ply: u32)
        ensures
            final(self).deploy_event_sent == old(self).deploy_event_sent,
            spec_masters_counted(old(self).hit, final(self).hit, source, ply),
            duration_ms >= SLOW_DURATION_MS ==> spec_masters_counted(old(self).slow_hit, final(self).slow_hit, source, ply),
            duration_ms < SLOW_DURATION_MS ==> final(self).slow_hit == old(self).slow_hit,
    {
        self.hit.inc_masters(source, ply);
        if SLOW_DURATION_MS <= duration_ms {
            self.slow_hit.inc_masters(source, ply);
        }
    }

    /// Counts a response of the player explorer that took `duration_ms`
    /// milliseconds, also as slow if it took at least half a second.
    pub fn inc_player(&mut self, duration_ms: u64, done: bool, ply: u32)
        ensures
            final(self).deploy_event_sent == old(self).deploy_event_sent,
            spec_player_counted(old(self).hit, final(self).hit, done, ply),
            duration_ms >= SLOW_DURATION_MS ==> spec_player_counted(old(self).slow_hit, final(self).slow_hit, done, ply),
            duration_ms < SLOW_DURATION_MS ==> final(self).slow_hit == old(self).slow_hit,
    {
        self.hit.inc_player(done, ply);
        if SLOW_DURATION_MS <= duration_ms {
            self.slow_hit.inc_player(done, ply);
        }
    }
}

} // verus!
