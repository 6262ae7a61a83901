use std::str::FromStr;
use lila_openingexplorer::buf::Reader;
use lila_openingexplorer::chess::{ChessVariant, Color, LilaVariant, Outcome, Square, Uci};
use lila_openingexplorer::date::{year_month_of_millis, LaxDate, Month, Year};
use lila_openingexplorer::db::{
    month_range, merge_lichess_records, read_lichess, read_player, CacheHint, DbStats,
    HistoryWanted,
};
use lila_openingexplorer::game::{ByColor, GamePlayer, LichessGame};
use lila_openingexplorer::game_id::GameId;
use lila_openingexplorer::game_info::{GameInfo, GameInfoPlayer};
use lila_openingexplorer::importer::{
    check_masters_duplicate, check_masters_import, masters_import_records, pgn_text, prepare_lichess_import, write_pgn,
    ImportError, LichessGameImport, MastersGame, MastersGameWithId,
};
use lila_openingexplorer::indexer::{game_side, index_game_records, Game, Player, Status, User};
use lila_openingexplorer::key::{KeyBuilder, ZobristKey};
use lila_openingexplorer::lichess::LichessEntry;
use lila_openingexplorer::metrics::{Metrics, PlyMetrics, Source};
use lila_openingexplorer::mode::{ByMode, Mode};
use lila_openingexplorer::opening::{OpeningError, OpeningRecord, Openings, Play};
use lila_openingexplorer::personal::{PersonalEntry, PersonalStatus};
use lila_openingexplorer::pgn_import::Importer;
use lila_openingexplorer::pgn_index::Indexer;
use lila_openingexplorer::query::{LichessQueryFilter, Limits, PlayerLimits, PlayerQueryFilter};
use lila_openingexplorer::queue::{QueueFull, QueueState};
use lila_openingexplorer::replay::{
    parse_sans, replay_game, replay_sans, replay_ucis, sans_of_ucis, start_position, ReplayError,
    MAX_PLIES,
};
use lila_openingexplorer::stats::Stats;
use lila_openingexplorer::history::HistoryBuilder;
use lila_openingexplorer::response::{
    dedup_progress, finalize_masters_games, is_new_progress, repeats_first_response,
};
use lila_openingexplorer::speed::Speed;
use lila_openingexplorer::user::{UserId, UserName};
use lila_openingexplorer::year::AnnoLichess;

fn game_id(s: &str) -> GameId {
    GameId::from_bytes(s.as_bytes()).ok().unwrap()
}

fn uci(from: u32, to: u32) -> Uci {
    Uci::Normal {
        from: Square::new(from),
        to: Square::new(to),
        promotion: None,
    }
}

fn strings(moves: &str) -> Vec<String> {
    moves.split(' ').map(|m| m.to_string()).collect()
}

fn player(name: &str, rating: u16) -> GamePlayer {
    GamePlayer {
        name: name.to_string(),
        rating,
    }
}

fn masters_game(white: u16, black: u16, date: &str, moves: Vec<Uci>) -> MastersGameWithId {
    MastersGameWithId {
        id: game_id("aaaaaaaa"),
        game: MastersGame {
            event: "Ev".to_string(),
            site: "Si".to_string(),
            date: LaxDate::parse(date.as_bytes()).ok().unwrap(),
            round: "1".to_string(),
            players: ByColor {
                white: player("A", white),
                black: player("B", black),
            },
            winner: Some(Color::White),
            moves,
        },
    }
}

fn user_id(name: &str) -> UserId {
    UserId::from_name(UserName::from_bytes(name.as_bytes()).ok().unwrap())
}

fn lila_player(name: Option<&str>, rating: Option<u16>) -> Player {
    Player {
        user: name.map(|n| User {
            name: UserName::from_bytes(n.as_bytes()).ok().unwrap(),
        }),
        rating,
    }
}

fn lila_game(status: Status, black_rating: Option<u16>) -> Game {
    Game {
        id: game_id("abcdefgh"),
        rated: true,
        created_at: 1000,
        last_move_year: 2021,
        last_move_month: 3,
        status,
        variant: LilaVariant::Standard,
        players: ByColor {
            white: lila_player(Some("Alice"), Some(1500)),
            black: lila_player(Some("Bob"), black_rating),
        },
        speed: Speed::Blitz,
        moves: strings("e4 e5 Nf3"),
        winner: Some(Color::Black),
        initial_fen: None,
    }
}

#[test]
fn replay_standard_moves() {
    let pos = start_position(ChessVariant::Chess, None).ok().unwrap();
    let sans = strings("e4 e5 Nf3");
    let plies = replay_sans(pos, &sans, MAX_PLIES, false).ok().unwrap();
    assert_eq!(plies.len(), 3);
    assert_eq!(plies[0].1, (uci(12, 28), Color::White));
    assert_eq!(plies[1].1, (uci(52, 36), Color::Black));
    assert_eq!(plies[2].1, (uci(6, 21), Color::White));
    assert_ne!(plies[0].0, plies[1].0);
}

#[test]
fn replay_illegal_move_fails_or_cuts_off() {
    let sans = strings("e4 e4");
    let pos = start_position(ChessVariant::Chess, None).ok().unwrap();
    assert_eq!(
        replay_sans(pos, &sans, MAX_PLIES, false).err(),
        Some(ReplayError::IllegalSan)
    );
    let pos = start_position(ChessVariant::Chess, None).ok().unwrap();
    assert_eq!(replay_sans(pos, &sans, MAX_PLIES, true).ok().unwrap().len(), 1);
    assert!(parse_sans(&strings("e4 ??")).is_none());
}

#[test]
fn replay_limits_plies() {
    let pos = start_position(ChessVariant::Chess, None).ok().unwrap();
    let sans = strings("e4 e5 Nf3 Nc6");
    assert_eq!(replay_sans(pos, &sans, 2, false).ok().unwrap().len(), 2);
}

#[test]
fn start_position_errors() {
    assert_eq!(
        start_position(ChessVariant::Chess, Some("not a fen")).err(),
        Some(ReplayError::InvalidFen)
    );
    assert_eq!(
        start_position(ChessVariant::Chess, Some("8/8/8/8/8/8/8/8 w - - 0 1")).err(),
        Some(ReplayError::InvalidPosition)
    );
}

#[test]
fn replay_ucis_gives_last_position() {
    let (plies, last) = replay_ucis(&[uci(12, 28), uci(52, 36)]).ok().unwrap();
    assert_eq!(plies.len(), 2);
    assert_eq!(last, Some(plies[1].0));
    assert_eq!(replay_ucis(&[uci(12, 36)]).err(), Some(ReplayError::IllegalUci));
    let (none, last) = replay_ucis(&[]).ok().unwrap();
    assert!(none.is_empty());
    assert_eq!(last, None);
}

#[test]
fn sans_of_scholars_mate() {
    // e4 e5 Qh5 Nc6 Bc4 Nf6 Qxf7#
    let moves = [
        uci(12, 28),
        uci(52, 36),
        uci(3, 39),
        uci(57, 42),
        uci(5, 26),
        uci(62, 45),
        uci(39, 53),
    ];
    let sans = sans_of_ucis(&moves).ok().unwrap();
    assert_eq!(sans, strings("e4 e5 Qh5 Nc6 Bc4 Nf6 Qxf7#"));
}

#[test]
fn pgn_of_masters_game() {
    let body = masters_game(2500, 2400, "2020.01.02", vec![uci(12, 28), uci(52, 36)]);
    let pgn = write_pgn(&body.game).ok().unwrap();
    assert_eq!(
        pgn,
        "[Event \"Ev\"]\n[Site \"Si\"]\n[Date \"2020.01.02\"]\n[Round \"1\"]\n[White \"A\"]\n[Black \"B\"]\n[Result \"1-0\"]\n[WhiteElo \"2500\"]\n[BlackElo \"2400\"]\n\n1. e4 e5 1-0\n"
    );
    let empty = masters_game(2500, 2400, "2020.01.02", vec![]);
    assert!(pgn_text(&empty.game, &[]).ends_with("\n\n1-0\n"));
}

#[test]
fn masters_import_checks() {
    let low = masters_game(2100, 2200, "2020.01.02", vec![]);
    assert_eq!(
        check_masters_import(&low).err(),
        Some(ImportError::RejectedRating {
            id: game_id("aaaaaaaa"),
            rating: 2150
        })
    );
    let late = masters_game(2500, 2500, "2023.01.01", vec![]);
    assert_eq!(
        check_masters_import(&late).err(),
        Some(ImportError::RejectedDate {
            id: game_id("aaaaaaaa"),
            date: late.game.date
        })
    );
    let ok = masters_game(2500, 2500, "2020.01.02", vec![]);
    assert_eq!(check_masters_import(&ok).ok().unwrap().to_u16(), 2020);
}

#[test]
fn masters_import_writes_each_position() {
    let body = masters_game(2500, 2400, "2020.01.02", vec![uci(12, 28), uci(52, 36)]);
    let year = check_masters_import(&body).ok().unwrap();
    let imp = masters_import_records(&body, year).ok().unwrap();
    assert_eq!(imp.entries.len(), 2);
    assert!(imp.final_key.is_some());
    let illegal = masters_game(2500, 2400, "2020.01.02", vec![uci(12, 36)]);
    assert_eq!(
        masters_import_records(&illegal, year).err(),
        Some(ImportError::Replay(ReplayError::IllegalUci))
    );
}

fn lichess_import(date: &str, moves: &str) -> LichessGameImport {
    LichessGameImport {
        variant: ChessVariant::Chess,
        speed: Speed::Blitz,
        fen: None,
        id: game_id("bbbbbbbb"),
        date: LaxDate::parse(date.as_bytes()).ok().unwrap(),
        players: ByColor {
            white: player("A", 2000),
            black: player("B", 2200),
        },
        winner: None,
        moves: strings(moves),
    }
}

#[test]
fn lichess_import_cases() {
    let g = lichess_import("2021.04.05", "e4 e5");
    assert!(prepare_lichess_import(&g, true).ok().unwrap().is_none());
    let imp = prepare_lichess_import(&g, false).ok().unwrap().unwrap();
    assert_eq!(imp.entries.len(), 2);
    assert!(imp.game.indexed_lichess);
    assert_eq!(imp.game.mode, Mode::Rated);
    assert_eq!(imp.game.outcome, Outcome::Draw);
    assert_eq!(imp.game.month, Month::parse(b"2021-04").ok().unwrap());
    let no_month = lichess_import("2021.??.??", "e4");
    assert_eq!(
        prepare_lichess_import(&no_month, false).err(),
        Some(ImportError::RejectedDate {
            id: game_id("bbbbbbbb"),
            date: no_month.date
        })
    );
    let illegal = lichess_import("2021.04.05", "e5");
    assert_eq!(
        prepare_lichess_import(&illegal, false).err(),
        Some(ImportError::Replay(ReplayError::IllegalSan))
    );
}

#[test]
fn game_side_notes_status() {
    let id = user_id("alice");
    let mut status = PersonalStatus::default();
    assert_eq!(game_side(&mut status, &id, &lila_game(Status::Started, Some(1600))), None);
    assert_eq!(status.revisit_ongoing_created_at, Some(1000));
    assert_eq!(status.latest_created_at, 1000);
    assert_eq!(
        game_side(&mut status, &id, &lila_game(Status::Mate, Some(1600))),
        Some(Color::White)
    );
    assert_eq!(game_side(&mut status, &id, &lila_game(Status::Aborted, Some(1600))), None);
    assert_eq!(game_side(&mut status, &id, &lila_game(Status::Mate, None)), None);
    assert_eq!(
        game_side(&mut status, &user_id("carol"), &lila_game(Status::Mate, Some(1600))),
        None
    );
}

#[test]
fn index_game_writes_positions() {
    let builder = KeyBuilder::player(&user_id("alice"), Color::White);
    let indexed = index_game_records(&lila_game(Status::Mate, Some(1600)), Color::White, &builder)
        .unwrap();
    assert_eq!(indexed.entries.len(), 3);
    assert!(indexed.game.indexed_player.white);
    assert!(!indexed.game.indexed_player.black);
    assert_eq!(indexed.game.players.black.rating, 1600);
    assert_eq!(indexed.game.players.white.name, "Alice");
    assert_eq!(indexed.game.players.black.name, "Bob");
    assert_eq!(indexed.game.players.white.rating, 1500);
    let mut anonymous = lila_game(Status::Mate, Some(1600));
    anonymous.players.white = lila_player(None, None);
    let indexed = index_game_records(&anonymous, Color::White, &builder).unwrap();
    assert_eq!(indexed.game.players.white.name, "");
    assert_eq!(indexed.game.players.white.rating, 0);
    assert!(index_game_records(&lila_game(Status::Mate, None), Color::White, &builder).is_none());
}

#[test]
fn db_stats_from_text() {
    let mut stats = DbStats::default();
    stats.read_options_statistics(
        "rocksdb.block.cache.index.miss COUNT : 5\nrocksdb.block.cache.data.hit COUNT : 7\r\nother COUNT : 9\nrocksdb.block.cache.filter.hit COUNT : x\n",
    );
    assert_eq!(stats.block_index_miss, 5);
    assert_eq!(stats.block_data_hit, 7);
    assert_eq!(stats.block_filter_hit, 0);
    assert_eq!(stats.block_index_hit, 0);
}

#[test]
fn cache_hint_chances() {
    assert!(CacheHint::from_ply(3).should_fill_cache());
    assert!(CacheHint::always().should_fill_cache());
    assert!(CacheHint::from_ply(12).fills_cache_with(69));
    assert!(!CacheHint::from_ply(12).fills_cache_with(70));
    assert!(CacheHint::from_ply(30).fills_cache_with(1));
    assert!(!CacheHint::from_ply(30).fills_cache_with(2));
}

#[test]
fn merge_and_read_lichess() {
    let a = LichessEntry::new_single(uci(6, 21), Speed::Blitz, game_id("aaaaaaaa"), Outcome::Draw, 2000, 2200);
    let b = LichessEntry::new_single(uci(11, 27), Speed::Blitz, game_id("bbbbbbbb"), Outcome::Draw, 2000, 2200);
    let mut ba = Vec::new();
    a.write(&mut ba);
    let mut bb = Vec::new();
    b.write(&mut bb);
    let merged = merge_lichess_records(&[&ba, &bb]).ok().unwrap();
    let mut e = LichessEntry::new();
    e.extend_from_reader(&mut Reader::new(&merged)).ok().unwrap();
    assert_eq!(e.num_moves(), 2);
    assert!(merge_lichess_records(&[]).ok().unwrap().is_empty());

    let key = KeyBuilder::lichess().with_zobrist(ChessVariant::Chess, ZobristKey(1));
    let m1 = Month::parse(b"2021-01").ok().unwrap();
    let m2 = Month::parse(b"2021-02").ok().unwrap();
    let items = vec![
        (key.with_month(m1).into_bytes().to_vec(), ba.clone()),
        (key.with_month(m2).into_bytes().to_vec(), bb.clone()),
    ];
    let filter = LichessQueryFilter {
        speeds: None,
        ratings: None,
        since: Some(m1),
        until: Some(m2),
    };
    let limits = Limits {
        top_games: 0,
        recent_games: 0,
        moves: 12,
    };
    let (answer, history) = read_lichess(&items, &filter, &limits, HistoryWanted::Yes)
        .ok()
        .unwrap();
    assert_eq!(answer.total.draws, 2);
    assert_eq!(answer.moves.len(), 2);
    let history = history.unwrap();
    assert_eq!(history.len(), 2);
    assert_eq!(history[0].stats.draws, 1);
    assert_eq!(history[1].stats.draws, 1);
    let (_, none) = read_lichess(&items, &filter, &limits, HistoryWanted::No).ok().unwrap();
    assert!(none.is_none());
}

#[test]
fn month_ranges() {
    let key = KeyBuilder::lichess().with_zobrist(ChessVariant::Chess, ZobristKey(7));
    let m = Month::parse(b"2020-12").ok().unwrap();
    let (lo, hi) = month_range(&key, Some(m), Some(m));
    let lo = lo.into_bytes();
    let hi = hi.into_bytes();
    assert_eq!(lo[..12], hi[..12]);
    assert_eq!(u16::from_be_bytes([lo[12], lo[13]]), m.to_u16());
    assert_eq!(u16::from_be_bytes([hi[12], hi[13]]), m.to_u16() + 1);
    assert!(lo < hi);
}

#[test]
fn player_entries_fold_and_prepare() {
    let e2e4 = uci(12, 28);
    let a = PersonalEntry::new_single(e2e4, Speed::Bullet, Mode::Rated, game_id("12345678"), Outcome::Decisive { winner: Color::White }, 1600);
    let b = PersonalEntry::new_single(e2e4, Speed::Bullet, Mode::Rated, game_id("87654321"), Outcome::Decisive { winner: Color::Black }, 1800);
    let mut ba = Vec::new();
    a.write(&mut ba);
    let mut bb = Vec::new();
    b.write(&mut bb);
    let entry = read_player(&[&ba, &bb]).ok().unwrap();
    assert!(entry.sums_fit());
    let filter = PlayerQueryFilter {
        modes: None,
        speeds: None,
        since: Month::parse(b"2000-01").ok().unwrap(),
        until: Month::parse(b"2030-01").ok().unwrap(),
    };
    let answer = entry.prepare(&filter);
    assert_eq!(answer.total.white, 1);
    assert_eq!(answer.total.black, 1);
    assert_eq!(answer.moves.len(), 1);
    assert_eq!(answer.moves[0].average_opponent_rating, Some(1700));
    assert_eq!(
        answer.recent_games,
        vec![(e2e4, game_id("87654321")), (e2e4, game_id("12345678"))]
    );
    let casual_only = PlayerQueryFilter {
        modes: Some(vec![Mode::Casual]),
        ..filter
    };
    let entry = read_player(&[&ba, &bb]).ok().unwrap();
    let answer = entry.prepare(&casual_only);
    assert!(answer.moves.is_empty());
    assert!(answer.recent_games.is_empty());
}

#[test]
fn metrics_counts_and_report() {
    let mut m = Metrics::new();
    assert!(!m.fetch_set_deploy_event_sent());
    assert!(m.fetch_set_deploy_event_sent());
    m.inc_lichess(600, Some(Source::Analysis), 7);
    m.inc_lichess(10, None, 60);
    m.inc_masters(10, Some(Source::Fishnet), 0);
    m.inc_player(700, false, 49);
    assert_eq!(m.hit.lichess_miss, 2);
    assert_eq!(m.slow_hit.lichess_miss, 1);
    assert_eq!(m.hit.source_analysis_lichess, 1);
    assert_eq!(m.hit.source_none, 1);
    assert_eq!(m.hit.source_fishnet, 1);
    assert_eq!(m.hit.lichess_ply.groups[1], 1);
    assert_eq!(m.hit.player_ply.groups[9], 1);
    assert_eq!(m.slow_hit.source_analysis_player_incomplete, 1);
    let report = m.to_influx_string();
    assert!(report.starts_with("source_none=1u,source_analysis_lichess=1u,"));
    assert!(report.contains(",slow_source_none=0u,slow_source_analysis_lichess=1u,"));
    assert!(report.contains(",lichess_ply_5=1u,"));
    assert_eq!(
        PlyMetrics::new().to_influx_string("p_"),
        "p_0=0u,p_5=0u,p_10=0u,p_15=0u,p_20=0u,p_25=0u,p_30=0u,p_35=0u,p_40=0u,p_45=0u"
    );
}

#[test]
fn queue_tickets() {
    let mut q = QueueState::with_capacity(2);
    let a = user_id("alice");
    let b = user_id("bob");
    assert_eq!(q.submit(a.clone()).ok(), Some(0));
    assert_eq!(q.submit(user_id("ALICE")).ok(), Some(0));
    assert_eq!(q.submit(b.clone()).ok(), Some(1));
    match q.submit(user_id("carol")) {
        Err(QueueFull(t)) => assert_eq!(t.as_str(), "carol"),
        Ok(_) => panic!("queue should be full"),
    }
    assert_eq!(q.watch(&b), Some(1));
    assert_eq!(q.preceding_tickets(1), 1);
    let first = q.acquire(&[false, false]).unwrap();
    assert_eq!(first.as_str(), "alice");
    assert_eq!(q.preceding_tickets(1), 1);
    assert!(q.acquire(&[true]).is_none());
    assert_eq!(q.preceding_tickets(1), 0);
    assert_eq!(q.watch(&b), None);
    assert_eq!(q.len(), 1);
    q.complete(&a);
    assert_eq!(q.len(), 0);
    assert_eq!(q.submit(a).ok(), Some(2));
}

fn record(eco: &str, name: &str, pgn: &str) -> OpeningRecord {
    OpeningRecord {
        eco: eco.to_string(),
        name: name.to_string(),
        pgn: pgn.to_string(),
    }
}

#[test]
fn openings_load_and_classify() {
    let mut openings = Openings::new();
    assert!(openings.is_empty());
    openings
        .load_records(&[
            record("C20", "King's Pawn Game", "1. e4 e5"),
            record("B00", "King's Pawn", "1. e4"),
        ])
        .ok()
        .unwrap();
    assert_eq!(openings.len(), 2);
    let play = Play {
        variant: ChessVariant::Chess,
        fen: None,
        play: vec![uci(12, 28), uci(52, 36), uci(6, 21)],
    };
    let reached = play.position(&openings).ok().unwrap();
    let opening = reached.opening.unwrap();
    assert_eq!(opening.eco, "C20");
    assert_eq!(opening.name, "King's Pawn Game");
    let antichess = Play {
        variant: ChessVariant::Antichess,
        fen: None,
        play: vec![uci(12, 28)],
    };
    assert!(antichess.position(&openings).ok().unwrap().opening.is_none());
    let bad = Play {
        variant: ChessVariant::Chess,
        fen: Some("xyz".to_string()),
        play: vec![],
    };
    assert_eq!(bad.position(&openings).err(), Some(ReplayError::InvalidFen));
    let illegal = Play {
        variant: ChessVariant::Chess,
        fen: None,
        play: vec![uci(12, 36)],
    };
    assert_eq!(illegal.position(&openings).err(), Some(ReplayError::IllegalUci));
    assert_eq!(
        openings.load_records(&[record("C20", "Again", "1. e4 e5")]).err(),
        Some(OpeningError::DuplicateOpening)
    );
    assert_eq!(
        openings.load_records(&[record("A00", "Bad", "1. e5")]).err(),
        Some(OpeningError::Replay(ReplayError::IllegalSan))
    );
}

#[test]
fn by_mode_try_map() {
    let m = ByMode { rated: 2u32, casual: 3u32 };
    let doubled: Result<ByMode<u32>, String> = m.try_map(|_, v| Ok(v * 2));
    let d = doubled.ok().unwrap();
    assert_eq!((d.rated, d.casual), (4, 6));
    let m = ByMode { rated: 2u32, casual: 3u32 };
    let failed: Result<ByMode<u32>, Mode> =
        m.try_map(|mode, v| if v == 3 { Err(mode) } else { Ok(v) });
    assert_eq!(failed.err(), Some(Mode::Casual));
}

#[test]
fn anno_lichess_years() {
    assert_eq!(AnnoLichess::from_year(2021).0, 21);
    assert_eq!(AnnoLichess::from_year(1999).0, 0);
    assert_eq!(AnnoLichess::from_year(2300).0, 255);
    assert_eq!(AnnoLichess::from_year(2021).year(), 2021);
    assert_eq!(AnnoLichess::max_value().year(), 2255);
    assert_eq!(AnnoLichess::from_year_ce(false, 5).0, 0);
}

#[test]
fn game_info_roundtrip() {
    let info = GameInfo {
        outcome: Outcome::Decisive { winner: Color::Black },
        speed: Speed::Rapid,
        mode: Mode::Casual,
        players: ByColor {
            white: GameInfoPlayer { name: "Alice".to_string(), rating: 1500 },
            black: GameInfoPlayer { name: "Bob".to_string(), rating: 1600 },
        },
        month: Month::parse(b"2019-07").ok().unwrap(),
        indexed: ByColor { white: true, black: false },
    };
    let mut buf = Vec::new();
    info.write(&mut buf);
    let back = GameInfo::read(&mut Reader::new(&buf)).ok().unwrap();
    assert_eq!(back.outcome, info.outcome);
    assert_eq!(back.speed, Speed::Rapid);
    assert_eq!(back.mode, Mode::Casual);
    assert_eq!(back.players.white.name, "Alice");
    assert_eq!(back.players.black.rating, 1600);
    assert_eq!(back.month, info.month);
    assert!(back.indexed.white && !back.indexed.black);
    assert!(GameInfo::read(&mut Reader::new(&buf[..buf.len() - 1])).is_err());
}

#[test]
fn importer_reads_tags() {
    let mut imp = Importer::new(2);
    imp.begin_game();
    imp.tag(b"White", b"Alice", b"Alice").ok().unwrap();
    imp.tag(b"WhiteElo", b"2000", b"2000").ok().unwrap();
    imp.tag(b"BlackElo", b"?", b"?").ok().unwrap();
    imp.tag(b"TimeControl", b"180+2", b"180+2").ok().unwrap();
    imp.tag(b"Site", b"https://lichess.org/DXZdUVdv", b"https://lichess.org/DXZdUVdv").ok().unwrap();
    imp.tag(b"Result", b"0-1", b"0-1").ok().unwrap();
    imp.tag(b"FEN", b"rnbqkbnr/pppppppp/8/8/8/8/PPPPPPPP/RNBQKBNR w KQkq - 0 1", b"x").ok().unwrap();
    imp.tag(b"Opening", b"?", b"?").ok().unwrap();
    assert_eq!(imp.current.white.name.as_deref(), Some("Alice"));
    assert_eq!(imp.current.white.rating, Some(2000));
    assert_eq!(imp.current.black.rating, None);
    assert_eq!(imp.current.speed, Some(Speed::Blitz));
    assert_eq!(imp.current.id.as_deref(), Some("DXZdUVdv"));
    assert_eq!(imp.current.winner, Some(Color::Black));
    assert!(imp.current.fen.is_none());
    assert!(imp.end_tags(), "a game without both ratings is skipped");
    assert!(imp.tag(b"WhiteElo", b"x", b"x").is_err());
    assert!(imp.tag(b"TimeControl", b"1+", b"1+").is_err());
    imp.tag(b"Result", b"bad", b"bad").ok().unwrap();
    assert!(imp.skip);
}

#[test]
fn importer_batches_games() {
    let mut imp = Importer::new(2);
    imp.begin_game();
    imp.tag(b"WhiteElo", b"2000", b"2000").ok().unwrap();
    imp.tag(b"BlackElo", b"2000", b"2000").ok().unwrap();
    imp.tag(b"Date", b"2021.01.01", b"2021.01.01").ok().unwrap();
    assert!(!imp.end_tags());
    imp.san("e4".to_string());
    assert!(!imp.end_game());
    imp.begin_game();
    imp.tag(b"WhiteTitle", b"BOT", b"BOT").ok().unwrap();
    assert!(imp.end_tags());
    assert!(!imp.end_game());
    imp.begin_game();
    imp.tag(b"WhiteElo", b"2000", b"2000").ok().unwrap();
    imp.tag(b"BlackElo", b"2000", b"2000").ok().unwrap();
    assert!(!imp.end_tags());
    assert!(imp.end_game());
    let batch = imp.take_batch();
    assert_eq!(batch.len(), 2);
    assert_eq!(batch[0].moves, vec!["e4".to_string()]);
    assert_eq!(lila_openingexplorer::pgn_import::last_month(&batch), None);
    assert_eq!(
        lila_openingexplorer::pgn_import::last_month(&batch[..1]).map(|s| s.as_str()),
        Some("2021.01.01")
    );
    assert!(imp.batch.is_empty());
}

#[test]
fn importer_samples_games() {
    // The hash of DXZdUVdv leaves 81, that of VFa7wmDN 46.
    let sample = |id: &[u8], rating: &[u8], tc: &[u8]| -> bool {
        let mut imp = Importer::new(10);
        imp.begin_game();
        imp.tag(b"WhiteElo", rating, rating).ok().unwrap();
        imp.tag(b"BlackElo", rating, rating).ok().unwrap();
        imp.tag(b"TimeControl", tc, tc).ok().unwrap();
        imp.tag(b"Site", id, id).ok().unwrap();
        !imp.end_headers()
    };
    assert!(sample(b"DXZdUVdv", b"2600", b"180+0"));
    assert!(!sample(b"DXZdUVdv", b"1700", b"180+0"));
    assert!(!sample(b"VFa7wmDN", b"1800", b"600+0"));
    assert!(sample(b"VFa7wmDN", b"2000", b"600+0"));
    assert!(!sample(b"VFa7wmDN", b"1500", b"-"));
    assert!(sample(b"VFa7wmDN", b"1501", b"-"));
}

#[test]
fn indexer_rewrites_and_samples() {
    let mut idx = Indexer::new("ctx");
    assert_eq!(idx.context, "ctx");
    idx.begin_game();
    idx.begin_headers();
    idx.header(b"WhiteElo", b"2000").ok().unwrap();
    idx.header(b"BlackElo", b"1900").ok().unwrap();
    idx.header(b"TimeControl", b"60+0").ok().unwrap();
    idx.header(b"Site", b"https://lichess.org/abcdefgh").ok().unwrap();
    idx.header(b"Variant", b"Standard").ok().unwrap();
    assert_eq!(
        idx.current_game,
        b"[WhiteElo \"2000\"]\n[BlackElo \"1900\"]\n[TimeControl \"60+0\"]\n[LichessID \"abcdefgh\"]\n".to_vec()
    );
    assert!(!idx.end_headers_with(119));
    assert!(idx
        .current_game
        .ends_with(b"[Variant \"Standard\"]\n\n"));
    for _ in 0..9 {
        idx.san(b"e4");
    }
    assert!(idx.end_game().is_none());
    assert_eq!(idx.batch_size, 1);
    let sent = idx.send().unwrap();
    assert!(sent.ends_with(b"e4 e4 e4 e4 e4 e4 e4 e4 e4"));
    assert!(idx.send().is_none());
    idx.begin_headers();
    idx.header(b"WhiteElo", b"2000").ok().unwrap();
    idx.header(b"BlackElo", b"1900").ok().unwrap();
    idx.header(b"TimeControl", b"60+0").ok().unwrap();
    assert!(idx.end_headers_with(120));
    assert!(idx.header(b"WhiteElo", b"x").is_err());
}

#[test]
fn finalize_found_games() {
    let body = masters_game(2500, 2400, "2020.01.02", vec![]);
    let games = [(uci(12, 28), game_id("aaaaaaaa")), (uci(11, 27), game_id("bbbbbbbb"))];
    let found = finalize_masters_games(&games, &[Some(body.game.clone()), None]);
    assert_eq!(found.len(), 1);
    assert_eq!(found[0].uci, uci(12, 28));
    assert_eq!(found[0].row.id, game_id("aaaaaaaa"));
    assert_eq!(found[0].row.winner, Some(Color::White));
    assert!(found[0].row.speed.is_none());
    assert!(repeats_first_response(true, 3));
    assert!(!repeats_first_response(true, 0));
    assert!(!repeats_first_response(false, 3));
    assert!(is_new_progress(None, (Some(1), 0)));
    assert!(!is_new_progress(Some((Some(1), 0)), (Some(1), 0)));
    assert!(is_new_progress(Some((Some(1), 0)), (Some(0), 0)));
}

#[test]
fn lichess_game_record_from_import() {
    let g = lichess_import("2021.04.05", "e4");
    let imp = prepare_lichess_import(&g, false).ok().unwrap().unwrap();
    let rec: LichessGame = imp.game;
    assert_eq!(rec.players.white.name, "A");
    assert_eq!(rec.players.black.rating, 2200);
    assert!(!rec.indexed_player.white && !rec.indexed_player.black);
}

#[test]
fn test_month_text_roundtrip() {
    let m = Month::parse(b"2023/05").ok().unwrap();
    assert_eq!(m.to_string(), "2023-05");
    let again = Month::parse(m.to_text().as_slice()).ok().unwrap();
    assert_eq!(again.to_u16(), m.to_u16());
}

#[test]
fn test_lax_date_text_roundtrip() {
    for text in ["2019.??.05", "1999.12.31", "2001.??.??", "2010.07.??"] {
        let d = LaxDate::parse(text.as_bytes()).ok().unwrap();
        assert_eq!(d.to_string(), text);
        let again = LaxDate::parse(d.to_text().as_slice()).ok().unwrap();
        assert_eq!(again, d);
    }
}

#[test]
fn test_complete_ends_watch() {
    let mut q = QueueState::with_capacity(4);
    let a = user_id("alice");
    let b = user_id("bob");
    assert_eq!(q.submit(a.clone()).ok(), Some(0));
    assert_eq!(q.submit(b.clone()).ok(), Some(1));
    q.complete(&a);
    assert_eq!(q.watch(&a), None);
    assert_eq!(q.watch(&b), Some(1));
}

#[test]
fn lichess_history_gaps() {
    let a = LichessEntry::new_single(uci(6, 21), Speed::Blitz, game_id("aaaaaaaa"), Outcome::Draw, 2000, 2200);
    let b = LichessEntry::new_single(uci(11, 27), Speed::Blitz, game_id("bbbbbbbb"), Outcome::Draw, 2000, 2200);
    let mut ba = Vec::new();
    a.write(&mut ba);
    let mut bb = Vec::new();
    b.write(&mut bb);
    let key = KeyBuilder::lichess().with_zobrist(ChessVariant::Chess, ZobristKey(1));
    let dec = Month::parse(b"2020-12").ok().unwrap();
    let jan = Month::parse(b"2021-01").ok().unwrap();
    let mar = Month::parse(b"2021-03").ok().unwrap();
    let items = vec![
        (key.with_month(jan).into_bytes().to_vec(), ba.clone()),
        (key.with_month(mar).into_bytes().to_vec(), bb.clone()),
    ];
    let filter = LichessQueryFilter { speeds: None, ratings: None, since: Some(dec), until: None };
    let limits = Limits { top_games: 0, recent_games: 0, moves: 0 };
    let (_, history) = read_lichess(&items, &filter, &limits, HistoryWanted::Yes).ok().unwrap();
    let history = history.unwrap();
    // December without games, January, February without games; March, the
    // last month of an open-ended history, is left out.
    assert_eq!(history.len(), 3);
    assert_eq!(history[0].month.to_u16(), dec.to_u16());
    assert_eq!(history[0].stats.draws, 0);
    assert_eq!(history[1].stats.draws, 1);
    assert_eq!(history[2].stats.draws, 0);

    let bad = vec![(vec![1u8, 2, 3], ba)];
    assert!(read_lichess(&bad, &filter, &limits, HistoryWanted::Yes).is_err());
    assert!(read_lichess(&bad, &filter, &limits, HistoryWanted::No).is_ok());
}

#[test]
fn masters_duplicates_refused() {
    let id = game_id("abcdefgh");
    assert!(check_masters_duplicate(id, false, false).is_ok());
    assert_eq!(check_masters_duplicate(id, true, false), Err(ImportError::DuplicateGame { id }));
    assert_eq!(check_masters_duplicate(id, false, true), Err(ImportError::DuplicateGame { id }));
}

#[test]
fn test_play_equality() {
    let a = Play {
        variant: ChessVariant::Chess,
        fen: None,
        play: Vec::new(),
    };
    let b = Play {
        variant: ChessVariant::Chess,
        fen: Some(shakmaty::fen::Fen::default().to_string()),
        play: Vec::new(),
    };
    assert!(a.same_position(&b));
}

#[test]
fn play_differences() {
    let a = Play { variant: ChessVariant::Chess, fen: None, play: vec![uci(12, 28)] };
    let b = Play { variant: ChessVariant::Chess, fen: None, play: vec![uci(11, 27)] };
    let c = Play { variant: ChessVariant::Atomic, fen: None, play: vec![uci(12, 28)] };
    let d = Play { variant: ChessVariant::Chess, fen: Some("not a fen".to_string()), play: vec![uci(12, 28)] };
    assert!(a.same_position(&a.clone()));
    assert!(!a.same_position(&b));
    assert!(!a.same_position(&c));
    assert!(!a.same_position(&d));
}

#[test]
fn from_str_agrees_with_parsers() {
    assert_eq!(lila_openingexplorer::date::Year::from_str("2020").ok().map(|y| y.to_u16()), Some(2020));
    assert!(lila_openingexplorer::date::Year::from_str("1900").is_err());
    assert_eq!(Month::from_str("2021-02").ok().map(|m| m.to_u16()), Month::parse(b"2021-02").ok().map(|m| m.to_u16()));
    assert_eq!(Mode::from_str("casual").ok(), Some(Mode::Casual));
    assert_eq!(Speed::from_str("blitz").ok(), Some(Speed::Blitz));
    assert!(Speed::from_str("hyper").is_err());
    assert!(GameId::from_str("abcdefgh").is_ok());
    assert!(UserName::from_str("").is_err());
}

#[test]
fn parse_sans_all_or_nothing() {
    assert_eq!(parse_sans(&strings("e4 e5 Nf3")).map(|v| v.len()), Some(3));
    assert!(parse_sans(&strings("e4 zz9")).is_none());
    assert_eq!(parse_sans(&[]).map(|v| v.len()), Some(0));
}

#[test]
fn pgn_without_moves() {
    let body = masters_game(2500, 2500, "2020.01.01", vec![]);
    assert!(write_pgn(&body.game).is_ok());
}

#[test]
fn replay_game_errors_and_cut_off() {
    let moves = strings("e4 e5 Nf3");
    let plies = replay_game(ChessVariant::Chess, None, &moves, MAX_PLIES, false).ok().unwrap();
    assert_eq!(plies.len(), 3);
    assert_eq!(plies[1].1, (uci(52, 36), Color::Black));
    assert_eq!(
        replay_game(ChessVariant::Chess, Some("not a fen"), &moves, MAX_PLIES, false).err(),
        Some(ReplayError::InvalidFen)
    );
    assert_eq!(
        replay_game(ChessVariant::Chess, Some("8/8/8/8/8/8/8/8 w - - 0 1"), &moves, MAX_PLIES, false).err(),
        Some(ReplayError::InvalidPosition)
    );
    assert_eq!(
        replay_game(ChessVariant::Chess, None, &strings("e4 ?? e5"), MAX_PLIES, false).err(),
        Some(ReplayError::InvalidSan)
    );
    assert_eq!(
        replay_game(ChessVariant::Chess, None, &strings("e4 e4 e5"), MAX_PLIES, false).err(),
        Some(ReplayError::IllegalSan)
    );
    let cut = replay_game(ChessVariant::Chess, None, &strings("e4 e4 e5"), MAX_PLIES, true).ok().unwrap();
    assert_eq!(cut.len(), 1);
    let from_fen = replay_game(
        ChessVariant::Chess,
        Some("rnbqkbnr/pppppppp/8/8/4P3/8/PPPP1PPP/RNBQKBNR b KQkq - 0 1"),
        &strings("e5"),
        MAX_PLIES,
        false,
    )
    .ok()
    .unwrap();
    assert_eq!(from_fen.len(), 1);
    assert_eq!(from_fen[0].0, plies[1].0);
    assert_eq!(from_fen[0].1, (uci(52, 36), Color::Black));
}

#[test]
fn calendar_of_millis() {
    assert_eq!(year_month_of_millis(0), (1970, 1));
    assert_eq!(year_month_of_millis(2_635_200_000), (1970, 1));
    assert_eq!(year_month_of_millis(2_721_600_000), (1970, 2));
    assert_eq!(year_month_of_millis(951_912_000_000), (2000, 3));
    assert_eq!(year_month_of_millis(1_709_208_000_000), (2024, 2));
    assert_eq!(year_month_of_millis(1_640_952_000_000), (2021, 12));
}

#[test]
fn player_answer_cut_to_limits() {
    let e2e4 = uci(12, 28);
    let d2d4 = uci(11, 27);
    let a = PersonalEntry::new_single(e2e4, Speed::Bullet, Mode::Rated, game_id("12345678"), Outcome::Decisive { winner: Color::White }, 1600);
    let b = PersonalEntry::new_single(d2d4, Speed::Bullet, Mode::Rated, game_id("87654321"), Outcome::Draw, 1800);
    let mut ba = Vec::new();
    a.write(&mut ba);
    let mut bb = Vec::new();
    b.write(&mut bb);
    let filter = PlayerQueryFilter {
        modes: None,
        speeds: None,
        since: Month::parse(b"2000-01").ok().unwrap(),
        until: Month::parse(b"2030-01").ok().unwrap(),
    };
    let entry = read_player(&[&ba, &bb]).ok().unwrap();
    let full = entry.prepare(&filter);
    let entry = read_player(&[&ba, &bb]).ok().unwrap();
    let cut = entry.prepare_limited(&filter, &PlayerLimits { moves: 1, recent_games: 0 });
    assert_eq!(full.moves.len(), 2);
    assert_eq!(cut.moves.len(), 1);
    assert_eq!(cut.moves[0].uci, full.moves[0].uci);
    assert!(cut.recent_games.is_empty());
    assert_eq!(cut.total, full.total);
    let entry = read_player(&[&ba, &bb]).ok().unwrap();
    let all = entry.prepare_limited(&filter, &PlayerLimits { moves: usize::MAX, recent_games: usize::MAX });
    assert_eq!(all.moves.len(), 2);
    assert_eq!(all.recent_games.len(), 2);
}

#[test]
fn single_game_counts() {
    let w = Stats::new_single(Outcome::Decisive { winner: Color::White }, 1500);
    assert_eq!((w.white(), w.draws(), w.black(), w.total()), (1, 0, 0, 1));
    assert!(w.is_single() && !w.is_empty());
    let d = Stats::new_single(Outcome::Draw, 1500);
    assert_eq!((d.white(), d.draws(), d.black()), (0, 1, 0));
    let none = Stats::from_counts(0, 0, 0, 0);
    assert!(none.is_empty() && !none.is_single());
    assert_eq!(Stats::from_counts(0, 2, 3, 4).total(), 9);
}

#[test]
fn key_month_reads_back() {
    let prefix = KeyBuilder::masters().with_zobrist(ChessVariant::Chess, ZobristKey(12345));
    let month = Month::from_time_saturating(2021, 6);
    assert_eq!(prefix.with_month(month).month().ok(), Some(month));
    let year = Year::try_from_u16(2021).ok().unwrap();
    assert!(prefix.with_year(year).month().is_err());
}

#[test]
fn pgn_of_masters_game_moves() {
    let mut game = masters_game(2600, 2600, "2020.01.01", vec![uci(12, 28), uci(52, 36)]).game;
    let text = write_pgn(&game).ok().unwrap();
    assert!(text.contains("1. e4 e5"));
    game.moves = vec![uci(12, 28), uci(12, 28)];
    assert_eq!(write_pgn(&game).err(), Some(ReplayError::IllegalUci));
}

#[test]
fn player_since_defaults_to_year_zero() {
    let min = Month::min_value();
    assert_eq!(min.to_string(), "0000-01");
    assert!(min.to_u16() < Month::parse(b"1952-01").ok().unwrap().to_u16());
    let prefix = KeyBuilder::lichess().with_zobrist(ChessVariant::Chess, ZobristKey(7));
    assert!(prefix.with_month(min).month().is_err());
    let (lo, _) = month_range(&prefix, None, None);
    assert_eq!(lo.into_bytes(), prefix.with_month(min).into_bytes());
}

#[test]
fn history_months_run_on_and_add_up() {
    let m = |s: &str| Month::parse(s.as_bytes()).ok().unwrap();
    let mut b = HistoryBuilder::new_between(Some(m("2020-01")), Some(m("2020-04")));
    b.record_difference(m("2020-02"), Stats::from_counts(0, 1, 0, 0));
    b.record_difference(m("2020-04"), Stats::from_counts(0, 3, 1, 0));
    b.check_history();
    let h = b.build();
    let months: Vec<u16> = h.iter().map(|s| s.month.to_u16()).collect();
    assert_eq!(months, vec![m("2020-01").to_u16(), m("2020-02").to_u16(), m("2020-03").to_u16(), m("2020-04").to_u16()]);
    let white: u64 = h.iter().map(|s| s.stats.white).sum();
    let draws: u64 = h.iter().map(|s| s.stats.draws).sum();
    assert_eq!((white, draws), (3, 1));
    assert_eq!(h[3].stats.white, 2);
}

#[test]
fn progress_stream_sends_each_change_once() {
    let items = vec![(Some(3), 0), (Some(3), 0), (Some(2), 0), (None, 5), (None, 5), (None, 7), (None, 7)];
    assert_eq!(dedup_progress(&items), vec![(Some(3), 0), (Some(2), 0), (None, 5), (None, 7)]);
    assert!(dedup_progress(&[]).is_empty());
    assert_eq!(dedup_progress(&[(None, 1)]), vec![(None, 1)]);
}
