use lila_openingexplorer::buf::Reader;
use lila_openingexplorer::chess::{Color, Outcome, PieceRole, Square, Uci};
use lila_openingexplorer::game_id::GameId;
use lila_openingexplorer::lichess::LichessEntry;
use lila_openingexplorer::masters::MastersEntry;
use lila_openingexplorer::mode::Mode;
use lila_openingexplorer::personal::{Header, PersonalEntry};
use lila_openingexplorer::pgn_import::java_hash_code;
use lila_openingexplorer::query::{LichessQueryFilter, Limits};
use lila_openingexplorer::rating::RatingGroup;
use lila_openingexplorer::speed::Speed;
use lila_openingexplorer::stats::Stats;
use lila_openingexplorer::uci::RawUciMove;

fn game(s: &str) -> GameId {
    GameId::from_bytes(s.as_bytes()).ok().unwrap()
}

fn normal(from: u32, to: u32) -> Uci {
    Uci::Normal {
        from: Square::new(from),
        to: Square::new(to),
        promotion: None,
    }
}

#[test]
fn test_java_hash_code() {
    assert_eq!(java_hash_code("DXZdUVdv"), 1714524881);
    assert_eq!(java_hash_code("4mn73Yni"), 1587086275);
    assert_eq!(java_hash_code("VFa7wmDN"), 90055046);
    assert_eq!(java_hash_code("rvSvQdIe"), 950841078);
}

#[test]
fn test_header_roundtrip() {
    let headers = [
        Header::Group {
            mode: Mode::Rated,
            speed: Speed::Correspondence,
            num_games: 15,
        },
        Header::End,
    ];

    let mut buf = Vec::new();
    for header in &headers {
        header.write(&mut buf);
    }

    let mut reader = Reader::new(&buf);
    for header in headers {
        assert_eq!(Header::read(&mut reader).ok().unwrap(), header);
    }
}

#[test]
fn test_performance() {
    let single = Stats {
        white: 1,
        draws: 0,
        black: 0,
        rating_sum: 1500,
    };
    assert_eq!(single.performance(Color::White), Some(2300));
    assert_eq!(single.performance(Color::Black), Some(700));

    let symmetrical = Stats {
        white: 123,
        draws: 10,
        black: 123,
        rating_sum: (123 + 10 + 123) * 987,
    };
    assert_eq!(symmetrical.performance(Color::White), Some(987));
    assert_eq!(symmetrical.performance(Color::Black), Some(987));

    let p5 = Stats {
        white: 5,
        draws: 0,
        black: 95,
        rating_sum: 0,
    };
    assert_eq!(p5.performance(Color::White), Some(-470));
    assert_eq!(p5.performance(Color::Black), Some(470));
}

#[test]
fn test_uci_roundtrip() {
    let moves = [
        Uci::Null,
        Uci::Normal {
            from: Square::new(0),
            to: Square::new(63),
            promotion: None,
        },
        Uci::Normal {
            from: Square::new(8),
            to: Square::new(0),
            promotion: Some(PieceRole::King),
        },
        Uci::Put {
            to: Square::new(0),
            role: PieceRole::Knight,
        },
    ];

    let mut buf = Vec::new();
    for uci in &moves {
        RawUciMove::from_uci(*uci).write(&mut buf);
    }

    let mut reader = Reader::new(&buf);
    for uci in moves {
        assert_eq!(uci, RawUciMove::read(&mut reader).unwrap().to_uci());
    }
}

#[test]
fn test_uci_move_roundtrip() {
    let moves = [
        Uci::Null,
        Uci::Normal {
            from: Square::new(0),
            to: Square::new(63),
            promotion: None,
        },
        Uci::Normal {
            from: Square::new(8),
            to: Square::new(0),
            promotion: Some(PieceRole::King),
        },
        Uci::Put {
            to: Square::new(0),
            role: PieceRole::Knight,
        },
    ];

    let mut buf = Vec::new();
    for uci in &moves {
        RawUciMove::from(*uci).write(&mut buf);
    }

    let mut reader = Reader::new(&buf);
    for uci in moves {
        assert_eq!(uci, Uci::from(RawUciMove::read(&mut reader).unwrap()));
    }
}

#[test]
fn test_lichess_entry() {
    // Roundtrip with a single entry.
    let uci_a = normal(6, 21); // g1f3

    let a = LichessEntry::new_single(
        uci_a,
        Speed::Blitz,
        game("aaaaaaaa"),
        Outcome::Draw,
        2000,
        2200,
    );

    let mut buf = Vec::new();
    a.write(&mut buf);
    assert_eq!(buf.len(), 13, "optimized for single entries");

    let mut deserialized = LichessEntry::new();
    deserialized
        .extend_from_reader(&mut Reader::new(&buf))
        .ok()
        .unwrap();

    assert_eq!(deserialized.num_moves(), 1);
    assert_eq!(deserialized.max_game_idx(), Some(0));

    // Merge a second entry.
    let uci_b = normal(11, 27); // d2d4

    let b = LichessEntry::new_single(
        uci_b,
        Speed::Blitz,
        game("bbbbbbbb"),
        Outcome::Decisive {
            winner: Color::White,
        },
        2000,
        2200,
    );

    let mut buf = Vec::new();
    b.write(&mut buf);
    deserialized
        .extend_from_reader(&mut Reader::new(&buf))
        .ok()
        .unwrap();

    assert_eq!(deserialized.num_moves(), 2);
    assert_eq!(deserialized.max_game_idx(), Some(1));

    // Roundtrip the combined entry.
    let mut buf = Vec::new();
    deserialized.write(&mut buf);
    let mut deserialized = LichessEntry::new();
    deserialized
        .extend_from_reader(&mut Reader::new(&buf))
        .ok()
        .unwrap();

    assert_eq!(deserialized.num_moves(), 2);
    assert_eq!(deserialized.max_game_idx(), Some(1));

    // Run query.
    let res = deserialized.prepare(
        &LichessQueryFilter {
            speeds: None,
            ratings: Some(vec![RatingGroup::Group2000]),
            since: None,
            until: None,
        },
        &Limits {
            recent_games: usize::MAX,
            top_games: usize::MAX,
            moves: Limits::default_moves(),
        },
    );
    assert_eq!(
        res.recent_games,
        vec![(uci_b, game("bbbbbbbb")), (uci_a, game("aaaaaaaa")),]
    );
}

#[test]
fn test_masters_entry() {
    let uci = normal(12, 28); // e2e4
    let g = game("aaaaaaaa");
    let a = MastersEntry::new_single(uci, g, Outcome::Draw, 1600, 1700);

    let mut buf = Vec::with_capacity(14);
    a.write(&mut buf);
    assert_eq!(buf.len(), 14, "optimized for single entries");

    let mut deserialized = MastersEntry::new();
    deserialized
        .extend_from_reader(&mut Reader::new(&buf))
        .ok()
        .unwrap();

    let group = deserialized.group(RawUciMove::from_uci(uci)).unwrap();
    assert_eq!(group.stats.draws(), 1);
    assert_eq!(group.games[0], (1600 + 1700, g));
}

#[test]
fn test_merge_personal() {
    let uci = normal(12, 28); // e2e4

    let a = PersonalEntry::new_single(
        uci,
        Speed::Bullet,
        Mode::Rated,
        game("12345678"),
        Outcome::Decisive {
            winner: Color::White,
        },
        1600,
    );

    let b = PersonalEntry::new_single(
        uci,
        Speed::Bullet,
        Mode::Rated,
        game("87654321"),
        Outcome::Decisive {
            winner: Color::Black,
        },
        1800,
    );

    let mut buf = Vec::new();
    a.write(&mut buf);
    assert_eq!(buf.len(), 14, "optimized for single entries");

    let mut deserialized = PersonalEntry::new();
    deserialized
        .extend_from_reader(&mut Reader::new(&buf))
        .ok()
        .unwrap();

    let mut buf = Vec::new();
    b.write(&mut buf);
    deserialized
        .extend_from_reader(&mut Reader::new(&buf))
        .ok()
        .unwrap();

    assert_eq!(deserialized.num_moves(), 1);
    let group = deserialized
        .group(RawUciMove::from_uci(uci), Speed::Bullet, Mode::Rated)
        .unwrap();
    assert_eq!(group.stats.white, 1);
    assert_eq!(group.stats.draws, 0);
    assert_eq!(group.stats.black, 1);
    assert_eq!(group.stats.average_rating(), Some(1700));
    assert_eq!(group.games.len(), 2);
}

#[test]
fn test_master_entry() {
    let uci = normal(12, 28); // e2e4
    let g = game("aaaaaaaa");
    let a = MastersEntry::new_single(uci, g, Outcome::Draw, 1600, 1700);

    let mut buf = Vec::with_capacity(14);
    a.write(&mut buf);
    assert_eq!(buf.len(), 14, "optimized for single entries");

    let mut deserialized = MastersEntry::new();
    deserialized
        .extend_from_reader(&mut Reader::new(&buf))
        .ok()
        .unwrap();

    let group = deserialized.group(RawUciMove::from_uci(uci)).unwrap();
    assert_eq!(group.stats.draws, 1);
    assert_eq!(group.games[0], (1600 + 1700, g));
}

#[test]
fn test_masters_sums_fit() {
    let e2e4 = Uci::Normal { from: Square::new(12), to: Square::new(28), promotion: None };
    let a = MastersEntry::new_single(e2e4, game("aaaaaaaa"), Outcome::Draw, 2500, 2600);
    assert!(a.sums_fit());
    assert!(MastersEntry::new().sums_fit());
}

#[test]
fn test_personal_write_read() {
    let e2e4 = normal(12, 28);
    let d2d4 = normal(11, 27);
    let mut entry = PersonalEntry::new();
    for (uci, id) in [(e2e4, "aaaaaaaa"), (d2d4, "bbbbbbbb"), (e2e4, "cccccccc")] {
        let single = PersonalEntry::new_single(uci, Speed::Blitz, Mode::Casual, game(id), Outcome::Draw, 1500);
        let mut buf = Vec::new();
        single.write(&mut buf);
        entry.extend_from_reader(&mut Reader::new(&buf)).ok().unwrap();
    }
    let mut buf = Vec::new();
    entry.write(&mut buf);
    let mut read = PersonalEntry::new();
    read.extend_from_reader(&mut Reader::new(&buf)).ok().unwrap();
    assert_eq!(read.num_moves(), 2);
    let g = read.group(RawUciMove::from_uci(e2e4), Speed::Blitz, Mode::Casual).unwrap();
    assert_eq!(g.stats.draws, 2);
    let ids: Vec<GameId> = g.games.iter().map(|(_, id)| *id).collect();
    assert_eq!(ids, vec![game("aaaaaaaa"), game("cccccccc")]);
    let g = read.group(RawUciMove::from_uci(d2d4), Speed::Blitz, Mode::Casual).unwrap();
    assert_eq!(g.stats.draws, 1);
    assert_eq!(g.games.len(), 1);
}

#[test]
fn game_id_digits_in_documented_order() {
    assert_eq!(game("a0000000").to_u64(), 10);
    assert_eq!(game("z0000000").to_u64(), 35);
    assert_eq!(game("A0000000").to_u64(), 36);
    assert_eq!(game("Z0000000").to_u64(), 61);
    assert_eq!(game("0a000000").to_u64(), 620);
    assert_eq!(game("a0000000").to_string(), "a0000000");
    assert_eq!(game("A0000000").to_string(), "A0000000");
    let id = game("Xy9abQ2z");
    assert_eq!(game(&id.to_string()).to_u64(), id.to_u64());
}
