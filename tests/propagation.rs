use chess_erdos::chain::ChainError;
use chess_erdos::filter::{EndOfGame, GameParser};
use chess_erdos::store::{GameOutcome, Store, UserRecord};

fn b(s: &str) -> Vec<u8> {
    s.as_bytes().to_vec()
}

fn record<'a>(store: &'a Store, id: &str) -> &'a UserRecord {
    let key = id.to_ascii_lowercase().into_bytes();
    store.records.iter().find(|r| r.key == key).expect("user is stored")
}

fn meta(store: &Store, id: &str) -> Vec<(u32, u32, Vec<u64>)> {
    record(store, id)
        .user
        .erdos_link_meta
        .iter()
        .map(|m| (m.erdos_number, m.link_count, m.path_count.limbs.clone()))
        .collect()
}

struct Game<'a> {
    white: &'a str,
    black: &'a str,
    result: &'a str,
    date: &'a str,
    time: &'a str,
    site: &'a str,
    moves: u32,
}

fn game<'a>(white: &'a str, black: &'a str, result: &'a str, date: &'a str, site: &'a str) -> Game<'a> {
    Game { white, black, result, date, time: "10:00:00", site, moves: 40 }
}

fn play(store: &mut Store, parser: &mut GameParser, g: &Game) -> EndOfGame {
    parser.begin_game();
    let site = format!("https://lichess.org/{}", g.site);
    let headers: Vec<(&str, &str)> = vec![
        ("Event", "Rated Blitz game"),
        ("Site", &site),
        ("White", g.white),
        ("Black", g.black),
        ("Result", g.result),
        ("UTCDate", g.date),
        ("UTCTime", g.time),
        ("WhiteElo", "1500"),
        ("BlackElo", "1600"),
        ("WhiteRatingDiff", "+5"),
        ("BlackRatingDiff", "-5"),
        ("TimeControl", "300+3"),
        ("Termination", "Normal"),
    ];
    for (k, v) in headers {
        parser.header(store, k.as_bytes(), v.as_bytes());
    }
    if !parser.end_headers() {
        for _ in 0..g.moves {
            parser.san(false);
        }
    }
    parser.end_game(store)
}

fn scenario_three() -> Store {
    let mut store = Store::new(&b("C"));
    let mut p = GameParser::new(None);
    play(&mut store, &mut p, &game("C", "U1", "0-1", "2024.01.15", "g0001"));
    store.finish_archive(b("https://example.org/standard/lichess_db_standard_rated_2024-01.pgn.zst"));
    play(&mut store, &mut p, &game("C", "U1", "0-1", "2024.02.10", "g0002"));
    play(&mut store, &mut p, &game("U1", "U2", "0-1", "2024.03.01", "g0003"));
    play(&mut store, &mut p, &game("U1", "U2", "0-1", "2024.03.02", "g0004"));
    store
}

#[test]
fn cold_start_single_game() {
    let mut store = Store::new(&b("C"));
    let mut p = GameParser::new(None);
    let out = play(&mut store, &mut p, &game("C", "U1", "0-1", "2024.01.15", "g0001"));
    assert_eq!(out, EndOfGame::Recorded(GameOutcome::Improved { number: 1 }));
    assert_eq!(meta(&store, "U1"), vec![(1, 1, vec![1])]);
    let link = &record(&store, "U1").links[0][0];
    assert_eq!(link.loser_id, b("C"));
    assert_eq!(link.loser_link_count, 0);
    assert_eq!(link.loser_path_count.limbs, vec![1]);
    assert_eq!(link.time, 1705312800);
    assert_eq!(link.game_id, b("g0001"));
    assert_eq!(link.move_count, 40);
    assert!(!link.winner_is_white);
    assert_eq!(store.game_checkpoint, Some(b("g0001")));
    let archive = b("https://example.org/standard/lichess_db_standard_rated_2024-01.pgn.zst");
    store.finish_archive(archive.clone());
    assert_eq!(store.last_processed_archive, Some(archive));
    assert_eq!(store.game_checkpoint, None);
}

#[test]
fn second_witness() {
    let mut store = Store::new(&b("C"));
    let mut p = GameParser::new(None);
    play(&mut store, &mut p, &game("C", "U1", "0-1", "2024.01.15", "g0001"));
    let out = play(&mut store, &mut p, &game("C", "U1", "0-1", "2024.02.10", "g0002"));
    assert_eq!(out, EndOfGame::Recorded(GameOutcome::Witness { number: 1, link_index: 1 }));
    assert_eq!(meta(&store, "U1"), vec![(1, 2, vec![2])]);
    assert_eq!(record(&store, "U1").links[0].len(), 2);
    assert_eq!(record(&store, "U1").links[0][1].game_id, b("g0002"));
}

#[test]
fn second_hop_multiplies_paths() {
    let mut store = Store::new(&b("C"));
    let mut p = GameParser::new(None);
    play(&mut store, &mut p, &game("C", "U1", "0-1", "2024.01.15", "g0001"));
    play(&mut store, &mut p, &game("C", "U1", "0-1", "2024.02.10", "g0002"));
    play(&mut store, &mut p, &game("U1", "U2", "0-1", "2024.03.01", "g0003"));
    assert_eq!(meta(&store, "U2"), vec![(2, 1, vec![2])]);
    play(&mut store, &mut p, &game("U1", "U2", "0-1", "2024.03.02", "g0004"));
    assert_eq!(meta(&store, "U2"), vec![(2, 2, vec![4])]);
}

#[test]
fn repeated_win_at_held_number_is_a_witness() {
    let mut store = scenario_three();
    let mut p = GameParser::new(None);
    let first = play(&mut store, &mut p, &game("U2", "U3", "0-1", "2024.03.05", "g0005"));
    assert_eq!(first, EndOfGame::Recorded(GameOutcome::Improved { number: 3 }));
    assert_eq!(meta(&store, "U3"), vec![(3, 1, vec![4])]);
    let second = play(&mut store, &mut p, &game("U3", "U2", "1-0", "2024.03.06", "g0006"));
    assert_eq!(second, EndOfGame::Recorded(GameOutcome::Witness { number: 3, link_index: 1 }));
}

#[test]
fn loser_number_is_taken_at_game_time() {
    let mut store = scenario_three();
    let mut p = GameParser::new(None);
    let out = play(&mut store, &mut p, &game("U1", "U4", "0-1", "2024.01.01", "g0007"));
    assert_eq!(out, EndOfGame::Recorded(GameOutcome::NotImproving));
    assert!(record(&store, "U4").user.erdos_link_meta.is_empty());
}

#[test]
fn chain_expansion_selects_by_path_index() {
    let store = scenario_three();
    let chain = store.expand_chain(&b("U2"), 2, &chess_erdos::bignat::BigNat::from_u64(3)).unwrap();
    assert_eq!(chain.len(), 2);
    assert_eq!(chain[0].link_number, 1);
    assert_eq!(chain[0].path_number.limbs, vec![1]);
    assert_eq!(chain[0].link.game_id, b("g0004"));
    assert_eq!(chain[1].link_number, 1);
    assert!(chain[1].path_number.limbs.iter().all(|l| *l == 0));
    assert_eq!(chain[1].link.game_id, b("g0002"));
    assert_eq!(chain[1].link.loser_id, b("C"));
}

#[test]
fn last_path_index_is_enumerable_and_the_next_is_not() {
    let store = scenario_three();
    assert!(store.expand_chain_text(&b("u2"), 2, "3").is_ok());
    assert_eq!(store.expand_chain_text(&b("U2"), 2, "4").unwrap_err(), ChainError::PathIndexTooHigh);
    assert_eq!(store.expand_chain_text(&b("U2"), 2, "x1").unwrap_err(), ChainError::MalformedPathIndex);
    assert_eq!(store.expand_chain_text(&b("U2"), 5, "0").unwrap_err(), ChainError::NumberNotFound);
    assert_eq!(store.expand_chain_text(&b("nobody"), 2, "0").unwrap_err(), ChainError::UserNotFound);
}

#[test]
fn summary_gives_first_chain_of_each_entry() {
    let store = scenario_three();
    let s = store.erdos_chains(&b("u2")).unwrap();
    assert_eq!(s.id, b("U2"));
    assert_eq!(s.erdos_number, 2);
    assert_eq!(s.erdos_chains.len(), 1);
    assert_eq!(s.erdos_chains[0].len(), 2);
    assert_eq!(s.erdos_chains[0][0].link.game_id, b("g0003"));
    let c = store.erdos_chains(&b("C")).unwrap();
    assert_eq!(c.erdos_number, 0);
    assert_eq!(c.erdos_chains.len(), 1);
    assert!(c.erdos_chains[0].is_empty());
}

#[test]
fn twenty_half_moves_accepted_nineteen_rejected() {
    let mut store = Store::new(&b("C"));
    let mut p = GameParser::new(None);
    let mut short = game("C", "U1", "0-1", "2024.01.15", "g0001");
    short.moves = 19;
    assert_eq!(play(&mut store, &mut p, &short), EndOfGame::TooShort);
    let mut enough = game("C", "U1", "0-1", "2024.01.15", "g0002");
    enough.moves = 20;
    assert_eq!(play(&mut store, &mut p, &enough), EndOfGame::Recorded(GameOutcome::Improved { number: 1 }));
}

#[test]
fn improvement_needs_a_gap_of_two() {
    let mut store = scenario_three();
    let mut p = GameParser::new(None);
    // U1 (1) and a fresh U5 tie at nothing: no number for either side, skipped.
    play(&mut store, &mut p, &game("U5", "U6", "0-1", "2024.03.10", "g0010"));
    assert_eq!(play(&mut store, &mut p, &game("U5", "U6", "0-1", "2024.03.11", "g0011")), EndOfGame::Skipped);
    // Winner one below the loser: U1 (1) beats U2 (2).
    assert_eq!(play(&mut store, &mut p, &game("U2", "U1", "0-1", "2024.03.12", "g0012")), EndOfGame::Skipped);
    // Winner more than one above: U3 (none) beats U1 (1).
    assert_eq!(
        play(&mut store, &mut p, &game("U1", "U3", "0-1", "2024.03.13", "g0013")),
        EndOfGame::Recorded(GameOutcome::Improved { number: 2 })
    );
}

#[test]
fn unqualifying_headers_skip_the_game() {
    let mut store = Store::new(&b("C"));
    let mut p = GameParser::new(None);
    let mut g = game("C", "U1", "1/2-1/2", "2024.01.15", "g0001");
    assert_eq!(play(&mut store, &mut p, &g), EndOfGame::Skipped);
    g = game("C", "?", "0-1", "2024.01.15", "g0002");
    assert_eq!(play(&mut store, &mut p, &g), EndOfGame::Skipped);
    g = game("C", "U1", "0-1", "2024.02.30", "g0003");
    assert_eq!(play(&mut store, &mut p, &g), EndOfGame::BadTime);
    assert!(store.records.iter().all(|r| r.key != b("?")));
}

#[test]
fn fast_forward_passes_over_games_up_to_checkpoint() {
    let mut store = Store::new(&b("C"));
    let mut p = GameParser::new(Some(b("g0002")));
    assert_eq!(play(&mut store, &mut p, &game("C", "U1", "0-1", "2024.01.15", "g0001")), EndOfGame::Skipped);
    assert_eq!(play(&mut store, &mut p, &game("C", "U1", "0-1", "2024.01.16", "g0002")), EndOfGame::Skipped);
    assert_eq!(p.fast_forward, None);
    assert_eq!(
        play(&mut store, &mut p, &game("C", "U1", "0-1", "2024.01.17", "g0003")),
        EndOfGame::Recorded(GameOutcome::Improved { number: 1 })
    );
}

fn archive_games() -> Vec<Game<'static>> {
    vec![
        game("C", "U1", "0-1", "2024.01.15", "g0001"),
        game("U1", "U2", "1-0", "2024.01.16", "g0002"),
        game("C", "U1", "0-1", "2024.01.17", "g0003"),
        game("U1", "U2", "0-1", "2024.01.18", "g0004"),
        game("U5", "U6", "0-1", "2024.01.19", "g0005"),
        game("U2", "U3", "0-1", "2024.01.20", "g0006"),
        game("U1", "U2", "0-1", "2024.01.21", "g0007"),
        game("U3", "U4", "0-1", "2024.01.22", "g0008"),
    ]
}

#[test]
fn resume_after_crash_matches_uninterrupted_run() {
    let games = archive_games();
    let mut whole = Store::new(&b("C"));
    let mut p = GameParser::new(None);
    for g in &games {
        play(&mut whole, &mut p, g);
    }
    for crash_after in 1..games.len() {
        let mut first = Store::new(&b("C"));
        let mut p = GameParser::new(None);
        for g in &games[..crash_after] {
            play(&mut first, &mut p, g);
        }
        let mut resumed = GameParser::new(first.game_checkpoint.clone());
        for g in &games {
            play(&mut first, &mut resumed, g);
        }
        let mut a: Vec<String> = whole.records.iter().map(|r| format!("{:?}", r)).collect();
        let mut c: Vec<String> = first.records.iter().map(|r| format!("{:?}", r)).collect();
        a.sort();
        c.sort();
        assert_eq!(a, c, "crash after {} games", crash_after);
    }
}

#[test]
fn repeated_header_skips_the_game() {
    let mut store = Store::new(&b("C"));
    let mut p = GameParser::new(None);
    p.begin_game();
    p.header(&mut store, b"Event", b"Rated Blitz game");
    p.header(&mut store, b"Event", b"Rated Blitz game");
    assert!(p.skip);
    p.begin_game();
    p.header(&mut store, b"Event", b"Casual Blitz game");
    assert!(p.skip);
    p.begin_game();
    p.header(&mut store, b"Event", b"Rated Bullet game");
    assert!(p.skip);
    p.begin_game();
    p.header(&mut store, b"Event", b"Rated Classical game");
    assert!(!p.skip);
}

#[test]
fn missing_rating_change_skips_the_game() {
    let mut store = Store::new(&b("C"));
    let mut p = GameParser::new(None);
    p.begin_game();
    for (k, v) in [
        ("Event", "Rated Rapid game"),
        ("Site", "https://lichess.org/g0001"),
        ("White", "C"),
        ("Black", "U1"),
        ("Result", "0-1"),
        ("UTCDate", "2024.01.15"),
        ("UTCTime", "10:00:00"),
        ("WhiteElo", "2800"),
        ("BlackElo", "1600"),
        ("WhiteRatingDiff", "-5"),
        ("TimeControl", "600+0"),
        ("Termination", "Time forfeit"),
    ] {
        p.header(&mut store, k.as_bytes(), v.as_bytes());
    }
    assert!(p.end_headers());
    assert_eq!(p.end_game(&mut store), EndOfGame::Skipped);
}
