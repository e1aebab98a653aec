use chess_erdos::archive::{archive_label, archives_to_process};
use chess_erdos::bignat::BigNat;
use chess_erdos::codec::LinkKey;
use chess_erdos::model::{lowercase_key, user_to_erdos_number, ErdosLinkMeta, User, ERDOS_NUMBER_INF};
use chess_erdos::text::{parse_game_time, parse_i32, parse_u32};

#[test]
fn big_naturals_add_subtract_and_compare() {
    let a = BigNat::from_u64(u64::MAX);
    let b = BigNat::from_u64(1);
    let s = a.add(&b);
    assert_eq!(s.limbs, vec![0, 1]);
    let d = s.sub(&b);
    assert_eq!(d.limbs, vec![u64::MAX]);
    assert!(b.le(&s));
    assert!(!s.le(&b));
    assert!(BigNat::zero().le(&BigNat::zero()));
}

#[test]
fn big_naturals_read_decimal_text() {
    let n = BigNat::parse_decimal("18446744073709551616").unwrap();
    assert_eq!(n.limbs, vec![0, 1]);
    assert_eq!(BigNat::parse_decimal("+7").unwrap().limbs, vec![7]);
    assert!(BigNat::parse_decimal("").is_none());
    assert!(BigNat::parse_decimal("-1").is_none());
    assert!(BigNat::parse_decimal("+").is_none());
}

#[test]
fn link_keys_round_trip() {
    let k = LinkKey { user: b"drnykterstein".to_vec(), erdos_number: 3, link_index: 258 };
    let bytes = k.encode();
    assert_eq!(bytes.len(), 12 + 13);
    assert_eq!(&bytes[0..4], &[0, 0, 0, 13]);
    assert_eq!(&bytes[bytes.len() - 4..], &[0, 0, 1, 2]);
    let back = LinkKey::decode(&bytes).unwrap();
    assert_eq!(back.user, k.user);
    assert_eq!(back.erdos_number, 3);
    assert_eq!(back.link_index, 258);
    assert!(LinkKey::decode(&bytes[1..]).is_none());
    assert!(LinkKey::decode(&[]).is_none());
}

#[test]
fn header_numbers_are_read() {
    assert_eq!(parse_u32(b"1500"), Some(1500));
    assert_eq!(parse_u32(b"4294967295"), Some(u32::MAX));
    assert_eq!(parse_u32(b"4294967296"), None);
    assert_eq!(parse_u32(b"?"), None);
    assert_eq!(parse_u32(b""), None);
    assert_eq!(parse_i32(b"+12"), Some(12));
    assert_eq!(parse_i32(b"-7"), Some(-7));
    assert_eq!(parse_i32(b"3"), Some(3));
    assert_eq!(parse_i32(b"-"), None);
}

#[test]
fn game_time_is_read_in_utc() {
    assert_eq!(parse_game_time(b"2024.01.15", b"10:00:00"), Some(1705312800));
    assert_eq!(parse_game_time(b"1970.01.01", b"00:00:00"), Some(0));
    assert_eq!(parse_game_time(b"2024.02.29", b"23:59:59"), Some(1709251199));
    assert_eq!(parse_game_time(b"2023.02.29", b"00:00:00"), None);
    assert_eq!(parse_game_time(b"2024.01.15", b"24:00:00"), None);
    assert_eq!(parse_game_time(b"2024-01-15", b"10:00:00"), None);
}

#[test]
fn pending_archives_are_after_the_last_oldest_first() {
    let list = vec![
        b"db_2024-03.pgn.zst".to_vec(),
        b"db_2024-02.pgn.zst".to_vec(),
        b"db_2024-01.pgn.zst".to_vec(),
    ];
    let todo = archives_to_process(&list, b"db_2024-01.pgn.zst");
    assert_eq!(todo, vec![b"db_2024-02.pgn.zst".to_vec(), b"db_2024-03.pgn.zst".to_vec()]);
    assert_eq!(archives_to_process(&list, b"").len(), 3);
    assert!(archives_to_process(&list, b"db_2024-03.pgn.zst").is_empty());
    let shuffled = vec![b"b".to_vec(), b"d".to_vec(), b"a".to_vec(), b"c".to_vec()];
    assert_eq!(archives_to_process(&shuffled, b"a"), vec![b"b".to_vec(), b"c".to_vec(), b"d".to_vec()]);
}

#[test]
fn archive_label_is_the_month() {
    assert_eq!(archive_label(b"https://x/lichess_db_standard_rated_2024-01.pgn.zst"), Some(b"2024-01".to_vec()));
    assert_eq!(archive_label(b"short"), None);
}

#[test]
fn identifiers_fold_to_lower_case() {
    assert_eq!(lowercase_key(&b"DrNykterstein".to_vec()), b"drnykterstein".to_vec());
    let champion = b"c".to_vec();
    let u = User {
        id: b"U1".to_vec(),
        erdos_link_meta: vec![ErdosLinkMeta { erdos_number: 4, link_count: 1, path_count: BigNat::from_u64(1) }],
    };
    assert_eq!(user_to_erdos_number(&u, &champion), 4);
    let fresh = User { id: b"U9".to_vec(), erdos_link_meta: vec![] };
    assert_eq!(user_to_erdos_number(&fresh, &champion), ERDOS_NUMBER_INF);
    let c = User { id: b"C".to_vec(), erdos_link_meta: vec![] };
    assert_eq!(user_to_erdos_number(&c, &champion), 0);
}
