//! The per-game header filter and move counter that the streaming PGN reader
//! drives, and the hand-off of qualifying games to the propagator.

use vstd::prelude::*;
use crate::bignat::BigNat;
use crate::model::{
    copy_bytes, key_of, ErdosLink, PlayerInfo, Termination, TimeControl, TimeControlType,
    ERDOS_NUMBER_INF,
};
use crate::store::{game_effect, GameOutcome, Store};
use crate::text::{
    all_digits, bytes_equal, digits_value, game_time, lex_less, less_than, parse_game_time,
    parse_i32, parse_u32, signed_value, slice_from, slice_to, starts_with, to_bytes,
};

verus! {

/// The names of the headers that the parser reads, by bit.
pub open spec fn header_names() -> Seq<Seq<u8>> {
    seq![
        seq![69u8, 118u8, 101u8, 110u8, 116u8],
        seq![83u8, 105u8, 116u8, 101u8],
        seq![87u8, 104u8, 105u8, 116u8, 101u8],
        seq![87u8, 104u8, 105u8, 116u8, 101u8, 84u8, 105u8, 116u8, 108u8, 101u8],
        seq![87u8, 104u8, 105u8, 116u8, 101u8, 69u8, 108u8, 111u8],
        seq![87u8, 104u8, 105u8, 116u8, 101u8, 82u8, 97u8, 116u8, 105u8, 110u8, 103u8, 68u8, 105u8, 102u8, 102u8],
        seq![66u8, 108u8, 97u8, 99u8, 107u8],
        seq![66u8, 108u8, 97u8, 99u8, 107u8, 84u8, 105u8, 116u8, 108u8, 101u8],
        seq![66u8, 108u8, 97u8, 99u8, 107u8, 69u8, 108u8, 111u8],
        seq![66u8, 108u8, 97u8, 99u8, 107u8, 82u8, 97u8, 116u8, 105u8, 110u8, 103u8, 68u8, 105u8, 102u8, 102u8],
        seq![82u8, 101u8, 115u8, 117u8, 108u8, 116u8],
        seq![85u8, 84u8, 67u8, 68u8, 97u8, 116u8, 101u8],
        seq![85u8, 84u8, 67u8, 84u8, 105u8, 109u8, 101u8],
        seq![84u8, 105u8, 109u8, 101u8, 67u8, 111u8, 110u8, 116u8, 114u8, 111u8, 108u8],
        seq![84u8, 101u8, 114u8, 109u8, 105u8, 110u8, 97u8, 116u8, 105u8, 111u8, 110u8],
    ]
}

/// `Rated `
pub open spec fn rated_text() -> Seq<u8> {
    seq![82u8, 97u8, 116u8, 101u8, 100u8, 32u8]
}

/// `Blitz `
pub open spec fn blitz_text() -> Seq<u8> {
    seq![66u8, 108u8, 105u8, 116u8, 122u8, 32u8]
}

/// `Rapid `
pub open spec fn rapid_text() -> Seq<u8> {
    seq![82u8, 97u8, 112u8, 105u8, 100u8, 32u8]
}

/// `Classical `
pub open spec fn classical_text() -> Seq<u8> {
    seq![67u8, 108u8, 97u8, 115u8, 115u8, 105u8, 99u8, 97u8, 108u8, 32u8]
}

/// `?`
pub open spec fn unregistered_text() -> Seq<u8> {
    seq![63u8]
}

/// `1-0`
pub open spec fn white_wins_text() -> Seq<u8> {
    seq![49u8, 45u8, 48u8]
}

/// `0-1`
pub open spec fn black_wins_text() -> Seq<u8> {
    seq![48u8, 45u8, 49u8]
}

/// `Normal`
pub open spec fn normal_text() -> Seq<u8> {
    seq![78u8, 111u8, 114u8, 109u8, 97u8, 108u8]
}

/// `Time forfeit`
pub open spec fn time_forfeit_text() -> Seq<u8> {
    seq![84u8, 105u8, 109u8, 101u8, 32u8, 102u8, 111u8, 114u8, 102u8, 101u8, 105u8, 116u8]
}

/// `https://lichess.org/`
pub open spec fn site_prefix_text() -> Seq<u8> {
    seq![104u8, 116u8, 116u8, 112u8, 115u8, 58u8, 47u8, 47u8, 108u8, 105u8, 99u8, 104u8, 101u8, 115u8, 115u8, 46u8, 111u8, 114u8, 103u8, 47u8]
}

/// The bit of a header name, from `from` on, if the parser reads it.
pub open spec fn header_index_from(key: Seq<u8>, from: int) -> Option<int>
    decreases 15 - from,
{
    if from < 0 || from >= 15 {
        None
    } else if header_names()[from] == key {
        Some(from)
    } else {
        header_index_from(key, from + 1)
    }
}

/// The bit of a header name, if the parser reads it.
pub open spec fn header_index(key: Seq<u8>) -> Option<int> {
    header_index_from(key, 0)
}

/// The first name equal to `key` is the one at `b`.
proof fn lemma_header_index(key: Seq<u8>, b: int, from: int)
    requires
        0 <= from <= b < 15,
        header_names()[b] == key,
        forall|c: int| 0 <= c < b ==> header_names()[c] != key,
    ensures
        header_index_from(key, from) == Some(b),
    decreases b - from,
{
    if from < b {
        lemma_header_index(key, b, from + 1);
    }
}

/// No name equals `key`.
proof fn lemma_header_none(key: Seq<u8>, from: int)
    requires
        0 <= from <= 15,
        forall|c: int| 0 <= c < 15 ==> header_names()[c] != key,
    ensures
        header_index_from(key, from) is None,
    decreases 15 - from,
{
    if from < 15 {
        lemma_header_none(key, from + 1);
    }
}

/// The bit of a header name, if the parser reads it.
pub fn header_bit(key: &[u8]) -> (r: Option<u32>)
    ensures
        match r {
            Some(b) => b < 15 && header_index(key@) == Some(b as int),
            None => header_index(key@) is None,
        },
{
    proof {
        assert(header_names()[0] == seq![69u8, 118u8, 101u8, 110u8, 116u8]);
        assert(header_names()[1] == seq![83u8, 105u8, 116u8, 101u8]);
        assert(header_names()[2] == seq![87u8, 104u8, 105u8, 116u8, 101u8]);
        assert(header_names()[3] == seq![87u8, 104u8, 105u8, 116u8, 101u8, 84u8, 105u8, 116u8, 108u8, 101u8]);
        assert(header_names()[4] == seq![87u8, 104u8, 105u8, 116u8, 101u8, 69u8, 108u8, 111u8]);
        assert(header_names()[5] == seq![87u8, 104u8, 105u8, 116u8, 101u8, 82u8, 97u8, 116u8, 105u8, 110u8, 103u8, 68u8, 105u8, 102u8, 102u8]);
        assert(header_names()[6] == seq![66u8, 108u8, 97u8, 99u8, 107u8]);
        assert(header_names()[7] == seq![66u8, 108u8, 97u8, 99u8, 107u8, 84u8, 105u8, 116u8, 108u8, 101u8]);
        assert(header_names()[8] == seq![66u8, 108u8, 97u8, 99u8, 107u8, 69u8, 108u8, 111u8]);
        assert(header_names()[9] == seq![66u8, 108u8, 97u8, 99u8, 107u8, 82u8, 97u8, 116u8, 105u8, 110u8, 103u8, 68u8, 105u8, 102u8, 102u8]);
        assert(header_names()[10] == seq![82u8, 101u8, 115u8, 117u8, 108u8, 116u8]);
        assert(header_names()[11] == seq![85u8, 84u8, 67u8, 68u8, 97u8, 116u8, 101u8]);
        assert(header_names()[12] == seq![85u8, 84u8, 67u8, 84u8, 105u8, 109u8, 101u8]);
        assert(header_names()[13] == seq![84u8, 105u8, 109u8, 101u8, 67u8, 111u8, 110u8, 116u8, 114u8, 111u8, 108u8]);
        assert(header_names()[14] == seq![84u8, 101u8, 114u8, 109u8, 105u8, 110u8, 97u8, 116u8, 105u8, 111u8, 110u8]);
    }
    if bytes_equal(key, &[69u8, 118u8, 101u8, 110u8, 116u8]) {
        proof {
            lemma_header_index(key@, 0, 0);
        }
        return Some(0);
    }
    if bytes_equal(key, &[83u8, 105u8, 116u8, 101u8]) {
        proof {
            lemma_header_index(key@, 1, 0);
        }
        return Some(1);
    }
    if bytes_equal(key, &[87u8, 104u8, 105u8, 116u8, 101u8]) {
        proof {
            lemma_header_index(key@, 2, 0);
        }
        return Some(2);
    }
    if bytes_equal(key, &[87u8, 104u8, 105u8, 116u8, 101u8, 84u8, 105u8, 116u8, 108u8, 101u8]) {
        proof {
            lemma_header_index(key@, 3, 0);
        }
        return Some(3);
    }
    if bytes_equal(key, &[87u8, 104u8, 105u8, 116u8, 101u8, 69u8, 108u8, 111u8]) {
        proof {
            lemma_header_index(key@, 4, 0);
        }
        return Some(4);
    }
    if bytes_equal(key, &[87u8, 104u8, 105u8, 116u8, 101u8, 82u8, 97u8, 116u8, 105u8, 110u8, 103u8, 68u8, 105u8, 102u8, 102u8]) {
        proof {
            lemma_header_index(key@, 5, 0);
        }
        return Some(5);
    }
    if bytes_equal(key, &[66u8, 108u8, 97u8, 99u8, 107u8]) {
        proof {
            lemma_header_index(key@, 6, 0);
        }
        return Some(6);
    }
    if bytes_equal(key, &[66u8, 108u8, 97u8, 99u8, 107u8, 84u8, 105u8, 116u8, 108u8, 101u8]) {
        proof {
            lemma_header_index(key@, 7, 0);
        }
        return Some(7);
    }
    if bytes_equal(key, &[66u8, 108u8, 97u8, 99u8, 107u8, 69u8, 108u8, 111u8]) {
        proof {
            lemma_header_index(key@, 8, 0);
        }
        return Some(8);
    }
    if bytes_equal(key, &[66u8, 108u8, 97u8, 99u8, 107u8, 82u8, 97u8, 116u8, 105u8, 110u8, 103u8, 68u8, 105u8, 102u8, 102u8]) {
        proof {
            lemma_header_index(key@, 9, 0);
        }
        return Some(9);
    }
    if bytes_equal(key, &[82u8, 101u8, 115u8, 117u8, 108u8, 116u8]) {
        proof {
            lemma_header_index(key@, 10, 0);
        }
        return Some(10);
    }
    if bytes_equal(key, &[85u8, 84u8, 67u8, 68u8, 97u8, 116u8, 101u8]) {
        proof {
            lemma_header_index(key@, 11, 0);
        }
        return Some(11);
    }
    if bytes_equal(key, &[85u8, 84u8, 67u8, 84u8, 105u8, 109u8, 101u8]) {
        proof {
            lemma_header_index(key@, 12, 0);
        }
        return Some(12);
    }
    if bytes_equal(key, &[84u8, 105u8, 109u8, 101u8, 67u8, 111u8, 110u8, 116u8, 114u8, 111u8, 108u8]) {
        proof {
            lemma_header_index(key@, 13, 0);
        }
        return Some(13);
    }
    if bytes_equal(key, &[84u8, 101u8, 114u8, 109u8, 105u8, 110u8, 97u8, 116u8, 105u8, 111u8, 110u8]) {
        proof {
            lemma_header_index(key@, 14, 0);
        }
        return Some(14);
    }
    proof {
        lemma_header_none(key@, 0);
    }
    None
}

/// Bits of the headers whose absence is no reason to skip a game: the titles.
pub const OPTIONAL_BITS: u32 = 136;

/// Bits of the rating-change headers.
pub const RATING_DIFF_BITS: u32 = 544;

/// All fifteen header bits.
pub const ALL_BITS: u32 = 32767;

/// The fewest half-moves of a qualifying game.
pub const MIN_HALF_MOVES: u32 = 20;

/// What the parser has read of one side of the game.
#[derive(Debug)]
pub struct ColorInfo {
    pub id: Vec<u8>,
    pub erdos_number: u32,
    pub player_info: PlayerInfo,
}

/// The state of the header filter; it is reused from game to game.
#[derive(Debug)]
pub struct GameParser {
    /// After a restart: the id of the last game applied before it.
    pub fast_forward: Option<Vec<u8>>,
    pub skip: bool,
    pub fields_bitset: u32,
    pub game_id: Vec<u8>,
    pub game_type: TimeControlType,
    pub white: ColorInfo,
    pub black: ColorInfo,
    pub winner_is_white: bool,
    pub date: Vec<u8>,
    pub time: Vec<u8>,
    pub time_control: TimeControl,
    pub termination: Termination,
    pub move_count: u32,
}

/// The outcome of one game at its end.
#[derive(Debug, Clone, Copy, PartialEq, Eq, Structural)]
pub enum EndOfGame {
    /// The headers ruled the game out.
    Skipped,
    /// Fewer than the required half-moves.
    TooShort,
    /// The date or time header names no real moment.
    BadTime,
    /// Handed to the propagator, with its outcome.
    Recorded(GameOutcome),
}

/// The number that the store gives an identifier: none for `?`, zero for the
/// champion, the head of the history of a known user, none for a new one.
pub open spec fn known_number(s: Store, id: Seq<u8>) -> u32 {
    if id == unregistered_text() {
        ERDOS_NUMBER_INF
    } else {
        match s.index_of(key_of(id)) {
            Some(j) => if key_of(id) == s.champion@ { 0 } else { s.records@[j].user.head_number() },
            None => ERDOS_NUMBER_INF,
        }
    }
}

/// The time-control class that an `Event` value names, if it is a rated
/// blitz, rapid or classical game.
pub open spec fn event_class(v: Seq<u8>) -> Option<TimeControlType> {
    if v.len() >= 6 && v.subrange(0, 6) == rated_text() {
        let rest = v.subrange(6, v.len() as int);
        if rest.len() >= 6 && rest.subrange(0, 6) == blitz_text() {
            Some(TimeControlType::Blitz)
        } else if rest.len() >= 6 && rest.subrange(0, 6) == rapid_text() {
            Some(TimeControlType::Rapid)
        } else if rest.len() >= 10 && rest.subrange(0, 10) == classical_text() {
            Some(TimeControlType::Classical)
        } else {
            None
        }
    } else {
        None
    }
}

/// The game id of a `Site` value: what follows the site prefix.
pub open spec fn site_game_id(v: Seq<u8>) -> Option<Seq<u8>> {
    if v.len() >= 20 && v.subrange(0, 20) == site_prefix_text() {
        Some(v.subrange(20, v.len() as int))
    } else {
        None
    }
}

/// The main time and increment of a `TimeControl` value `main+increment`.
pub open spec fn time_control_of(v: Seq<u8>) -> Option<(nat, nat)> {
    if exists|i: int| 0 <= i < v.len() && v[i] == 43 {
        let i = choose|i: int| 0 <= i < v.len() && v[i] == 43 && forall|j: int| 0 <= j < i ==> v[j] != 43;
        let a = v.subrange(0, i);
        let b = v.subrange(i + 1, v.len() as int);
        if a.len() > 0 && all_digits(a) && digits_value(a) <= u32::MAX && b.len() > 0 && all_digits(b)
            && digits_value(b) <= u32::MAX {
            Some((digits_value(a), digits_value(b)))
        } else {
            None
        }
    } else {
        None
    }
}

/// Whether the game with id `id` is passed over while fast-forwarding to
/// checkpoint `ff`: it is at or before the checkpoint.
pub open spec fn fast_forwarded(ff: Option<Vec<u8>>, id: Seq<u8>) -> bool {
    match ff {
        Some(c) => id == c@ || lex_less(id, c@),
        None => false,
    }
}

/// Reads the class of an `Event` value.
fn parse_event(v: &[u8]) -> (r: Option<TimeControlType>)
    ensures
        r == event_class(v@),
{
    if !starts_with(v, &[82u8, 97u8, 116u8, 101u8, 100u8, 32u8]) {
        return None;
    }
    let rest = slice_from(v, 6);
    if starts_with(rest, &[66u8, 108u8, 105u8, 116u8, 122u8, 32u8]) {
        Some(TimeControlType::Blitz)
    } else if starts_with(rest, &[82u8, 97u8, 112u8, 105u8, 100u8, 32u8]) {
        Some(TimeControlType::Rapid)
    } else if starts_with(rest, &[67u8, 108u8, 97u8, 115u8, 115u8, 105u8, 99u8, 97u8, 108u8, 32u8]) {
        Some(TimeControlType::Classical)
    } else {
        None
    }
}

/// Reads the game id of a `Site` value.
fn parse_site(v: &[u8]) -> (r: Option<Vec<u8>>)
    ensures
        match r {
            Some(id) => site_game_id(v@) == Some(id@),
            None => site_game_id(v@) is None,
        },
{
    if !starts_with(v, &[104u8, 116u8, 116u8, 112u8, 115u8, 58u8, 47u8, 47u8, 108u8, 105u8, 99u8, 104u8, 101u8, 115u8, 115u8, 46u8, 111u8, 114u8, 103u8, 47u8]) {
        return None;
    }
    let rest = slice_from(v, 20);
    Some(to_bytes(rest))
}

/// Reads a `TimeControl` value `main+increment`.
fn parse_time_control(v: &[u8]) -> (r: Option<(u32, u32)>)
    ensures
        match r {
            Some((a, b)) => time_control_of(v@) == Some((a as nat, b as nat)),
            None => time_control_of(v@) is None,
        },
{
    let mut i: usize = 0;
    while i < v.len()
        invariant
            i <= v@.len(),
            forall|j: int| 0 <= j < i ==> v@[j] != 43,
        decreases v@.len() - i,
    {
        if v[i] == 43 {
            let a = slice_to(v, i);
            let b = slice_from(v, i + 1);
            proof {
                let c = choose|c: int| 0 <= c < v@.len() && v@[c] == 43 && forall|j: int| 0 <= j < c ==> v@[j] != 43;
                assert(c == i as int) by {
                    if c < i {
                        assert(v@[c] != 43);
                    } else if c > i {
                        assert(v@[i as int] != 43);
                    }
                }
            }
            return match (parse_u32(a), parse_u32(b)) {
                (Some(x), Some(y)) => Some((x, y)),
                _ => None,
            };
        }
        i = i + 1;
    }
    None
}

impl GameParser {
    /// A parser that first passes over every game up to and including
    /// `checkpoint`, where one is given.
    pub fn new(checkpoint: Option<Vec<u8>>) -> (r: GameParser)
        ensures
            r.fast_forward == checkpoint,
            !r.skip,
            r.fields_bitset == 0,
    {
        GameParser {
            fast_forward: checkpoint,
            skip: false,
            fields_bitset: 0,
            game_id: Vec::new(),
            game_type: TimeControlType::Blitz,
            white: ColorInfo { id: Vec::new(), erdos_number: ERDOS_NUMBER_INF, player_info: PlayerInfo { title: Vec::new(), rating: 0, rating_change: 0 } },
            black: ColorInfo { id: Vec::new(), erdos_number: ERDOS_NUMBER_INF, player_info: PlayerInfo { title: Vec::new(), rating: 0, rating_change: 0 } },
            winner_is_white: true,
            date: Vec::new(),
            time: Vec::new(),
            time_control: TimeControl { game_type: TimeControlType::Blitz, main: 0, increment: 0 },
            termination: Termination::Resign,
            move_count: 0,
        }
    }

    /// Resets what one game sets, before its headers.
    pub fn begin_game(&mut self)
        ensures
            !final(self).skip,
            final(self).fields_bitset == 0,
            final(self).move_count == 0,
            final(self).white.player_info.title@.len() == 0,
            final(self).black.player_info.title@.len() == 0,
            final(self).game_id@.len() == 0,
            final(self).fast_forward == old(self).fast_forward,
    {
        self.skip = false;
        self.fields_bitset = 0;
        self.white.player_info.title = Vec::new();
        self.black.player_info.title = Vec::new();
        self.move_count = 0;
        self.game_id = Vec::new();
    }
}

/// What reading header number `b` with value `v` does to the parser, where it
/// was not skipping and had not seen that header yet; `s` is the store before.
pub open spec fn header_effect(p: GameParser, q: GameParser, b: int, v: Seq<u8>, s: Store) -> bool {
    let ids_kept = q.white.id@ == p.white.id@ && q.black.id@ == p.black.id@;
    &&& q.fields_bitset == p.fields_bitset | (1u32 << b as u32)
    &&& q.move_count == p.move_count
    &&& if b == 0 {
        &&& q.skip == (event_class(v) is None)
        &&& event_class(v) matches Some(c) ==> q.game_type == c
    } else if b == 1 {
        match site_game_id(v) {
            None => q.skip,
            Some(id) => {
                &&& q.game_id@ == id
                &&& q.skip == fast_forwarded(p.fast_forward, id)
                &&& q.fast_forward == (if p.fast_forward matches Some(c) && c@ == id { None } else { p.fast_forward })
            },
        }
    } else if b == 2 || b == 6 {
        let n = known_number(s, v);
        let other = if b == 2 { p.black.erdos_number } else { p.white.erdos_number };
        let other_seen = if b == 2 { p.fields_bitset & 64 != 0 } else { p.fields_bitset & 4 != 0 };
        &&& q.skip == (v == unregistered_text() || (other_seen && other == n))
        &&& v != unregistered_text() ==> (if b == 2 {
            q.white.id@ == v && q.white.erdos_number == n
        } else {
            q.black.id@ == v && q.black.erdos_number == n
        })
    } else if b == 3 || b == 7 {
        &&& !q.skip
        &&& (if b == 3 { q.white.player_info.title@ == v } else { q.black.player_info.title@ == v })
    } else if b == 4 || b == 8 {
        let ok = v.len() > 0 && all_digits(v) && digits_value(v) <= u32::MAX;
        &&& q.skip == !ok
        &&& ok ==> (if b == 4 { q.white.player_info.rating == digits_value(v) } else { q.black.player_info.rating == digits_value(v) })
    } else if b == 5 || b == 9 {
        &&& q.skip == (signed_value(v) is None)
        &&& signed_value(v) matches Some(d) ==> (if b == 5 { q.white.player_info.rating_change == d } else { q.black.player_info.rating_change == d })
    } else if b == 10 {
        &&& q.skip == !(v == white_wins_text() || v == black_wins_text())
        &&& v == white_wins_text() ==> q.winner_is_white
        &&& v == black_wins_text() ==> !q.winner_is_white
    } else if b == 11 {
        !q.skip && q.date@ == v
    } else if b == 12 {
        !q.skip && q.time@ == v
    } else if b == 13 {
        &&& q.skip == (time_control_of(v) is None)
        &&& time_control_of(v) matches Some((m, i)) ==> q.time_control.main == m && q.time_control.increment == i
    } else {
        &&& q.skip == !(v == normal_text() || v == time_forfeit_text())
        &&& v == normal_text() ==> q.termination == Termination::Resign
        &&& v == time_forfeit_text() ==> q.termination == Termination::Time
    }
}

impl GameParser {
    /// Reads one header. A header that the parser does not read is ignored; so
    /// is every header once the game is skipped. A repeated header skips the
    /// game. The players are registered in the store as they are read.
    pub fn header(&mut self, store: &mut Store, key: &[u8], value: &[u8])
        requires
            old(store).wf(),
        ensures
            final(store).wf(),
            final(store).champion@ == old(store).champion@,
            final(store).last_processed_archive == old(store).last_processed_archive,
            final(store).game_checkpoint == old(store).game_checkpoint,
            old(self).skip ==> *final(self) == *old(self) && final(store).records@ == old(store).records@,
            !old(self).skip ==> match header_index(key@) {
                None => *final(self) == *old(self) && final(store).records@ == old(store).records@,
                Some(b) => if old(self).fields_bitset & (1u32 << b as u32) != 0 {
                    final(self).skip
                } else {
                    header_effect(*old(self), *final(self), b, value@, *old(store))
                },
            },
    {
        if self.skip {
            return;
        }
        let b = match header_bit(key) {
            Some(b) => b,
            None => {
                return;
            },
        };
        if self.fields_bitset & (1u32 << b) != 0 {
            self.skip = true;
            return;
        }
        let seen = self.fields_bitset;
        self.fields_bitset = self.fields_bitset | (1u32 << b);
        if b == 0 {
            match parse_event(value) {
                Some(c) => {
                    self.game_type = c;
                },
                None => {
                    self.skip = true;
                },
            }
        } else if b == 1 {
            match parse_site(value) {
                Some(id) => {
                    let mut skip = false;
                    let mut clear = false;
                    match &self.fast_forward {
                        Some(c) => {
                            if bytes_equal(id.as_slice(), c.as_slice()) {
                                skip = true;
                                clear = true;
                            } else if less_than(id.as_slice(), c.as_slice()) {
                                skip = true;
                            }
                        },
                        None => {},
                    }
                    if clear {
                        self.fast_forward = None;
                    }
                    self.skip = skip;
                    self.game_id = id;
                },
                None => {
                    self.skip = true;
                },
            }
        } else if b == 2 || b == 6 {
            let id = to_bytes(value);
            let n = store.current_number(&id);
            if id.len() == 1 && id[0] == 63u8 {
                assert(id@ =~= unregistered_text());
                self.skip = true;
            } else {
                if b == 2 {
                    self.skip = seen & 64 != 0 && self.black.erdos_number == n;
                    self.white.id = id;
                    self.white.erdos_number = n;
                } else {
                    self.skip = seen & 4 != 0 && self.white.erdos_number == n;
                    self.black.id = id;
                    self.black.erdos_number = n;
                }
            }
        } else if b == 3 {
            self.white.player_info.title = to_bytes(value);
        } else if b == 7 {
            self.black.player_info.title = to_bytes(value);
        } else if b == 4 || b == 8 {
            match parse_u32(value) {
                Some(r) => {
                    if b == 4 {
                        self.white.player_info.rating = r;
                    } else {
                        self.black.player_info.rating = r;
                    }
                },
                None => {
                    self.skip = true;
                },
            }
        } else if b == 5 || b == 9 {
            match parse_i32(value) {
                Some(d) => {
                    if b == 5 {
                        self.white.player_info.rating_change = d;
                    } else {
                        self.black.player_info.rating_change = d;
                    }
                },
                None => {
                    self.skip = true;
                },
            }
        } else if b == 10 {
            if bytes_equal(value, &[49u8, 45u8, 48u8]) {
                self.winner_is_white = true;
            } else if bytes_equal(value, &[48u8, 45u8, 49u8]) {
                self.winner_is_white = false;
            } else {
                self.skip = true;
            }
        } else if b == 11 {
            self.date = to_bytes(value);
        } else if b == 12 {
            self.time = to_bytes(value);
        } else if b == 13 {
            match parse_time_control(value) {
                Some((m, i)) => {
                    self.time_control.main = m;
                    self.time_control.increment = i;
                },
                None => {
                    self.skip = true;
                },
            }
        } else {
            if bytes_equal(value, &[78u8, 111u8, 114u8, 109u8, 97u8, 108u8]) {
                self.termination = Termination::Resign;
            } else if bytes_equal(value, &[84u8, 105u8, 109u8, 101u8, 32u8, 102u8, 111u8, 114u8, 102u8, 101u8, 105u8, 116u8]) {
                self.termination = Termination::Time;
            } else {
                self.skip = true;
            }
        }
    }
}

/// The champion numbers of the winner and the loser, as read with the headers.
pub open spec fn side_numbers(p: GameParser) -> (u32, u32) {
    if p.winner_is_white {
        (p.white.erdos_number, p.black.erdos_number)
    } else {
        (p.black.erdos_number, p.white.erdos_number)
    }
}

/// `l` is the link that the parser's state describes, played at `t`, before
/// the loser's counts are frozen into it.
pub open spec fn game_link(p: GameParser, l: ErdosLink, t: int) -> bool {
    let (w, lo) = if p.winner_is_white { (p.white, p.black) } else { (p.black, p.white) };
    &&& l.loser_id@ == lo.id@
    &&& l.time == t
    &&& l.winner_info.title@ == w.player_info.title@
    &&& l.winner_info.rating == w.player_info.rating
    &&& l.winner_info.rating_change == w.player_info.rating_change
    &&& l.loser_info.title@ == lo.player_info.title@
    &&& l.loser_info.rating == lo.player_info.rating
    &&& l.loser_info.rating_change == lo.player_info.rating_change
    &&& l.game_id@ == p.game_id@
    &&& l.move_count == p.move_count
    &&& l.time_control == (TimeControl { game_type: p.game_type, main: p.time_control.main, increment: p.time_control.increment })
    &&& l.winner_is_white == p.winner_is_white
    &&& l.termination == p.termination
}

/// The identifier of the winner.
pub open spec fn winner_id(p: GameParser) -> Seq<u8> {
    if p.winner_is_white {
        p.white.id@
    } else {
        p.black.id@
    }
}

/// Whether the game gave its winner a new number or one more witness.
pub open spec fn changed_number(r: EndOfGame) -> bool {
    match r {
        EndOfGame::Recorded(GameOutcome::Improved { .. }) => true,
        EndOfGame::Recorded(GameOutcome::Witness { .. }) => true,
        _ => false,
    }
}

impl GameParser {
    /// Decides, once the headers are read, whether the game is skipped: it is
    /// where a header ruled it out, where a mandatory header is missing (the
    /// titles are optional), or where the winner's number is already below the
    /// loser's plus one.
    pub fn end_headers(&mut self) -> (r: bool)
        ensures
            r == final(self).skip,
            final(self).skip == (old(self).skip || (old(self).fields_bitset | OPTIONAL_BITS) != ALL_BITS
                || (side_numbers(*old(self)).0 as int) < side_numbers(*old(self)).1 as int + 1),
            final(self).fast_forward == old(self).fast_forward,
            final(self).game_id == old(self).game_id,
            final(self).game_type == old(self).game_type,
            final(self).white == old(self).white,
            final(self).black == old(self).black,
            final(self).winner_is_white == old(self).winner_is_white,
            final(self).date == old(self).date,
            final(self).time == old(self).time,
            final(self).time_control == old(self).time_control,
            final(self).termination == old(self).termination,
            final(self).move_count == old(self).move_count,
    {
        if !self.skip {
            let bits = self.fields_bitset | OPTIONAL_BITS;
            if bits != ALL_BITS {
                self.skip = true;
            } else {
                let (w, l) = if self.winner_is_white {
                    (self.white.erdos_number, self.black.erdos_number)
                } else {
                    (self.black.erdos_number, self.white.erdos_number)
                };
                if (w as u64) < (l as u64) + 1 {
                    self.skip = true;
                }
            }
        }
        self.skip
    }

    /// Counts one half-move; a move that mates makes the game end by checkmate.
    pub fn san(&mut self, checkmate: bool)
        ensures
            final(self).move_count == (if old(self).move_count < u32::MAX { old(self).move_count + 1 } else { old(self).move_count as int }),
            final(self).termination == (if checkmate { Termination::Checkmate } else { old(self).termination }),
            final(self).skip == old(self).skip,
            final(self).fast_forward == old(self).fast_forward,
            final(self).game_id == old(self).game_id,
            final(self).game_type == old(self).game_type,
            final(self).white == old(self).white,
            final(self).black == old(self).black,
            final(self).winner_is_white == old(self).winner_is_white,
            final(self).date == old(self).date,
            final(self).time == old(self).time,
            final(self).time_control == old(self).time_control,
    {
        if self.move_count < u32::MAX {
            self.move_count = self.move_count + 1;
        }
        if checkmate {
            self.termination = Termination::Checkmate;
        }
    }

    /// Ends a game: a game that was not skipped, that has at least twenty
    /// half-moves and a real date and time goes to the propagator. Where the
    /// winner's number changed, the game becomes the checkpoint.
    pub fn end_game(&mut self, store: &mut Store) -> (r: EndOfGame)
        requires
            old(store).wf(),
        ensures
            final(store).wf(),
            final(store).champion@ == old(store).champion@,
            final(store).last_processed_archive == old(store).last_processed_archive,
            old(self).skip ==> r == EndOfGame::Skipped && final(store).records@ == old(store).records@,
            !old(self).skip && old(self).move_count < MIN_HALF_MOVES ==> r == EndOfGame::TooShort
                && final(store).records@ == old(store).records@,
            !old(self).skip && old(self).move_count >= MIN_HALF_MOVES ==> match game_time(old(self).date@, old(self).time@) {
                None => r == EndOfGame::BadTime && final(store).records@ == old(store).records@,
                Some(t) => match r {
                    EndOfGame::Recorded(out) => exists|l: ErdosLink|
                        game_link(*old(self), l, t) && #[trigger] game_effect(*old(store), final(store).records@,
                            key_of(winner_id(*old(self))), l, out),
                    _ => false,
                },
            },
            changed_number(r) ==> (final(store).game_checkpoint matches Some(c) && c@ == old(self).game_id@),
            !changed_number(r) ==> final(store).game_checkpoint == old(store).game_checkpoint,
    {
        if self.skip {
            return EndOfGame::Skipped;
        }
        if self.move_count < MIN_HALF_MOVES {
            return EndOfGame::TooShort;
        }
        let t = match parse_game_time(self.date.as_slice(), self.time.as_slice()) {
            Some(t) => t,
            None => {
                return EndOfGame::BadTime;
            },
        };
        let (winner, loser) = if self.winner_is_white {
            (&self.white, &self.black)
        } else {
            (&self.black, &self.white)
        };
        let link = ErdosLink {
            loser_id: copy_bytes(&loser.id),
            time: t,
            loser_link_count: 0,
            loser_path_count: BigNat::zero(),
            winner_info: winner.player_info.copy(),
            loser_info: loser.player_info.copy(),
            game_id: copy_bytes(&self.game_id),
            move_count: self.move_count,
            time_control: TimeControl { game_type: self.game_type, main: self.time_control.main, increment: self.time_control.increment },
            winner_is_white: self.winner_is_white,
            termination: self.termination,
        };
        let ghost l = link;
        let ghost old_store = *store;
        let out = store.record_game(&winner.id, link);
        let ghost new_recs = store.records@;
        match out {
            GameOutcome::Improved { .. } | GameOutcome::Witness { .. } => {
                store.set_game_checkpoint(Some(copy_bytes(&self.game_id)));
            },
            _ => {},
        }
        proof {
            assert(game_link(*old(self), l, t as int));
            assert(winner.id@ == winner_id(*old(self)));
            assert(game_effect(old_store, new_recs, key_of(winner_id(*old(self))), l, out));
        }
        EndOfGame::Recorded(out)
    }
}

} // verus!
