//! The records that the store holds: users, their champion-number history,
//! and the witness games that justify each number.

use vstd::prelude::*;
use crate::bignat::BigNat;

verus! {

/// The number that stands for "no champion number yet".
pub const ERDOS_NUMBER_INF: u32 = 4294967294;

/// ASCII lower case of one byte; other bytes are kept.
pub open spec fn ascii_lower(c: u8) -> u8 {
    if 65 <= c && c <= 90 {
        (c + 32) as u8
    } else {
        c
    }
}

/// The store key of an account identifier: its bytes in ASCII lower case.
pub open spec fn key_of(id: Seq<u8>) -> Seq<u8> {
    id.map_values(|c: u8| ascii_lower(c))
}

/// The key under which an identifier is stored.
pub fn lowercase_key(id: &Vec<u8>) -> (r: Vec<u8>)
    ensures
        r@ == key_of(id@),
{
    let mut r: Vec<u8> = Vec::new();
    let mut i: usize = 0;
    while i < id.len()
        invariant
            i <= id.len(),
            r@ == key_of(id@.subrange(0, i as int)),
        decreases id.len() - i,
    {
        let c = id[i];
        let l: u8 = if 65 <= c && c <= 90 {
            c + 32
        } else {
            c
        };
        r.push(l);
        proof {
            assert(id@.subrange(0, i + 1) =~= id@.subrange(0, i as int).push(c));
        }
        assert(r@ =~= key_of(id@.subrange(0, i + 1)));
        i = i + 1;
    }
    assert(id@.subrange(0, i as int) =~= id@);
    r
}

/// Whether two byte strings are equal.
pub fn same_bytes(a: &Vec<u8>, b: &Vec<u8>) -> (r: bool)
    ensures
        r == (a@ == b@),
{
    if a.len() != b.len() {
        return false;
    }
    let mut i: usize = 0;
    while i < a.len()
        invariant
            i <= a.len(),
            a.len() == b.len(),
            forall|j: int| 0 <= j < i ==> a@[j] == b@[j],
        decreases a.len() - i,
    {
        if a[i] != b[i] {
            return false;
        }
        i = i + 1;
    }
    assert(a@ =~= b@);
    true
}

/// A copy of a byte string.
pub fn copy_bytes(a: &Vec<u8>) -> (r: Vec<u8>)
    ensures
        r@ == a@,
{
    let r = a.clone();
    assert(r@ =~= a@);
    r
}

/// A case-folded account identifier, as used for keys.
pub struct CaseInsensitiveString(pub Vec<u8>);

impl CaseInsensitiveString {
    pub fn from(id: &Vec<u8>) -> (r: CaseInsensitiveString)
        ensures
            r.0@ == key_of(id@),
    {
        CaseInsensitiveString(lowercase_key(id))
    }
}

/// Rating facts of one side of a game.
#[derive(Debug)]
pub struct PlayerInfo {
    pub title: Vec<u8>,
    pub rating: u32,
    pub rating_change: i32,
}

#[derive(Debug, Clone, Copy, PartialEq, Eq, Structural)]
pub enum TimeControlType {
    Blitz,
    Rapid,
    Classical,
}

#[derive(Debug, Clone, Copy, PartialEq, Eq, Structural)]
pub struct TimeControl {
    pub game_type: TimeControlType,
    pub main: u32,
    pub increment: u32,
}

#[derive(Debug, Clone, Copy, PartialEq, Eq, Structural)]
pub enum Termination {
    Checkmate,
    Resign,
    Time,
}

/// One step of a user's champion-number history.
#[derive(Debug)]
pub struct ErdosLinkMeta {
    pub erdos_number: u32,
    /// How many witness games back this number.
    pub link_count: u32,
    /// How many distinct chains down to the champion back this number.
    pub path_count: BigNat,
}

/// A user: the display identifier and the history, most recent first.
#[derive(Debug)]
pub struct User {
    pub id: Vec<u8>,
    pub erdos_link_meta: Vec<ErdosLinkMeta>,
}

/// One witness game: the winner took a number one above the loser's.
#[derive(Debug)]
pub struct ErdosLink {
    pub loser_id: Vec<u8>,
    /// Seconds since the Unix epoch, UTC.
    pub time: i64,
    /// The loser's link count at its number when this link was written.
    pub loser_link_count: u32,
    /// The loser's path count at its number when this link was written.
    pub loser_path_count: BigNat,
    pub winner_info: PlayerInfo,
    pub loser_info: PlayerInfo,
    pub game_id: Vec<u8>,
    pub move_count: u32,
    pub time_control: TimeControl,
    pub winner_is_white: bool,
    pub termination: Termination,
}

/// One entry of an expanded chain.
#[derive(Debug)]
pub struct ErdosChainLink {
    pub link: ErdosLink,
    /// The index of the link among the winner's links at its number.
    pub link_number: u32,
    /// The index of the chain among those that pass through the loser.
    pub path_number: BigNat,
}

/// The server's singleton metadata.
#[derive(Debug)]
pub struct Meta {
    pub last_processed_archive: Vec<u8>,
}

impl PlayerInfo {
    pub fn copy(&self) -> (r: PlayerInfo)
        ensures
            r.title@ == self.title@,
            r.rating == self.rating,
            r.rating_change == self.rating_change,
    {
        PlayerInfo { title: copy_bytes(&self.title), rating: self.rating, rating_change: self.rating_change }
    }
}

impl ErdosLink {
    /// A copy that agrees on every field.
    pub fn copy(&self) -> (r: ErdosLink)
        ensures
            r.same(self),
    {
        ErdosLink {
            loser_id: copy_bytes(&self.loser_id),
            time: self.time,
            loser_link_count: self.loser_link_count,
            loser_path_count: self.loser_path_count.copy(),
            winner_info: self.winner_info.copy(),
            loser_info: self.loser_info.copy(),
            game_id: copy_bytes(&self.game_id),
            move_count: self.move_count,
            time_control: self.time_control,
            winner_is_white: self.winner_is_white,
            termination: self.termination,
        }
    }

    /// Field-by-field agreement of two links.
    pub open spec fn same(&self, o: &ErdosLink) -> bool {
        &&& self.loser_id@ == o.loser_id@
        &&& self.time == o.time
        &&& self.loser_link_count == o.loser_link_count
        &&& self.loser_path_count.limbs@ == o.loser_path_count.limbs@
        &&& self.winner_info.title@ == o.winner_info.title@
        &&& self.winner_info.rating == o.winner_info.rating
        &&& self.winner_info.rating_change == o.winner_info.rating_change
        &&& self.loser_info.title@ == o.loser_info.title@
        &&& self.loser_info.rating == o.loser_info.rating
        &&& self.loser_info.rating_change == o.loser_info.rating_change
        &&& self.game_id@ == o.game_id@
        &&& self.move_count == o.move_count
        &&& self.time_control == o.time_control
        &&& self.winner_is_white == o.winner_is_white
        &&& self.termination == o.termination
    }
}

impl ErdosLinkMeta {
    pub fn copy(&self) -> (r: ErdosLinkMeta)
        ensures
            r.erdos_number == self.erdos_number,
            r.link_count == self.link_count,
            r.path_count.limbs@ == self.path_count.limbs@,
    {
        ErdosLinkMeta { erdos_number: self.erdos_number, link_count: self.link_count, path_count: self.path_count.copy() }
    }
}

impl User {
    /// The current champion number: that of the most recent history entry.
    pub open spec fn head_number(&self) -> u32 {
        if self.erdos_link_meta@.len() == 0 {
            ERDOS_NUMBER_INF
        } else {
            self.erdos_link_meta@[0].erdos_number
        }
    }

    /// The index of the history entry at number `n`, if any.
    pub fn erdos_link_for_number(&self, n: u32) -> (r: Option<usize>)
        ensures
            r matches Some(k) ==> k < self.erdos_link_meta@.len() && self.erdos_link_meta@[k as int].erdos_number == n,
            r is None ==> forall|k: int| 0 <= k < self.erdos_link_meta@.len() ==> self.erdos_link_meta@[k].erdos_number != n,
    {
        let mut k: usize = 0;
        while k < self.erdos_link_meta.len()
            invariant
                k <= self.erdos_link_meta@.len(),
                forall|j: int| 0 <= j < k ==> self.erdos_link_meta@[j].erdos_number != n,
            decreases self.erdos_link_meta@.len() - k,
        {
            if self.erdos_link_meta[k].erdos_number == n {
                return Some(k);
            }
            k = k + 1;
        }
        None
    }
}

/// The current champion number of a user: zero for the champion, else that of
/// the most recent history entry, else none.
pub fn user_to_erdos_number(user: &User, champion_key: &Vec<u8>) -> (r: u32)
    ensures
        key_of(user.id@) == champion_key@ ==> r == 0,
        key_of(user.id@) != champion_key@ ==> r == user.head_number(),
{
    let key = lowercase_key(&user.id);
    if same_bytes(&key, champion_key) {
        0
    } else if user.erdos_link_meta.len() == 0 {
        ERDOS_NUMBER_INF
    } else {
        user.erdos_link_meta[0].erdos_number
    }
}

} // verus!
