//! The in-memory image of the store: users keyed by case-folded identifier,
//! each with its history and, for each history entry, its witness games.
//! Propagation of champion numbers works on it and keeps its invariants.

use vstd::prelude::*;
use crate::bignat::BigNat;
use crate::model::{
    copy_bytes, key_of, lowercase_key, same_bytes, ErdosLink, ErdosLinkMeta, User,
    ERDOS_NUMBER_INF,
};

verus! {

/// The sum of the frozen loser path counts of the first `m` links.
pub open spec fn path_sum(links: Seq<ErdosLink>, m: int) -> nat
    decreases m,
{
    if m <= 0 {
        0
    } else {
        path_sum(links, m - 1) + links[m - 1].loser_path_count.value()
    }
}

/// Appending a link leaves every prefix sum of the old links alone.
pub proof fn lemma_path_sum_push(links: Seq<ErdosLink>, x: ErdosLink, m: int)
    requires
        0 <= m <= links.len(),
    ensures
        path_sum(links.push(x), m) == path_sum(links, m),
    decreases m,
{
    if m > 0 {
        lemma_path_sum_push(links, x, m - 1);
    }
}

/// A user with the witness games of each history entry: `links[k][i]` is the
/// link stored under `(key, user.erdos_link_meta[k].erdos_number, i)`.
#[derive(Debug)]
pub struct UserRecord {
    pub key: Vec<u8>,
    pub user: User,
    pub links: Vec<Vec<ErdosLink>>,
}

impl UserRecord {
    pub open spec fn meta(&self) -> Seq<ErdosLinkMeta> {
        self.user.erdos_link_meta@
    }

    pub open spec fn number(&self, k: int) -> u32 {
        self.user.erdos_link_meta@[k].erdos_number
    }

    /// The links at the `k`-th history entry.
    pub open spec fn level(&self, k: int) -> Seq<ErdosLink> {
        self.links@[k]@
    }

    /// Whether the `k`-th history entry was taken by a game strictly before `t`.
    pub open spec fn acquired_before(&self, k: int, t: i64) -> bool {
        self.level(k).len() > 0 && self.level(k)[0].time < t
    }

    /// The first entry, from `from` on, that was taken strictly before `t`.
    pub open spec fn first_acquired(&self, t: i64, from: int) -> Option<int>
        decreases self.meta().len() - from,
    {
        if from < 0 || from >= self.meta().len() {
            None
        } else if self.acquired_before(from, t) {
            Some(from)
        } else {
            self.first_acquired(t, from + 1)
        }
    }

    /// The history entry that held at time `t`: the champion always holds its
    /// only entry; anyone else the most recent entry taken strictly before `t`.
    pub open spec fn entry_at(&self, t: i64, champion: Seq<u8>) -> Option<int> {
        if self.key@ == champion {
            if self.meta().len() > 0 {
                Some(0)
            } else {
                None
            }
        } else {
            self.first_acquired(t, 0)
        }
    }

    /// The champion's history: one entry, number 0, no links, one path.
    pub open spec fn champion_history(&self) -> bool {
        &&& self.meta().len() == 1
        &&& self.number(0) == 0
        &&& self.meta()[0].link_count == 0
        &&& self.meta()[0].path_count.value() == 1
        &&& self.level(0).len() == 0
    }

    /// The invariants that one record keeps on its own.
    pub open spec fn wf(&self, champion: Seq<u8>) -> bool {
        &&& self.key@ == key_of(self.user.id@)
        &&& self.links@.len() == self.meta().len()
        &&& forall|k: int|
            0 <= k < self.meta().len() - 1 ==> #[trigger] self.number(k) < self.number(k + 1)
        &&& forall|k: int| 0 <= k < self.meta().len() ==> #[trigger] self.number(k) < ERDOS_NUMBER_INF
        &&& forall|k: int|
            0 <= k < self.meta().len() ==> #[trigger] self.level(k).len() == self.meta()[k].link_count
        &&& self.key@ == champion ==> self.champion_history()
        &&& self.key@ != champion ==> forall|k: int|
            0 <= k < self.meta().len() ==> #[trigger] self.number(k) >= 1
                && self.meta()[k].path_count.value() == path_sum(self.level(k), self.level(k).len() as int)
    }
}

/// What a link stored at number `n` says of its loser's record `r`: the loser
/// held `n - 1` from a game strictly before the link's, and the frozen counts
/// are those of a prefix of the loser's links at `n - 1`.
pub open spec fn loser_entry_ok(r: UserRecord, l: ErdosLink, n: u32, champion: Seq<u8>) -> bool {
    ||| (r.key@ == champion && n == 1 && l.loser_link_count == 0 && l.loser_path_count.value() == 1)
    ||| exists|k: int| 0 <= k < r.meta().len() && #[trigger] r.number(k) == n - 1 && snapshot_ok(r, k, l)
}

/// The frozen counts of `l` match the first links of entry `k` of `r`, and that
/// entry was taken before `l`'s game.
pub open spec fn snapshot_ok(r: UserRecord, k: int, l: ErdosLink) -> bool {
    &&& 1 <= l.loser_link_count <= r.level(k).len()
    &&& path_sum(r.level(k), l.loser_link_count as int) == l.loser_path_count.value()
    &&& r.acquired_before(k, l.time)
}

/// The loser of a link stored at number `n` is a known user who held `n - 1`
/// strictly before the game.
pub open spec fn link_ok(recs: Seq<UserRecord>, l: ErdosLink, n: u32, champion: Seq<u8>) -> bool {
    exists|j: int|
        0 <= j < recs.len() && #[trigger] recs[j].key@ == key_of(l.loser_id@)
            && loser_entry_ok(recs[j], l, n, champion)
}

/// What happened to a game handed to the propagator.
#[derive(Debug, Clone, Copy, PartialEq, Eq, Structural)]
pub enum GameOutcome {
    /// The winner took a new, smaller number; its link is `(winner, number, 0)`.
    Improved { number: u32 },
    /// The winner already held this number; the game is one more witness.
    Witness { number: u32, link_index: u32 },
    /// The game cannot improve the winner's number.
    NotImproving,
    /// Winner or loser is not in the store.
    UnknownPlayer,
}

/// The users, the singletons, and the identity of the champion.
#[derive(Debug)]
pub struct Store {
    /// The champion's key.
    pub champion: Vec<u8>,
    pub records: Vec<UserRecord>,
    pub last_processed_archive: Option<Vec<u8>>,
    pub game_checkpoint: Option<Vec<u8>>,
}

impl Store {
    /// The invariants of the whole store.
    pub open spec fn wf(&self) -> bool {
        &&& forall|j: int, m: int|
            0 <= j < self.records@.len() && 0 <= m < self.records@.len() && j != m
                ==> #[trigger] self.records@[j].key@ != #[trigger] self.records@[m].key@
        &&& forall|j: int| 0 <= j < self.records@.len() ==> #[trigger] self.records@[j].wf(self.champion@)
        &&& exists|j: int| 0 <= j < self.records@.len() && #[trigger] self.records@[j].key@ == self.champion@
        &&& forall|j: int, k: int, i: int|
            0 <= j < self.records@.len() && 0 <= k < self.records@[j].meta().len()
                && 0 <= i < self.records@[j].level(k).len()
                ==> link_ok(self.records@, #[trigger] self.records@[j].level(k)[i], self.records@[j].number(k), self.champion@)
    }

    /// The index of the record with key `key`, if any.
    pub open spec fn index_of(&self, key: Seq<u8>) -> Option<int> {
        if exists|j: int| 0 <= j < self.records@.len() && #[trigger] self.records@[j].key@ == key {
            Some(choose|j: int| 0 <= j < self.records@.len() && #[trigger] self.records@[j].key@ == key)
        } else {
            None
        }
    }

    /// A store holding only the champion, with its one history entry.
    pub fn new(champion_id: &Vec<u8>) -> (r: Store)
        ensures
            r.wf(),
            r.champion@ == key_of(champion_id@),
            r.records@.len() == 1,
            r.records@[0].user.id@ == champion_id@,
            r.last_processed_archive is None,
            r.game_checkpoint is None,
    {
        let key = lowercase_key(champion_id);
        let champion = copy_bytes(&key);
        let mut meta: Vec<ErdosLinkMeta> = Vec::new();
        meta.push(ErdosLinkMeta { erdos_number: 0, link_count: 0, path_count: BigNat::from_u64(1) });
        let mut links: Vec<Vec<ErdosLink>> = Vec::new();
        links.push(Vec::new());
        let rec = UserRecord { key, user: User { id: copy_bytes(champion_id), erdos_link_meta: meta }, links };
        let mut records: Vec<UserRecord> = Vec::new();
        records.push(rec);
        let r = Store { champion, records, last_processed_archive: None, game_checkpoint: None };
        assert(r.records@[0].wf(r.champion@));
        assert(r.records@[0].key@ == r.champion@);
        r
    }

    /// Finds the record with the given key.
    pub fn find(&self, key: &Vec<u8>) -> (r: Option<usize>)
        ensures
            r matches Some(j) ==> j < self.records@.len() && self.records@[j as int].key@ == key@,
            r is None ==> forall|j: int| 0 <= j < self.records@.len() ==> #[trigger] self.records@[j].key@ != key@,
    {
        let mut j: usize = 0;
        while j < self.records.len()
            invariant
                j <= self.records@.len(),
                forall|m: int| 0 <= m < j ==> #[trigger] self.records@[m].key@ != key@,
            decreases self.records@.len() - j,
        {
            if same_bytes(&self.records[j].key, key) {
                return Some(j);
            }
            j = j + 1;
        }
        None
    }
}


/// The first entry found from `from` on was taken before `t`, and none before it was.
pub proof fn lemma_first_acquired(r: UserRecord, t: i64, from: int)
    requires
        0 <= from,
    ensures
        r.first_acquired(t, from) matches Some(k) ==> from <= k < r.meta().len() && r.acquired_before(k, t),
    decreases r.meta().len() - from,
{
    if from < r.meta().len() && !r.acquired_before(from, t) {
        lemma_first_acquired(r, t, from + 1);
    }
}

/// Replacing one record by one with the same key keeps every link's loser
/// facts, provided the new record keeps those that the old one gave.
pub proof fn lemma_links_kept(
    old_recs: Seq<UserRecord>,
    new_recs: Seq<UserRecord>,
    wi: int,
    champion: Seq<u8>,
)
    requires
        0 <= wi < old_recs.len(),
        new_recs.len() == old_recs.len(),
        forall|j: int| 0 <= j < old_recs.len() && j != wi ==> new_recs[j] == old_recs[j],
        new_recs[wi].key@ == old_recs[wi].key@,
        forall|l: ErdosLink, n: u32|
            loser_entry_ok(old_recs[wi], l, n, champion) ==> #[trigger] loser_entry_ok(new_recs[wi], l, n, champion),
    ensures
        forall|l: ErdosLink, n: u32|
            link_ok(old_recs, l, n, champion) ==> #[trigger] link_ok(new_recs, l, n, champion),
{
    assert forall|l: ErdosLink, n: u32| link_ok(old_recs, l, n, champion) implies #[trigger] link_ok(new_recs, l, n, champion) by {
        let j = choose|j: int|
            0 <= j < old_recs.len() && #[trigger] old_recs[j].key@ == key_of(l.loser_id@)
                && loser_entry_ok(old_recs[j], l, n, champion);
        assert(new_recs[j].key@ == key_of(l.loser_id@));
        assert(loser_entry_ok(new_recs[j], l, n, champion));
    }
}

impl Store {
    /// The current champion number of the user with identifier `id`, which is
    /// registered first with an empty history where it is unknown. The
    /// unregistered identifier `?` has no number and is never stored.
    pub fn current_number(&mut self, id: &Vec<u8>) -> (r: u32)
        requires
            old(self).wf(),
        ensures
            final(self).wf(),
            final(self).champion@ == old(self).champion@,
            final(self).last_processed_archive == old(self).last_processed_archive,
            final(self).game_checkpoint == old(self).game_checkpoint,
            id@ == seq![63u8] ==> r == ERDOS_NUMBER_INF && final(self).records@ == old(self).records@,
            id@ != seq![63u8] ==> (match old(self).index_of(key_of(id@)) {
                Some(j) => final(self).records@ == old(self).records@ && r == (
                    if key_of(id@) == old(self).champion@ { 0 } else { old(self).records@[j].user.head_number() }),
                None => r == ERDOS_NUMBER_INF && final(self).records@.len() == old(self).records@.len() + 1
                    && final(self).records@.drop_last() == old(self).records@
                    && final(self).records@.last().key@ == key_of(id@)
                    && final(self).records@.last().user.id@ == id@
                    && final(self).records@.last().meta().len() == 0,
            }),
    {
        if id.len() == 1 && id[0] == 63u8 {
            assert(id@ =~= seq![63u8]);
            return ERDOS_NUMBER_INF;
        }
        let key = lowercase_key(id);
        match self.find(&key) {
            Some(j) => {
                proof { self.lemma_index_of(key@, j as int); }
                if same_bytes(&key, &self.champion) {
                    0
                } else if self.records[j].user.erdos_link_meta.len() == 0 {
                    ERDOS_NUMBER_INF
                } else {
                    self.records[j].user.erdos_link_meta[0].erdos_number
                }
            },
            None => {
                let ghost old_recs = self.records@;
                let rec = UserRecord {
                    key,
                    user: User { id: copy_bytes(id), erdos_link_meta: Vec::new() },
                    links: Vec::new(),
                };
                self.records.push(rec);
                proof {
                    let n = old_recs.len() as int;
                    assert(self.records@.drop_last() =~= old_recs);
                    assert(forall|j: int| 0 <= j < n ==> self.records@[j] == old_recs[j]);
                    let c = choose|j: int| 0 <= j < old_recs.len() && #[trigger] old_recs[j].key@ == self.champion@;
                    assert(self.records@[c].key@ == self.champion@);
                    assert(self.records@[n].key@ != self.champion@);
                    assert(self.records@[n].wf(self.champion@));
                    assert forall|l: ErdosLink, m: u32| link_ok(old_recs, l, m, self.champion@)
                        implies #[trigger] link_ok(self.records@, l, m, self.champion@) by {
                        let j = choose|j: int|
                            0 <= j < old_recs.len() && #[trigger] old_recs[j].key@ == key_of(l.loser_id@)
                                && loser_entry_ok(old_recs[j], l, m, self.champion@);
                        assert(self.records@[j] == old_recs[j]);
                    }
                    assert forall|j: int, k: int, i: int|
                        0 <= j < self.records@.len() && 0 <= k < self.records@[j].meta().len()
                            && 0 <= i < self.records@[j].level(k).len()
                        implies link_ok(self.records@, #[trigger] self.records@[j].level(k)[i],
                            self.records@[j].number(k), self.champion@) by {
                        assert(j < n);
                        assert(link_ok(old_recs, old_recs[j].level(k)[i], old_recs[j].number(k), self.champion@));
                    }
                }
                ERDOS_NUMBER_INF
            },
        }
    }

    /// The index that `find` gives is the one that `index_of` names.
    pub proof fn lemma_index_of(&self, key: Seq<u8>, j: int)
        requires
            self.wf(),
            0 <= j < self.records@.len(),
            self.records@[j].key@ == key,
        ensures
            self.index_of(key) == Some(j),
    {
        let c = choose|m: int| 0 <= m < self.records@.len() && #[trigger] self.records@[m].key@ == key;
        if c != j {
            assert(self.records@[c].key@ != self.records@[j].key@);
        }
    }
}

impl UserRecord {
    /// The index of the history entry that held at time `t`.
    pub fn entry_at_time(&self, t: i64, champion: &Vec<u8>) -> (r: Option<usize>)
        requires
            self.links@.len() == self.meta().len(),
        ensures
            match r {
                Some(k) => self.entry_at(t, champion@) == Some(k as int) && k < self.meta().len(),
                None => self.entry_at(t, champion@) is None,
            },
    {
        if same_bytes(&self.key, champion) {
            if self.user.erdos_link_meta.len() > 0 {
                return Some(0);
            } else {
                return None;
            }
        }
        let mut k: usize = 0;
        while k < self.user.erdos_link_meta.len()
            invariant
                k <= self.meta().len(),
                self.links@.len() == self.meta().len(),
                self.first_acquired(t, 0) == self.first_acquired(t, k as int),
                self.key@ != champion@,
            decreases self.meta().len() - k,
        {
            if self.links[k].len() > 0 && self.links[k][0].time < t {
                assert(self.acquired_before(k as int, t));
                assert(self.first_acquired(t, k as int) == Some(k as int));
                return Some(k);
            }
            assert(!self.acquired_before(k as int, t));
            k = k + 1;
        }
        None
    }
}

/// The champion number that a user held at time `t`: zero for the champion;
/// for anyone else the number of the most recent history entry taken by a game
/// strictly before `t`, or none.
pub fn user_to_erdos_number_at(record: &UserRecord, champion: &Vec<u8>, t: i64) -> (r: u32)
    requires
        record.wf(champion@),
    ensures
        record.key@ == champion@ ==> r == 0,
        record.key@ != champion@ ==> r == (match record.first_acquired(t, 0) {
            Some(k) => record.number(k),
            None => ERDOS_NUMBER_INF,
        }),
{
    match record.entry_at_time(t, champion) {
        Some(k) => record.user.erdos_link_meta[k].erdos_number,
        None => ERDOS_NUMBER_INF,
    }
}

/// `x` is `link` with the loser's counts frozen to `lc` and a path count of `pc`.
pub open spec fn frozen_link(x: ErdosLink, link: ErdosLink, lc: u32, pc: nat) -> bool {
    &&& x.loser_link_count == lc
    &&& x.loser_path_count.value() == pc
    &&& x.loser_id == link.loser_id
    &&& x.time == link.time
    &&& x.winner_info == link.winner_info
    &&& x.loser_info == link.loser_info
    &&& x.game_id == link.game_id
    &&& x.move_count == link.move_count
    &&& x.time_control == link.time_control
    &&& x.winner_is_white == link.winner_is_white
    &&& x.termination == link.termination
}

/// `nw` is `w` with a new most recent entry at number `n` holding the single
/// link `link`, frozen against entry `k` of the loser's record `l`.
pub open spec fn improved(w: UserRecord, nw: UserRecord, n: u32, l: UserRecord, k: int, link: ErdosLink) -> bool {
    &&& nw.key == w.key
    &&& nw.user.id == w.user.id
    &&& nw.meta().len() == w.meta().len() + 1
    &&& nw.links@.len() == w.links@.len() + 1
    &&& nw.number(0) == n
    &&& nw.meta()[0].link_count == 1
    &&& nw.meta()[0].path_count.value() == l.meta()[k].path_count.value()
    &&& forall|i: int| 0 <= i < w.meta().len() ==> nw.meta()[i + 1] == #[trigger] w.meta()[i]
    &&& forall|i: int| 0 <= i < w.links@.len() ==> nw.links@[i + 1] == #[trigger] w.links@[i]
    &&& nw.level(0).len() == 1
    &&& frozen_link(nw.level(0)[0], link, l.meta()[k].link_count, l.meta()[k].path_count.value())
}

/// `nw` is `w` with `link`, frozen against entry `k` of the loser's record
/// `l`, appended as one more witness of its most recent entry.
pub open spec fn witnessed(w: UserRecord, nw: UserRecord, l: UserRecord, k: int, link: ErdosLink) -> bool {
    &&& nw.key == w.key
    &&& nw.user.id == w.user.id
    &&& nw.meta().len() == w.meta().len()
    &&& nw.links@.len() == w.links@.len()
    &&& nw.number(0) == w.number(0)
    &&& nw.meta()[0].link_count == w.meta()[0].link_count + 1
    &&& nw.meta()[0].path_count.value() == w.meta()[0].path_count.value() + l.meta()[k].path_count.value()
    &&& forall|i: int| 1 <= i < w.meta().len() ==> nw.meta()[i] == #[trigger] w.meta()[i]
    &&& forall|i: int| 1 <= i < w.links@.len() ==> nw.links@[i] == #[trigger] w.links@[i]
    &&& nw.level(0).len() == w.level(0).len() + 1
    &&& nw.level(0).drop_last() == w.level(0)
    &&& frozen_link(nw.level(0).last(), link, l.meta()[k].link_count, l.meta()[k].path_count.value())
}

/// The effect of one game, won by the user with key `wkey`, on the records.
pub open spec fn game_effect(
    old_s: Store,
    new_recs: Seq<UserRecord>,
    wkey: Seq<u8>,
    link: ErdosLink,
    out: GameOutcome,
) -> bool {
    let recs = old_s.records@;
    match (old_s.index_of(wkey), old_s.index_of(key_of(link.loser_id@))) {
        (Some(wi), Some(li)) => {
            let w = recs[wi];
            let l = recs[li];
            match l.entry_at(link.time, old_s.champion@) {
                Some(k) => {
                    let n = (l.number(k) + 1) as u32;
                    if wi == li {
                        out == GameOutcome::NotImproving && new_recs == recs
                    } else if w.user.head_number() > n {
                        &&& out == (GameOutcome::Improved { number: n })
                        &&& new_recs.len() == recs.len()
                        &&& forall|j: int| 0 <= j < recs.len() && j != wi ==> new_recs[j] == recs[j]
                        &&& improved(w, new_recs[wi], n, l, k, link)
                    } else if w.meta().len() > 0 && w.number(0) == n && w.meta()[0].link_count < u32::MAX {
                        &&& out == (GameOutcome::Witness { number: n, link_index: w.meta()[0].link_count })
                        &&& new_recs.len() == recs.len()
                        &&& forall|j: int| 0 <= j < recs.len() && j != wi ==> new_recs[j] == recs[j]
                        &&& witnessed(w, new_recs[wi], l, k, link)
                    } else {
                        out == GameOutcome::NotImproving && new_recs == recs
                    }
                },
                None => out == GameOutcome::NotImproving && new_recs == recs,
            }
        },
        _ => out == GameOutcome::UnknownPlayer && new_recs == recs,
    }
}

impl Store {
    /// Applies one qualifying game: `winner_id` beat `link.loser_id` at
    /// `link.time`. The loser's number is the one held at that time; the winner
    /// improves to one above it, or gains one more witness where it already
    /// holds exactly that; otherwise nothing changes.
    pub fn record_game(&mut self, winner_id: &Vec<u8>, link: ErdosLink) -> (out: GameOutcome)
        requires
            old(self).wf(),
        ensures
            final(self).wf(),
            final(self).champion@ == old(self).champion@,
            final(self).last_processed_archive == old(self).last_processed_archive,
            final(self).game_checkpoint == old(self).game_checkpoint,
            game_effect(*old(self), final(self).records@, key_of(winner_id@), link, out),
    {
        let wkey = lowercase_key(winner_id);
        let lkey = lowercase_key(&link.loser_id);
        let wi = match self.find(&wkey) {
            Some(j) => j,
            None => {
                return GameOutcome::UnknownPlayer;
            },
        };
        proof { self.lemma_index_of(wkey@, wi as int); }
        let li = match self.find(&lkey) {
            Some(j) => j,
            None => {
                return GameOutcome::UnknownPlayer;
            },
        };
        proof {
            self.lemma_index_of(lkey@, li as int);
            assert(self.records@[li as int].wf(self.champion@));
        }
        let k = match self.records[li].entry_at_time(link.time, &self.champion) {
            Some(k) => k,
            None => {
                return GameOutcome::NotImproving;
            },
        };
        if wi == li {
            return GameOutcome::NotImproving;
        }
        let ghost old_s = *self;
        let ghost w = self.records@[wi as int];
        let ghost l = self.records@[li as int];
        proof {
            assert(w.wf(self.champion@));
            assert(l.number(k as int) < ERDOS_NUMBER_INF);
        }
        let ln = self.records[li].user.erdos_link_meta[k].erdos_number;
        let n: u32 = ln + 1;
        let head: u32 = if self.records[wi].user.erdos_link_meta.len() == 0 {
            ERDOS_NUMBER_INF
        } else {
            self.records[wi].user.erdos_link_meta[0].erdos_number
        };
        if head > n {
            self.improve(wi, li, k, n, link);
            GameOutcome::Improved { number: n }
        } else if self.records[wi].user.erdos_link_meta.len() > 0 && head == n
            && self.records[wi].user.erdos_link_meta[0].link_count < u32::MAX {
            let index = self.add_witness(wi, li, k, link);
            GameOutcome::Witness { number: n, link_index: index }
        } else {
            GameOutcome::NotImproving
        }
    }

    /// Gives the winner at `wi` a new most recent entry at number `n`.
    fn improve(&mut self, wi: usize, li: usize, k: usize, n: u32, link: ErdosLink)
        requires
            old(self).wf(),
            wi < old(self).records@.len(),
            li < old(self).records@.len(),
            wi != li,
            old(self).records@[li as int].key@ == key_of(link.loser_id@),
            old(self).records@[li as int].entry_at(link.time, old(self).champion@) == Some(k as int),
            n == old(self).records@[li as int].number(k as int) + 1,
            old(self).records@[wi as int].user.head_number() > n,
        ensures
            final(self).wf(),
            final(self).champion@ == old(self).champion@,
            final(self).last_processed_archive == old(self).last_processed_archive,
            final(self).game_checkpoint == old(self).game_checkpoint,
            final(self).records@.len() == old(self).records@.len(),
            forall|j: int| 0 <= j < old(self).records@.len() && j != wi ==> final(self).records@[j] == old(self).records@[j],
            improved(old(self).records@[wi as int], final(self).records@[wi as int], n,
                old(self).records@[li as int], k as int, link),
    {
        let ghost old_s = *self;
        let ghost w = self.records@[wi as int];
        let ghost l = self.records@[li as int];
        let ghost orig = link;
        proof {
            assert(l.wf(self.champion@));
            assert(w.wf(self.champion@));
            if l.key@ != self.champion@ {
                lemma_first_acquired(l, link.time, 0);
            }
        }
        let mut link = link;
        let loser_lc = self.records[li].user.erdos_link_meta[k].link_count;
        let loser_pc = self.records[li].user.erdos_link_meta[k].path_count.copy();
        link.loser_link_count = loser_lc;
        link.loser_path_count = loser_pc.copy();
        let ghost x = link;
        let mut rec = self.records.remove(wi);
        rec.user.erdos_link_meta.insert(0, ErdosLinkMeta { erdos_number: n, link_count: 1, path_count: loser_pc });
        let mut level: Vec<ErdosLink> = Vec::new();
        level.push(link);
        rec.links.insert(0, level);
        self.records.insert(wi, rec);
        proof {
            let nw = self.records@[wi as int];
            assert(self.records@ =~= old_s.records@.update(wi as int, nw));
            assert(nw.level(0) =~= seq![x]);
            assert(improved(w, nw, n, l, k as int, orig)) by {
                assert forall|i: int| 0 <= i < w.meta().len() implies nw.meta()[i + 1] == #[trigger] w.meta()[i] by {}
                assert forall|i: int| 0 <= i < w.links@.len() implies nw.links@[i + 1] == #[trigger] w.links@[i] by {}
            }
            self.lemma_improved_wf(old_s, wi as int, li as int, k as int, n, orig);
        }
    }

    /// Adds one more witness to the most recent entry of the winner at `wi`;
    /// returns the new link's index.
    fn add_witness(&mut self, wi: usize, li: usize, k: usize, link: ErdosLink) -> (index: u32)
        requires
            old(self).wf(),
            wi < old(self).records@.len(),
            li < old(self).records@.len(),
            wi != li,
            old(self).records@[li as int].key@ == key_of(link.loser_id@),
            old(self).records@[li as int].entry_at(link.time, old(self).champion@) == Some(k as int),
            old(self).records@[wi as int].meta().len() > 0,
            old(self).records@[wi as int].number(0) == old(self).records@[li as int].number(k as int) + 1,
            old(self).records@[wi as int].meta()[0].link_count < u32::MAX,
        ensures
            final(self).wf(),
            final(self).champion@ == old(self).champion@,
            final(self).last_processed_archive == old(self).last_processed_archive,
            final(self).game_checkpoint == old(self).game_checkpoint,
            final(self).records@.len() == old(self).records@.len(),
            forall|j: int| 0 <= j < old(self).records@.len() && j != wi ==> final(self).records@[j] == old(self).records@[j],
            index == old(self).records@[wi as int].meta()[0].link_count,
            witnessed(old(self).records@[wi as int], final(self).records@[wi as int],
                old(self).records@[li as int], k as int, link),
    {
        let ghost old_s = *self;
        let ghost w = self.records@[wi as int];
        let ghost l = self.records@[li as int];
        let ghost orig = link;
        proof {
            assert(l.wf(self.champion@));
            assert(w.wf(self.champion@));
            if l.key@ != self.champion@ {
                lemma_first_acquired(l, link.time, 0);
            }
        }
        let mut link = link;
        let loser_lc = self.records[li].user.erdos_link_meta[k].link_count;
        let loser_pc = self.records[li].user.erdos_link_meta[k].path_count.copy();
        link.loser_link_count = loser_lc;
        link.loser_path_count = loser_pc.copy();
        let ghost x = link;
        let rec = self.records.remove(wi);
        let (rec, index) = append_witness(rec, link);
        self.records.insert(wi, rec);
        proof {
            let nw = self.records@[wi as int];
            assert(self.records@ =~= old_s.records@.update(wi as int, nw));
            assert(nw.level(0).drop_last() =~= w.level(0));
            assert(nw.level(0).last() == x);
            assert(witnessed(w, nw, l, k as int, orig));
            self.lemma_witnessed_wf(old_s, wi as int, li as int, k as int, orig);
        }
        index
    }
}

impl Store {
    /// The loser facts of a link new at number `n`, frozen against entry `k`
    /// of the loser's record, which held that entry at the link's time.
    proof fn lemma_new_link_ok(recs: Seq<UserRecord>, champion: Seq<u8>, li: int, k: int, n: u32, x: ErdosLink)
        requires
            0 <= li < recs.len(),
            recs[li].wf(champion),
            recs[li].key@ == key_of(x.loser_id@),
            recs[li].entry_at(x.time, champion) == Some(k),
            n == recs[li].number(k) + 1,
            x.loser_link_count == recs[li].meta()[k].link_count,
            x.loser_path_count.value() == recs[li].meta()[k].path_count.value(),
        ensures
            link_ok(recs, x, n, champion),
    {
        let l = recs[li];
        if l.key@ == champion {
            assert(l.champion_history());
            assert(loser_entry_ok(l, x, n, champion));
        } else {
            lemma_first_acquired(l, x.time, 0);
            assert(l.number(k) >= 1);
            assert(snapshot_ok(l, k, x));
            assert(loser_entry_ok(l, x, n, champion));
        }
    }

    /// The store-wide facts that do not depend on how record `wi` changed.
    proof fn lemma_keys_kept(&self, old_s: Store, wi: int)
        requires
            old_s.wf(),
            self.champion@ == old_s.champion@,
            0 <= wi < old_s.records@.len(),
            self.records@ == old_s.records@.update(wi, self.records@[wi]),
            self.records@[wi].key@ == old_s.records@[wi].key@,
        ensures
            forall|j: int, m: int|
                0 <= j < self.records@.len() && 0 <= m < self.records@.len() && j != m
                    ==> #[trigger] self.records@[j].key@ != #[trigger] self.records@[m].key@,
            exists|j: int| 0 <= j < self.records@.len() && #[trigger] self.records@[j].key@ == self.champion@,
    {
        assert forall|j: int, m: int|
            0 <= j < self.records@.len() && 0 <= m < self.records@.len() && j != m
            implies #[trigger] self.records@[j].key@ != #[trigger] self.records@[m].key@ by {
            assert(self.records@[j].key@ == old_s.records@[j].key@);
            assert(self.records@[m].key@ == old_s.records@[m].key@);
        }
        let c = choose|j: int| 0 <= j < old_s.records@.len() && #[trigger] old_s.records@[j].key@ == old_s.champion@;
        assert(self.records@[c].key@ == self.champion@);
    }

    proof fn lemma_improved_wf(&self, old_s: Store, wi: int, li: int, k: int, n: u32, orig: ErdosLink)
        requires
            old_s.wf(),
            self.champion@ == old_s.champion@,
            0 <= wi < old_s.records@.len(),
            0 <= li < old_s.records@.len(),
            wi != li,
            self.records@ == old_s.records@.update(wi, self.records@[wi]),
            old_s.records@[li].key@ == key_of(orig.loser_id@),
            old_s.records@[li].entry_at(orig.time, old_s.champion@) == Some(k),
            n == old_s.records@[li].number(k) + 1,
            old_s.records@[wi].user.head_number() > n,
            improved(old_s.records@[wi], self.records@[wi], n, old_s.records@[li], k, orig),
        ensures
            self.wf(),
    {
        let c = self.champion@;
        let recs = old_s.records@;
        let nr = self.records@;
        let w = recs[wi];
        let l = recs[li];
        let nw = nr[wi];
        let x = nw.level(0)[0];
        assert(w.wf(c));
        assert(l.wf(c));
        assert(w.key@ != c) by {
            if w.key@ == c {
                assert(w.champion_history());
            }
        }
        if l.key@ != c {
            lemma_first_acquired(l, orig.time, 0);
        }
        lemma_improved_record(w, nw, n, l, k, orig, c);
        self.lemma_keys_kept(old_s, wi);
        assert forall|j: int| 0 <= j < nr.len() implies #[trigger] nr[j].wf(c) by {
            if j != wi {
                assert(nr[j] == recs[j]);
            }
        }
        lemma_links_kept(recs, nr, wi, c);
        assert(nr[li] == l);
        Self::lemma_new_link_ok(nr, c, li, k, n, x);
        assert forall|j: int, k2: int, i: int|
            0 <= j < nr.len() && 0 <= k2 < nr[j].meta().len() && 0 <= i < nr[j].level(k2).len()
            implies link_ok(nr, #[trigger] nr[j].level(k2)[i], nr[j].number(k2), c) by {
            if j != wi {
                assert(nr[j] == recs[j]);
                assert(link_ok(recs, recs[j].level(k2)[i], recs[j].number(k2), c));
            } else if k2 > 0 {
                assert(nw.meta()[k2] == w.meta()[k2 - 1]);
                assert(nw.links@[k2] == w.links@[k2 - 1]);
                assert(link_ok(recs, w.level(k2 - 1)[i], w.number(k2 - 1), c));
            } else {
                assert(i == 0);
            }
        }
    }

    #[verifier::rlimit(20)]
    proof fn lemma_witnessed_wf(&self, old_s: Store, wi: int, li: int, k: int, orig: ErdosLink)
        requires
            old_s.wf(),
            self.champion@ == old_s.champion@,
            0 <= wi < old_s.records@.len(),
            0 <= li < old_s.records@.len(),
            wi != li,
            self.records@ == old_s.records@.update(wi, self.records@[wi]),
            old_s.records@[li].key@ == key_of(orig.loser_id@),
            old_s.records@[li].entry_at(orig.time, old_s.champion@) == Some(k),
            old_s.records@[wi].meta().len() > 0,
            old_s.records@[wi].number(0) == old_s.records@[li].number(k) + 1,
            witnessed(old_s.records@[wi], self.records@[wi], old_s.records@[li], k, orig),
        ensures
            self.wf(),
    {
        let c = self.champion@;
        let recs = old_s.records@;
        let nr = self.records@;
        let w = recs[wi];
        let l = recs[li];
        let nw = nr[wi];
        let x = nw.level(0).last();
        let n = w.number(0);
        let len0 = w.level(0).len() as int;
        assert(w.wf(c));
        assert(l.wf(c));
        assert(w.key@ != c) by {
            if w.key@ == c {
                assert(w.champion_history());
            }
        }
        if l.key@ != c {
            lemma_first_acquired(l, orig.time, 0);
        }
        assert(nw.level(0) == w.level(0).push(x)) by {
            assert(nw.level(0) =~= nw.level(0).drop_last().push(x));
        }
        lemma_witnessed_record(w, nw, l, k, orig, c);
        self.lemma_keys_kept(old_s, wi);
        assert forall|j: int| 0 <= j < nr.len() implies #[trigger] nr[j].wf(c) by {
            if j != wi {
                assert(nr[j] == recs[j]);
            }
        }
        lemma_links_kept(recs, nr, wi, c);
        assert(nr[li] == l);
        assert(nr[li].wf(c));
        assert(x.loser_id == orig.loser_id);
        assert(nr[li].key@ == key_of(x.loser_id@));
        assert(x.time == orig.time);
        Self::lemma_new_link_ok(nr, c, li, k, n, x);
        old_s.lemma_links_of_wf();
        lemma_witnessed_links(recs, nr, wi, c, x);
        self.lemma_wf_from_parts();
    }

    /// Every stored link of a well-formed store has its loser facts.
    proof fn lemma_links_of_wf(&self)
        requires
            self.wf(),
        ensures
            forall|j: int, k: int, i: int|
                0 <= j < self.records@.len() && 0 <= k < self.records@[j].meta().len()
                    && 0 <= i < self.records@[j].level(k).len()
                    ==> link_ok(self.records@, #[trigger] self.records@[j].level(k)[i], self.records@[j].number(k), self.champion@),
    {
    }

    /// The store invariant, from its parts.
    proof fn lemma_wf_from_parts(&self)
        requires
            forall|j: int, m: int|
                0 <= j < self.records@.len() && 0 <= m < self.records@.len() && j != m
                    ==> #[trigger] self.records@[j].key@ != #[trigger] self.records@[m].key@,
            forall|j: int| 0 <= j < self.records@.len() ==> #[trigger] self.records@[j].wf(self.champion@),
            exists|j: int| 0 <= j < self.records@.len() && #[trigger] self.records@[j].key@ == self.champion@,
            forall|j: int, k: int, i: int|
                0 <= j < self.records@.len() && 0 <= k < self.records@[j].meta().len()
                    && 0 <= i < self.records@[j].level(k).len()
                    ==> link_ok(self.records@, #[trigger] self.records@[j].level(k)[i], self.records@[j].number(k), self.champion@),
        ensures
            self.wf(),
    {
    }
}

/// After an improvement the winner's record keeps its own invariants and
/// every loser fact that the old record gave.
proof fn lemma_improved_record(w: UserRecord, nw: UserRecord, n: u32, l: UserRecord, k: int, orig: ErdosLink, c: Seq<u8>)
    requires
        w.wf(c),
        l.wf(c),
        w.key@ != c,
        w.user.head_number() > n,
        n >= 1,
        improved(w, nw, n, l, k, orig),
    ensures
        nw.wf(c),
        forall|lk: ErdosLink, m: u32| loser_entry_ok(w, lk, m, c) ==> #[trigger] loser_entry_ok(nw, lk, m, c),
{
    let x = nw.level(0)[0];
    assert(w.user.head_number() <= ERDOS_NUMBER_INF) by {
        if w.meta().len() > 0 {
            assert(w.number(0) < ERDOS_NUMBER_INF);
        }
    }
    assert(nw.wf(c)) by {
        assert forall|i: int| 0 <= i < nw.meta().len() - 1 implies #[trigger] nw.number(i) < nw.number(i + 1) by {
            if i == 0 {
                assert(nw.meta()[1] == w.meta()[0]);
            } else {
                assert(nw.meta()[i] == w.meta()[i - 1]);
                assert(nw.meta()[i + 1] == w.meta()[i]);
                assert(w.number(i - 1) < w.number(i));
            }
        }
        assert forall|i: int| 0 <= i < nw.meta().len() implies #[trigger] nw.number(i) < ERDOS_NUMBER_INF by {
            if i > 0 {
                assert(nw.meta()[i] == w.meta()[i - 1]);
                assert(w.number(i - 1) < ERDOS_NUMBER_INF);
            }
        }
        assert forall|i: int| 0 <= i < nw.meta().len() implies #[trigger] nw.level(i).len() == nw.meta()[i].link_count by {
            if i > 0 {
                assert(nw.meta()[i] == w.meta()[i - 1]);
                assert(nw.links@[i] == w.links@[i - 1]);
                assert(w.level(i - 1).len() == w.meta()[i - 1].link_count);
            }
        }
        assert forall|i: int| 0 <= i < nw.meta().len() implies #[trigger] nw.number(i) >= 1
            && nw.meta()[i].path_count.value() == path_sum(nw.level(i), nw.level(i).len() as int) by {
            if i > 0 {
                assert(nw.meta()[i] == w.meta()[i - 1]);
                assert(nw.links@[i] == w.links@[i - 1]);
                assert(w.number(i - 1) >= 1);
            } else {
                assert(path_sum(nw.level(0), 1) == path_sum(nw.level(0), 0) + x.loser_path_count.value());
            }
        }
    }
    assert forall|lk: ErdosLink, m: u32| loser_entry_ok(w, lk, m, c) implies #[trigger] loser_entry_ok(nw, lk, m, c) by {
        let k2 = choose|k2: int| 0 <= k2 < w.meta().len() && #[trigger] w.number(k2) == m - 1 && snapshot_ok(w, k2, lk);
        assert(nw.meta()[k2 + 1] == w.meta()[k2]);
        assert(nw.links@[k2 + 1] == w.links@[k2]);
        assert(nw.number(k2 + 1) == m - 1);
        assert(snapshot_ok(nw, k2 + 1, lk));
    }
}

/// After one more witness the winner's record keeps its own invariants and
/// every loser fact that the old record gave.
proof fn lemma_witnessed_record(w: UserRecord, nw: UserRecord, l: UserRecord, k: int, orig: ErdosLink, c: Seq<u8>)
    requires
        w.wf(c),
        w.key@ != c,
        w.meta().len() > 0,
        witnessed(w, nw, l, k, orig),
        nw.level(0) == w.level(0).push(nw.level(0).last()),
    ensures
        nw.wf(c),
        forall|lk: ErdosLink, m: u32| loser_entry_ok(w, lk, m, c) ==> #[trigger] loser_entry_ok(nw, lk, m, c),
{
    let x = nw.level(0).last();
    let len0 = w.level(0).len() as int;
    assert(nw.wf(c)) by {
        assert forall|i: int| 0 <= i < nw.meta().len() - 1 implies #[trigger] nw.number(i) < nw.number(i + 1) by {
            assert(nw.meta()[i + 1] == w.meta()[i + 1]);
            if i > 0 {
                assert(nw.meta()[i] == w.meta()[i]);
            }
            assert(w.number(i) < w.number(i + 1));
        }
        assert forall|i: int| 0 <= i < nw.meta().len() implies #[trigger] nw.number(i) < ERDOS_NUMBER_INF by {
            if i > 0 {
                assert(nw.meta()[i] == w.meta()[i]);
            }
            assert(w.number(i) < ERDOS_NUMBER_INF);
        }
        assert forall|i: int| 0 <= i < nw.meta().len() implies #[trigger] nw.level(i).len() == nw.meta()[i].link_count by {
            if i > 0 {
                assert(nw.meta()[i] == w.meta()[i]);
                assert(nw.links@[i] == w.links@[i]);
            }
            assert(w.level(i).len() == w.meta()[i].link_count);
        }
        assert forall|i: int| 0 <= i < nw.meta().len() implies #[trigger] nw.number(i) >= 1
            && nw.meta()[i].path_count.value() == path_sum(nw.level(i), nw.level(i).len() as int) by {
            assert(w.number(i) >= 1 && w.meta()[i].path_count.value() == path_sum(w.level(i), w.level(i).len() as int));
            if i > 0 {
                assert(nw.meta()[i] == w.meta()[i]);
                assert(nw.links@[i] == w.links@[i]);
            } else {
                lemma_path_sum_push(w.level(0), x, len0);
                assert(path_sum(nw.level(0), len0 + 1) == path_sum(nw.level(0), len0) + x.loser_path_count.value());
            }
        }
    }
    assert forall|lk: ErdosLink, m: u32| loser_entry_ok(w, lk, m, c) implies #[trigger] loser_entry_ok(nw, lk, m, c) by {
        let k2 = choose|k2: int| 0 <= k2 < w.meta().len() && #[trigger] w.number(k2) == m - 1 && snapshot_ok(w, k2, lk);
        if k2 > 0 {
            assert(nw.meta()[k2] == w.meta()[k2]);
            assert(nw.links@[k2] == w.links@[k2]);
        } else {
            lemma_path_sum_push(w.level(0), x, lk.loser_link_count as int);
            assert(nw.level(0)[0] == w.level(0)[0]);
        }
        assert(nw.number(k2) == m - 1);
        assert(snapshot_ok(nw, k2, lk));
    }
}

/// Every link of the records after one more witness has its loser facts.
proof fn lemma_witnessed_links(recs: Seq<UserRecord>, nr: Seq<UserRecord>, wi: int, c: Seq<u8>, x: ErdosLink)
    requires
        0 <= wi < recs.len(),
        nr == recs.update(wi, nr[wi]),
        forall|j: int, k: int, i: int|
            0 <= j < recs.len() && 0 <= k < recs[j].meta().len() && 0 <= i < recs[j].level(k).len()
                ==> link_ok(recs, #[trigger] recs[j].level(k)[i], recs[j].number(k), c),
        forall|l: ErdosLink, n: u32| link_ok(recs, l, n, c) ==> #[trigger] link_ok(nr, l, n, c),
        recs[wi].meta().len() > 0,
        recs[wi].links@.len() == recs[wi].meta().len(),
        nr[wi].meta().len() == recs[wi].meta().len(),
        nr[wi].links@.len() == recs[wi].links@.len(),
        nr[wi].number(0) == recs[wi].number(0),
        forall|i: int| 1 <= i < recs[wi].meta().len() ==> nr[wi].meta()[i] == #[trigger] recs[wi].meta()[i],
        forall|i: int| 1 <= i < recs[wi].links@.len() ==> nr[wi].links@[i] == #[trigger] recs[wi].links@[i],
        nr[wi].level(0) == recs[wi].level(0).push(x),
        link_ok(nr, x, recs[wi].number(0), c),
    ensures
        forall|j: int, k: int, i: int|
            0 <= j < nr.len() && 0 <= k < nr[j].meta().len() && 0 <= i < nr[j].level(k).len()
                ==> link_ok(nr, #[trigger] nr[j].level(k)[i], nr[j].number(k), c),
{
    let w = recs[wi];
    let nw = nr[wi];
    let len0 = w.level(0).len() as int;
    assert forall|j: int, k2: int, i: int|
        0 <= j < nr.len() && 0 <= k2 < nr[j].meta().len() && 0 <= i < nr[j].level(k2).len()
        implies link_ok(nr, #[trigger] nr[j].level(k2)[i], nr[j].number(k2), c) by {
        if j != wi {
            assert(nr[j] == recs[j]);
            assert(link_ok(recs, recs[j].level(k2)[i], recs[j].number(k2), c));
        } else if k2 > 0 {
            assert(nw.meta()[k2] == w.meta()[k2]);
            assert(nw.links@[k2] == w.links@[k2]);
            assert(link_ok(recs, w.level(k2)[i], w.number(k2), c));
        } else if i < len0 {
            assert(nw.level(0)[i] == w.level(0)[i]);
            assert(link_ok(recs, w.level(0)[i], w.number(0), c));
        } else {
            assert(i == len0);
        }
    }
}

impl Store {
    /// Overwrites the in-archive checkpoint.
    pub fn set_game_checkpoint(&mut self, game_id: Option<Vec<u8>>)
        requires
            old(self).wf(),
        ensures
            final(self).wf(),
            final(self).game_checkpoint == game_id,
            final(self).records == old(self).records,
            final(self).champion == old(self).champion,
            final(self).last_processed_archive == old(self).last_processed_archive,
    {
        let ghost before = *self;
        self.game_checkpoint = game_id;
        proof {
            lemma_wf_same_records(before, *self);
        }
    }

    /// Marks an archive as fully processed: the in-archive checkpoint is
    /// cleared and the archive becomes the last processed one.
    pub fn finish_archive(&mut self, archive: Vec<u8>)
        requires
            old(self).wf(),
        ensures
            final(self).wf(),
            final(self).game_checkpoint is None,
            final(self).last_processed_archive matches Some(a) && a@ == archive@,
            final(self).records == old(self).records,
            final(self).champion == old(self).champion,
    {
        let ghost before = *self;
        self.game_checkpoint = None;
        self.last_processed_archive = Some(archive);
        proof {
            lemma_wf_same_records(before, *self);
        }
    }
}

/// The invariants speak only of the records and the champion.
pub proof fn lemma_wf_same_records(a: Store, b: Store)
    requires
        a.wf(),
        a.records == b.records,
        a.champion == b.champion,
    ensures
        b.wf(),
{
    let c = choose|j: int| 0 <= j < a.records@.len() && #[trigger] a.records@[j].key@ == a.champion@;
    assert(b.records@[c].key@ == b.champion@);
}


/// `rec` with `x` appended as one more link of its most recent entry, whose
/// counts grow by one link and by `x`'s frozen path count; and the new link's
/// index.
fn append_witness(rec: UserRecord, x: ErdosLink) -> (r: (UserRecord, u32))
    requires
        rec.meta().len() > 0,
        rec.links@.len() == rec.meta().len(),
        rec.meta()[0].link_count < u32::MAX,
    ensures
        r.1 == rec.meta()[0].link_count,
        r.0.key == rec.key,
        r.0.user.id == rec.user.id,
        r.0.meta().len() == rec.meta().len(),
        r.0.links@.len() == rec.links@.len(),
        r.0.number(0) == rec.number(0),
        r.0.meta()[0].link_count == rec.meta()[0].link_count + 1,
        r.0.meta()[0].path_count.value() == rec.meta()[0].path_count.value() + x.loser_path_count.value(),
        forall|i: int| 1 <= i < rec.meta().len() ==> r.0.meta()[i] == #[trigger] rec.meta()[i],
        forall|i: int| 1 <= i < rec.links@.len() ==> r.0.links@[i] == #[trigger] rec.links@[i],
        r.0.level(0) == rec.level(0).push(x),
{
    let mut rec = rec;
    let ghost before = rec;
    let index = rec.user.erdos_link_meta[0].link_count;
    let total = rec.user.erdos_link_meta[0].path_count.add(&x.loser_path_count);
    let mut meta = rec.user.erdos_link_meta.remove(0);
    meta.link_count = index + 1;
    meta.path_count = total;
    rec.user.erdos_link_meta.insert(0, meta);
    let mut level = rec.links.remove(0);
    level.push(x);
    rec.links.insert(0, level);
    proof {
        assert forall|i: int| 1 <= i < before.meta().len() implies rec.meta()[i] == #[trigger] before.meta()[i] by {}
        assert forall|i: int| 1 <= i < before.links@.len() implies rec.links@[i] == #[trigger] before.links@[i] by {}
    }
    (rec, index)
}

} // verus!
