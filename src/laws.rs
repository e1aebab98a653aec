//! What holds of every well-formed store: the history of each user only
//! improves, its links are densely keyed, its path counts add up, every link
//! respects the order of time, and every path index below a path count names
//! a chain.

use vstd::prelude::*;
use crate::chain::{first_entry, pick_from, walk, walk_step, step_loser};
use crate::model::{key_of, ErdosLink};
use crate::store::{link_ok, loser_entry_ok, path_sum, snapshot_ok, Store, UserRecord};

verus! {

/// The link stored under `(key, n, i)`, if any.
pub open spec fn link_at(s: Store, key: Seq<u8>, n: u32, i: int) -> Option<ErdosLink> {
    match s.index_of(key) {
        None => None,
        Some(j) => match first_entry(s.records@[j], n, 0) {
            None => None,
            Some(k) => if 0 <= i < s.records@[j].level(k).len() {
                Some(s.records@[j].level(k)[i])
            } else {
                None
            },
        },
    }
}

/// Monotone head: of two adjacent history entries of a user, the newer one
/// has the strictly smaller number.
pub proof fn lemma_monotone_head(s: Store, j: int, k: int)
    requires
        s.wf(),
        0 <= j < s.records@.len(),
        0 <= k < s.records@[j].meta().len() - 1,
    ensures
        s.records@[j].number(k) < s.records@[j].number(k + 1),
{
    assert(s.records@[j].wf(s.champion@));
}

/// Numbers grow strictly along the whole history, not only between neighbours.
proof fn lemma_numbers_increase(r: UserRecord, c: Seq<u8>, a: int, b: int)
    requires
        r.wf(c),
        0 <= a < b < r.meta().len(),
    ensures
        r.number(a) < r.number(b),
    decreases b - a,
{
    if a + 1 < b {
        lemma_numbers_increase(r, c, a + 1, b);
    }
    assert(r.number(a) < r.number(a + 1));
}

/// The entry at a number is found where it stands.
proof fn lemma_first_entry_is(r: UserRecord, c: Seq<u8>, k: int, from: int)
    requires
        r.wf(c),
        0 <= from <= k < r.meta().len(),
    ensures
        first_entry(r, r.number(k), from) == Some(k),
    decreases k - from,
{
    if from < k {
        lemma_numbers_increase(r, c, from, k);
        lemma_first_entry_is(r, c, k, from + 1);
    }
}

/// Link keys dense: for every user and every number in its history with
/// link count `lc`, the links `(user, n, 0)` to `(user, n, lc - 1)` exist and
/// `(user, n, lc)` does not.
pub proof fn lemma_link_keys_dense(s: Store, j: int, k: int)
    requires
        s.wf(),
        0 <= j < s.records@.len(),
        0 <= k < s.records@[j].meta().len(),
    ensures
        forall|i: int| 0 <= i < s.records@[j].meta()[k].link_count
            ==> #[trigger] link_at(s, s.records@[j].key@, s.records@[j].number(k), i) is Some,
        link_at(s, s.records@[j].key@, s.records@[j].number(k), s.records@[j].meta()[k].link_count as int) is None,
{
    let r = s.records@[j];
    assert(r.wf(s.champion@));
    s.lemma_index_of(r.key@, j);
    lemma_first_entry_is(r, s.champion@, k, 0);
}

/// Path-count sum: the path count of every history entry of a user other
/// than the champion is the sum of the frozen loser path counts of its links.
pub proof fn lemma_path_count_sum(s: Store, j: int, k: int)
    requires
        s.wf(),
        0 <= j < s.records@.len(),
        0 <= k < s.records@[j].meta().len(),
        s.records@[j].key@ != s.champion@,
    ensures
        s.records@[j].meta()[k].path_count.value()
            == path_sum(s.records@[j].level(k), s.records@[j].meta()[k].link_count as int),
{
    assert(s.records@[j].wf(s.champion@));
}

/// Causality: the loser of every link held the number one below the link's
/// strictly before the link's game: the champion holds zero throughout, and
/// anyone else took that number with a game strictly earlier.
pub proof fn lemma_causality(s: Store, j: int, k: int, i: int)
    requires
        s.wf(),
        0 <= j < s.records@.len(),
        0 <= k < s.records@[j].meta().len(),
        0 <= i < s.records@[j].level(k).len(),
    ensures
        ({
            let l = s.records@[j].level(k)[i];
            let n = s.records@[j].number(k);
            exists|j2: int| 0 <= j2 < s.records@.len() && #[trigger] s.records@[j2].key@ == key_of(l.loser_id@) && (
                (s.records@[j2].key@ == s.champion@ && n == 1)
                || exists|k2: int| 0 <= k2 < s.records@[j2].meta().len() && #[trigger] s.records@[j2].number(k2) == n - 1
                    && s.records@[j2].level(k2).len() > 0 && s.records@[j2].level(k2)[0].time < l.time)
        }),
{
    let l = s.records@[j].level(k)[i];
    let n = s.records@[j].number(k);
    assert(link_ok(s.records@, l, n, s.champion@));
}

/// The link picked for `rem` lies before `m` where `rem` falls short of the
/// first `m` links' sum.
proof fn lemma_pick(level: Seq<ErdosLink>, rem: nat, m: int, from: int)
    requires
        0 <= from <= m <= level.len(),
        path_sum(level, from) <= rem < path_sum(level, m),
    ensures
        pick_from(level, rem, from) matches Some(i) && from <= i < m && path_sum(level, i) <= rem
            && rem < path_sum(level, i + 1),
    decreases m - from,
{
    if rem >= path_sum(level, from + 1) {
        lemma_pick(level, rem, m, from + 1);
    }
}

/// Every path index below the sum of the first `m` links of an entry names a
/// chain down to the champion.
proof fn lemma_walk_total(s: Store, j: int, k: int, m: int, rem: nat)
    requires
        s.wf(),
        0 <= j < s.records@.len(),
        0 <= k < s.records@[j].meta().len(),
        s.records@[j].key@ != s.champion@,
        1 <= m <= s.records@[j].level(k).len(),
        rem < path_sum(s.records@[j].level(k), m),
    ensures
        walk(s, s.records@[j].key@, s.records@[j].number(k), rem) is Some,
    decreases s.records@[j].number(k), 2int,
{
    let c = s.champion@;
    let r = s.records@[j];
    let n = r.number(k);
    let level = r.level(k);
    assert(r.wf(c));
    assert(n >= 1);
    s.lemma_index_of(r.key@, j);
    lemma_first_entry_is(r, c, k, 0);
    lemma_pick(level, rem, m, 0);
    let i = pick_from(level, rem, 0).unwrap();
    let l = level[i];
    let pn = (rem - path_sum(level, i)) as nat;
    assert(walk_step(s, r.key@, n, rem) == Some((j, k, i, pn)));
    assert(pn < l.loser_path_count.value()) by {
        assert(path_sum(level, i + 1) == path_sum(level, i) + l.loser_path_count.value());
    }
    assert(walk(s, key_of(l.loser_id@), (n - 1) as u32, pn) is Some) by {
        lemma_loser_walk(s, l, n, pn);
    }
    assert(step_loser(s, (j, k, i, pn)) == key_of(l.loser_id@));
}

/// The walk goes on from the loser of a stored link at number `n`, for every
/// path index below the link's frozen path count.
proof fn lemma_loser_walk(s: Store, l: ErdosLink, n: u32, pn: nat)
    requires
        s.wf(),
        n >= 1,
        link_ok(s.records@, l, n, s.champion@),
        pn < l.loser_path_count.value(),
    ensures
        walk(s, key_of(l.loser_id@), (n - 1) as u32, pn) is Some,
    decreases n, 1int,
{
    let c = s.champion@;
    let j2 = choose|j2: int| 0 <= j2 < s.records@.len() && #[trigger] s.records@[j2].key@ == key_of(l.loser_id@)
        && loser_entry_ok(s.records@[j2], l, n, c);
    let r2 = s.records@[j2];
    assert(r2.wf(c));
    if n - 1 != 0 {
        let k2 = choose|k2: int| 0 <= k2 < r2.meta().len() && #[trigger] r2.number(k2) == n - 1 && snapshot_ok(r2, k2, l);
        assert(r2.key@ != c) by {
            if r2.key@ == c {
                assert(r2.champion_history());
            }
        }
        lemma_walk_total(s, j2, k2, l.loser_link_count as int, pn);
    }
}

/// Every path index below the path count of a user's entry names a chain:
/// the chain walk from that user at that number succeeds.
pub proof fn lemma_path_index_enumerable(s: Store, j: int, k: int, rem: nat)
    requires
        s.wf(),
        0 <= j < s.records@.len(),
        0 <= k < s.records@[j].meta().len(),
        rem < s.records@[j].meta()[k].path_count.value(),
    ensures
        walk(s, s.records@[j].key@, s.records@[j].number(k), rem) is Some,
{
    let r = s.records@[j];
    assert(r.wf(s.champion@));
    if r.key@ == s.champion@ {
        assert(r.champion_history());
        assert(k == 0);
    } else {
        lemma_walk_total(s, j, k, r.level(k).len() as int, rem);
    }
}

} // verus!
