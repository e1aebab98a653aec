//! Expansion of one witness chain: from a user at a number down to the
//! champion, one link per number, chosen by a path index.

use vstd::prelude::*;
use crate::bignat::{decimal_digits, decimal_value, is_decimal_natural, BigNat};
use crate::model::{copy_bytes, key_of, lowercase_key, same_bytes, ErdosChainLink, ErdosLink, ERDOS_NUMBER_INF};
use crate::store::{path_sum, Store, UserRecord};

verus! {

/// The first history entry of `r`, from `from` on, at number `n`.
pub open spec fn first_entry(r: UserRecord, n: u32, from: int) -> Option<int>
    decreases r.meta().len() - from,
{
    if from < 0 || from >= r.meta().len() {
        None
    } else if r.number(from) == n {
        Some(from)
    } else {
        first_entry(r, n, from + 1)
    }
}

/// The link, from `from` on, whose share of the path counts covers `rem`:
/// the first `i` with `rem < path_sum(level, i + 1)`.
pub open spec fn pick_from(level: Seq<ErdosLink>, rem: nat, from: int) -> Option<int>
    decreases level.len() - from,
{
    if from < 0 || from >= level.len() {
        None
    } else if rem < path_sum(level, from + 1) {
        Some(from)
    } else {
        pick_from(level, rem, from + 1)
    }
}

/// One step of a chain: record index, entry index, link index, and the path
/// number that remains for the loser.
pub type ChainStep = (int, int, int, nat);

/// The step at number `n` of the chain selected by path index `rem` among
/// those of the user with key `key`: `None` where the user, its entry at `n`
/// or a link that covers `rem` is missing.
pub open spec fn walk_step(s: Store, key: Seq<u8>, n: u32, rem: nat) -> Option<ChainStep> {
    match s.index_of(key) {
        None => None,
        Some(j) => {
            let r = s.records@[j];
            match first_entry(r, n, 0) {
                None => None,
                Some(k) => match pick_from(r.level(k), rem, 0) {
                    None => None,
                    Some(i) => Some((j, k, i, (rem - path_sum(r.level(k), i)) as nat)),
                },
            }
        },
    }
}

/// The loser key that a step leads to.
pub open spec fn step_loser(s: Store, st: ChainStep) -> Seq<u8> {
    key_of(s.records@[st.0].level(st.1)[st.2].loser_id@)
}

/// The chain selected by path index `rem` among those of the user with key
/// `key` at number `n`, down to number 1; `None` where a step is missing.
pub open spec fn walk(s: Store, key: Seq<u8>, n: u32, rem: nat) -> Option<Seq<ChainStep>>
    decreases n,
{
    if n == 0 {
        Some(Seq::empty())
    } else {
        match walk_step(s, key, n, rem) {
            None => None,
            Some(st) => match walk(s, step_loser(s, st), (n - 1) as u32, st.3) {
                None => None,
                Some(rest) => Some(seq![st] + rest),
            },
        }
    }
}

/// `v` holds, entry by entry, the links that `steps` name in `s`.
pub open spec fn chain_matches(s: Store, v: Seq<ErdosChainLink>, steps: Seq<ChainStep>) -> bool {
    &&& v.len() == steps.len()
    &&& forall|t: int| 0 <= t < v.len() ==> {
        let (j, k, i, pn) = #[trigger] steps[t];
        &&& v[t].link.same(&s.records@[j].level(k)[i])
        &&& v[t].link_number == i
        &&& v[t].path_number.value() == pn
    }
}

/// The answer owed to a query for chain `rem` of the user `id` at number `n`.
pub open spec fn chain_answer(s: Store, id: Seq<u8>, n: u32, rem: nat, res: Result<Vec<ErdosChainLink>, ChainError>) -> bool {
    match s.index_of(key_of(id)) {
        None => res == Err::<Vec<ErdosChainLink>, ChainError>(ChainError::UserNotFound),
        Some(j) => match first_entry(s.records@[j], n, 0) {
            None => res == Err::<Vec<ErdosChainLink>, ChainError>(ChainError::NumberNotFound),
            Some(k) => if rem >= s.records@[j].meta()[k].path_count.value() {
                res == Err::<Vec<ErdosChainLink>, ChainError>(ChainError::PathIndexTooHigh)
            } else {
                match walk(s, key_of(id), n, rem) {
                    None => res == Err::<Vec<ErdosChainLink>, ChainError>(ChainError::BrokenChain),
                    Some(steps) => res matches Ok(v) && chain_matches(s, v@, steps),
                }
            },
        },
    }
}

/// Why a chain cannot be given.
#[derive(Debug, Clone, Copy, PartialEq, Eq, Structural)]
pub enum ChainError {
    UserNotFound,
    NumberNotFound,
    /// The path index is not below the entry's path count.
    PathIndexTooHigh,
    /// The path index is not decimal text.
    MalformedPathIndex,
    /// A link that the walk needs is missing.
    BrokenChain,
}

/// The first entry of `r` at number `n`.
fn entry_for_number(r: &UserRecord, n: u32) -> (res: Option<usize>)
    requires
        r.links@.len() == r.meta().len(),
    ensures
        match res {
            Some(k) => first_entry(*r, n, 0) == Some(k as int) && k < r.meta().len(),
            None => first_entry(*r, n, 0) is None,
        },
{
    let mut k: usize = 0;
    while k < r.user.erdos_link_meta.len()
        invariant
            k <= r.meta().len(),
            first_entry(*r, n, 0) == first_entry(*r, n, k as int),
        decreases r.meta().len() - k,
    {
        if r.user.erdos_link_meta[k].erdos_number == n {
            return Some(k);
        }
        k = k + 1;
    }
    None
}

/// The link of `level`, from `from` on, whose share of the path counts covers
/// `rem`, with what remains of `rem` past the links before it.
fn pick_link(level: &Vec<ErdosLink>, rem: &BigNat) -> (res: Option<(usize, BigNat)>)
    ensures
        match res {
            Some((i, r)) => pick_from(level@, rem.value(), 0) == Some(i as int) && i < level@.len()
                && path_sum(level@, i as int) <= rem.value()
                && r.value() == rem.value() - path_sum(level@, i as int),
            None => pick_from(level@, rem.value(), 0) is None,
        },
{
    let mut remaining = rem.copy();
    let mut i: usize = 0;
    while i < level.len()
        invariant
            i <= level@.len(),
            path_sum(level@, i as int) <= rem.value(),
            remaining.value() == rem.value() - path_sum(level@, i as int),
            pick_from(level@, rem.value(), 0) == pick_from(level@, rem.value(), i as int),
        decreases level@.len() - i,
    {
        let pc = &level[i].loser_path_count;
        if pc.le(&remaining) {
            remaining = remaining.sub(pc);
            i = i + 1;
        } else {
            return Some((i, remaining));
        }
    }
    None
}

impl Store {
    /// One step of a chain: the link at number `n` of the user with key `key`
    /// that path index `rem` selects, and the loser's key.
    fn chain_step(&self, key: &Vec<u8>, n: u32, rem: &BigNat) -> (res: Result<(ErdosChainLink, Vec<u8>), ChainError>)
        requires
            self.wf(),
        ensures
            match walk_step(*self, key@, n, rem.value()) {
                None => res == Err::<(ErdosChainLink, Vec<u8>), ChainError>(ChainError::BrokenChain),
                Some(st) => res matches Ok((v, next)) && {
                    &&& v.link.same(&self.records@[st.0].level(st.1)[st.2])
                    &&& v.link_number == st.2
                    &&& v.path_number.value() == st.3
                    &&& next@ == step_loser(*self, st)
                },
            },
    {
        let j = match self.find(key) {
            Some(j) => j,
            None => {
                return Err(ChainError::BrokenChain);
            },
        };
        proof {
            self.lemma_index_of(key@, j as int);
            assert(self.records@[j as int].wf(self.champion@));
        }
        let rec = &self.records[j];
        let k = match entry_for_number(rec, n) {
            Some(k) => k,
            None => {
                return Err(ChainError::BrokenChain);
            },
        };
        let (i, remaining) = match pick_link(&rec.links[k], rem) {
            Some(x) => x,
            None => {
                return Err(ChainError::BrokenChain);
            },
        };
        proof {
            assert(rec.level(k as int).len() == rec.meta()[k as int].link_count);
        }
        let link = rec.links[k][i].copy();
        let next = lowercase_key(&link.loser_id);
        Ok((ErdosChainLink { link, link_number: i as u32, path_number: remaining }, next))
    }

    /// The chain with index `path_index` among those that back number
    /// `erdos_number` of the user `id`, from that user down to a loser who is
    /// the champion.
    pub fn expand_chain(&self, id: &Vec<u8>, erdos_number: u32, path_index: &BigNat) -> (res: Result<Vec<ErdosChainLink>, ChainError>)
        requires
            self.wf(),
        ensures
            chain_answer(*self, id@, erdos_number, path_index.value(), res),
    {
        let key = lowercase_key(id);
        let j0 = match self.find(&key) {
            Some(j) => j,
            None => {
                return Err(ChainError::UserNotFound);
            },
        };
        proof {
            self.lemma_index_of(key@, j0 as int);
            assert(self.records@[j0 as int].wf(self.champion@));
        }
        let k0 = match entry_for_number(&self.records[j0], erdos_number) {
            Some(k) => k,
            None => {
                return Err(ChainError::NumberNotFound);
            },
        };
        if self.records[j0].user.erdos_link_meta[k0].path_count.le(path_index) {
            return Err(ChainError::PathIndexTooHigh);
        }
        proof {
            assert(key@ == key_of(id@));
        }
        self.follow(key, erdos_number, path_index)
    }

    /// Walks the chain that `path_index` selects from the user with key `key`
    /// at number `erdos_number` down to number 1.
    fn follow(&self, key: Vec<u8>, erdos_number: u32, path_index: &BigNat) -> (res: Result<Vec<ErdosChainLink>, ChainError>)
        requires
            self.wf(),
        ensures
            match walk(*self, key@, erdos_number, path_index.value()) {
                None => res == Err::<Vec<ErdosChainLink>, ChainError>(ChainError::BrokenChain),
                Some(steps) => res matches Ok(v) && chain_matches(*self, v@, steps),
            },
    {
        let mut chain: Vec<ErdosChainLink> = Vec::new();
        let ghost key0 = key@;
        let mut current = key;
        let mut remaining = path_index.copy();
        let mut n = erdos_number;
        let ghost mut steps: Seq<ChainStep> = Seq::empty();
        while n > 0
            invariant
                self.wf(),
                key0 == key@,
                walk(*self, key0, erdos_number, path_index.value()) == (match walk(*self, current@, n, remaining.value()) {
                    Some(rest) => Some(steps + rest),
                    None => None::<Seq<ChainStep>>,
                }),
                chain_matches(*self, chain@, steps),
            decreases n,
        {
            let (entry, next) = match self.chain_step(&current, n, &remaining) {
                Ok(x) => x,
                Err(e) => {
                    return Err(e);
                },
            };
            let ghost st = walk_step(*self, current@, n, remaining.value()).unwrap();
            let ghost old_chain = chain@;
            let ghost old_steps = steps;
            proof {
                steps = steps + seq![st];
                assert(steps + walk(*self, next@, (n - 1) as u32, entry.path_number.value()).unwrap()
                    =~= old_steps + (seq![st] + walk(*self, next@, (n - 1) as u32, entry.path_number.value()).unwrap()));
            }
            remaining = entry.path_number.copy();
            chain.push(entry);
            proof {
                assert forall|t: int| 0 <= t < chain@.len() implies {
                    let (j, k, i, pn) = #[trigger] steps[t];
                    &&& chain@[t].link.same(&self.records@[j].level(k)[i])
                    &&& chain@[t].link_number == i
                    &&& chain@[t].path_number.value() == pn
                } by {
                    if t < old_chain.len() {
                        assert(chain@[t] == old_chain[t]);
                        assert(steps[t] == old_steps[t]);
                    }
                }
            }
            current = next;
            n = n - 1;
        }
        proof {
            assert(steps + Seq::<ChainStep>::empty() =~= steps);
        }
        Ok(chain)
    }
}

/// The first `k` chains are those of the first `k` entries of `r`.
pub open spec fn first_chains(s: Store, key: Seq<u8>, r: UserRecord, chains: Seq<Vec<ErdosChainLink>>, k: int) -> bool {
    forall|m: int| #![trigger chains[m]] 0 <= m < k ==> first_chain_ok(s, key, r, chains[m], m)
}

/// `c` is the first chain of entry `m` of `r`.
pub open spec fn first_chain_ok(s: Store, key: Seq<u8>, r: UserRecord, c: Vec<ErdosChainLink>, m: int) -> bool {
    &&& walk(s, key, r.number(m), 0) is Some
    &&& chain_matches(s, c@, walk(s, key, r.number(m), 0).unwrap())
}

/// One more matching chain extends the run of first chains.
proof fn lemma_first_chains_push(s: Store, key: Seq<u8>, r: UserRecord, before: Seq<Vec<ErdosChainLink>>, chains: Seq<Vec<ErdosChainLink>>, k: int)
    requires
        0 <= k,
        first_chains(s, key, r, before, k),
        before.len() == k,
        chains == before.push(chains[k]),
        first_chain_ok(s, key, r, chains[k], k),
    ensures
        first_chains(s, key, r, chains, k + 1),
{
    assert forall|m: int| 0 <= m < k + 1 implies #[trigger] first_chain_ok(s, key, r, chains[m], m) by {
        if m < k {
            assert(chains[m] == before[m]);
            assert(first_chain_ok(s, key, r, before[m], m));
        }
    }
}

/// A user's summary: identifier, current number, and for each history entry,
/// most recent first, the first of its chains.
#[derive(Debug)]
pub struct ErdosChains {
    pub id: Vec<u8>,
    pub erdos_number: u32,
    pub erdos_chains: Vec<Vec<ErdosChainLink>>,
}

impl Store {
    /// Like `expand_chain`, with the path index given as decimal text.
    pub fn expand_chain_text(&self, id: &Vec<u8>, erdos_number: u32, path_index: &str) -> (res: Result<Vec<ErdosChainLink>, ChainError>)
        requires
            self.wf(),
        ensures
            !is_decimal_natural(path_index@) ==> res == Err::<Vec<ErdosChainLink>, ChainError>(ChainError::MalformedPathIndex),
            is_decimal_natural(path_index@) ==> chain_answer(*self, id@, erdos_number, decimal_value(decimal_digits(path_index@)), res),
    {
        match BigNat::parse_decimal(path_index) {
            Some(p) => self.expand_chain(id, erdos_number, &p),
            None => Err(ChainError::MalformedPathIndex),
        }
    }

    /// The summary of the user `id`: its current number and the first chain of
    /// each of its history entries.
    pub fn erdos_chains(&self, id: &Vec<u8>) -> (res: Result<ErdosChains, ChainError>)
        requires
            self.wf(),
        ensures
            match self.index_of(key_of(id@)) {
                None => res == Err::<ErdosChains, ChainError>(ChainError::UserNotFound),
                Some(j) => {
                    let r = self.records@[j];
                    if forall|k: int| 0 <= k < r.meta().len() ==> #[trigger] walk(*self, key_of(id@), r.number(k), 0) is Some {
                        res matches Ok(c) && c.id@ == r.user.id@
                            && c.erdos_number == (if r.key@ == self.champion@ { 0 } else { r.user.head_number() })
                            && c.erdos_chains@.len() == r.meta().len()
                            && first_chains(*self, key_of(id@), r, c.erdos_chains@, r.meta().len() as int)
                    } else {
                        res == Err::<ErdosChains, ChainError>(ChainError::BrokenChain)
                    }
                },
            },
    {
        let key = lowercase_key(id);
        let j = match self.find(&key) {
            Some(j) => j,
            None => {
                return Err(ChainError::UserNotFound);
            },
        };
        proof {
            self.lemma_index_of(key@, j as int);
        }
        let rec = &self.records[j];
        let number = if same_bytes(&rec.key, &self.champion) {
            0
        } else if rec.user.erdos_link_meta.len() == 0 {
            ERDOS_NUMBER_INF
        } else {
            rec.user.erdos_link_meta[0].erdos_number
        };
        let mut chains: Vec<Vec<ErdosChainLink>> = Vec::new();
        let mut k: usize = 0;
        while k < rec.user.erdos_link_meta.len()
            invariant
                self.wf(),
                rec == self.records@[j as int],
                self.index_of(key_of(id@)) == Some(j as int),
                key@ == key_of(id@),
                k <= rec.meta().len(),
                chains@.len() == k,
                first_chains(*self, key_of(id@), *rec, chains@, k as int),
            decreases rec.meta().len() - k,
        {
            let n = rec.user.erdos_link_meta[k].erdos_number;
            let zero = BigNat::zero();
            let ghost w = walk(*self, key_of(id@), rec.number(k as int), 0);
            let ghost before = chains@;
            let ghost mut cv: Seq<ErdosChainLink> = Seq::empty();
            let kc = copy_bytes(&key);
            assert(kc@ == key_of(id@));
            assert(zero.value() == 0);
            assert(n == rec.number(k as int));
            match self.follow(kc, n, &zero) {
                Ok(c) => {
                    assert(w is Some && chain_matches(*self, c@, w.unwrap()));
                    proof {
                        cv = c@;
                    }
                    chains.push(c);
                    assert(chains@ == before.push(chains@[k as int]));
                    assert(chains@[k as int]@ == cv);
                },
                Err(e) => {
                    proof {
                        assert(w is None);
                        assert(!(walk(*self, key_of(id@), rec.number(k as int), 0) is Some));
                    }
                    return Err(e);
                },
            }
            k = k + 1;
            proof {
                lemma_first_chains_push(*self, key_of(id@), *rec, before, chains@, (k - 1) as int);
            }
        }
        let res = ErdosChains { id: copy_bytes(&rec.user.id), erdos_number: number, erdos_chains: chains };
        proof {
            assert(res.erdos_chains@ == chains@);
            assert forall|m: int| 0 <= m < rec.meta().len() implies #[trigger] walk(*self, key_of(id@), rec.number(m), 0) is Some by {
                assert(first_chain_ok(*self, key_of(id@), *rec, chains@[m], m));
            }
        }
        Ok(res)
    }
}

} // verus!
