//! The archive driver's decisions: which archives of the published list are
//! still to be ingested, and how the last one is shown.

use vstd::prelude::*;
use crate::model::copy_bytes;
use crate::text::{lemma_lex_less_irreflexive, lemma_lex_less_transitive, lex_less, less_than};

verus! {

/// The archives of `list` that come after `last`, in the reverse of the
/// list's order. The list is published newest first, so this is oldest first.
pub open spec fn pending_archives(list: Seq<Vec<u8>>, last: Seq<u8>) -> Seq<Seq<u8>>
    decreases list.len(),
{
    if list.len() == 0 {
        Seq::empty()
    } else {
        let rest = pending_archives(list.drop_first(), last);
        if lex_less(last, list[0]@) {
            rest.push(list[0]@)
        } else {
            rest
        }
    }
}

/// The archives of `list` that come after `last`, in reverse list order.
fn pending_in_order(list: &Vec<Vec<u8>>, last: &[u8]) -> (r: Vec<Vec<u8>>)
    ensures
        r@.len() == pending_archives(list@, last@).len(),
        forall|i: int| 0 <= i < r@.len() ==> #[trigger] r@[i]@ == pending_archives(list@, last@)[i],
{
    let mut r: Vec<Vec<u8>> = Vec::new();
    let mut i: usize = list.len();
    proof {
        assert(list@.subrange(i as int, list@.len() as int).len() == 0);
    }
    while i > 0
        invariant
            i <= list@.len(),
            r@.len() == pending_archives(list@.subrange(i as int, list@.len() as int), last@).len(),
            forall|j: int| 0 <= j < r@.len()
                ==> #[trigger] r@[j]@ == pending_archives(list@.subrange(i as int, list@.len() as int), last@)[j],
        decreases i,
    {
        let ghost before = r@;
        let ghost tail = list@.subrange(i as int, list@.len() as int);
        i = i - 1;
        let ghost suffix = list@.subrange(i as int, list@.len() as int);
        assert(suffix.drop_first() =~= tail);
        assert(suffix[0] == list@[i as int]);
        if less_than(last, list[i].as_slice()) {
            r.push(copy_bytes(&list[i]));
            proof {
                assert forall|j: int| 0 <= j < r@.len() implies #[trigger] r@[j]@ == pending_archives(suffix, last@)[j] by {
                    if j < before.len() {
                        assert(r@[j] == before[j]);
                    }
                }
            }
        } else {
            proof {
                assert forall|j: int| 0 <= j < r@.len() implies #[trigger] r@[j]@ == pending_archives(suffix, last@)[j] by {
                    assert(r@[j] == before[j]);
                }
            }
        }
    }
    proof {
        assert(list@.subrange(0, list@.len() as int) =~= list@);
    }
    r
}

/// The byte strings that a vector of them holds.
pub open spec fn views(v: Seq<Vec<u8>>) -> Seq<Seq<u8>> {
    v.map_values(|x: Vec<u8>| x@)
}

/// Ascending byte-wise lexicographic order.
pub open spec fn ascending(s: Seq<Seq<u8>>) -> bool {
    forall|i: int, j: int| 0 <= i < j < s.len() ==> !lex_less(#[trigger] s[j], #[trigger] s[i])
}

/// Inserts `x` into the ascending `r` before the first element above it.
fn insert_sorted(r: &mut Vec<Vec<u8>>, x: Vec<u8>)
    requires
        ascending(views(old(r)@)),
    ensures
        ascending(views(final(r)@)),
        final(r)@.len() == old(r)@.len() + 1,
        forall|y: Seq<u8>| views(final(r)@).contains(y) <==> (views(old(r)@).contains(y) || y == x@),
{
    let mut pos: usize = 0;
    let mut found = false;
    while !found && pos < r.len()
        invariant
            pos <= r@.len(),
            forall|i: int| 0 <= i < pos ==> !lex_less(x@, #[trigger] r@[i]@),
            found ==> pos < r@.len() && lex_less(x@, r@[pos as int]@),
        decreases r@.len() - pos, if found { 0int } else { 1int },
    {
        if less_than(x.as_slice(), r[pos].as_slice()) {
            found = true;
        } else {
            pos = pos + 1;
        }
    }
    let ghost old_v = views(r@);
    let ghost xv = x@;
    proof {
        assert(pos < r@.len() ==> lex_less(xv, old_v[pos as int]));
        assert(forall|i: int| 0 <= i < pos ==> !lex_less(xv, #[trigger] old_v[i]));
    }
    r.insert(pos, x);
    proof {
        let nv = views(r@);
        assert(nv =~= old_v.insert(pos as int, xv));
        assert forall|i: int, j: int| 0 <= i < j < nv.len() implies !lex_less(#[trigger] nv[j], #[trigger] nv[i]) by {
            if j < pos {
                assert(nv[i] == old_v[i] && nv[j] == old_v[j]);
            } else if j == pos {
                assert(nv[i] == old_v[i]);
                assert(!lex_less(xv, old_v[i]));
            } else if i < pos {
                assert(nv[i] == old_v[i] && nv[j] == old_v[j - 1]);
            } else if i == pos {
                assert(nv[j] == old_v[j - 1]);
                if lex_less(old_v[j - 1], xv) {
                    lemma_lex_less_transitive(old_v[j - 1], xv, old_v[pos as int]);
                    if j - 1 > pos {
                        assert(!lex_less(old_v[j - 1], old_v[pos as int]));
                    } else {
                        lemma_lex_less_irreflexive(old_v[pos as int]);
                    }
                }
            } else {
                assert(nv[i] == old_v[i - 1] && nv[j] == old_v[j - 1]);
            }
        }
        assert forall|y: Seq<u8>| nv.contains(y) <==> (old_v.contains(y) || y == xv) by {
            if nv.contains(y) {
                let i = choose|i: int| 0 <= i < nv.len() && nv[i] == y;
                if i < pos {
                    assert(old_v[i] == y);
                } else if i > pos {
                    assert(old_v[i - 1] == y);
                }
            }
            if old_v.contains(y) {
                let i = choose|i: int| 0 <= i < old_v.len() && old_v[i] == y;
                if i < pos {
                    assert(nv[i] == y);
                } else {
                    assert(nv[i + 1] == y);
                }
            }
            if y == xv {
                assert(nv[pos as int] == y);
            }
        }
    }
}

/// The archives still to ingest: those of `list` that come lexicographically
/// after `last`, in ascending order.
pub fn archives_to_process(list: &Vec<Vec<u8>>, last: &[u8]) -> (r: Vec<Vec<u8>>)
    ensures
        ascending(views(r@)),
        r@.len() == pending_archives(list@, last@).len(),
        forall|y: Seq<u8>| views(r@).contains(y) <==> pending_archives(list@, last@).contains(y),
{
    let pending = pending_in_order(list, last);
    let mut r: Vec<Vec<u8>> = Vec::new();
    let mut i: usize = 0;
    let ghost p = pending_archives(list@, last@);
    while i < pending.len()
        invariant
            i <= pending@.len(),
            pending@.len() == p.len(),
            forall|j: int| 0 <= j < pending@.len() ==> #[trigger] pending@[j]@ == p[j],
            ascending(views(r@)),
            r@.len() == i,
            forall|y: Seq<u8>| views(r@).contains(y) <==> p.subrange(0, i as int).contains(y),
        decreases pending@.len() - i,
    {
        let ghost before = views(r@);
        let item = copy_bytes(&pending[i]);
        assert(item@ == p[i as int]);
        insert_sorted(&mut r, item);
        proof {
            assert forall|y: Seq<u8>| views(r@).contains(y) <==> p.subrange(0, i + 1).contains(y) by {
                let q = p.subrange(0, i + 1);
                assert(q =~= p.subrange(0, i as int).push(p[i as int]));
                assert(views(r@).contains(y) == (before.contains(y) || y == p[i as int]));
                assert(before.contains(y) == p.subrange(0, i as int).contains(y));
                if p.subrange(0, i as int).contains(y) {
                    let k = choose|k: int| 0 <= k < i && p.subrange(0, i as int)[k] == y;
                    assert(q[k] == y);
                }
                if q.contains(y) {
                    let k = choose|k: int| 0 <= k < i + 1 && q[k] == y;
                    if k < i {
                        assert(p.subrange(0, i as int)[k] == y);
                    } else {
                        assert(q[k] == p[i as int]);
                    }
                }
                if y == p[i as int] {
                    assert(q[i as int] == y);
                }
            }
        }
        i = i + 1;
    }
    proof {
        assert(p.subrange(0, p.len() as int) =~= p);
    }
    r
}

/// The short label of an archive name: the seven bytes that end eight bytes
/// before its end (the `YYYY-MM` of `...YYYY-MM.pgn.zst`); none for a name
/// shorter than fifteen bytes.
pub fn archive_label(name: &[u8]) -> (r: Option<Vec<u8>>)
    ensures
        name@.len() < 15 ==> r is None,
        name@.len() >= 15 ==> (r matches Some(l) && l@ == name@.subrange(name@.len() - 15, name@.len() - 8)),
{
    if name.len() < 15 {
        return None;
    }
    let mut l: Vec<u8> = Vec::new();
    let start = name.len() - 15;
    let mut i: usize = start;
    while i < name.len() - 8
        invariant
            start == name@.len() - 15,
            start <= i <= name@.len() - 8,
            l@ == name@.subrange(start as int, i as int),
        decreases name@.len() - i,
    {
        l.push(name[i]);
        assert(l@ =~= name@.subrange(start as int, i + 1));
        i = i + 1;
    }
    Some(l)
}

} // verus!
