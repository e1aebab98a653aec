//! Keys of the link store as bytes: the user key with a length prefix, then
//! the number and the link index as fixed-width big-endian words, so that
//! component boundaries survive and byte order follows component order.

use vstd::prelude::*;
use crate::model::{copy_bytes, CaseInsensitiveString};
use crate::text::{slice_from, slice_to};

verus! {

/// The key of one link: `(user key, number, link index)`.
#[derive(Debug)]
pub struct LinkKey {
    pub user: Vec<u8>,
    pub erdos_number: u32,
    pub link_index: u32,
}

/// Four big-endian bytes of `x`.
pub open spec fn be_bytes(x: u32) -> Seq<u8> {
    seq![(x >> 24u32) as u8, (x >> 16u32) as u8, (x >> 8u32) as u8, x as u8]
}

/// The word of four big-endian bytes.
pub open spec fn be_word(b: Seq<u8>) -> u32 {
    ((b[0] as u32) << 24u32) | ((b[1] as u32) << 16u32) | ((b[2] as u32) << 8u32) | (b[3] as u32)
}

/// The encoding of a link key.
pub open spec fn link_key_bytes(user: Seq<u8>, n: u32, i: u32) -> Seq<u8> {
    be_bytes(user.len() as u32) + user + be_bytes(n) + be_bytes(i)
}

/// A word read back from its bytes is the word.
pub proof fn lemma_be_round_trip(x: u32)
    ensures
        be_word(be_bytes(x)) == x,
{
    let b0 = (x >> 24u32) as u8;
    let b1 = (x >> 16u32) as u8;
    let b2 = (x >> 8u32) as u8;
    let b3 = x as u8;
    assert(((b0 as u32) << 24u32) | ((b1 as u32) << 16u32) | ((b2 as u32) << 8u32) | (b3 as u32) == x) by (bit_vector)
        requires
            b0 == (x >> 24u32) as u8,
            b1 == (x >> 16u32) as u8,
            b2 == (x >> 8u32) as u8,
            b3 == x as u8,
    ;
}

fn push_be(out: &mut Vec<u8>, x: u32)
    ensures
        final(out)@ == old(out)@ + be_bytes(x),
{
    out.push((x >> 24u32) as u8);
    out.push((x >> 16u32) as u8);
    out.push((x >> 8u32) as u8);
    out.push(x as u8);
    assert(final(out)@ =~= old(out)@ + be_bytes(x));
}

fn read_be(b: &[u8], at: usize) -> (r: u32)
    requires
        at + 4 <= b@.len(),
    ensures
        r == be_word(b@.subrange(at as int, at + 4)),
{
    ((b[at] as u32) << 24u32) | ((b[at + 1] as u32) << 16u32) | ((b[at + 2] as u32) << 8u32) | (b[at + 3] as u32)
}

impl LinkKey {
    /// The bytes under which the link is stored.
    pub fn encode(&self) -> (r: Vec<u8>)
        requires
            self.user@.len() <= u32::MAX,
        ensures
            r@ == link_key_bytes(self.user@, self.erdos_number, self.link_index),
    {
        let mut out: Vec<u8> = Vec::new();
        push_be(&mut out, self.user.len() as u32);
        let mut i: usize = 0;
        while i < self.user.len()
            invariant
                i <= self.user@.len(),
                out@ == be_bytes(self.user@.len() as u32) + self.user@.subrange(0, i as int),
            decreases self.user@.len() - i,
        {
            out.push(self.user[i]);
            assert(out@ =~= be_bytes(self.user@.len() as u32) + self.user@.subrange(0, i + 1));
            i = i + 1;
        }
        assert(self.user@.subrange(0, i as int) =~= self.user@);
        push_be(&mut out, self.erdos_number);
        push_be(&mut out, self.link_index);
        out
    }

    /// Reads a link key back; `None` where the bytes are not one.
    pub fn decode(b: &[u8]) -> (r: Option<LinkKey>)
        ensures
            r matches Some(k) ==> b@ == link_key_bytes(k.user@, k.erdos_number, k.link_index),
            forall|u: Seq<u8>, n: u32, i: u32| u.len() <= u32::MAX && b@ == #[trigger] link_key_bytes(u, n, i) ==> r is Some,
    {
        if b.len() < 12 {
            proof {
                assert forall|u: Seq<u8>, n: u32, i: u32| u.len() <= u32::MAX && b@ == #[trigger] link_key_bytes(u, n, i) implies false by {
                    assert(link_key_bytes(u, n, i).len() == 12 + u.len());
                }
            }
            return None;
        }
        let len = read_be(b, 0);
        if len as usize != b.len() - 12 {
            proof {
                assert forall|u: Seq<u8>, n: u32, i: u32| u.len() <= u32::MAX && b@ == #[trigger] link_key_bytes(u, n, i) implies false by {
                    assert(link_key_bytes(u, n, i).subrange(0, 4) =~= be_bytes(u.len() as u32));
                    lemma_be_round_trip(u.len() as u32);
                }
            }
            return None;
        }
        let body = slice_from(b, 4);
        let user_bytes = slice_to(body, len as usize);
        let mut user: Vec<u8> = Vec::new();
        let mut i: usize = 0;
        while i < user_bytes.len()
            invariant
                i <= user_bytes@.len(),
                user@ == user_bytes@.subrange(0, i as int),
            decreases user_bytes@.len() - i,
        {
            user.push(user_bytes[i]);
            assert(user@ =~= user_bytes@.subrange(0, i + 1));
            i = i + 1;
        }
        assert(user_bytes@.subrange(0, i as int) =~= user_bytes@);
        let at = 4 + len as usize;
        let n = read_be(b, at);
        let k = read_be(b, at + 4);
        proof {
            let l = len as int;
            assert(b@.subrange(0, 4) =~= be_bytes(len)) by {
                lemma_be_bytes_of_word(b@.subrange(0, 4));
            }
            assert(b@.subrange(4 + l, 8 + l) =~= be_bytes(n)) by {
                lemma_be_bytes_of_word(b@.subrange(4 + l, 8 + l));
            }
            assert(b@.subrange(8 + l, 12 + l) =~= be_bytes(k)) by {
                lemma_be_bytes_of_word(b@.subrange(8 + l, 12 + l));
            }
            assert(user@ =~= b@.subrange(4, 4 + l));
            assert(b@ =~= b@.subrange(0, 4) + b@.subrange(4, 4 + l) + b@.subrange(4 + l, 8 + l) + b@.subrange(8 + l, 12 + l));
        }
        Some(LinkKey { user, erdos_number: n, link_index: k })
    }
}

/// Four bytes are the big-endian bytes of the word they form.
proof fn lemma_be_bytes_of_word(b: Seq<u8>)
    requires
        b.len() == 4,
    ensures
        be_bytes(be_word(b)) == b,
{
    let b0 = b[0];
    let b1 = b[1];
    let b2 = b[2];
    let b3 = b[3];
    let w = ((b0 as u32) << 24u32) | ((b1 as u32) << 16u32) | ((b2 as u32) << 8u32) | (b3 as u32);
    assert((w >> 24u32) as u8 == b0 && (w >> 16u32) as u8 == b1 && (w >> 8u32) as u8 == b2 && w as u8 == b3) by (bit_vector)
        requires
            w == ((b0 as u32) << 24u32) | ((b1 as u32) << 16u32) | ((b2 as u32) << 8u32) | (b3 as u32),
    ;
    assert(be_bytes(w) =~= b);
}

/// The encoding of link keys is one to one: equal bytes mean equal user key,
/// number and link index, so a key read back is the key written.
pub proof fn lemma_link_key_round_trip(u1: Seq<u8>, n1: u32, i1: u32, u2: Seq<u8>, n2: u32, i2: u32)
    requires
        u1.len() <= u32::MAX,
        u2.len() <= u32::MAX,
        link_key_bytes(u1, n1, i1) == link_key_bytes(u2, n2, i2),
    ensures
        u1 == u2,
        n1 == n2,
        i1 == i2,
{
    let b = link_key_bytes(u1, n1, i1);
    let l1 = u1.len() as int;
    let l2 = u2.len() as int;
    assert(b.subrange(0, 4) =~= be_bytes(u1.len() as u32));
    assert(link_key_bytes(u2, n2, i2).subrange(0, 4) =~= be_bytes(u2.len() as u32));
    lemma_be_round_trip(u1.len() as u32);
    lemma_be_round_trip(u2.len() as u32);
    assert(l1 == l2);
    assert(b.subrange(4, 4 + l1) =~= u1);
    assert(link_key_bytes(u2, n2, i2).subrange(4, 4 + l2) =~= u2);
    assert(b.subrange(4 + l1, 8 + l1) =~= be_bytes(n1));
    assert(link_key_bytes(u2, n2, i2).subrange(4 + l2, 8 + l2) =~= be_bytes(n2));
    assert(b.subrange(8 + l1, 12 + l1) =~= be_bytes(i1));
    assert(link_key_bytes(u2, n2, i2).subrange(8 + l2, 12 + l2) =~= be_bytes(i2));
    lemma_be_round_trip(n1);
    lemma_be_round_trip(n2);
    lemma_be_round_trip(i1);
    lemma_be_round_trip(i2);
}

/// A value that is stored under a byte key.
pub trait Key {
    /// The bytes of the key.
    spec fn key_bytes(&self) -> Seq<u8>;

    fn serialize(&self) -> (r: Vec<u8>)
        ensures
            r@ == self.key_bytes(),
    ;
}

impl Key for CaseInsensitiveString {
    open spec fn key_bytes(&self) -> Seq<u8> {
        self.0@
    }

    fn serialize(&self) -> (r: Vec<u8>) {
        copy_bytes(&self.0)
    }
}

} // verus!
