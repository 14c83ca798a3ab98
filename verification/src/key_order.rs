//! Byte strings as the `bytes` crate holds them: their contents, their order and the big-endian
//! integers written into them.
use bytes::{BufMut, Bytes, BytesMut};
use vstd::prelude::*;

verus! {

/// The type `bytes::Bytes`.
#[verifier::external_type_specification]
#[verifier::external_body]
pub struct ExBytes(bytes::Bytes);

/// The type `bytes::BytesMut`.
#[verifier::external_type_specification]
#[verifier::external_body]
pub struct ExBytesMut(bytes::BytesMut);

/// The bytes that a `Bytes` refers to.
pub uninterp spec fn bytes_view(b: bytes::Bytes) -> Seq<u8>;

/// The bytes written into a `BytesMut` so far.
pub uninterp spec fn buffer_view(b: bytes::BytesMut) -> Seq<u8>;

/// `<Bytes as Clone>::clone`: the clone refers to the same bytes.
pub assume_specification[ <Bytes as Clone>::clone ](b: &Bytes) -> (copy: Bytes)
    ensures
        bytes_view(copy) == bytes_view(*b),
;

/// `Bytes::copy_from_slice`: the copy holds the bytes of the slice.
pub assume_specification[ Bytes::copy_from_slice ](data: &[u8]) -> (copy: Bytes)
    ensures
        bytes_view(copy) == data@,
;

/// `Bytes::len`: the number of bytes referred to.
pub assume_specification[ Bytes::len ](b: &Bytes) -> (len: usize)
    ensures
        len == bytes_view(*b).len(),
;

/// `<Bytes as PartialOrd>::lt`: `Bytes` values compare as byte slices do, lexicographically.
#[verifier::external_body]
pub(crate) fn bytes_lt(a: &Bytes, b: &Bytes) -> (less: bool)
    ensures
        less == lex_lt(bytes_view(*a), bytes_view(*b)),
{
    a < b
}

/// `<Bytes as AsRef<[u8]>>::as_ref`: the slice holds the bytes referred to.
#[verifier::external_body]
pub(crate) fn bytes_as_slice(b: &Bytes) -> (slice: &[u8])
    ensures
        slice@ == bytes_view(*b),
{
    b.as_ref()
}

/// `BytesMut::with_capacity`: the new buffer holds no bytes.
pub assume_specification[ BytesMut::with_capacity ](capacity: usize) -> (buffer: BytesMut)
    requires
        capacity <= isize::MAX,
    ensures
        buffer_view(buffer) == Seq::<u8>::empty(),
;

/// `<BytesMut as BufMut>::put_u64`: the eight big-endian bytes of `n` are appended.
#[verifier::external_body]
pub(crate) fn put_u64(buffer: &mut BytesMut, n: u64)
    requires
        buffer_view(*old(buffer)).len() + 8 <= isize::MAX,
    ensures
        buffer_view(*final(buffer)) == buffer_view(*old(buffer)) + be_bytes(n as nat, 8),
{
    buffer.put_u64(n)
}

/// `<BytesMut as BufMut>::put_u32`: the four big-endian bytes of `n` are appended.
#[verifier::external_body]
pub(crate) fn put_u32(buffer: &mut BytesMut, n: u32)
    requires
        buffer_view(*old(buffer)).len() + 4 <= isize::MAX,
    ensures
        buffer_view(*final(buffer)) == buffer_view(*old(buffer)) + be_bytes(n as nat, 4),
{
    buffer.put_u32(n)
}

/// `BytesMut::freeze`: the frozen value refers to the bytes that the buffer held.
pub assume_specification[ BytesMut::freeze ](buffer: BytesMut) -> (frozen: Bytes)
    ensures
        bytes_view(frozen) == buffer_view(buffer),
;

/// Whether `a` comes strictly before `b` in lexicographic order.
pub open spec fn lex_lt(a: Seq<u8>, b: Seq<u8>) -> bool
    decreases a.len(),
{
    if b.len() == 0 {
        false
    } else if a.len() == 0 {
        true
    } else if a[0] == b[0] {
        lex_lt(a.drop_first(), b.drop_first())
    } else {
        a[0] < b[0]
    }
}

/// Whether `a` comes before `b` in lexicographic order, or is equal to it.
pub open spec fn lex_le(a: Seq<u8>, b: Seq<u8>) -> bool {
    !lex_lt(b, a)
}

/// The `len` lowest base-256 digits of `n`, the most significant one first.
pub open spec fn be_bytes(n: nat, len: nat) -> Seq<u8>
    decreases len,
{
    if len == 0 {
        Seq::empty()
    } else {
        be_bytes(n / 256, (len - 1) as nat).push((n % 256) as u8)
    }
}

/// The lexicographic order is total: two byte strings of which neither comes first are equal.
pub proof fn lemma_lex_total(a: Seq<u8>, b: Seq<u8>)
    ensures
        lex_lt(a, b) || lex_lt(b, a) || a == b,
    decreases a.len(),
{
    if a.len() > 0 && b.len() > 0 && a[0] == b[0] {
        lemma_lex_total(a.drop_first(), b.drop_first());
        if a.drop_first() == b.drop_first() {
            assert(a =~= seq![a[0]] + a.drop_first());
            assert(b =~= seq![b[0]] + b.drop_first());
        }
    } else if a.len() == 0 && b.len() == 0 {
        assert(a =~= b);
    }
}

/// No byte string comes before itself, and of two at most one comes first.
pub proof fn lemma_lex_asymmetric(a: Seq<u8>, b: Seq<u8>)
    ensures
        !(lex_lt(a, b) && lex_lt(b, a)),
        !lex_lt(a, a),
    decreases a.len(),
{
    if a.len() > 0 {
        lemma_lex_asymmetric(a.drop_first(), a.drop_first());
        if b.len() > 0 {
            lemma_lex_asymmetric(a.drop_first(), b.drop_first());
        }
    }
}

/// The lexicographic order is transitive.
pub proof fn lemma_lex_transitive(a: Seq<u8>, b: Seq<u8>, c: Seq<u8>)
    requires
        lex_lt(a, b),
        lex_lt(b, c),
    ensures
        lex_lt(a, c),
    decreases a.len(),
{
    if a.len() > 0 && b.len() > 0 && c.len() > 0 && a[0] == b[0] && b[0] == c[0] {
        lemma_lex_transitive(a.drop_first(), b.drop_first(), c.drop_first());
    }
}

/// Chains of `lex_lt` and `lex_le` compose.
pub proof fn lemma_lex_chain(a: Seq<u8>, b: Seq<u8>, c: Seq<u8>)
    ensures
        lex_lt(a, b) && lex_le(b, c) ==> lex_lt(a, c),
        lex_le(a, b) && lex_lt(b, c) ==> lex_lt(a, c),
        lex_le(a, b) && lex_le(b, c) ==> lex_le(a, c),
{
    lemma_lex_total(a, b);
    lemma_lex_total(b, c);
    lemma_lex_asymmetric(a, b);
    lemma_lex_asymmetric(b, c);
    lemma_lex_asymmetric(a, c);
    if lex_lt(a, b) && lex_lt(b, c) {
        lemma_lex_transitive(a, b, c);
    }
    if lex_lt(c, a) && lex_lt(a, b) {
        lemma_lex_transitive(c, a, b);
    }
    if lex_lt(b, c) && lex_lt(c, a) {
        lemma_lex_transitive(b, c, a);
    }
}

/// The byte string after `a` in lexicographic order is `a` followed by a zero byte.
pub proof fn lemma_lex_successor(a: Seq<u8>, b: Seq<u8>)
    ensures
        lex_lt(a, b) <==> lex_le(a.push(0), b),
    decreases a.len(),
{
    let next = a.push(0);
    if a.len() == 0 {
        if b.len() > 0 {
            assert(next.drop_first() =~= Seq::<u8>::empty());
            assert(!lex_lt(b.drop_first(), next.drop_first()));
        }
    } else if b.len() > 0 && a[0] == b[0] {
        lemma_lex_successor(a.drop_first(), b.drop_first());
        assert(next.drop_first() =~= a.drop_first().push(0));
    }
}

/// A common prefix does not matter to the order.
pub proof fn lemma_lex_common_prefix(p: Seq<u8>, a: Seq<u8>, b: Seq<u8>)
    ensures
        lex_lt(p + a, p + b) == lex_lt(a, b),
    decreases p.len(),
{
    if p.len() == 0 {
        assert(p + a =~= a);
        assert(p + b =~= b);
    } else {
        lemma_lex_common_prefix(p.drop_first(), a, b);
        assert((p + a).drop_first() =~= p.drop_first() + a);
        assert((p + b).drop_first() =~= p.drop_first() + b);
    }
}

/// Prefixes of one length decide the order as soon as they differ.
pub proof fn lemma_lex_prefix_decides(p: Seq<u8>, q: Seq<u8>, a: Seq<u8>, b: Seq<u8>)
    requires
        p.len() == q.len(),
        p != q,
    ensures
        lex_lt(p + a, q + b) == lex_lt(p, q),
    decreases p.len(),
{
    if p.len() == 0 {
        assert(p =~= q);
    } else if p[0] == q[0] {
        if p.drop_first() == q.drop_first() {
            assert(p =~= seq![p[0]] + p.drop_first());
            assert(q =~= seq![q[0]] + q.drop_first());
        }
        lemma_lex_prefix_decides(p.drop_first(), q.drop_first(), a, b);
        assert((p + a).drop_first() =~= p.drop_first() + a);
        assert((q + b).drop_first() =~= q.drop_first() + b);
    }
}

pub proof fn lemma_be_bytes_len(n: nat, len: nat)
    ensures
        be_bytes(n, len).len() == len,
    decreases len,
{
    if len > 0 {
        lemma_be_bytes_len(n / 256, (len - 1) as nat);
    }
}

/// The number of values that `len` base-256 digits can hold.
pub open spec fn pow256(len: nat) -> nat
    decreases len,
{
    if len == 0 {
        1
    } else {
        256 * pow256((len - 1) as nat)
    }
}

/// Big-endian digits order as the numbers do.
pub proof fn lemma_be_bytes_order(n: nat, m: nat, len: nat)
    requires
        n < pow256(len),
        m < pow256(len),
    ensures
        lex_lt(be_bytes(n, len), be_bytes(m, len)) == (n < m),
        (be_bytes(n, len) == be_bytes(m, len)) == (n == m),
    decreases len,
{
    if len > 0 {
        let shorter = (len - 1) as nat;
        lemma_be_bytes_order(n / 256, m / 256, shorter);
        lemma_be_bytes_len(n / 256, shorter);
        lemma_be_bytes_len(m / 256, shorter);
        let p = be_bytes(n / 256, shorter);
        let q = be_bytes(m / 256, shorter);
        let a = seq![(n % 256) as u8];
        let b = seq![(m % 256) as u8];
        assert(be_bytes(n, len) =~= p + a);
        assert(be_bytes(m, len) =~= q + b);
        if p == q {
            lemma_lex_common_prefix(p, a, b);
            assert(a.drop_first() =~= Seq::<u8>::empty());
            assert(b.drop_first() =~= Seq::<u8>::empty());
            assert(!lex_lt(a.drop_first(), b.drop_first()));
            assert(be_bytes(n, len).last() == a[0] && be_bytes(m, len).last() == b[0]);
        } else {
            lemma_lex_prefix_decides(p, q, a, b);
            assert(be_bytes(n, len).drop_last() =~= p);
            assert(be_bytes(m, len).drop_last() =~= q);
        }
    }
}

/// Big-endian digits hold their number: the last digit is what is left over from the higher ones,
/// and those hold the number of times that 256 goes into it.
pub proof fn law_digits_hold_the_number(n: nat, len: nat)
    requires
        len > 0,
    ensures
        be_bytes(n, len).len() == len,
        be_bytes(n, len).last() == n % 256,
        be_bytes(n, len).drop_last() == be_bytes(n / 256, (len - 1) as nat),
        be_bytes(n, 0).len() == 0,
{
    lemma_be_bytes_len(n / 256, (len - 1) as nat);
    assert(be_bytes(n, len).drop_last() =~= be_bytes(n / 256, (len - 1) as nat));
}

/// Byte strings are ordered by the first byte in which they differ, and a byte string comes before
/// every longer one that begins with it.
pub proof fn law_first_difference_decides(a: Seq<u8>, b: Seq<u8>, n: int)
    requires
        0 <= n <= a.len(),
        n <= b.len(),
        forall|i: int| 0 <= i < n ==> a[i] == b[i],
    ensures
        n < a.len() && n < b.len() && a[n] < b[n] ==> lex_lt(a, b) && !lex_lt(b, a),
        n == a.len() && n < b.len() ==> lex_lt(a, b) && !lex_lt(b, a),
        n == a.len() && n == b.len() ==> !lex_lt(a, b) && !lex_lt(b, a),
    decreases n,
{
    if n > 0 {
        let rest_a = a.drop_first();
        let rest_b = b.drop_first();
        assert(a[0] == b[0]);
        assert forall|i: int| 0 <= i < n - 1 implies rest_a[i] == rest_b[i] by {
            assert(rest_a[i] == a[i + 1]);
            assert(rest_b[i] == b[i + 1]);
        }
        law_first_difference_decides(rest_a, rest_b, n - 1);
    }
}

} // verus!
