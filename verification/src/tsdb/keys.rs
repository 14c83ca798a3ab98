//! Keys: `<bucket: u64 BE><metric: u32 BE><ts: u64 BE>`.
//!
//! Big-endian, so that the order of keys is the order of the numbers: the bucket is a segment
//! prefix, and the samples of one metric in one bucket are contiguous.
use crate::key_order::{put_u32, put_u64};
use bytes::{Bytes, BytesMut};
use vstd::prelude::*;

verus! {

/// The time bucket that every key starts with is the segment prefix.
pub const BUCKET_PREFIX_LEN: usize = 8;

/// What a segment prefix is asked of.
#[derive(Debug)]
pub enum PrefixTarget {
    /// A whole key.
    Point(Bytes),
    /// The beginning of a key.
    Prefix(Bytes),
}

impl PrefixTarget {
    /// The bytes that a segment prefix is asked of.
    pub open spec fn bytes(self) -> Seq<u8> {
        match self {
            PrefixTarget::Point(bytes) => crate::key_order::bytes_view(bytes),
            PrefixTarget::Prefix(bytes) => crate::key_order::bytes_view(bytes),
        }
    }
}

/// The segment of a key is its first [`BUCKET_PREFIX_LEN`] bytes, the time bucket.
#[derive(Debug)]
pub struct BucketPrefixExtractor;

impl BucketPrefixExtractor {
    /// The name under which the database records the extractor.
    pub fn name(&self) -> (name: &'static str)
        ensures
            name@ == "tsdb-bucket-8"@,
    {
        "tsdb-bucket-8"
    }

    /// The length of the segment prefix, if the target is long enough to have one.
    pub fn prefix_len(&self, target: &PrefixTarget) -> (len: Option<usize>)
        ensures
            len == (if target.bytes().len() >= BUCKET_PREFIX_LEN {
                Some(BUCKET_PREFIX_LEN)
            } else {
                None
            }),
            target matches PrefixTarget::Point(key) ==> (len is Some <==> crate::key_order::bytes_view(
                *key,
            ).len() >= 8),
            target matches PrefixTarget::Prefix(key) ==> (len is Some
                <==> crate::key_order::bytes_view(*key).len() >= 8),
            len matches Some(len) ==> len == 8,
    {
        let len = match target {
            PrefixTarget::Point(bytes) => bytes.len(),
            PrefixTarget::Prefix(bytes) => bytes.len(),
        };
        if len >= BUCKET_PREFIX_LEN {
            Some(BUCKET_PREFIX_LEN)
        } else {
            None
        }
    }
}

/// The bytes of a scan bound.
pub open spec fn prefix_bytes(bucket: u64, metric: u32) -> Seq<u8> {
    crate::key_order::be_bytes(bucket as nat, 8) + crate::key_order::be_bytes(metric as nat, 4)
}

/// The bytes of a key.
pub open spec fn key_bytes(bucket: u64, metric: u32, ts: u64) -> Seq<u8> {
    prefix_bytes(bucket, metric) + crate::key_order::be_bytes(ts as nat, 8)
}

/// `<bucket: u64 BE><metric: u32 BE><ts: u64 BE>`.
pub fn encode_key(bucket: u64, metric: u32, ts: u64) -> (key: Bytes)
    ensures
        crate::key_order::bytes_view(key) == key_bytes(bucket, metric, ts),
{
    proof {
        lemma_lens(bucket, metric, ts);
    }
    let mut buffer = BytesMut::with_capacity(20);
    put_u64(&mut buffer, bucket);
    put_u32(&mut buffer, metric);
    put_u64(&mut buffer, ts);
    assert(crate::key_order::buffer_view(buffer) =~= key_bytes(bucket, metric, ts));
    buffer.freeze()
}

/// `<bucket: u64 BE><metric: u32 BE>`, a scan bound that covers all timestamps of one metric in one
/// bucket.
pub fn encode_prefix(bucket: u64, metric: u32) -> (prefix: Bytes)
    ensures
        crate::key_order::bytes_view(prefix) == prefix_bytes(bucket, metric),
{
    proof {
        lemma_lens(bucket, metric, 0);
    }
    let mut buffer = BytesMut::with_capacity(12);
    put_u64(&mut buffer, bucket);
    put_u32(&mut buffer, metric);
    assert(crate::key_order::buffer_view(buffer) =~= prefix_bytes(bucket, metric));
    buffer.freeze()
}

/// The order of samples: first by bucket, then by metric, then by time.
pub open spec fn sample_lt(a: (u64, u32, u64), b: (u64, u32, u64)) -> bool {
    a.0 < b.0 || (a.0 == b.0 && (a.1 < b.1 || (a.1 == b.1 && a.2 < b.2)))
}

proof fn lemma_lens(bucket: u64, metric: u32, ts: u64)
    ensures
        crate::key_order::be_bytes(bucket as nat, 8).len() == 8,
        crate::key_order::be_bytes(metric as nat, 4).len() == 4,
        crate::key_order::be_bytes(ts as nat, 8).len() == 8,
        prefix_bytes(bucket, metric).len() == 12,
        key_bytes(bucket, metric, ts).len() == 20,
{
    crate::key_order::lemma_be_bytes_len(bucket as nat, 8);
    crate::key_order::lemma_be_bytes_len(metric as nat, 4);
    crate::key_order::lemma_be_bytes_len(ts as nat, 8);
}

proof fn lemma_digits()
    ensures
        crate::key_order::pow256(4) == 0x1_0000_0000,
        crate::key_order::pow256(8) == 0x1_0000_0000_0000_0000,
{
    reveal_with_fuel(crate::key_order::pow256, 9);
}

/// Eight digits hold any `u64`, and order as the numbers do.
proof fn lemma_order_u64(a: u64, b: u64)
    ensures
        crate::key_order::lex_lt(
            crate::key_order::be_bytes(a as nat, 8),
            crate::key_order::be_bytes(b as nat, 8),
        ) == (a < b),
        (crate::key_order::be_bytes(a as nat, 8) == crate::key_order::be_bytes(b as nat, 8)) == (a
            == b),
{
    lemma_digits();
    crate::key_order::lemma_be_bytes_order(a as nat, b as nat, 8);
}

/// Four digits hold any `u32`, and order as the numbers do.
proof fn lemma_order_u32(a: u32, b: u32)
    ensures
        crate::key_order::lex_lt(
            crate::key_order::be_bytes(a as nat, 4),
            crate::key_order::be_bytes(b as nat, 4),
        ) == (a < b),
        (crate::key_order::be_bytes(a as nat, 4) == crate::key_order::be_bytes(b as nat, 4)) == (a
            == b),
{
    lemma_digits();
    crate::key_order::lemma_be_bytes_order(a as nat, b as nat, 4);
}

/// The order of scan bounds, whatever follows them.
proof fn lemma_prefix_order(b1: u64, m1: u32, rest1: Seq<u8>, b2: u64, m2: u32, rest2: Seq<u8>)
    ensures
        crate::key_order::lex_lt(prefix_bytes(b1, m1) + rest1, prefix_bytes(b2, m2) + rest2) == (b1
            < b2 || (b1 == b2 && m1 < m2) || (b1 == b2 && m1 == m2 && crate::key_order::lex_lt(
            rest1,
            rest2,
        ))),
{
    let (p1, p2) = (
        crate::key_order::be_bytes(b1 as nat, 8),
        crate::key_order::be_bytes(b2 as nat, 8),
    );
    let (q1, q2) = (
        crate::key_order::be_bytes(m1 as nat, 4),
        crate::key_order::be_bytes(m2 as nat, 4),
    );
    lemma_lens(b1, m1, 0);
    lemma_lens(b2, m2, 0);
    lemma_order_u64(b1, b2);
    lemma_order_u32(m1, m2);
    assert(prefix_bytes(b1, m1) + rest1 =~= p1 + (q1 + rest1));
    assert(prefix_bytes(b2, m2) + rest2 =~= p2 + (q2 + rest2));
    if b1 != b2 {
        crate::key_order::lemma_lex_prefix_decides(p1, p2, q1 + rest1, q2 + rest2);
    } else {
        crate::key_order::lemma_lex_common_prefix(p1, q1 + rest1, q2 + rest2);
        if m1 != m2 {
            crate::key_order::lemma_lex_prefix_decides(q1, q2, rest1, rest2);
        } else {
            crate::key_order::lemma_lex_common_prefix(q1, rest1, rest2);
        }
    }
}

/// Keys order as their samples do: lexicographic order equals numeric order.
pub proof fn law_keys_order_as_samples(a: (u64, u32, u64), b: (u64, u32, u64))
    ensures
        crate::key_order::lex_lt(key_bytes(a.0, a.1, a.2), key_bytes(b.0, b.1, b.2)) == sample_lt(
            a,
            b,
        ),
        (key_bytes(a.0, a.1, a.2) == key_bytes(b.0, b.1, b.2)) == (a == b),
{
    let x = crate::key_order::be_bytes(a.2 as nat, 8);
    let y = crate::key_order::be_bytes(b.2 as nat, 8);
    lemma_prefix_order(a.0, a.1, x, b.0, b.1, y);
    lemma_prefix_order(b.0, b.1, y, a.0, a.1, x);
    lemma_order_u64(a.2, b.2);
    lemma_order_u64(b.2, a.2);
    if key_bytes(a.0, a.1, a.2) == key_bytes(b.0, b.1, b.2) {
        crate::key_order::lemma_lex_asymmetric(
            key_bytes(a.0, a.1, a.2),
            key_bytes(b.0, b.1, b.2),
        );
    }
}

/// Every key has a segment, and it is the time bucket: keys are in one segment exactly if they are
/// in one bucket.
pub proof fn law_segment_is_the_bucket(a: (u64, u32, u64), b: (u64, u32, u64))
    ensures
        key_bytes(a.0, a.1, a.2).len() >= BUCKET_PREFIX_LEN,
        key_bytes(a.0, a.1, a.2).take(BUCKET_PREFIX_LEN as int) == crate::key_order::be_bytes(
            a.0 as nat,
            8,
        ),
        (key_bytes(a.0, a.1, a.2).take(BUCKET_PREFIX_LEN as int) == key_bytes(
            b.0,
            b.1,
            b.2,
        ).take(BUCKET_PREFIX_LEN as int)) == (a.0 == b.0),
{
    lemma_lens(a.0, a.1, a.2);
    lemma_lens(b.0, b.1, b.2);
    assert(key_bytes(a.0, a.1, a.2).take(8) =~= crate::key_order::be_bytes(a.0 as nat, 8));
    assert(key_bytes(b.0, b.1, b.2).take(8) =~= crate::key_order::be_bytes(b.0 as nat, 8));
    lemma_order_u64(a.0, b.0);
}

/// A scan from one bound to the next covers exactly the samples of one metric in one bucket.
pub proof fn law_scan_covers_one_metric_of_one_bucket(
    bucket: u64,
    metric: u32,
    sample: (u64, u32, u64),
)
    requires
        metric < u32::MAX,
    ensures
        ({
            let key = key_bytes(sample.0, sample.1, sample.2);
            (crate::key_order::lex_le(prefix_bytes(bucket, metric), key)
                && crate::key_order::lex_lt(key, prefix_bytes(bucket, (metric + 1) as u32))) == (
            sample.0 == bucket && sample.1 == metric)
        }),
{
    let ts = crate::key_order::be_bytes(sample.2 as nat, 8);
    let none = Seq::<u8>::empty();
    let next = (metric + 1) as u32;
    lemma_prefix_order(sample.0, sample.1, ts, bucket, metric, none);
    lemma_prefix_order(sample.0, sample.1, ts, bucket, next, none);
    assert(prefix_bytes(bucket, metric) + none =~= prefix_bytes(bucket, metric));
    assert(prefix_bytes(bucket, next) + none =~= prefix_bytes(bucket, next));
}

/// A key consists of its bucket, its metric and its time, in this order and with the widths of the
/// numbers, and a scan bound is what all keys of its bucket and metric begin with.
pub proof fn law_keys_are_laid_out(bucket: u64, metric: u32, ts: u64)
    ensures
        key_bytes(bucket, metric, ts).len() == 20,
        key_bytes(bucket, metric, ts).subrange(0, 8) == crate::key_order::be_bytes(
            bucket as nat,
            8,
        ),
        key_bytes(bucket, metric, ts).subrange(8, 12) == crate::key_order::be_bytes(
            metric as nat,
            4,
        ),
        key_bytes(bucket, metric, ts).subrange(12, 20) == crate::key_order::be_bytes(ts as nat, 8),
        prefix_bytes(bucket, metric) == key_bytes(bucket, metric, ts).take(12),
{
    lemma_lens(bucket, metric, ts);
    let key = key_bytes(bucket, metric, ts);
    assert(key.subrange(0, 8) =~= crate::key_order::be_bytes(bucket as nat, 8));
    assert(key.subrange(8, 12) =~= crate::key_order::be_bytes(metric as nat, 4));
    assert(key.subrange(12, 20) =~= crate::key_order::be_bytes(ts as nat, 8));
    assert(key.take(12) =~= prefix_bytes(bucket, metric));
}

/// A prefix is asked of the bytes of its target, whether these are a whole key or its beginning.
pub proof fn law_targets_are_their_bytes(key: Bytes)
    ensures
        PrefixTarget::Point(key).bytes() == crate::key_order::bytes_view(key),
        PrefixTarget::Prefix(key).bytes() == crate::key_order::bytes_view(key),
{
}

} // verus!
