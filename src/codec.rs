//! The length-prefixed sequence format that blocks are written in.
//!
//! Each item is a tag byte giving the width of its length (0, 1, 2, 4 or 8
//! bytes), the length itself in little-endian order, then the item's bytes.
use vstd::prelude::*;

verus! {

/// `n` written in `k` little-endian bytes (the high part is cut off).
pub open spec fn le_bytes(n: nat, k: nat) -> Seq<u8>
    decreases k,
{
    if k == 0 {
        seq![]
    } else {
        seq![(n % 256) as u8] + le_bytes(n / 256, (k - 1) as nat)
    }
}

/// The number that little-endian bytes `s` stand for.
pub open spec fn le_value(s: Seq<u8>) -> nat
    decreases s.len(),
{
    if s.len() == 0 {
        0
    } else {
        s[0] as nat + 256 * le_value(s.drop_first())
    }
}

pub open spec fn pow256(k: nat) -> nat
    decreases k,
{
    if k == 0 {
        1
    } else {
        256 * pow256((k - 1) as nat)
    }
}

/// The prefix written before an item of `n` bytes.
pub open spec fn header(n: nat) -> Seq<u8> {
    if n == 0 {
        seq![0u8]
    } else if n <= 0xff {
        seq![1u8] + le_bytes(n, 1)
    } else if n <= 0xffff {
        seq![2u8] + le_bytes(n, 2)
    } else if n <= 0xffff_ffff {
        seq![4u8] + le_bytes(n, 4)
    } else {
        seq![8u8] + le_bytes(n, 8)
    }
}

/// The encoding of a sequence of items.
pub open spec fn frame_all(items: Seq<Seq<u8>>) -> Seq<u8>
    decreases items.len(),
{
    if items.len() == 0 {
        seq![]
    } else {
        header(items[0].len()) + items[0] + frame_all(items.drop_first())
    }
}

/// How many length bytes follow a tag, for the tags that exist.
pub open spec fn tag_width(tag: u8) -> Option<nat> {
    if tag == 0 {
        Some(0)
    } else if tag == 1 {
        Some(1)
    } else if tag == 2 {
        Some(2)
    } else if tag == 4 {
        Some(4)
    } else if tag == 8 {
        Some(8)
    } else {
        None
    }
}

/// The items held in `buf` from offset `off` on, or `None` where the bytes
/// are not a well-formed sequence (unknown tag, cut-off length or item).
pub open spec fn parse_from(buf: Seq<u8>, off: nat) -> Option<Seq<Seq<u8>>>
    decreases buf.len() - off,
{
    if off >= buf.len() {
        Some(seq![])
    } else {
        match tag_width(buf[off as int]) {
            None => None,
            Some(w) => {
                let start: int = (off + 1 + w) as int;
                if start > buf.len() {
                    None
                } else {
                    let n: int = le_value(buf.subrange((off + 1) as int, start)) as int;
                    if start + n > buf.len() {
                        None
                    } else {
                        match parse_from(buf, (start + n) as nat) {
                            None => None,
                            Some(rest) => Some(seq![buf.subrange(start, start + n)] + rest),
                        }
                    }
                }
            }
        }
    }
}

/// The items that `buf` encodes, if it is well formed.
pub open spec fn parse_items(buf: Seq<u8>) -> Option<Seq<Seq<u8>>> {
    parse_from(buf, 0)
}

proof fn lemma_pow256_values()
    ensures
        pow256(1) == 0x100,
        pow256(2) == 0x1_0000,
        pow256(4) == 0x1_0000_0000,
        pow256(8) == 0x1_0000_0000_0000_0000,
{
    reveal_with_fuel(pow256, 9);
}

proof fn lemma_pow256_mono(a: nat, b: nat)
    requires
        a <= b,
    ensures
        pow256(a) <= pow256(b),
    decreases b,
{
    if a < b {
        lemma_pow256_mono(a, (b - 1) as nat);
    }
}

proof fn lemma_le_round_trip(n: nat, k: nat)
    requires
        n < pow256(k),
    ensures
        le_bytes(n, k).len() == k,
        le_value(le_bytes(n, k)) == n,
    decreases k,
{
    if k > 0 {
        let p = pow256((k - 1) as nat);
        assert(n / 256 < p) by (nonlinear_arith)
            requires
                n < 256 * p,
        ;
        lemma_le_round_trip(n / 256, (k - 1) as nat);
        assert(le_bytes(n, k).drop_first() =~= le_bytes(n / 256, (k - 1) as nat));
        assert(n == n % 256 + 256 * (n / 256)) by (nonlinear_arith);
    }
}

/// Reading a header back gives the tag's width and the length it was written for.
proof fn lemma_header(n: nat)
    requires
        n < 0x1_0000_0000_0000_0000,
    ensures
        tag_width(header(n)[0]) is Some,
        header(n).len() == 1 + tag_width(header(n)[0]).unwrap(),
        le_value(header(n).subrange(1, header(n).len() as int)) == n,
{
    lemma_pow256_values();
    let h = header(n);
    if n == 0 {
        assert(h.subrange(1, 1) =~= Seq::<u8>::empty());
    } else if n <= 0xff {
        lemma_le_round_trip(n, 1);
        assert(h.subrange(1, h.len() as int) =~= le_bytes(n, 1));
    } else if n <= 0xffff {
        lemma_le_round_trip(n, 2);
        assert(h.subrange(1, h.len() as int) =~= le_bytes(n, 2));
    } else if n <= 0xffff_ffff {
        lemma_le_round_trip(n, 4);
        assert(h.subrange(1, h.len() as int) =~= le_bytes(n, 4));
    } else {
        lemma_le_round_trip(n, 8);
        assert(h.subrange(1, h.len() as int) =~= le_bytes(n, 8));
    }
}

proof fn lemma_parse_framed(p: Seq<u8>, items: Seq<Seq<u8>>)
    requires
        forall|i: int| 0 <= i < items.len() ==> items[i].len() < 0x1_0000_0000_0000_0000,
    ensures
        parse_from(p + frame_all(items), p.len()) == Some(items),
    decreases items.len(),
{
    let buf = p + frame_all(items);
    if items.len() == 0 {
        assert(buf.len() == p.len());
        assert(items =~= seq![]);
    } else {
        let x = items[0];
        let h = header(x.len());
        lemma_header(x.len());
        let rest = items.drop_first();
        let q = p + h + x;
        assert(buf =~= q + frame_all(rest));
        let off: int = p.len() as int;
        assert(buf[off] == h[0]);
        let w: int = tag_width(h[0]).unwrap() as int;
        let start: int = off + 1 + w;
        assert(buf.subrange(off + 1, start) =~= h.subrange(1, h.len() as int));
        assert(buf.subrange(start, start + x.len()) =~= x);
        lemma_parse_framed(q, rest);
        assert(q.len() == start + x.len());
        assert(seq![x] + rest =~= items);
    }
}

/// Decoding the encoding of a sequence of items gives the items back.
pub proof fn lemma_parse_frame_all(items: Seq<Seq<u8>>)
    requires
        forall|i: int| 0 <= i < items.len() ==> items[i].len() < 0x1_0000_0000_0000_0000,
    ensures
        parse_items(frame_all(items)) == Some(items),
{
    lemma_parse_framed(Seq::empty(), items);
    assert(Seq::<u8>::empty() + frame_all(items) =~= frame_all(items));
}

/// Relies on `astro_format::encode`: each item is written as its header
/// (`header`) followed by its bytes, in order. It never returns an error.
#[verifier::external_body]
fn encode_items(items: &Vec<Vec<u8>>) -> (r: Vec<u8>)
    ensures
        r@ == frame_all(items.deep_view()),
{
    match astro_format::encode(items) {
        Ok(bytes) => bytes,
        Err(_) => Vec::new(),
    }
}

/// Relies on `astro_format::decode` into byte vectors: on a well-formed
/// buffer it returns the items in order. It indexes past the end of a buffer
/// whose last header is cut off, so it is only called on well-formed input.
#[verifier::external_body]
fn decode_items(buf: &Vec<u8>) -> (r: Vec<Vec<u8>>)
    requires
        parse_items(buf@) is Some,
    ensures
        r.deep_view() == parse_items(buf@).unwrap(),
{
    match astro_format::decode::<Vec<u8>>(buf) {
        Ok(items) => items,
        Err(_) => Vec::new(),
    }
}

proof fn lemma_le_value_step(s: Seq<u8>, j: int, e: int)
    requires
        0 <= j < e <= s.len(),
    ensures
        le_value(s.subrange(j, e)) == s[j] as nat + 256 * le_value(s.subrange(j + 1, e)),
{
    assert(s.subrange(j, e).drop_first() =~= s.subrange(j + 1, e));
}

/// The number held in the `w` little-endian bytes of `buf` at `from`.
fn read_le(buf: &Vec<u8>, from: usize, w: usize) -> (r: u64)
    requires
        from + w <= buf.len(),
        w <= 8,
    ensures
        r as nat == le_value(buf@.subrange(from as int, from + w)),
{
    let mut acc: u64 = 0;
    let mut i: usize = w;
    proof {
        lemma_pow256_values();
        lemma_pow256_mono(w as nat, 8);
        assert(buf@.subrange(from + w, from + w) =~= Seq::<u8>::empty());
    }
    while i > 0
        invariant
            i <= w <= 8,
            from + w <= buf.len(),
            pow256(w as nat) <= 0x1_0000_0000_0000_0000,
            acc as nat == le_value(buf@.subrange(from + i, from + w)),
            (acc as nat) < pow256((w - i) as nat),
        decreases i,
    {
        let b = buf[from + i - 1];
        proof {
            lemma_le_value_step(buf@, from + i - 1, from + w);
            let p = pow256((w - i) as nat);
            lemma_pow256_mono((w - i + 1) as nat, w as nat);
            assert(256 * acc + b < 256 * p) by (nonlinear_arith)
                requires
                    acc < p,
                    b < 256,
            ;
        }
        acc = acc * 256 + b as u64;
        i = i - 1;
    }
    acc
}

/// Whether `buf` is a well-formed sequence of items.
pub fn is_well_framed(buf: &Vec<u8>) -> (r: bool)
    ensures
        r == parse_items(buf@) is Some,
{
    let mut off: usize = 0;
    while off < buf.len()
        invariant
            off <= buf.len(),
            (parse_items(buf@) is Some) == (parse_from(buf@, off as nat) is Some),
        decreases buf.len() - off,
    {
        let tag = buf[off];
        let w: usize;
        if tag == 0 {
            w = 0;
        } else if tag == 1 {
            w = 1;
        } else if tag == 2 {
            w = 2;
        } else if tag == 4 {
            w = 4;
        } else if tag == 8 {
            w = 8;
        } else {
            return false;
        }
        if w >= buf.len() - off {
            return false;
        }
        let start = off + 1 + w;
        let n = read_le(buf, off + 1, w);
        if n > (buf.len() - start) as u64 {
            return false;
        }
        off = start + n as usize;
    }
    true
}

/// The items that `buf` encodes, or `None` where it is not well formed.
pub fn decode(buf: &Vec<u8>) -> (r: Option<Vec<Vec<u8>>>)
    ensures
        r is Some == parse_items(buf@) is Some,
        r is Some ==> r.unwrap().deep_view() == parse_items(buf@).unwrap(),
{
    if is_well_framed(buf) {
        Some(decode_items(buf))
    } else {
        None
    }
}

/// The encoding of `items`.
pub fn encode(items: &Vec<Vec<u8>>) -> (r: Vec<u8>)
    ensures
        r@ == frame_all(items.deep_view()),
{
    encode_items(items)
}

} // verus!
