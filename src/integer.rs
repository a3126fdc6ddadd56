//! Integers of any size, held in the byte form of `opis::Integer`.
use vstd::prelude::*;

verus! {

/// The shortest two's-complement big-endian form of the number that `b`
/// stands for: redundant leading sign bytes are dropped, and the empty
/// string stands for zero.
pub open spec fn minimal_bytes(b: Seq<u8>) -> Seq<u8>
    decreases b.len(),
{
    if b.len() == 0 {
        seq![0u8]
    } else if b.len() >= 2 && ((b[0] == 0 && b[1] < 0x80) || (b[0] == 0xff && b[1] >= 0x80)) {
        minimal_bytes(b.drop_first())
    } else {
        b
    }
}

/// Bytes already in their shortest form.
pub open spec fn is_minimal(b: Seq<u8>) -> bool {
    minimal_bytes(b) == b
}

pub proof fn lemma_minimal_bytes_is_minimal(b: Seq<u8>)
    ensures
        is_minimal(minimal_bytes(b)),
    decreases b.len(),
{
    if b.len() >= 2 && ((b[0] == 0 && b[1] < 0x80) || (b[0] == 0xff && b[1] >= 0x80)) {
        lemma_minimal_bytes_is_minimal(b.drop_first());
    }
}

/// Relies on `opis::Integer::from(&[u8])` followed by its conversion back to
/// bytes: the bytes are read as a two's-complement number, its leading sign
/// bits are cut down to one, and it is written out again in whole bytes.
#[verifier::external_body]
fn integer_bytes(b: &Vec<u8>) -> (r: Vec<u8>)
    ensures
        r@ == minimal_bytes(b@),
{
    let i = opis::Integer::from(&b[..]);
    i.into()
}

/// Relies on `opis::Integer`'s equality with `Integer::zero()`: the number
/// that `b` stands for is zero exactly when every bit of `b` is clear.
#[verifier::external_body]
fn integer_is_zero(b: &Vec<u8>) -> (r: bool)
    ensures
        r == (forall|i: int| 0 <= i < b@.len() ==> b@[i] == 0u8),
{
    opis::Integer::from(&b[..]) == opis::Integer::zero()
}

/// An integer, kept as its shortest byte form.
#[derive(Clone, Debug)]
pub struct Int {
    bytes: Vec<u8>,
}

impl View for Int {
    type V = Seq<u8>;

    closed spec fn view(&self) -> Seq<u8> {
        self.bytes@
    }
}

impl Int {
    /// The byte form is the shortest one.
    pub open spec fn wf(&self) -> bool {
        is_minimal(self@)
    }

    /// Zero, whose byte form is a single zero byte.
    pub fn zero() -> (r: Int)
        ensures
            r@ == seq![0u8],
            r.wf(),
    {
        let r = Int { bytes: vec![0u8] };
        proof {
            assert(r@ =~= seq![0u8]);
        }
        r
    }

    /// The integer that the bytes `b` stand for.
    pub fn from_bytes(b: &Vec<u8>) -> (r: Int)
        ensures
            r@ == minimal_bytes(b@),
            r.wf(),
    {
        proof {
            lemma_minimal_bytes_is_minimal(b@);
        }
        Int { bytes: integer_bytes(b) }
    }

    /// The shortest byte form.
    pub fn to_bytes(&self) -> (r: Vec<u8>)
        ensures
            r@ == self@,
    {
        self.bytes.clone()
    }

    /// Whether this is zero.
    pub fn is_zero(&self) -> (r: bool)
        ensures
            r == (forall|i: int| 0 <= i < self@.len() ==> self@[i] == 0u8),
    {
        proof {
            assert(self@ == self.bytes@);
        }
        integer_is_zero(&self.bytes)
    }
}

} // verus!
