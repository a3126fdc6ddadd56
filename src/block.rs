//! The block: construction, canonical encoding and decoding, digests and the
//! validity rule.
use vstd::prelude::*;
use crate::codec::{decode, encode, frame_all, lemma_parse_frame_all, parse_items};
use crate::digest::{ed25519_accepts, ed25519_verify, merkle_root, merkle_root_of};
use crate::integer::{is_minimal, lemma_minimal_bytes_is_minimal, minimal_bytes, Int};

verus! {

broadcast use vstd::array::group_array_axioms;

/// The number of items in a block's encoding. Decoding expects exactly the
/// items that encoding writes, with the validator last.
pub const BLOCK_FIELDS: usize = 11;

/// Why a byte string is not accepted as a block.
#[derive(Clone, Copy, Debug, PartialEq, Eq, Structural)]
pub enum BlockError {
    /// The bytes do not hold a sequence of exactly as many items as a block has fields.
    Arity,
    /// The accounts hash is not 32 bytes long.
    AccountsHash,
    /// The previous block hash is not 32 bytes long.
    PreviousBlockHash,
    /// The receipts hash is not 32 bytes long.
    ReceiptsHash,
    /// The signature is not 64 bytes long.
    Signature,
    /// The validator key is not 32 bytes long.
    Validator,
    /// A transaction could not be read.
    Transactions,
    /// The signature does not verify, and the block is not the genesis block.
    Verification,
}

/// A block of the ledger. Each transaction is held in its own encoding.
#[derive(Clone, Debug)]
pub struct Block {
    pub accounts_hash: [u8; 32],
    pub chain: Int,
    pub number: Int,
    pub previous_block_hash: [u8; 32],
    pub receipts_hash: [u8; 32],
    pub signature: [u8; 64],
    pub solar_price: Int,
    pub solar_used: Int,
    pub time: Int,
    pub transactions: Vec<Vec<u8>>,
    pub validator: [u8; 32],
}

/// What a block holds, as byte strings.
pub struct BlockModel {
    pub accounts_hash: Seq<u8>,
    pub chain: Seq<u8>,
    pub number: Seq<u8>,
    pub previous_block_hash: Seq<u8>,
    pub receipts_hash: Seq<u8>,
    pub signature: Seq<u8>,
    pub solar_price: Seq<u8>,
    pub solar_used: Seq<u8>,
    pub time: Seq<u8>,
    pub transactions: Seq<Seq<u8>>,
    pub validator: Seq<u8>,
}

impl View for Block {
    type V = BlockModel;

    open spec fn view(&self) -> BlockModel {
        BlockModel {
            accounts_hash: self.accounts_hash@,
            chain: self.chain@,
            number: self.number@,
            previous_block_hash: self.previous_block_hash@,
            receipts_hash: self.receipts_hash@,
            signature: self.signature@,
            solar_price: self.solar_price@,
            solar_used: self.solar_used@,
            time: self.time@,
            transactions: self.transactions.deep_view(),
            validator: self.validator@,
        }
    }
}

impl BlockModel {
    /// Fixed-size fields have their sizes, and integers their shortest form.
    pub open spec fn wf(self) -> bool {
        &&& self.accounts_hash.len() == 32
        &&& self.previous_block_hash.len() == 32
        &&& self.receipts_hash.len() == 32
        &&& self.signature.len() == 64
        &&& self.validator.len() == 32
        &&& is_minimal(self.chain)
        &&& is_minimal(self.number)
        &&& is_minimal(self.solar_price)
        &&& is_minimal(self.solar_used)
        &&& is_minimal(self.time)
    }

    /// The header fields that the body hash covers, in order.
    pub open spec fn header_fields(self) -> Seq<Seq<u8>> {
        seq![
            self.accounts_hash,
            self.chain,
            self.number,
            self.previous_block_hash,
            self.receipts_hash,
            self.solar_price,
            self.solar_used,
            self.time,
            self.validator,
        ]
    }

    pub open spec fn body_hash(self) -> Seq<u8> {
        merkle_root_of(self.header_fields())
    }

    pub open spec fn hash(self) -> Seq<u8> {
        merkle_root_of(seq![self.body_hash(), self.signature])
    }

    /// Height zero: every byte of the number is zero.
    pub open spec fn is_genesis(self) -> bool {
        forall|i: int| 0 <= i < self.number.len() ==> self.number[i] == 0u8
    }

    /// The genesis block is valid; any other needs the validator's signature
    /// on its body hash.
    pub open spec fn is_valid(self) -> bool {
        self.is_genesis() || ed25519_accepts(self.body_hash(), self.validator, self.signature)
    }

    /// The items of the encoding, in wire order.
    pub open spec fn fields(self) -> Seq<Seq<u8>> {
        seq![
            self.accounts_hash,
            self.chain,
            self.number,
            self.previous_block_hash,
            self.receipts_hash,
            self.signature,
            self.solar_price,
            self.solar_used,
            self.time,
            frame_all(self.transactions),
            self.validator,
        ]
    }

    pub open spec fn encoding(self) -> Seq<u8> {
        frame_all(self.fields())
    }
}

/// The block that the items `set` describe, before the validity check.
pub open spec fn model_of(set: Seq<Seq<u8>>, transactions: Seq<Seq<u8>>) -> BlockModel {
    BlockModel {
        accounts_hash: set[0],
        chain: minimal_bytes(set[1]),
        number: minimal_bytes(set[2]),
        previous_block_hash: set[3],
        receipts_hash: set[4],
        signature: set[5],
        solar_price: minimal_bytes(set[6]),
        solar_used: minimal_bytes(set[7]),
        time: minimal_bytes(set[8]),
        transactions,
        validator: set[10],
    }
}

/// What decoding `bytes` gives: a valid block, or the first error found.
pub open spec fn decoded(bytes: Seq<u8>) -> Result<BlockModel, BlockError> {
    match parse_items(bytes) {
        None => Err(BlockError::Arity),
        Some(set) => if set.len() != BLOCK_FIELDS {
            Err(BlockError::Arity)
        } else {
            match parse_items(set[9]) {
                None => Err(BlockError::Transactions),
                Some(txs) => if set[0].len() != 32 {
                    Err(BlockError::AccountsHash)
                } else if set[3].len() != 32 {
                    Err(BlockError::PreviousBlockHash)
                } else if set[4].len() != 32 {
                    Err(BlockError::ReceiptsHash)
                } else if set[5].len() != 64 {
                    Err(BlockError::Signature)
                } else if set[10].len() != 32 {
                    Err(BlockError::Validator)
                } else if model_of(set, txs).is_valid() {
                    Ok(model_of(set, txs))
                } else {
                    Err(BlockError::Verification)
                },
            }
        },
    }
}

/// The bytes of an array, in order.
fn array_bytes<const N: usize>(a: &[u8; N]) -> (r: Vec<u8>)
    ensures
        r@ == a@,
{
    let mut r: Vec<u8> = Vec::new();
    let mut i: usize = 0;
    while i < N
        invariant
            i <= N,
            a@.len() == N,
            r@ == a@.subrange(0, i as int),
        decreases N - i,
    {
        r.push(a[i]);
        proof {
            assert(a@.subrange(0, i + 1) =~= a@.subrange(0, i as int).push(a@[i as int]));
        }
        i = i + 1;
    }
    proof {
        assert(a@.subrange(0, N as int) =~= a@);
    }
    r
}

/// An array holding the bytes of `v`.
fn bytes_array<const N: usize>(v: &Vec<u8>) -> (r: [u8; N])
    requires
        v.len() == N,
    ensures
        r@ == v@,
{
    let mut r: [u8; N] = vstd::array::array_fill_for_copy_types(0u8);
    let mut i: usize = 0;
    while i < N
        invariant
            i <= N,
            v.len() == N,
            r@.len() == N,
            forall|j: int| 0 <= j < i ==> r@[j] == v@[j],
        decreases N - i,
    {
        r[i] = v[i];
        i = i + 1;
    }
    proof {
        assert(r@ =~= v@);
    }
    r
}

proof fn lemma_items_view(v: &Vec<Vec<u8>>)
    ensures
        forall|i: int| 0 <= i < v.len() ==> #[trigger] v.deep_view()[i] == v[i]@,
        v.deep_view().len() == v.len(),
{
    assert forall|i: int| 0 <= i < v.len() implies #[trigger] v.deep_view()[i] == v[i]@ by {
        assert(v.deep_view()[i] =~= v[i]@);
    }
}

impl Block {
    /// Whether every field has its well-formed shape.
    pub open spec fn wf(&self) -> bool {
        self@.wf()
    }

    /// A block with every byte zero, every integer zero and no transactions:
    /// a starting point to fill in, not a signed block.
    pub fn new() -> (r: Block)
        ensures
            r.wf(),
            r@.accounts_hash == Seq::new(32, |i: int| 0u8),
            r@.chain == seq![0u8],
            r@.number == seq![0u8],
            r@.previous_block_hash == Seq::new(32, |i: int| 0u8),
            r@.receipts_hash == Seq::new(32, |i: int| 0u8),
            r@.signature == Seq::new(64, |i: int| 0u8),
            r@.solar_price == seq![0u8],
            r@.solar_used == seq![0u8],
            r@.time == seq![0u8],
            r@.transactions == Seq::<Seq<u8>>::empty(),
            r@.validator == Seq::new(32, |i: int| 0u8),
    {
        let r = Block {
            accounts_hash: vstd::array::array_fill_for_copy_types(0u8),
            chain: Int::zero(),
            number: Int::zero(),
            previous_block_hash: vstd::array::array_fill_for_copy_types(0u8),
            receipts_hash: vstd::array::array_fill_for_copy_types(0u8),
            signature: vstd::array::array_fill_for_copy_types(0u8),
            solar_price: Int::zero(),
            solar_used: Int::zero(),
            time: Int::zero(),
            transactions: Vec::new(),
            validator: vstd::array::array_fill_for_copy_types(0u8),
        };
        proof {
            assert(r@.accounts_hash =~= Seq::new(32, |i: int| 0u8));
            assert(r@.previous_block_hash =~= Seq::new(32, |i: int| 0u8));
            assert(r@.receipts_hash =~= Seq::new(32, |i: int| 0u8));
            assert(r@.signature =~= Seq::new(64, |i: int| 0u8));
            assert(r@.validator =~= Seq::new(32, |i: int| 0u8));
            assert(r@.transactions =~= Seq::<Seq<u8>>::empty());
        }
        r
    }

    /// The digest that the validator signs: the Merkle root over the header
    /// fields, without the signature and the transactions.
    pub fn body_hash(&self) -> (r: [u8; 32])
        ensures
            r@ == self@.body_hash(),
    {
        let leaves: Vec<Vec<u8>> = vec![
            array_bytes(&self.accounts_hash),
            self.chain.to_bytes(),
            self.number.to_bytes(),
            array_bytes(&self.previous_block_hash),
            array_bytes(&self.receipts_hash),
            self.solar_price.to_bytes(),
            self.solar_used.to_bytes(),
            self.time.to_bytes(),
            array_bytes(&self.validator),
        ];
        proof {
            lemma_items_view(&leaves);
            assert(leaves.deep_view() =~= self@.header_fields());
        }
        merkle_root(&leaves)
    }

    /// The block's identity: the Merkle root over the body hash and the signature.
    pub fn hash(&self) -> (r: [u8; 32])
        ensures
            r@ == self@.hash(),
    {
        let body = self.body_hash();
        let leaves: Vec<Vec<u8>> = vec![array_bytes(&body), array_bytes(&self.signature)];
        proof {
            lemma_items_view(&leaves);
            assert(leaves.deep_view() =~= seq![self@.body_hash(), self@.signature]);
        }
        merkle_root(&leaves)
    }

    /// The Merkle root over the hashes of a block's transactions, in order.
    pub fn transactions_hash(hashes: &Vec<[u8; 32]>) -> (r: [u8; 32])
        ensures
            r@ == merkle_root_of(hashes@.map_values(|h: [u8; 32]| h@)),
    {
        let mut leaves: Vec<Vec<u8>> = Vec::new();
        let mut i: usize = 0;
        while i < hashes.len()
            invariant
                i <= hashes.len(),
                leaves.len() == i,
                forall|j: int| 0 <= j < i ==> #[trigger] leaves[j]@ == hashes@[j]@,
            decreases hashes.len() - i,
        {
            leaves.push(array_bytes(&hashes[i]));
            i = i + 1;
        }
        proof {
            lemma_items_view(&leaves);
            assert(leaves.deep_view() =~= hashes@.map_values(|h: [u8; 32]| h@));
        }
        merkle_root(&leaves)
    }

    /// The canonical encoding: the fields in wire order, the transactions
    /// encoded as one nested sequence.
    pub fn to_bytes(&self) -> (r: Vec<u8>)
        ensures
            r@ == self@.encoding(),
    {
        let transactions = encode(&self.transactions);
        let items: Vec<Vec<u8>> = vec![
            array_bytes(&self.accounts_hash),
            self.chain.to_bytes(),
            self.number.to_bytes(),
            array_bytes(&self.previous_block_hash),
            array_bytes(&self.receipts_hash),
            array_bytes(&self.signature),
            self.solar_price.to_bytes(),
            self.solar_used.to_bytes(),
            self.time.to_bytes(),
            transactions,
            array_bytes(&self.validator),
        ];
        proof {
            lemma_items_view(&items);
            assert(items.deep_view() =~= self@.fields());
        }
        encode(&items)
    }

    /// The validity rule: the genesis block passes; any other passes when its
    /// signature verifies on its body hash under its validator key.
    pub fn verify(&self) -> (r: bool)
        ensures
            r == self@.is_valid(),
    {
        if self.number.is_zero() {
            true
        } else {
            let body = self.body_hash();
            ed25519_verify(&body, &self.validator, &self.signature)
        }
    }

    /// Reads a block from its encoding, and accepts it only if it is valid.
    pub fn from_bytes(arg: &Vec<u8>) -> (r: Result<Block, BlockError>)
        ensures
            match r {
                Ok(b) => decoded(arg@) == Ok::<BlockModel, BlockError>(b@) && b.wf(),
                Err(e) => decoded(arg@) == Err::<BlockModel, BlockError>(e),
            },
    {
        let set = match decode(arg) {
            Some(set) => set,
            None => return Err(BlockError::Arity),
        };
        proof {
            lemma_items_view(&set);
        }
        if set.len() != BLOCK_FIELDS {
            return Err(BlockError::Arity);
        }
        let transactions = match decode(&set[9]) {
            Some(transactions) => transactions,
            None => return Err(BlockError::Transactions),
        };
        if set[0].len() != 32 {
            return Err(BlockError::AccountsHash);
        }
        if set[3].len() != 32 {
            return Err(BlockError::PreviousBlockHash);
        }
        if set[4].len() != 32 {
            return Err(BlockError::ReceiptsHash);
        }
        if set[5].len() != 64 {
            return Err(BlockError::Signature);
        }
        if set[10].len() != 32 {
            return Err(BlockError::Validator);
        }
        let block = Block {
            accounts_hash: bytes_array(&set[0]),
            chain: Int::from_bytes(&set[1]),
            number: Int::from_bytes(&set[2]),
            previous_block_hash: bytes_array(&set[3]),
            receipts_hash: bytes_array(&set[4]),
            signature: bytes_array(&set[5]),
            solar_price: Int::from_bytes(&set[6]),
            solar_used: Int::from_bytes(&set[7]),
            time: Int::from_bytes(&set[8]),
            transactions,
            validator: bytes_array(&set[10]),
        };
        proof {
            let m = model_of(set.deep_view(), transactions.deep_view());
            assert(block@ == m);
        }
        if block.verify() {
            Ok(block)
        } else {
            Err(BlockError::Verification)
        }
    }

    /// Applies the outcome of reading each transaction, in order: the block is
    /// kept only if every one of them could be read.
    pub fn accept_transactions(self, parsed: &Vec<bool>) -> (r: Result<Block, BlockError>)
        requires
            parsed.len() == self.transactions.len(),
        ensures
            r is Ok <==> (forall|i: int| 0 <= i < parsed.len() ==> parsed[i]),
            r is Ok ==> r.unwrap()@ == self@,
            r is Err ==> r == Err::<Block, BlockError>(BlockError::Transactions),
    {
        let mut i: usize = 0;
        while i < parsed.len()
            invariant
                i <= parsed.len(),
                forall|j: int| 0 <= j < i ==> parsed[j],
            decreases parsed.len() - i,
        {
            if !parsed[i] {
                return Err(BlockError::Transactions);
            }
            i = i + 1;
        }
        Ok(self)
    }
}

/// Decoding the encoding of a well-formed, valid block gives that block back.
/// Every item of the encoding, and every transaction, is shorter than 2^64
/// bytes, as any byte vector is.
pub proof fn lemma_round_trip(b: BlockModel)
    requires
        b.wf(),
        b.is_valid(),
        forall|i: int| 0 <= i < b.transactions.len() ==> b.transactions[i].len() < 0x1_0000_0000_0000_0000,
        forall|i: int| 0 <= i < b.fields().len() ==> b.fields()[i].len() < 0x1_0000_0000_0000_0000,
    ensures
        decoded(b.encoding()) == Ok::<BlockModel, BlockError>(b),
{
    let f = b.fields();
    lemma_parse_frame_all(f);
    lemma_parse_frame_all(b.transactions);
    assert(f[9] == frame_all(b.transactions));
    assert(model_of(f, b.transactions) == b);
}

/// The body hash depends on the header fields alone, and the block hash on
/// the body hash and the signature: blocks that agree there have equal
/// digests, whatever their transactions.
pub proof fn lemma_digests_determined(a: BlockModel, b: BlockModel)
    requires
        a.header_fields() == b.header_fields(),
    ensures
        a.body_hash() == b.body_hash(),
        a.signature == b.signature ==> a.hash() == b.hash(),
{
}

/// A block of height zero is valid whatever its signature and validator.
pub proof fn lemma_genesis_valid(b: BlockModel)
    requires
        b.number =~= seq![0u8],
    ensures
        b.is_genesis(),
        b.is_valid(),
{
}

/// Bytes that hold a sequence of any other length than a block's field count
/// are refused with the arity error.
pub proof fn lemma_arity_rejected(bytes: Seq<u8>)
    requires
        parse_items(bytes) is Some,
        parse_items(bytes).unwrap().len() != BLOCK_FIELDS,
    ensures
        decoded(bytes) == Err::<BlockModel, BlockError>(BlockError::Arity),
{
}

/// Bytes whose transaction item is not a readable sequence are refused as a
/// whole with the transactions error.
pub proof fn lemma_transactions_rejected(bytes: Seq<u8>)
    requires
        parse_items(bytes) is Some,
        parse_items(bytes).unwrap().len() == BLOCK_FIELDS,
        parse_items(parse_items(bytes).unwrap()[9]) is None,
    ensures
        decoded(bytes) == Err::<BlockModel, BlockError>(BlockError::Transactions),
{
}

} // verus!
