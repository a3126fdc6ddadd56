use astreuos_block::codec::{decode, encode};
use astreuos_block::{Block, BlockError, Int, BLOCK_FIELDS};

const SECRET: [u8; 32] = [7u8; 32];

fn num(bytes: &[u8]) -> Int {
    Int::from_bytes(&bytes.to_vec())
}

fn sample() -> Block {
    let mut b = Block::new();
    b.accounts_hash = [1u8; 32];
    b.chain = num(&[1]);
    b.number = num(&[0]);
    b.previous_block_hash = [2u8; 32];
    b.receipts_hash = [3u8; 32];
    b.solar_price = num(&[10]);
    b.solar_used = num(&[1, 0]);
    b.time = num(&[0x60, 0x00, 0x00, 0x01]);
    b.transactions = vec![vec![9, 9, 9], vec![], vec![4; 300]];
    b
}

fn signed(mut b: Block) -> Block {
    b.validator = fides::ed25519::public_key(&SECRET).unwrap();
    b.signature = fides::ed25519::sign(&b.body_hash(), &SECRET).unwrap();
    b
}

fn same_fields(a: &Block, b: &Block) -> bool {
    a.accounts_hash == b.accounts_hash
        && a.chain.to_bytes() == b.chain.to_bytes()
        && a.number.to_bytes() == b.number.to_bytes()
        && a.previous_block_hash == b.previous_block_hash
        && a.receipts_hash == b.receipts_hash
        && a.signature == b.signature
        && a.solar_price.to_bytes() == b.solar_price.to_bytes()
        && a.solar_used.to_bytes() == b.solar_used.to_bytes()
        && a.time.to_bytes() == b.time.to_bytes()
        && a.transactions == b.transactions
        && a.validator == b.validator
}

fn items_of(b: &Block) -> Vec<Vec<u8>> {
    decode(&b.to_bytes()).unwrap()
}

#[test]
fn new_block_is_zero() {
    let b = Block::new();
    assert_eq!(b.accounts_hash, [0u8; 32]);
    assert_eq!(b.previous_block_hash, [0u8; 32]);
    assert_eq!(b.receipts_hash, [0u8; 32]);
    assert_eq!(b.signature, [0u8; 64]);
    assert_eq!(b.validator, [0u8; 32]);
    assert_eq!(b.chain.to_bytes(), vec![0]);
    assert_eq!(b.number.to_bytes(), vec![0]);
    assert_eq!(b.solar_price.to_bytes(), vec![0]);
    assert_eq!(b.solar_used.to_bytes(), vec![0]);
    assert_eq!(b.time.to_bytes(), vec![0]);
    assert!(b.transactions.is_empty());
}

#[test]
fn new_block_encoding_is_exact() {
    let mut expected: Vec<u8> = Vec::new();
    let zeros = |n: usize, out: &mut Vec<u8>| {
        out.push(1);
        out.push(n as u8);
        out.extend(vec![0u8; n]);
    };
    zeros(32, &mut expected);
    expected.extend([1, 1, 0]);
    expected.extend([1, 1, 0]);
    zeros(32, &mut expected);
    zeros(32, &mut expected);
    zeros(64, &mut expected);
    expected.extend([1, 1, 0]);
    expected.extend([1, 1, 0]);
    expected.extend([1, 1, 0]);
    expected.push(0);
    zeros(32, &mut expected);
    assert_eq!(Block::new().to_bytes(), expected);
}

#[test]
fn encoding_has_eleven_items_in_wire_order() {
    let b = sample();
    let items = items_of(&b);
    assert_eq!(items.len(), BLOCK_FIELDS);
    assert_eq!(items[0], vec![1u8; 32]);
    assert_eq!(items[1], vec![1]);
    assert_eq!(items[5], vec![0u8; 64]);
    assert_eq!(items[7], vec![1, 0]);
    assert_eq!(decode(&items[9]).unwrap(), b.transactions);
    assert_eq!(items[10], vec![0u8; 32]);
}

#[test]
fn genesis_round_trip() {
    let b = sample();
    let back = Block::from_bytes(&b.to_bytes()).unwrap();
    assert!(same_fields(&b, &back));
    assert_eq!(back.hash(), b.hash());
}

#[test]
fn signed_round_trip() {
    let mut b = sample();
    b.number = num(&[0x12, 0x34]);
    let b = signed(b);
    assert!(b.verify());
    let back = Block::from_bytes(&b.to_bytes()).unwrap();
    assert!(same_fields(&b, &back));
}

#[test]
fn digests_are_deterministic() {
    let a = sample();
    let b = sample();
    assert_eq!(a.body_hash(), b.body_hash());
    assert_eq!(a.hash(), b.hash());
    let mut c = sample();
    c.time = num(&[0x60, 0x00, 0x00, 0x02]);
    assert_ne!(a.body_hash(), c.body_hash());
    assert_ne!(a.hash(), c.hash());
}

#[test]
fn signature_changes_hash_not_body_hash() {
    let a = sample();
    let mut b = sample();
    b.signature = [5u8; 64];
    assert_eq!(a.body_hash(), b.body_hash());
    assert_ne!(a.hash(), b.hash());
}

#[test]
fn transactions_do_not_enter_body_hash() {
    let a = sample();
    let mut b = sample();
    b.transactions = vec![vec![1]];
    assert_eq!(a.body_hash(), b.body_hash());
    assert_eq!(a.hash(), b.hash());
}

#[test]
fn transactions_hash_is_order_sensitive() {
    let x = [1u8; 32];
    let y = [2u8; 32];
    let first = Block::transactions_hash(&vec![x, y]);
    assert_eq!(first, Block::transactions_hash(&vec![x, y]));
    assert_ne!(first, Block::transactions_hash(&vec![y, x]));
    assert_ne!(first, Block::transactions_hash(&vec![x]));
}

#[test]
fn genesis_bypasses_signature() {
    let mut b = Block::new();
    b.signature = [0xabu8; 64];
    b.validator = [0xcdu8; 32];
    assert!(b.verify());
    b.number = num(&[0, 0]);
    assert!(b.verify());
}

#[test]
fn unsigned_non_genesis_is_invalid() {
    let mut b = Block::new();
    b.number = num(&[1]);
    b.validator = fides::ed25519::public_key(&SECRET).unwrap();
    assert!(!b.verify());
    assert_eq!(Block::from_bytes(&b.to_bytes()).err(), Some(BlockError::Verification));
}

#[test]
fn tampered_header_fails_verification() {
    let mut b = sample();
    b.number = num(&[5]);
    let b = signed(b);
    assert!(b.verify());
    let mut t = b.clone();
    t.solar_used = num(&[1, 1]);
    assert!(!t.verify());
    assert_eq!(Block::from_bytes(&t.to_bytes()).err(), Some(BlockError::Verification));
    let mut t = b.clone();
    t.accounts_hash[0] ^= 1;
    assert!(!t.verify());
    let mut t = b.clone();
    t.validator = [9u8; 32];
    assert!(!t.verify());
}

#[test]
fn wrong_arity_is_rejected() {
    let mut items = items_of(&sample());
    items.push(vec![]);
    assert_eq!(Block::from_bytes(&encode(&items)).err(), Some(BlockError::Arity));
    items.truncate(10);
    assert_eq!(Block::from_bytes(&encode(&items)).err(), Some(BlockError::Arity));
    assert_eq!(Block::from_bytes(&Vec::new()).err(), Some(BlockError::Arity));
}

#[test]
fn malformed_bytes_are_rejected() {
    assert_eq!(Block::from_bytes(&vec![1]).err(), Some(BlockError::Arity));
    assert_eq!(Block::from_bytes(&vec![3, 1, 2]).err(), Some(BlockError::Arity));
    assert_eq!(Block::from_bytes(&vec![8, 0xff, 0xff, 0xff, 0xff, 0xff, 0xff, 0xff, 0xff]).err(), Some(BlockError::Arity));
}

#[test]
fn malformed_transaction_list_is_rejected() {
    let mut items = items_of(&sample());
    items[9] = vec![1, 5, 1];
    assert_eq!(Block::from_bytes(&encode(&items)).err(), Some(BlockError::Transactions));
}

#[test]
fn unreadable_transaction_rejects_block() {
    let b = sample();
    assert!(b.clone().accept_transactions(&vec![true, true, true]).is_ok());
    assert_eq!(b.clone().accept_transactions(&vec![true, false, true]).err(), Some(BlockError::Transactions));
}

#[test]
fn each_fixed_size_field_is_checked() {
    let cases = [
        (0usize, 31usize, BlockError::AccountsHash),
        (3, 33, BlockError::PreviousBlockHash),
        (4, 0, BlockError::ReceiptsHash),
        (5, 32, BlockError::Signature),
        (10, 64, BlockError::Validator),
    ];
    for (index, len, error) in cases {
        let mut items = items_of(&sample());
        items[index] = vec![1u8; len];
        assert_eq!(Block::from_bytes(&encode(&items)).err(), Some(error));
    }
}

#[test]
fn integers_take_their_shortest_form() {
    assert_eq!(num(&[]).to_bytes(), vec![0]);
    assert_eq!(num(&[0, 0, 5]).to_bytes(), vec![5]);
    assert_eq!(num(&[0, 0x80]).to_bytes(), vec![0, 0x80]);
    assert_eq!(num(&[0xff, 0x80]).to_bytes(), vec![0x80]);
    assert_eq!(num(&[1, 0]).to_bytes(), vec![1, 0]);
    assert!(num(&[0, 0, 0]).is_zero());
    assert!(!num(&[0, 1]).is_zero());
}

#[test]
fn decoded_integers_are_canonical() {
    let mut items = items_of(&sample());
    items[2] = vec![0, 0, 0];
    let b = Block::from_bytes(&encode(&items)).unwrap();
    assert_eq!(b.number.to_bytes(), vec![0]);
}

#[test]
fn sequence_codec_uses_width_tags() {
    let items = vec![vec![], vec![7u8; 3], vec![1u8; 300]];
    let bytes = encode(&items);
    assert_eq!(&bytes[..6], &[0, 1, 3, 7, 7, 7]);
    assert_eq!(&bytes[6..9], &[2, 0x2c, 0x01]);
    assert_eq!(decode(&bytes).unwrap(), items);
    assert!(decode(&vec![2, 1]).is_none());
    assert!(decode(&vec![1, 4, 1]).is_none());
}
