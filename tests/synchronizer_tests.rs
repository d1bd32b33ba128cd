use diem_sync::messages::{Block, Digest, QC};
use diem_sync::resolver::{previous_block, Ancestors, Parent, StoreRead, SyncError};
use diem_sync::synchronizer::{Action, Synchronizer};

fn digest(n: u8) -> Digest {
    Digest([n; 32])
}

fn block(parent: u8, round: u64, payload: u8) -> Block {
    Block { qc: QC { hash: digest(parent), round: round - 1 }, round, payload: digest(payload) }
}

fn encode(b: &Block) -> Vec<u8> {
    let fields = ((b.qc.hash.0, b.qc.round), b.round, b.payload.0);
    bincode::serialize(&fields).unwrap()
}

fn stored(key: Digest, b: &Block) -> StoreRead {
    StoreRead { key, value: Some(encode(b)) }
}

fn absent(key: Digest) -> StoreRead {
    StoreRead { key, value: None }
}

#[test]
fn genesis_values() {
    let g = Block::genesis();
    assert_eq!(g.qc, QC::genesis());
    assert_eq!(g.qc.hash, Digest([0; 32]));
    assert_eq!(g.round, 0);
    assert!(g.is_genesis_child());
    assert!(!block(1, 2, 3).is_genesis_child());
}

#[test]
fn previous_is_certified_digest() {
    assert_eq!(block(7, 3, 1).previous(), digest(7));
}

#[test]
fn digest_equality_is_byte_equality() {
    let mut a = [5u8; 32];
    assert_eq!(Digest(a), Digest([5u8; 32]));
    a[31] = 6;
    assert_ne!(Digest(a), Digest([5u8; 32]));
}

#[test]
fn decode_reads_stored_block() {
    let b = block(9, 4, 2);
    let bytes = encode(&b);
    assert_eq!(bytes.len(), 80);
    assert_eq!(Block::from_bytes(&bytes), Some(b));
}

#[test]
fn decode_rejects_short_bytes() {
    let b = block(9, 4, 2);
    let bytes = encode(&b);
    assert_eq!(Block::from_bytes(&bytes[..79]), None);
    assert_eq!(Block::from_bytes(&[]), None);
}

#[test]
fn immediate_delivery() {
    let mut s = Synchronizer::new();
    let b = block(1, 2, 3);
    let actions = s.enqueue(b, true);
    assert_eq!(actions.len(), 1);
    assert!(matches!(actions[0], Action::Deliver(x) if x == b));
    assert!(!s.is_waiting_on(digest(1)));
}

#[test]
fn deferred_delivery() {
    let mut s = Synchronizer::new();
    let b = block(1, 2, 3);
    let actions = s.enqueue(b, false);
    assert_eq!(actions.len(), 1);
    assert!(matches!(actions[0], Action::SyncRequest(d) if d == digest(1)));
    assert!(s.is_waiting_on(digest(1)));
    assert!(s.written(digest(2)).is_empty());
    let actions = s.written(digest(1));
    assert_eq!(actions.len(), 1);
    assert!(matches!(actions[0], Action::Deliver(x) if x == b));
    assert!(!s.is_waiting_on(digest(1)));
    assert!(s.written(digest(1)).is_empty());
}

#[test]
fn one_request_per_missing_parent() {
    let mut s = Synchronizer::new();
    let b1 = block(1, 2, 3);
    let b2 = block(1, 2, 4);
    let first = s.enqueue(b1, false);
    let second = s.enqueue(b2, false);
    assert_eq!(first.len(), 1);
    assert!(second.is_empty());
    let actions = s.written(digest(1));
    assert_eq!(actions.len(), 2);
    assert!(matches!(actions[0], Action::Deliver(x) if x == b1));
    assert!(matches!(actions[1], Action::Deliver(x) if x == b2));
}

#[test]
fn same_block_held_once() {
    let mut s = Synchronizer::new();
    let b = block(1, 2, 3);
    assert_eq!(s.enqueue(b, false).len(), 1);
    assert!(s.enqueue(b, false).is_empty());
    assert_eq!(s.written(digest(1)).len(), 1);
}

#[test]
fn distinct_parents_requested_separately() {
    let mut s = Synchronizer::new();
    let b1 = block(1, 2, 3);
    let b2 = block(5, 2, 3);
    assert!(matches!(s.enqueue(b1, false)[0], Action::SyncRequest(d) if d == digest(1)));
    assert!(matches!(s.enqueue(b2, false)[0], Action::SyncRequest(d) if d == digest(5)));
    let later = s.written(digest(5));
    assert_eq!(later.len(), 1);
    assert!(matches!(later[0], Action::Deliver(x) if x == b2));
    assert!(s.is_waiting_on(digest(1)));
}

#[test]
fn failed_wait_drops_blocks_and_allows_new_request() {
    let mut s = Synchronizer::new();
    let b = block(1, 2, 3);
    s.enqueue(b, false);
    let dropped = s.failed(digest(1));
    assert_eq!(dropped, vec![b]);
    assert!(!s.is_waiting_on(digest(1)));
    assert!(s.failed(digest(1)).is_empty());
    let again = s.enqueue(b, false);
    assert!(matches!(again[0], Action::SyncRequest(d) if d == digest(1)));
}

#[test]
fn previous_block_cases() {
    let b = block(1, 2, 3);
    let p = block(0, 1, 8);
    assert!(matches!(previous_block(&b, &vec![]), Parent::Unread(d) if d == digest(1)));
    assert!(matches!(previous_block(&b, &vec![absent(digest(1))]), Parent::Absent(d) if d == digest(1)));
    assert!(matches!(previous_block(&b, &vec![stored(digest(1), &p)]), Parent::Found(x) if x == p));
    let corrupt = StoreRead { key: digest(1), value: Some(vec![1, 2, 3]) };
    assert!(matches!(previous_block(&b, &vec![corrupt]), Parent::Corrupt(d) if d == digest(1)));
    let g_child = Block { qc: QC::genesis(), round: 1, payload: digest(4) };
    assert!(matches!(previous_block(&g_child, &vec![]), Parent::Found(x) if x == Block::genesis()));
}

#[test]
fn genesis_child_ancestors() {
    let b = Block { qc: QC::genesis(), round: 1, payload: digest(4) };
    let g = Block::genesis();
    let r = Synchronizer::get_ancestors(&b, &vec![]);
    assert!(matches!(r, Ok(Ancestors::Ready(b0, b1, b2)) if b0 == g && b1 == g && b2 == g));
}

#[test]
fn missing_parent_is_not_ready() {
    let b = block(1, 3, 3);
    assert!(matches!(Synchronizer::get_ancestors(&b, &vec![]), Ok(Ancestors::Read(d)) if d == digest(1)));
    let reads = vec![absent(digest(1))];
    assert!(matches!(Synchronizer::get_ancestors(&b, &reads), Ok(Ancestors::Missing(d)) if d == digest(1)));
    let mut s = Synchronizer::new();
    let actions = s.enqueue(b, false);
    assert_eq!(actions.len(), 1);
    assert!(matches!(actions[0], Action::SyncRequest(d) if d == digest(1)));
}

/// A chain genesis <- c1 <- c2 <- c3 <- tip, where ci is stored under digest i.
fn chain() -> (Block, Block, Block, Block) {
    let c1 = Block { qc: QC::genesis(), round: 1, payload: digest(11) };
    let c2 = block(1, 2, 12);
    let c3 = block(2, 3, 13);
    let tip = block(3, 4, 14);
    (c1, c2, c3, tip)
}

fn walk(b: &Block, store: &[(Digest, Block)]) -> (Result<Ancestors, SyncError>, Vec<StoreRead>) {
    let mut reads: Vec<StoreRead> = Vec::new();
    loop {
        match Synchronizer::get_ancestors(b, &reads) {
            Ok(Ancestors::Read(key)) => {
                let value = store.iter().find(|(k, _)| *k == key).map(|(_, v)| encode(v));
                reads.push(StoreRead { key, value });
            }
            other => return (other, reads),
        }
    }
}

#[test]
fn full_chain_resolves() {
    let (c1, c2, c3, tip) = chain();
    let store = [(digest(1), c1), (digest(2), c2), (digest(3), c3)];
    let (r, reads) = walk(&tip, &store);
    assert!(matches!(r, Ok(Ancestors::Ready(b0, b1, b2)) if b0 == c1 && b1 == c2 && b2 == c3));
    assert_eq!(reads.len(), 3);
}

#[test]
fn walk_stops_at_genesis() {
    let (c1, c2, _, _) = chain();
    let store = [(digest(1), c1), (digest(2), c2)];
    let (r, reads) = walk(&block(2, 3, 20), &store);
    let g = Block::genesis();
    assert!(matches!(r, Ok(Ancestors::Ready(b0, b1, b2)) if b0 == g && b1 == c1 && b2 == c2));
    assert_eq!(reads.len(), 2);
}

#[test]
fn resolution_is_stable() {
    let (c1, c2, c3, tip) = chain();
    let store = [(digest(1), c1), (digest(2), c2), (digest(3), c3)];
    let (first, mut reads) = walk(&tip, &store);
    let (second, _) = walk(&tip, &store);
    reads.push(absent(digest(9)));
    let third = Synchronizer::get_ancestors(&tip, &reads);
    for r in [first, second, third] {
        assert!(matches!(r, Ok(Ancestors::Ready(b0, b1, b2)) if b0 == c1 && b1 == c2 && b2 == c3));
    }
}

#[test]
fn missing_grandparent_breaks_order() {
    let (_, _, c3, tip) = chain();
    let store = [(digest(3), c3)];
    let (r, _) = walk(&tip, &store);
    assert!(matches!(r, Err(SyncError::MissingAncestor(d)) if d == digest(2)));
}

#[test]
fn corrupt_parent_is_reported() {
    let tip = block(3, 4, 14);
    let reads = vec![StoreRead { key: digest(3), value: Some(vec![0; 10]) }];
    assert!(matches!(Synchronizer::get_ancestors(&tip, &reads), Err(SyncError::CorruptBlock(d)) if d == digest(3)));
}
