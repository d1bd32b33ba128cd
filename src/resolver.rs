use vstd::prelude::*;
use crate::messages::{Block, Digest, QC, decoded_block, genesis_block, genesis_qc};
use crate::synchronizer::{Action, Synchronizer, Waits, enqueue_spec, is_pending, waits_wf};

verus! {

/// What one read of the store returned: the bytes under `key`, or `None` where
/// the store holds nothing under it.
pub struct StoreRead {
    pub key: Digest,
    pub value: Option<Vec<u8>>,
}

/// The bytes that a read returned.
pub open spec fn read_bytes(r: StoreRead) -> Option<Seq<u8>> {
    match r.value {
        Some(v) => Some(v@),
        None => None,
    }
}

/// What the first read of `key` at or after place `k` returned; `None` where no
/// such read was made.
pub open spec fn lookup_from(reads: Seq<StoreRead>, key: Digest, k: int) -> Option<Option<Seq<u8>>>
    decreases reads.len() - k,
{
    if k < 0 || k >= reads.len() {
        None
    } else if reads[k].key == key {
        Some(read_bytes(reads[k]))
    } else {
        lookup_from(reads, key, k + 1)
    }
}

/// What the first read of `key` returned, if one was made.
pub open spec fn lookup(reads: Seq<StoreRead>, key: Digest) -> Option<Option<Seq<u8>>> {
    lookup_from(reads, key, 0)
}

/// Why an ancestor walk stopped short of a result.
#[derive(Clone, Copy, Debug)]
pub enum SyncError {
    /// The bytes stored under this digest are not a block.
    CorruptBlock(Digest),
    /// A stored block's ancestor with this digest is not stored, though blocks
    /// are stored only after their parents.
    MissingAncestor(Digest),
}

/// The parent of a block, as far as the reads made so far tell.
#[derive(Clone, Copy, Debug)]
pub enum Parent {
    /// The parent itself.
    Found(Block),
    /// The store has not been read under the parent's digest yet.
    Unread(Digest),
    /// The store holds nothing under the parent's digest.
    Absent(Digest),
    /// The store holds bytes under the parent's digest that are not a block.
    Corrupt(Digest),
}

/// The outcome of an ancestor walk that did not fail.
#[derive(Clone, Copy, Debug)]
pub enum Ancestors {
    /// The walk needs what the store holds under this digest.
    Read(Digest),
    /// The block's parent is not stored: the block is to be enqueued, which
    /// requests the parent, and the walk tried again once it is stored.
    Missing(Digest),
    /// The grandparent's parent, the grandparent and the parent, oldest first.
    Ready(Block, Block, Block),
}

/// The parent of `b`: the genesis block for a child of genesis, else what the
/// store holds under `b`'s parent digest.
pub open spec fn parent_spec(b: Block, reads: Seq<StoreRead>) -> Parent {
    let p = b.previous_spec();
    if b.qc == genesis_qc() {
        Parent::Found(genesis_block())
    } else {
        match lookup(reads, p) {
            None => Parent::Unread(p),
            Some(None) => Parent::Absent(p),
            Some(Some(bytes)) => match decoded_block(bytes) {
                Some(q) => Parent::Found(q),
                None => Parent::Corrupt(p),
            },
        }
    }
}

/// The walk from `b` up three generations. A missing parent of `b` itself is
/// not an error; a missing ancestor further up breaks the order in which blocks
/// are stored, and is one.
pub open spec fn ancestors_spec(b: Block, reads: Seq<StoreRead>) -> Result<Ancestors, SyncError> {
    match parent_spec(b, reads) {
        Parent::Unread(k) => Ok(Ancestors::Read(k)),
        Parent::Absent(k) => Ok(Ancestors::Missing(k)),
        Parent::Corrupt(k) => Err(SyncError::CorruptBlock(k)),
        Parent::Found(b2) => match parent_spec(b2, reads) {
            Parent::Unread(k) => Ok(Ancestors::Read(k)),
            Parent::Absent(k) => Err(SyncError::MissingAncestor(k)),
            Parent::Corrupt(k) => Err(SyncError::CorruptBlock(k)),
            Parent::Found(b1) => match parent_spec(b1, reads) {
                Parent::Unread(k) => Ok(Ancestors::Read(k)),
                Parent::Absent(k) => Err(SyncError::MissingAncestor(k)),
                Parent::Corrupt(k) => Err(SyncError::CorruptBlock(k)),
                Parent::Found(b0) => Ok(Ancestors::Ready(b0, b1, b2)),
            },
        },
    }
}

/// The place of the first read of `key`, if one was made.
fn find_read(reads: &Vec<StoreRead>, key: Digest) -> (r: Option<usize>)
    ensures
        match r {
            Some(i) => i < reads@.len() && reads@[i as int].key == key
                && lookup(reads@, key) == Some(read_bytes(reads@[i as int])),
            None => lookup(reads@, key) is None,
        },
{
    let mut i: usize = 0;
    while i < reads.len()
        invariant
            i <= reads@.len(),
            lookup(reads@, key) == lookup_from(reads@, key, i as int),
        decreases reads@.len() - i,
    {
        if reads[i].key == key {
            return Some(i);
        }
        i = i + 1;
    }
    None
}

/// The parent of `block`, as far as `reads` tell.
pub fn previous_block(block: &Block, reads: &Vec<StoreRead>) -> (r: Parent)
    ensures
        r == parent_spec(*block, reads@),
{
    if block.qc == QC::genesis() {
        return Parent::Found(Block::genesis());
    }
    let p = block.previous();
    match find_read(reads, p) {
        None => Parent::Unread(p),
        Some(i) => match &reads[i].value {
            None => Parent::Absent(p),
            Some(bytes) => match Block::from_bytes(bytes.as_slice()) {
                Some(q) => Parent::Found(q),
                None => Parent::Corrupt(p),
            },
        },
    }
}

impl Synchronizer {
    /// Walks from `block` up three generations over the store reads made so
    /// far. The caller reads the store where the walk asks for it, appends the
    /// read to `reads`, and walks again.
    pub fn get_ancestors(block: &Block, reads: &Vec<StoreRead>) -> (r: Result<Ancestors, SyncError>)
        ensures
            r == ancestors_spec(*block, reads@),
    {
        let b2 = match previous_block(block, reads) {
            Parent::Found(b) => b,
            Parent::Unread(k) => return Ok(Ancestors::Read(k)),
            Parent::Absent(k) => return Ok(Ancestors::Missing(k)),
            Parent::Corrupt(k) => return Err(SyncError::CorruptBlock(k)),
        };
        let b1 = match previous_block(&b2, reads) {
            Parent::Found(b) => b,
            Parent::Unread(k) => return Ok(Ancestors::Read(k)),
            Parent::Absent(k) => return Err(SyncError::MissingAncestor(k)),
            Parent::Corrupt(k) => return Err(SyncError::CorruptBlock(k)),
        };
        match previous_block(&b1, reads) {
            Parent::Found(b0) => Ok(Ancestors::Ready(b0, b1, b2)),
            Parent::Unread(k) => Ok(Ancestors::Read(k)),
            Parent::Absent(k) => Err(SyncError::MissingAncestor(k)),
            Parent::Corrupt(k) => Err(SyncError::CorruptBlock(k)),
        }
    }
}

/// Reads made later do not change what an earlier read of the same key told.
proof fn lemma_lookup_extend(reads: Seq<StoreRead>, more: Seq<StoreRead>, key: Digest, k: int)
    requires
        0 <= k,
        lookup_from(reads, key, k) is Some,
    ensures
        lookup_from(reads + more, key, k) == lookup_from(reads, key, k),
    decreases reads.len() - k,
{
    if k < reads.len() && reads[k].key != key {
        lemma_lookup_extend(reads, more, key, k + 1);
    }
}

/// A parent that the reads made so far settle stays settled.
proof fn lemma_parent_extend(b: Block, reads: Seq<StoreRead>, more: Seq<StoreRead>)
    requires
        !(parent_spec(b, reads) is Unread),
    ensures
        parent_spec(b, reads + more) == parent_spec(b, reads),
{
    if b.qc != genesis_qc() {
        lemma_lookup_extend(reads, more, b.previous_spec(), 0);
    }
}

/// A child of genesis has genesis for its three ancestors, whatever the store
/// holds, and the walk reads nothing.
pub proof fn lemma_genesis_child_ancestors(b: Block, reads: Seq<StoreRead>)
    requires
        b.qc == genesis_qc(),
    ensures
        ancestors_spec(b, reads) == Ok::<Ancestors, SyncError>(
            Ancestors::Ready(genesis_block(), genesis_block(), genesis_block()),
        ),
{
}

/// Where the store does not hold a block's parent, the walk reports it missing
/// whatever the store holds further up, and never asks for a grandparent; the
/// block, enqueued behind a parent that nothing waits for yet, gives exactly
/// one request, for that parent.
pub proof fn lemma_missing_parent(b: Block, reads: Seq<StoreRead>, ws: Waits)
    requires
        b.qc != genesis_qc(),
        lookup(reads, b.previous_spec()) == Some(None::<Seq<u8>>),
        waits_wf(ws),
        !is_pending(ws, b.previous_spec()),
    ensures
        ancestors_spec(b, reads) == Ok::<Ancestors, SyncError>(Ancestors::Missing(b.previous_spec())),
        forall|other: Seq<StoreRead>| lookup(other, b.previous_spec()) == Some(None::<Seq<u8>>)
            ==> #[trigger] ancestors_spec(b, other) == ancestors_spec(b, reads),
        enqueue_spec(ws, b, false).1 == seq![Action::SyncRequest(b.previous_spec())],
{
}

/// A walk that found all three ancestors finds the same three again, also
/// after more reads, and asks for nothing to be enqueued.
pub proof fn lemma_ancestors_stable(b: Block, reads: Seq<StoreRead>, more: Seq<StoreRead>)
    requires
        ancestors_spec(b, reads) is Ok,
        ancestors_spec(b, reads)->Ok_0 is Ready,
    ensures
        ancestors_spec(b, reads + more) == ancestors_spec(b, reads),
{
    lemma_parent_extend(b, reads, more);
    let b2 = parent_spec(b, reads)->Found_0;
    lemma_parent_extend(b2, reads, more);
    let b1 = parent_spec(b2, reads)->Found_0;
    lemma_parent_extend(b1, reads, more);
}

} // verus!
