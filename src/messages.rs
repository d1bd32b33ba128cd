use vstd::prelude::*;

verus! {

/// A fixed-size content digest, used as store key and as block identity.
#[derive(Clone, Copy, Debug, Eq, Hash)]
pub struct Digest(pub [u8; 32]);

impl PartialEq for Digest {
    /// Byte equality.
    fn eq(&self, o: &Digest) -> (r: bool) {
        let mut i: usize = 0;
        while i < 32
            invariant
                i <= 32,
                forall|j: int| 0 <= j < i ==> self.0[j] == o.0[j],
            decreases 32 - i,
        {
            if self.0[i] != o.0[i] {
                return false;
            }
            i = i + 1;
        }
        proof {
            assert(self.0 =~= o.0);
        }
        true
    }
}

impl vstd::std_specs::cmp::PartialEqSpecImpl for Digest {
    open spec fn obeys_eq_spec() -> bool {
        true
    }

    open spec fn eq_spec(&self, o: &Digest) -> bool {
        *self == *o
    }
}

/// A quorum certificate: the digest and round of the block it certifies.
#[derive(Clone, Copy, Debug, Eq)]
pub struct QC {
    pub hash: Digest,
    pub round: u64,
}

impl PartialEq for QC {
    fn eq(&self, o: &QC) -> (r: bool) {
        self.hash == o.hash && self.round == o.round
    }
}

impl vstd::std_specs::cmp::PartialEqSpecImpl for QC {
    open spec fn obeys_eq_spec() -> bool {
        true
    }

    open spec fn eq_spec(&self, o: &QC) -> bool {
        *self == *o
    }
}

/// A proposal: the certificate of its parent, its own round and the digest of
/// the payload it carries.
#[derive(Clone, Copy, Debug, Eq)]
pub struct Block {
    pub qc: QC,
    pub round: u64,
    pub payload: Digest,
}

impl PartialEq for Block {
    fn eq(&self, o: &Block) -> (r: bool) {
        self.qc == o.qc && self.round == o.round && self.payload == o.payload
    }
}

impl vstd::std_specs::cmp::PartialEqSpecImpl for Block {
    open spec fn obeys_eq_spec() -> bool {
        true
    }

    open spec fn eq_spec(&self, o: &Block) -> bool {
        *self == *o
    }
}

/// The digest made of zero bytes.
pub open spec fn zero_digest() -> Digest {
    Digest(vstd::array::spec_array_fill_for_copy_type::<u8, 32>(0u8))
}

pub open spec fn genesis_qc() -> QC {
    QC { hash: zero_digest(), round: 0 }
}

pub open spec fn genesis_block() -> Block {
    Block { qc: genesis_qc(), round: 0, payload: zero_digest() }
}

impl Digest {
    pub fn zero() -> (r: Digest)
        ensures
            r == zero_digest(),
    {
        Digest([0u8; 32])
    }
}

impl QC {
    /// The well-known certificate that ends every walk up the chain.
    pub fn genesis() -> (r: QC)
        ensures
            r == genesis_qc(),
    {
        QC { hash: Digest::zero(), round: 0 }
    }
}

impl Block {
    /// The well-known first block; its certificate is the genesis certificate.
    pub fn genesis() -> (r: Block)
        ensures
            r == genesis_block(),
    {
        Block { qc: QC::genesis(), round: 0, payload: Digest::zero() }
    }

    pub open spec fn previous_spec(&self) -> Digest {
        self.qc.hash
    }

    /// The digest of the parent, which the block's certificate names.
    pub fn previous(&self) -> (r: Digest)
        ensures
            r == self.previous_spec(),
    {
        self.qc.hash
    }

    pub fn is_genesis_child(&self) -> (r: bool)
        ensures
            r == (self.qc == genesis_qc()),
    {
        self.qc == QC::genesis()
    }
}

/// The fields that bincode's default configuration reads from `bytes` as the
/// nested tuple ((certified digest, certified round), round, payload digest),
/// or `None` where it reads none.
pub uninterp spec fn bincode_block_fields(bytes: Seq<u8>) -> Option<(([u8; 32], u64), u64, [u8; 32])>;

#[verifier::external_type_specification]
#[verifier::external_body]
pub struct ExBincodeErrorKind(bincode::ErrorKind);

/// Relies on bincode::deserialize (fixed-width little-endian integers, trailing
/// bytes allowed): whether it succeeds, and what it reads, depends on the bytes
/// alone.
#[verifier::external_body]
fn deserialize_block_fields(bytes: &[u8]) -> (r: Result<(([u8; 32], u64), u64, [u8; 32]), Box<bincode::ErrorKind>>)
    ensures
        match r {
            Ok(f) => bincode_block_fields(bytes@) == Some(f),
            Err(_) => bincode_block_fields(bytes@) is None,
        },
{
    bincode::deserialize(bytes)
}

/// The block made of the fields in the order in which they are stored.
pub open spec fn block_of_fields(f: (([u8; 32], u64), u64, [u8; 32])) -> Block {
    Block { qc: QC { hash: Digest(f.0.0), round: f.0.1 }, round: f.1, payload: Digest(f.2) }
}

/// The block that stored bytes hold, if they hold one.
pub open spec fn decoded_block(bytes: Seq<u8>) -> Option<Block> {
    match bincode_block_fields(bytes) {
        Some(f) => Some(block_of_fields(f)),
        None => None,
    }
}

impl Block {
    /// Reads a block from the bytes under which the store keeps it.
    pub fn from_bytes(bytes: &[u8]) -> (r: Option<Block>)
        ensures
            r == decoded_block(bytes@),
    {
        match deserialize_block_fields(bytes) {
            Ok(((hash, qc_round), round, payload)) => Some(
                Block { qc: QC { hash: Digest(hash), round: qc_round }, round, payload: Digest(payload) },
            ),
            Err(_) => None,
        }
    }
}

} // verus!
