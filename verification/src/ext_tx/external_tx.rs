//! The external transaction and its signing hash.

use vstd::prelude::*;
use crate::bytes::{append_bytes, push_u64_le, u64_le_bytes};
use crate::digest::{blake3_digest, hash_bytes};
use crate::state::object::Version;
use crate::tx::cell::{cell_id, TransactionCell, TransactionCellView};
use crate::types::hash;
use crate::types::hash::{concat_hashes, sort_hashes, sorted_hashes};
use crate::types::Address;

verus! {

/// The domain tag of signing hashes, the ASCII text
/// `Axiom::ExternalTransaction::v1`.
pub const SIGNING_DOMAIN: [u8; 30] = [
    0x41, 0x78, 0x69, 0x6f, 0x6d, 0x3a, 0x3a, 0x45, 0x78, 0x74, 0x65, 0x72, 0x6e, 0x61, 0x6c, 0x54,
    0x72, 0x61, 0x6e, 0x73, 0x61, 0x63, 0x74, 0x69, 0x6f, 0x6e, 0x3a, 0x3a, 0x76, 0x31,
];

/// An opaque transaction signature. It is carried and hashed, never checked here.
#[derive(Debug)]
pub struct Signature {
    pub bytes: Vec<u8>,
}

impl View for Signature {
    type V = Seq<u8>;

    open spec fn view(&self) -> Seq<u8> {
        self.bytes@
    }
}

impl Clone for Signature {
    fn clone(&self) -> (copy: Self)
        ensures
            copy@ == self@,
    {
        Self { bytes: self.bytes.clone() }
    }
}

/// A transaction as a user submits it: a batch of cells under one signer
/// and one nonce.
#[derive(Debug)]
pub struct ExternalTransaction {
    /// Address authorizing the transaction.
    pub signer: Address,
    /// Nonce against replay.
    pub nonce: Version,
    /// The cells of the transaction, in declared order.
    pub cells: Vec<TransactionCell>,
    /// Signature over the signing hash.
    pub signature: Signature,
}

/// What an external transaction is.
pub struct ExternalTransactionView {
    pub signer: Address,
    pub nonce: Version,
    pub cells: Seq<TransactionCellView>,
    pub signature: Seq<u8>,
}

impl View for ExternalTransaction {
    type V = ExternalTransactionView;

    open spec fn view(&self) -> ExternalTransactionView {
        ExternalTransactionView {
            signer: self.signer,
            nonce: self.nonce,
            cells: cell_views(self.cells@),
            signature: self.signature@,
        }
    }
}

/// The cells of a sequence, each as what it is.
pub open spec fn cell_views(cells: Seq<TransactionCell>) -> Seq<TransactionCellView> {
    cells.map_values(|cell: TransactionCell| cell@)
}

/// The identifiers of the cells of a sequence, in the order of the cells.
pub open spec fn cell_ids(cells: Seq<TransactionCellView>) -> Seq<hash::Hash> {
    cells.map_values(|cell: TransactionCellView| cell_id(cell))
}

/// The bytes that the signing hash is the digest of: the domain tag, the
/// signer, the nonce in little-endian form, and the identifiers of the
/// cells in ascending order. The signature is no part of it.
pub open spec fn signing_preimage(tx: ExternalTransactionView) -> Seq<u8> {
    SIGNING_DOMAIN@ + tx.signer@ + u64_le_bytes(tx.nonce) + concat_hashes(
        sorted_hashes(cell_ids(tx.cells)),
    )
}

/// The signing hash of a transaction.
pub open spec fn signing_hash_of(tx: ExternalTransactionView) -> hash::Hash {
    hash::Hash::from_bytes(blake3_digest(signing_preimage(tx)))
}

/// Computes the identifiers of cells, in the order of the cells.
pub fn collect_cell_ids(cells: &Vec<TransactionCell>) -> (ids: Vec<hash::Hash>)
    ensures
        ids@ == cell_ids(cell_views(cells@)),
{
    let mut ids: Vec<hash::Hash> = Vec::new();
    let mut i: usize = 0;
    while i < cells.len()
        invariant
            i <= cells.len(),
            ids.len() == i,
            forall|j: int| 0 <= j < i ==> ids[j] == cell_id(#[trigger] cells[j]@),
        decreases cells.len() - i,
    {
        ids.push(cells[i].id());
        i += 1;
    }
    assert(ids@ =~= cell_ids(cell_views(cells@)));
    ids
}

/// Appends the bytes of hashes to a buffer, one hash after another.
pub fn append_hashes(buf: &mut Vec<u8>, hashes: &Vec<hash::Hash>)
    ensures
        final(buf)@ == old(buf)@ + concat_hashes(hashes@),
{
    let ghost start = buf@;
    let mut i: usize = 0;
    assert(buf@ =~= start + concat_hashes(hashes@.take(0)));
    while i < hashes.len()
        invariant
            i <= hashes.len(),
            buf@ == start + concat_hashes(hashes@.take(i as int)),
        decreases hashes.len() - i,
    {
        let ghost before = buf@;
        append_bytes(buf, hashes[i].as_bytes().as_slice());
        proof {
            assert(hashes@.take(i + 1).drop_last() =~= hashes@.take(i as int));
            assert(buf@ =~= start + concat_hashes(hashes@.take(i + 1)));
        }
        i += 1;
    }
    assert(hashes@.take(hashes.len() as int) =~= hashes@);
}

impl Clone for ExternalTransaction {
    fn clone(&self) -> (copy: Self)
        ensures
            copy@ == self@,
    {
        let mut cells: Vec<TransactionCell> = Vec::new();
        let mut i: usize = 0;
        while i < self.cells.len()
            invariant
                i <= self.cells.len(),
                cells.len() == i,
                forall|j: int| 0 <= j < i ==> (#[trigger] cells[j])@ == self.cells[j]@,
            decreases self.cells.len() - i,
        {
            cells.push(self.cells[i].clone());
            i += 1;
        }
        assert(cell_views(cells@) =~= cell_views(self.cells@));
        Self { signer: self.signer, nonce: self.nonce, cells, signature: self.signature.clone() }
    }
}

impl ExternalTransaction {
    /// Computes the hash of the payload that is signed. It identifies the
    /// transaction in receipts.
    pub fn signing_hash(&self) -> (h: hash::Hash)
        ensures
            h@ == blake3_digest(signing_preimage(self@)),
            h == signing_hash_of(self@),
    {
        let mut bytes: Vec<u8> = Vec::new();
        append_bytes(&mut bytes, SIGNING_DOMAIN.as_slice());
        append_bytes(&mut bytes, self.signer.as_bytes().as_slice());
        push_u64_le(&mut bytes, self.nonce);
        let ids = sort_hashes(collect_cell_ids(&self.cells));
        append_hashes(&mut bytes, &ids);
        assert(bytes@ =~= signing_preimage(self@));
        let h = hash_bytes(bytes.as_slice());
        proof {
            h.lemma_from_bytes();
        }
        h
    }
}

} // verus!
