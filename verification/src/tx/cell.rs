//! The transaction cell, the smallest schedulable unit of execution.

use vstd::prelude::*;
use crate::bytes::{append_bytes, push_u64, u64_be_bytes};
use crate::digest::{blake3_digest, hash_bytes};
use crate::object_map::{
    is_first_where, lemma_first_position, lemma_no_position, lists, ordered_ids, ObjectMap,
};
use crate::state::object::Version;
use crate::state::store::ReadSet;
use crate::tx::error::TxError;
use crate::types::hash;
use crate::types::{ObjectId, Slot};

verus! {

/// Opaque call data describing what a cell wants executed. The protocol
/// does not interpret it; it is handed to the execution engine.
#[derive(Debug)]
pub struct CallData {
    /// Target of the call (contract or object).
    pub target: ObjectId,
    /// Method selector or entrypoint identifier.
    pub selector: Vec<u8>,
    /// Encoded call payload.
    pub payload: Vec<u8>,
}

/// What call data is: a target and two byte strings.
pub struct CallDataView {
    pub target: ObjectId,
    pub selector: Seq<u8>,
    pub payload: Seq<u8>,
}

impl View for CallData {
    type V = CallDataView;

    open spec fn view(&self) -> CallDataView {
        CallDataView { target: self.target, selector: self.selector@, payload: self.payload@ }
    }
}

impl Clone for CallData {
    fn clone(&self) -> (copy: Self)
        ensures
            copy@ == self@,
    {
        Self { target: self.target, selector: self.selector.clone(), payload: self.payload.clone() }
    }
}

/// What a cell declares about an object that it may write.
#[derive(Clone, Copy, Debug, PartialEq, Eq, Structural)]
pub enum WriteIntent {
    Create,
    Modify,
    Delete,
}

impl View for WriteIntent {
    type V = WriteIntent;

    open spec fn view(&self) -> WriteIntent {
        *self
    }
}

/// The byte that stands for a write intent in canonical encodings.
pub open spec fn intent_byte(intent: WriteIntent) -> u8 {
    match intent {
        WriteIntent::Create => 0,
        WriteIntent::Modify => 1,
        WriteIntent::Delete => 2,
    }
}

impl WriteIntent {
    /// The byte that stands for this intent in canonical encodings.
    pub fn to_byte(self) -> (byte: u8)
        ensures
            byte == intent_byte(self),
    {
        match self {
            WriteIntent::Create => 0,
            WriteIntent::Modify => 1,
            WriteIntent::Delete => 2,
        }
    }
}

/// What a transaction cell is.
pub struct TransactionCellView {
    pub slot: Slot,
    pub read_set: Map<ObjectId, Version>,
    pub write_set: Map<ObjectId, WriteIntent>,
    pub call: CallDataView,
}

/// The read entries under `ids` as they enter a cell's identifier: each
/// identifier followed by the expected version in big-endian form.
pub open spec fn read_entries_bytes(reads: Map<ObjectId, Version>, ids: Seq<ObjectId>) -> Seq<u8>
    decreases ids.len(),
{
    if ids.len() == 0 {
        Seq::empty()
    } else {
        read_entries_bytes(reads, ids.drop_last()) + ids.last()@ + u64_be_bytes(reads[ids.last()])
    }
}

/// The write intents under `ids` as they enter a cell's identifier: each
/// identifier followed by the byte of its intent.
pub open spec fn intent_entries_bytes(intents: Map<ObjectId, WriteIntent>, ids: Seq<ObjectId>) -> Seq<
    u8,
>
    decreases ids.len(),
{
    if ids.len() == 0 {
        Seq::empty()
    } else {
        intent_entries_bytes(intents, ids.drop_last()) + ids.last()@ + seq![
            intent_byte(intents[ids.last()]),
        ]
    }
}

/// The bytes that a cell's identifier is the digest of: the read set and
/// the write-intent set, each by ascending identifier, then the call's
/// target, selector and payload. The slot is no part of it.
pub open spec fn cell_preimage(cell: TransactionCellView) -> Seq<u8> {
    read_entries_bytes(cell.read_set, ordered_ids(cell.read_set.dom())) + intent_entries_bytes(
        cell.write_set,
        ordered_ids(cell.write_set.dom()),
    ) + cell.call.target@ + cell.call.selector + cell.call.payload
}

/// The identifier of a cell.
pub open spec fn cell_id(cell: TransactionCellView) -> hash::Hash {
    hash::Hash::from_bytes(blake3_digest(cell_preimage(cell)))
}

/// Two cells with the same read set, the same write-intent set and the
/// same call data have the same identifier, whatever their slots.
pub proof fn lemma_cell_id_ignores_slot(a: TransactionCellView, b: TransactionCellView)
    requires
        a.read_set == b.read_set,
        a.write_set == b.write_set,
        a.call == b.call,
    ensures
        cell_id(a) == cell_id(b),
{
}

/// A transaction cell. It declares what may be touched, not what will be
/// written. Every object that it may write is among those it reads.
#[derive(Debug)]
pub struct TransactionCell {
    /// Slot in which the cell is valid: context, not identity.
    slot: Slot,
    /// Objects read, with the versions expected.
    read_set: ReadSet,
    /// Objects that may be written, with the kind of write.
    write_set: ObjectMap<WriteIntent>,
    /// What is to be executed.
    call: CallData,
}

impl View for TransactionCell {
    type V = TransactionCellView;

    closed spec fn view(&self) -> TransactionCellView {
        TransactionCellView {
            slot: self.slot,
            read_set: self.read_set@,
            write_set: self.write_set@,
            call: self.call@,
        }
    }
}

impl Clone for TransactionCell {
    fn clone(&self) -> (copy: Self)
        ensures
            copy@ == self@,
    {
        proof {
            use_type_invariant(self);
        }
        Self {
            slot: self.slot,
            read_set: self.read_set.clone(),
            write_set: self.write_set.clone(),
            call: self.call.clone(),
        }
    }
}

impl TransactionCell {
    /// Every object that the cell may write is among those it reads.
    #[verifier::type_invariant]
    closed spec fn writes_are_read(self) -> bool {
        self.write_set@.dom().subset_of(self.read_set@.dom())
    }

    /// Builds a cell. Refused where some object of the write-intent set is
    /// missing from the read set; the error names the first such object in
    /// canonical order.
    pub fn new(
        slot: Slot,
        read_set: ReadSet,
        write_set: ObjectMap<WriteIntent>,
        call: CallData,
    ) -> (r: Result<Self, TxError>)
        ensures
            match r {
                Ok(cell) => write_set@.dom().subset_of(read_set@.dom()) && cell@ == (
                TransactionCellView { slot, read_set: read_set@, write_set: write_set@, call: call@ }),
                Err(TxError::WriteWithoutRead { object }) => is_first_where(
                    object,
                    write_set@.dom(),
                    |id: ObjectId| !read_set@.contains_key(id),
                ),
            },
    {
        let ghost unread = |id: ObjectId| !read_set@.contains_key(id);
        let ghost ids = ordered_ids(write_set@.dom());
        let count = write_set.len();
        let mut i: usize = 0;
        while i < count
            invariant
                i <= count == ids.len(),
                ids == ordered_ids(write_set@.dom()),
                lists(ids, write_set@.dom()),
                unread == (|id: ObjectId| !read_set@.contains_key(id)),
                forall|j: int| 0 <= j < i ==> !unread(#[trigger] ids[j]),
            decreases count - i,
        {
            let (object_id, _) = write_set.entry_at(i);
            if !read_set.contains_key(&object_id) {
                proof {
                    assert(unread(ids[i as int]));
                    lemma_first_position(ids, write_set@.dom(), unread, i as int);
                }
                return Err(TxError::WriteWithoutRead { object: object_id });
            }
            i += 1;
        }
        proof {
            lemma_no_position(ids, write_set@.dom(), unread);
        }
        Ok(Self { slot, read_set, write_set, call })
    }

    /// Computes the cell's identifier. It depends on the declared intent
    /// alone: neither on the slot nor on anything execution produces.
    pub fn id(&self) -> (id: hash::Hash)
        ensures
            id@ == blake3_digest(cell_preimage(self@)),
            id == cell_id(self@),
    {
        let mut bytes: Vec<u8> = Vec::new();

        let ghost reads = self.read_set@;
        let ghost read_ids = ordered_ids(reads.dom());
        let read_count = self.read_set.len();
        assert(bytes@ =~= read_entries_bytes(reads, read_ids.take(0)));
        let mut i: usize = 0;
        while i < read_count
            invariant
                i <= read_count == read_ids.len(),
                reads == self.read_set@,
                read_ids == ordered_ids(reads.dom()),
                bytes@ == read_entries_bytes(reads, read_ids.take(i as int)),
            decreases read_count - i,
        {
            let (object_id, version) = self.read_set.entry_at(i);
            let ghost before = bytes@;
            append_bytes(&mut bytes, object_id.as_hash().as_bytes().as_slice());
            push_u64(&mut bytes, *version);
            proof {
                assert(read_ids.take(i + 1).drop_last() =~= read_ids.take(i as int));
                assert(bytes@ =~= before + object_id@ + u64_be_bytes(*version));
            }
            i += 1;
        }
        assert(read_ids.take(read_ids.len() as int) =~= read_ids);

        let ghost intents = self.write_set@;
        let ghost write_ids = ordered_ids(intents.dom());
        let ghost head = bytes@;
        let write_count = self.write_set.len();
        assert(bytes@ =~= head + intent_entries_bytes(intents, write_ids.take(0)));
        let mut i: usize = 0;
        while i < write_count
            invariant
                i <= write_count == write_ids.len(),
                intents == self.write_set@,
                write_ids == ordered_ids(intents.dom()),
                bytes@ == head + intent_entries_bytes(intents, write_ids.take(i as int)),
            decreases write_count - i,
        {
            let (object_id, intent) = self.write_set.entry_at(i);
            let ghost before = bytes@;
            append_bytes(&mut bytes, object_id.as_hash().as_bytes().as_slice());
            bytes.push(intent.to_byte());
            proof {
                assert(write_ids.take(i + 1).drop_last() =~= write_ids.take(i as int));
                assert(bytes@ =~= before + object_id@ + seq![intent_byte(*intent)]);
            }
            i += 1;
        }
        assert(write_ids.take(write_ids.len() as int) =~= write_ids);

        append_bytes(&mut bytes, self.call.target.as_hash().as_bytes().as_slice());
        append_bytes(&mut bytes, self.call.selector.as_slice());
        append_bytes(&mut bytes, self.call.payload.as_slice());
        assert(bytes@ =~= cell_preimage(self@));

        let id = hash_bytes(bytes.as_slice());
        proof {
            id.lemma_from_bytes();
        }
        id
    }

    /// The slot of the cell.
    pub fn slot(&self) -> (slot: Slot)
        ensures
            slot == self@.slot,
    {
        self.slot
    }

    /// The read set of the cell.
    pub fn read_set(&self) -> (read_set: &ReadSet)
        ensures
            read_set@ == self@.read_set,
    {
        &self.read_set
    }

    /// The write-intent set of the cell. Each of its objects is in the read set.
    pub fn write_set(&self) -> (write_set: &ObjectMap<WriteIntent>)
        ensures
            write_set@ == self@.write_set,
            self@.write_set.dom().subset_of(self@.read_set.dom()),
    {
        proof {
            use_type_invariant(self);
        }
        &self.write_set
    }

    /// The call data of the cell.
    pub fn call(&self) -> (call: &CallData)
        ensures
            call@ == self@.call,
    {
        &self.call
    }
}

} // verus!
