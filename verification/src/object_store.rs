//! Handles of exported Rust objects: how they travel over the wire, and the table
//! that maps each handle to the key under which the store holds its object.

use vstd::prelude::*;
use crate::encode::{
    BatchableResult, BinaryDecode, BinaryEncode, EncodeTypeDef, WireRoundtrip, TypeTag, tag_byte,
};
use crate::ipc::{Buffers, DecodeError, DecodedData, EncodedData, spec_take_u32};

verus! {

/// Handle to an exported object in the store.
#[derive(Clone, Copy, Debug, PartialEq, Eq, Hash, Structural)]
pub struct ObjectHandle(pub u32);

impl BinaryDecode for ObjectHandle {
    open spec fn decodes_to(b: Buffers, r: Result<Self, DecodeError>, rest: Buffers) -> bool {
        rest == spec_take_u32(b).1 && match spec_take_u32(b).0 {
            Ok(v) => r == Ok::<ObjectHandle, DecodeError>(ObjectHandle(v)),
            Err(e) => r == Err::<ObjectHandle, DecodeError>(e),
        }
    }

    fn decode(decoder: &mut DecodedData) -> (r: Result<Self, DecodeError>) {
        let raw = u32::decode(decoder)?;
        Ok(ObjectHandle(raw))
    }
}

impl BinaryEncode for ObjectHandle {
    open spec fn encoding(&self) -> Buffers {
        Buffers::empty().with_u32s(seq![self.0])
    }

    fn encode(self, encoder: &mut EncodedData) {
        self.0.encode(encoder);
    }
}

impl WireRoundtrip for ObjectHandle {
    open spec fn fits_wire(&self) -> bool {
        true
    }

    proof fn lemma_roundtrip(v: Self, rest: Buffers) {
        let b = v.encoding().append(rest);
        assert(b.u32s.drop_first() =~= rest.u32s);
        assert(b.with_u32s(b.u32s.drop_first()) =~= rest);
    }
}

impl EncodeTypeDef for ObjectHandle {
    open spec fn type_def() -> Seq<u8> {
        seq![tag_byte(TypeTag::U32)]
    }

    fn encode_type_def(buf: &mut Vec<u8>) {
        u32::encode_type_def(buf);
    }
}

impl BatchableResult for ObjectHandle {
    open spec fn spec_needs_flush() -> bool {
        true
    }

    fn needs_flush() -> bool {
        true
    }
}

/// The table from object handles to the keys of the objects in the store. A handle is
/// the position of its entry; a removed object leaves an empty entry, so handles are
/// never reused.
pub struct HandleTable {
    slots: Vec<Option<u64>>,
}

impl View for HandleTable {
    type V = Seq<Option<u64>>;

    closed spec fn view(&self) -> Seq<Option<u64>> {
        self.slots@
    }
}

/// The key that a table holds under a handle, if any.
pub open spec fn key_of(table: Seq<Option<u64>>, handle: ObjectHandle) -> Option<u64> {
    if handle.0 < table.len() {
        table[handle.0 as int]
    } else {
        None
    }
}

impl HandleTable {
    /// An empty table.
    pub fn new() -> (r: Self)
        ensures
            r@ == Seq::<Option<u64>>::empty(),
    {
        HandleTable { slots: Vec::new() }
    }

    /// Whether another handle can be given out (handles are `u32`).
    pub fn has_room(&self) -> (r: bool)
        ensures
            r == (self@.len() < u32::MAX),
    {
        self.slots.len() < 4294967295usize
    }

    /// Record the key of a new object: its handle is the next position.
    pub fn insert(&mut self, key: u64) -> (h: ObjectHandle)
        requires
            old(self)@.len() < u32::MAX,
        ensures
            h.0 == old(self)@.len(),
            final(self)@ == old(self)@.push(Some(key)),
    {
        let h = ObjectHandle(self.slots.len() as u32);
        self.slots.push(Some(key));
        h
    }

    /// The key held under a handle, if the handle was given out and not removed.
    pub fn get(&self, handle: ObjectHandle) -> (r: Option<u64>)
        ensures
            r == key_of(self@, handle),
    {
        let i = handle.0 as usize;
        if i < self.slots.len() {
            self.slots[i]
        } else {
            None
        }
    }

    /// Remove a handle's entry, giving the key it held.
    pub fn remove(&mut self, handle: ObjectHandle) -> (r: Option<u64>)
        ensures
            r == key_of(old(self)@, handle),
            final(self)@ == if handle.0 < old(self)@.len() {
                old(self)@.update(handle.0 as int, None)
            } else {
                old(self)@
            },
    {
        let i = handle.0 as usize;
        if i < self.slots.len() {
            let key = self.slots[i];
            self.slots.set(i, None);
            key
        } else {
            None
        }
    }
}

/// What a handle gives back is what was inserted under it; the handles of other
/// objects are unaffected by the insertion.
pub proof fn lemma_get_after_insert(table: Seq<Option<u64>>, key: u64, other: ObjectHandle)
    requires
        table.len() < u32::MAX,
    ensures
        key_of(table.push(Some(key)), ObjectHandle(table.len() as u32)) == Some(key),
        other.0 != table.len() ==> key_of(table.push(Some(key)), other) == key_of(table, other),
{
}

/// A removed handle holds nothing, now and after any later insertion; other handles
/// keep their keys.
pub proof fn lemma_removed_stays_empty(table: Seq<Option<u64>>, h: ObjectHandle, key: u64, other: ObjectHandle)
    requires
        h.0 < table.len(),
    ensures
        key_of(table.update(h.0 as int, None), h) is None,
        key_of(table.update(h.0 as int, None).push(Some(key)), h) is None,
        other != h ==> key_of(table.update(h.0 as int, None), other) == key_of(table, other),
{
    let t = table.update(h.0 as int, None);
    assert(t.push(Some(key))[h.0 as int] == t[h.0 as int]);
}

/// A change to a handle table: recording the key of a new object, or removing a handle.
pub enum TableChange {
    Insert(u64),
    Remove(ObjectHandle),
}

/// The table after a change, as `insert` and `remove` leave it.
pub open spec fn table_after(table: Seq<Option<u64>>, c: TableChange) -> Seq<Option<u64>> {
    match c {
        TableChange::Insert(key) => table.push(Some(key)),
        TableChange::Remove(h) => if h.0 < table.len() {
            table.update(h.0 as int, None)
        } else {
            table
        },
    }
}

/// The table after a sequence of changes, first to last.
pub open spec fn table_after_all(table: Seq<Option<u64>>, cs: Seq<TableChange>) -> Seq<Option<u64>>
    decreases cs.len(),
{
    if cs.len() == 0 {
        table
    } else {
        table_after(table_after_all(table, cs.drop_last()), cs.last())
    }
}

/// A key stays under its handle through any changes that do not remove that handle.
pub proof fn lemma_key_kept(table: Seq<Option<u64>>, h: ObjectHandle, cs: Seq<TableChange>)
    requires
        key_of(table, h) is Some,
        forall|i: int| 0 <= i < cs.len() ==> cs[i] != TableChange::Remove(h),
    ensures
        key_of(table_after_all(table, cs), h) == key_of(table, h),
    decreases cs.len(),
{
    if cs.len() > 0 {
        lemma_key_kept(table, h, cs.drop_last());
        let t = table_after_all(table, cs.drop_last());
        assert(cs.last() != TableChange::Remove(h));
        match cs.last() {
            TableChange::Insert(key) => {
                assert(t.push(Some(key))[h.0 as int] == t[h.0 as int]);
            },
            TableChange::Remove(g) => {
                assert(g.0 != h.0);
            },
        }
    }
}

/// Removing the handle of an inserted object, after any changes that did not remove
/// it, gives back the key inserted under it and leaves nothing there.
pub proof fn lemma_remove_gives_back_inserted(table: Seq<Option<u64>>, key: u64, cs: Seq<TableChange>)
    requires
        table.len() < u32::MAX,
        forall|i: int| 0 <= i < cs.len() ==> cs[i] != TableChange::Remove(ObjectHandle(table.len() as u32)),
    ensures
        key_of(table_after_all(table.push(Some(key)), cs), ObjectHandle(table.len() as u32)) == Some(key),
        key_of(
            table_after(
                table_after_all(table.push(Some(key)), cs),
                TableChange::Remove(ObjectHandle(table.len() as u32)),
            ),
            ObjectHandle(table.len() as u32),
        ) is None,
{
    let h = ObjectHandle(table.len() as u32);
    lemma_get_after_insert(table, key, h);
    lemma_key_kept(table.push(Some(key)), h, cs);
}

} // verus!
