//! References to JavaScript heap objects by id, and the marker of Rust callbacks.

use vstd::prelude::*;
use crate::batch::{BatchState, BatchView};
use crate::encode::{
    BatchableResult, BinaryDecode, BinaryEncode, EncodeTypeDef, PlaceholderResult, TypeTag,
    WireRoundtrip, tag_byte,
};
use crate::ipc::{
    Buffers, DecodeError, DecodedData, EncodedData, lemma_u64_halves_join, spec_take_u64,
    u64_halves,
};

verus! {

/// A reference to a JavaScript heap object, identified by a unique ID.
/// References are encoded as u64 in the binary protocol.
#[derive(Debug, Clone, Copy, PartialEq, Eq, Hash, Structural)]
pub struct JSHeapRef {
    pub id: u64,
}

impl EncodeTypeDef for JSHeapRef {
    open spec fn type_def() -> Seq<u8> {
        seq![tag_byte(TypeTag::HeapRef)]
    }

    fn encode_type_def(buf: &mut Vec<u8>) {
        buf.push(TypeTag::HeapRef.as_u8());
    }
}

impl BinaryEncode for JSHeapRef {
    open spec fn encoding(&self) -> Buffers {
        Buffers::empty().with_u32s(u64_halves(self.id))
    }

    fn encode(self, encoder: &mut EncodedData) {
        encoder.push_u64(self.id);
        assert(final(encoder)@ =~= old(encoder)@.append(self.encoding()));
    }
}

impl BinaryDecode for JSHeapRef {
    open spec fn decodes_to(b: Buffers, r: Result<Self, DecodeError>, rest: Buffers) -> bool {
        rest == spec_take_u64(b).1 && match spec_take_u64(b).0 {
            Ok(id) => r == Ok::<JSHeapRef, DecodeError>(JSHeapRef { id }),
            Err(e) => r == Err::<JSHeapRef, DecodeError>(e),
        }
    }

    fn decode(decoder: &mut DecodedData) -> (r: Result<Self, DecodeError>) {
        let id = decoder.take_u64()?;
        Ok(JSHeapRef { id })
    }
}

impl WireRoundtrip for JSHeapRef {
    open spec fn fits_wire(&self) -> bool {
        true
    }

    proof fn lemma_roundtrip(v: Self, rest: Buffers) {
        lemma_u64_halves_join(v.id);
        let b = v.encoding().append(rest);
        assert(b.u32s =~= u64_halves(v.id) + rest.u32s);
        assert(b.u32s.subrange(2, b.u32s.len() as int) =~= rest.u32s);
        assert(b.with_u32s(b.u32s.subrange(2, b.u32s.len() as int)) =~= rest);
    }
}

impl BatchableResult for JSHeapRef {
    open spec fn spec_needs_flush() -> bool {
        false
    }

    fn needs_flush() -> bool {
        false
    }
}

impl PlaceholderResult for JSHeapRef {
    proof fn lemma_no_flush() {
    }

    /// The placeholder refers to the next heap id, which is then allocated.
    open spec fn is_placeholder(before: BatchView, after: BatchView, r: Self) -> bool {
        &&& r.id == before.next_heap_id()
        &&& after == before.after_heap_alloc()
    }

    fn batched_placeholder(batch: &mut BatchState) -> Self {
        JSHeapRef { id: batch.get_next_heap_id() }
    }
}

/// Marks the argument types of a Rust callback that is passed to JavaScript.
pub struct RustCallbackMarker<P> {
    phantom: core::marker::PhantomData<P>,
}

} // verus!
