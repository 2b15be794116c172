//! Batching system for grouping multiple JS operations into single messages.
//!
//! This module provides the batching state: the encoder that accumulates
//! operations, the allocator of heap ids that mirrors the JavaScript heap, and
//! the borrow stack used for borrowed references.

use vstd::prelude::*;
use crate::encode::BinaryDecode;
use crate::ipc::{
    Buffers, DecodeError, DecodedData, EncodedData, IPCMessage, MessageType, message_type_byte,
};
use crate::value::{JSIDX_OFFSET, JSIDX_RESERVED};

verus! {

/// The buffers of a fresh evaluate batch: just the evaluate type byte.
pub open spec fn evaluate_start() -> Buffers {
    Buffers::empty().with_u8s(seq![message_type_byte(MessageType::Evaluate)])
}

/// The state of a [`BatchState`], as mathematical values.
pub struct BatchView {
    pub encoder: Buffers,
    pub free_ids: Seq<u64>,
    pub max_id: u64,
    pub ids_to_free: Seq<Seq<u64>>,
    pub is_batching: bool,
    pub borrow_stack_pointer: u64,
    pub borrow_frame_stack: Seq<u64>,
}

/// All ids waiting in the per-operation lists, outermost list first.
pub open spec fn flatten(s: Seq<Seq<u64>>) -> Seq<u64>
    decreases s.len(),
{
    if s.len() == 0 {
        Seq::empty()
    } else {
        flatten(s.drop_last()) + s.last()
    }
}

impl BatchView {
    /// Ids that are free for reuse or waiting to be freed.
    pub open spec fn released(self) -> Seq<u64> {
        self.free_ids + flatten(self.ids_to_free)
    }

    /// The well-formedness of the batch state.
    pub open spec fn wf(self) -> bool {
        &&& JSIDX_RESERVED <= self.max_id
        &&& 1 <= self.borrow_stack_pointer <= JSIDX_OFFSET
        &&& forall|i: int|
            0 <= i < self.borrow_frame_stack.len() ==> 1 <= #[trigger] self.borrow_frame_stack[i]
                <= JSIDX_OFFSET
        &&& forall|x: u64|
            #[trigger] self.released().contains(x) ==> JSIDX_RESERVED <= x < self.max_id
        &&& self.released().no_duplicates()
    }

    /// An id that has been handed out and not released since.
    pub open spec fn is_live(self, id: u64) -> bool {
        &&& JSIDX_RESERVED <= id < self.max_id
        &&& !self.released().contains(id)
    }

    /// The id that the next heap allocation hands out: the most recently freed id,
    /// or a new one when none is free.
    pub open spec fn next_heap_id(self) -> u64 {
        if self.free_ids.len() > 0 {
            self.free_ids.last()
        } else {
            self.max_id
        }
    }

    /// The state after a heap allocation.
    pub open spec fn after_heap_alloc(self) -> BatchView {
        if self.free_ids.len() > 0 {
            BatchView { free_ids: self.free_ids.drop_last(), ..self }
        } else {
            BatchView { max_id: (self.max_id + 1) as u64, ..self }
        }
    }

    /// Whether a heap allocation is possible (ids are not exhausted).
    pub open spec fn can_alloc(self) -> bool {
        self.free_ids.len() > 0 || self.max_id < u64::MAX
    }

    /// The state after saving the borrow stack pointer on the frame stack.
    pub open spec fn frame_pushed(self) -> BatchView {
        BatchView {
            borrow_frame_stack: self.borrow_frame_stack.push(self.borrow_stack_pointer),
            ..self
        }
    }

    /// The state after restoring the borrow stack pointer from the frame stack.
    pub open spec fn frame_popped(self) -> BatchView {
        BatchView {
            borrow_stack_pointer: self.borrow_frame_stack.last(),
            borrow_frame_stack: self.borrow_frame_stack.drop_last(),
            ..self
        }
    }

    /// The state after taking one borrow id.
    pub open spec fn borrowed(self) -> BatchView {
        BatchView { borrow_stack_pointer: (self.borrow_stack_pointer - 1) as u64, ..self }
    }

    /// The state after taking `n` borrow ids.
    pub open spec fn borrowed_n(self, n: nat) -> BatchView
        decreases n,
    {
        if n == 0 {
            self
        } else {
            self.borrowed_n((n - 1) as nat).borrowed()
        }
    }

    /// The state after releasing an id outside any operation: it goes on the free list.
    pub open spec fn released_outside(self, id: u64) -> BatchView {
        BatchView { free_ids: self.free_ids.push(id), ..self }
    }
}

/// State for batching operations.
/// Every evaluation is a batch - it may just have one operation.
///
/// Uses a free-list strategy for heap ID allocation to stay in sync with JS heap.
pub struct BatchState {
    /// The encoder accumulating batched operations
    encoder: EncodedData,
    /// Stack of freed IDs available for reuse
    free_ids: Vec<u64>,
    /// Next ID to allocate if free_ids is empty
    max_id: u64,
    /// A stack of ongoing function encodings with the ids
    /// that need to be freed after each one is done
    ids_to_free: Vec<Vec<u64>>,
    /// Whether we're inside a batch() call
    is_batching: bool,
    /// Borrow stack pointer - uses indices 1-127, growing downward from JSIDX_OFFSET (128) to 1
    borrow_stack_pointer: u64,
    /// Frame stack for nested operations - saves borrow stack pointers
    borrow_frame_stack: Vec<u64>,
}

impl View for BatchState {
    type V = BatchView;

    closed spec fn view(&self) -> BatchView {
        BatchView {
            encoder: self.encoder@,
            free_ids: self.free_ids@,
            max_id: self.max_id,
            ids_to_free: Seq::new(self.ids_to_free@.len(), |i: int| self.ids_to_free@[i]@),
            is_batching: self.is_batching,
            borrow_stack_pointer: self.borrow_stack_pointer,
            borrow_frame_stack: self.borrow_frame_stack@,
        }
    }
}

/// Flattening after a push appends the pushed list.
proof fn lemma_flatten_push(s: Seq<Seq<u64>>, x: Seq<u64>)
    ensures
        flatten(s.push(x)) == flatten(s) + x,
{
    assert(s.push(x).drop_last() =~= s);
}

/// Flattening after replacing the last list replaces its part at the end.
proof fn lemma_flatten_update_last(s: Seq<Seq<u64>>, x: Seq<u64>)
    requires
        s.len() > 0,
    ensures
        flatten(s.update(s.len() - 1, x)) == flatten(s.drop_last()) + x,
{
    assert(s.update(s.len() - 1, x).drop_last() =~= s.drop_last());
}

/// An id in one of the lists is in their flattening.
proof fn lemma_flatten_contains(s: Seq<Seq<u64>>, j: int, id: u64)
    requires
        0 <= j < s.len(),
        s[j].contains(id),
    ensures
        flatten(s).contains(id),
    decreases s.len(),
{
    let f = flatten(s);
    assert(f == flatten(s.drop_last()) + s.last());
    if j == s.len() - 1 {
        let p = choose|p: int| 0 <= p < s[j].len() && s[j][p] == id;
        assert(f[flatten(s.drop_last()).len() + p] == id);
    } else {
        assert(s.drop_last()[j] == s[j]);
        lemma_flatten_contains(s.drop_last(), j, id);
        let p = choose|p: int|
            0 <= p < flatten(s.drop_last()).len() && flatten(s.drop_last())[p] == id;
        assert(f[p] == id);
    }
}

/// An id in none of the lists is not in their flattening.
proof fn lemma_flatten_excludes(s: Seq<Seq<u64>>, id: u64)
    requires
        forall|k: int| 0 <= k < s.len() ==> !(#[trigger] s[k]).contains(id),
    ensures
        !flatten(s).contains(id),
    decreases s.len(),
{
    if s.len() > 0 {
        assert forall|k: int| 0 <= k < s.drop_last().len() implies !(
        #[trigger] s.drop_last()[k]).contains(id) by {
            assert(s.drop_last()[k] == s[k]);
        }
        lemma_flatten_excludes(s.drop_last(), id);
        let f = flatten(s);
        assert(f == flatten(s.drop_last()) + s.last());
        if f.contains(id) {
            let p = choose|p: int| 0 <= p < f.len() && f[p] == id;
            if p < flatten(s.drop_last()).len() {
                assert(flatten(s.drop_last())[p] == id);
            } else {
                assert(s.last()[p - flatten(s.drop_last()).len()] == id);
                assert(s[s.len() - 1].contains(id));
            }
        }
    }
}

impl BatchState {
    /// A fresh state: an empty evaluate batch, no ids handed out, not batching.
    pub fn new() -> (r: Self)
        ensures
            r@ == (BatchView {
                encoder: evaluate_start(),
                free_ids: Seq::empty(),
                max_id: JSIDX_RESERVED,
                ids_to_free: Seq::empty(),
                is_batching: false,
                borrow_stack_pointer: JSIDX_OFFSET,
                borrow_frame_stack: Seq::empty(),
            }),
            r@.wf(),
    {
        let r = BatchState {
            encoder: Self::new_encoder_for_evaluate(),
            free_ids: Vec::new(),
            max_id: JSIDX_RESERVED,
            ids_to_free: Vec::new(),
            is_batching: false,
            borrow_stack_pointer: JSIDX_OFFSET,
            borrow_frame_stack: Vec::new(),
        };
        assert(r@.ids_to_free =~= Seq::<Seq<u64>>::empty());
        assert(r@.released() =~= Seq::<u64>::empty());
        r
    }

    fn new_encoder_for_evaluate() -> (r: EncodedData)
        ensures
            r@ == evaluate_start(),
    {
        let mut encoder = EncodedData::new();
        encoder.push_u8(MessageType::Evaluate.as_u8());
        encoder
    }

    /// Get the next heap ID for placeholder allocation.
    /// Uses free-list strategy: reuses freed IDs first, then allocates new ones.
    pub fn get_next_heap_id(&mut self) -> (r: u64)
        requires
            old(self)@.wf(),
            old(self)@.can_alloc(),
        ensures
            r == old(self)@.next_heap_id(),
            final(self)@ == old(self)@.after_heap_alloc(),
            final(self)@.wf(),
            !old(self)@.is_live(r),
            final(self)@.is_live(r),
    {
        let ghost s = self@;
        match self.free_ids.pop() {
            Some(id) => {
                proof {
                    let rel = s.released();
                    let tail = flatten(s.ids_to_free);
                    assert(self@.ids_to_free =~= s.ids_to_free);
                    assert(s.free_ids =~= self@.free_ids.push(id));
                    assert(rel =~= self@.free_ids + seq![id] + tail);
                    assert(self@.released() =~= self@.free_ids + tail);
                    lemma_no_dup_middle(self@.free_ids, id, tail);
                    assert forall|x: u64| #[trigger] self@.released().contains(x) implies rel.contains(x) by {
                        let k = choose|k: int| 0 <= k < self@.released().len() && self@.released()[k] == x;
                        if k < self@.free_ids.len() {
                            assert(rel[k] == x);
                        } else {
                            assert(rel[k + 1] == x);
                        }
                    }
                    assert(rel[self@.free_ids.len() as int] == id);
                    assert(rel.contains(id));
                    assert(self@ =~= s.after_heap_alloc());
                    assert(self@.released().no_duplicates());
                    assert(1 <= self@.borrow_stack_pointer <= JSIDX_OFFSET);
                    assert(self@.borrow_frame_stack == s.borrow_frame_stack);
                    assert(self@.wf());
                }
                id
            },
            None => {
                let id = self.max_id;
                self.max_id = self.max_id + 1;
                proof {
                    assert(self@.ids_to_free =~= s.ids_to_free);
                    assert(self@.released() =~= s.released());
                    if s.released().contains(id) {
                        let k = choose|k: int| 0 <= k < s.released().len() && s.released()[k] == id;
                        assert(s.released()[k] < s.max_id);
                    }
                    assert forall|x: u64| #[trigger] self@.released().contains(x) implies JSIDX_RESERVED <= x < self@.max_id by {
                        assert(s.released().contains(x));
                    }
                    assert forall|i: int| 0 <= i < self@.borrow_frame_stack.len() implies 1 <= #[trigger] self@.borrow_frame_stack[i] <= JSIDX_OFFSET by {
                        assert(self@.borrow_frame_stack[i] == s.borrow_frame_stack[i]);
                    }
                }
                id
            },
        }
    }

    /// Get the next borrow ID from the borrow stack (indices 1-127).
    /// The borrow stack grows downward from JSIDX_OFFSET (128) toward 1.
    pub fn get_next_borrow_id(&mut self) -> (r: u64)
        requires
            old(self)@.wf(),
            old(self)@.borrow_stack_pointer > 1,
        ensures
            r == old(self)@.borrow_stack_pointer - 1,
            final(self)@ == old(self)@.borrowed(),
            final(self)@.wf(),
    {
        self.borrow_stack_pointer = self.borrow_stack_pointer - 1;
        proof {
            assert(self@.ids_to_free =~= old(self)@.ids_to_free);
            assert(self@ == old(self)@.borrowed());
            assert(self@.released() == old(self)@.released());
        }
        self.borrow_stack_pointer
    }

    /// Push a borrow frame before a nested operation that may use borrowed refs.
    /// This saves the current borrow stack pointer so we can restore it later.
    pub fn push_borrow_frame(&mut self)
        requires
            old(self)@.wf(),
        ensures
            final(self)@ == old(self)@.frame_pushed(),
            final(self)@.wf(),
    {
        self.borrow_frame_stack.push(self.borrow_stack_pointer);
        proof {
            assert(self@.ids_to_free =~= old(self)@.ids_to_free);
            assert forall|i: int| 0 <= i < self@.borrow_frame_stack.len() implies 1
                <= #[trigger] self@.borrow_frame_stack[i] <= JSIDX_OFFSET by {
                if i < old(self)@.borrow_frame_stack.len() {
                    assert(self@.borrow_frame_stack[i] == old(self)@.borrow_frame_stack[i]);
                }
            }
        }
    }

    /// Pop a borrow frame after a nested operation completes.
    /// This restores the borrow stack pointer to where it was before the nested operation.
    pub fn pop_borrow_frame(&mut self)
        requires
            old(self)@.wf(),
            old(self)@.borrow_frame_stack.len() > 0,
        ensures
            final(self)@ == old(self)@.frame_popped(),
            final(self)@.wf(),
    {
        let ghost s = self@;
        match self.borrow_frame_stack.pop() {
            Some(saved_pointer) => {
                self.borrow_stack_pointer = saved_pointer;
                proof {
                    assert(self@.ids_to_free =~= s.ids_to_free);
                    assert(s.borrow_frame_stack[s.borrow_frame_stack.len() - 1] == saved_pointer);
                    assert forall|i: int| 0 <= i < self@.borrow_frame_stack.len() implies 1
                        <= #[trigger] self@.borrow_frame_stack[i] <= JSIDX_OFFSET by {
                        assert(self@.borrow_frame_stack[i] == s.borrow_frame_stack[i]);
                    }
                }
            },
            None => {},
        }
    }

    /// Whether a heap id can still be handed out (ids are not exhausted).
    pub fn can_alloc(&self) -> (r: bool)
        ensures
            r == self@.can_alloc(),
    {
        self.free_ids.len() > 0 || self.max_id < u64::MAX
    }

    /// Whether `id` may be released: it is not reserved, and not released already
    /// (a double free).
    pub fn may_release(&self, id: u64) -> (r: bool)
        requires
            self@.wf(),
        ensures
            r == (JSIDX_RESERVED <= id && !self@.released().contains(id)),
    {
        if id < JSIDX_RESERVED {
            return false;
        }
        if id >= self.max_id {
            return true;
        }
        self.holds_live_id(id)
    }

    /// Whether `id` has been handed out and not released since.
    pub fn holds_live_id(&self, id: u64) -> (r: bool)
        ensures
            r == self@.is_live(id),
    {
        if id < JSIDX_RESERVED || id >= self.max_id {
            return false;
        }
        let mut i: usize = 0;
        while i < self.free_ids.len()
            invariant
                i <= self.free_ids@.len(),
                forall|k: int| 0 <= k < i ==> self.free_ids@[k] != id,
            decreases self.free_ids@.len() - i,
        {
            if self.free_ids[i] == id {
                assert(self@.released()[i as int] == id);
                return false;
            }
            i = i + 1;
        }
        let mut j: usize = 0;
        while j < self.ids_to_free.len()
            invariant
                j <= self.ids_to_free@.len(),
                forall|k: int| 0 <= k < j ==> !(#[trigger] self@.ids_to_free[k]).contains(id),
            decreases self.ids_to_free@.len() - j,
        {
            let list = &self.ids_to_free[j];
            assert(self@.ids_to_free.len() == self.ids_to_free@.len());
            let mut m: usize = 0;
            while m < list.len()
                invariant
                    m <= list@.len(),
                    j < self@.ids_to_free.len(),
                    list@ == self@.ids_to_free[j as int],
                    forall|k: int| 0 <= k < m ==> list@[k] != id,
                decreases list@.len() - m,
            {
                if list[m] == id {
                    proof {
                        assert(self@.ids_to_free[j as int].contains(id));
                        lemma_flatten_contains(self@.ids_to_free, j as int, id);
                        assert(self@.released().contains(id)) by {
                            let f = flatten(self@.ids_to_free);
                            let w = choose|p: int| 0 <= p < f.len() && f[p] == id;
                            assert(self@.released()[self@.free_ids.len() + w] == id);
                        }
                    }
                    return false;
                }
                m = m + 1;
            }
            assert(!self@.ids_to_free[j as int].contains(id));
            j = j + 1;
        }
        proof {
            lemma_flatten_excludes(self@.ids_to_free, id);
            if self@.released().contains(id) {
                let p = choose|p: int| 0 <= p < self@.released().len() && self@.released()[p] == id;
                if p >= self@.free_ids.len() {
                    assert(flatten(self@.ids_to_free)[p - self@.free_ids.len()] == id);
                }
            }
        }
        true
    }

    /// Release a heap ID back to the free-list and queue it for JS drop.
    ///
    /// A reserved id is never released, and a second release of one id is a double
    /// free. A live id is queued with the ongoing operation, or, outside any operation,
    /// put on the free list and returned so that JS drops it. An id that was never
    /// handed out (at or above `max_id`) is returned for JS to drop at once and kept off
    /// the free list, which would otherwise let `get_next_heap_id` hand it out twice.
    pub fn release_heap_id(&mut self, id: u64) -> (r: Option<u64>)
        requires
            old(self)@.wf(),
            JSIDX_RESERVED <= id,
            !old(self)@.released().contains(id),
        ensures
            final(self)@.wf(),
            !final(self)@.is_live(id),
            forall|other: u64| other != id ==> (#[trigger] final(self)@.is_live(other) == old(self)@.is_live(other)),
            id >= old(self)@.max_id ==> r == Some(id) && final(self)@ == old(self)@,
            id < old(self)@.max_id ==> final(self)@.released() == old(self)@.released().push(id),
            id < old(self)@.max_id && old(self)@.ids_to_free.len() > 0 ==> r is None && final(self)@ == (BatchView {
                ids_to_free: old(self)@.ids_to_free.update(
                    old(self)@.ids_to_free.len() - 1,
                    old(self)@.ids_to_free.last().push(id),
                ),
                ..old(self)@
            }),
            id < old(self)@.max_id && old(self)@.ids_to_free.len() == 0 ==> r == Some(id)
                && final(self)@ == old(self)@.released_outside(id),
    {
        let ghost s = self@;
        if id >= self.max_id {
            return Some(id);
        }
        let n = self.ids_to_free.len();
        if n > 0 {
            let mut last = self.ids_to_free.pop().unwrap();
            let ghost prior = last@;
            last.push(id);
            self.ids_to_free.push(last);
            proof {
                assert(self@.ids_to_free =~= s.ids_to_free.update(n - 1, prior.push(id)));
                assert(s.ids_to_free.last() == prior);
                lemma_flatten_update_last(s.ids_to_free, prior.push(id));
                assert(s.ids_to_free =~= s.ids_to_free.drop_last().push(prior));
                lemma_flatten_push(s.ids_to_free.drop_last(), prior);
                assert(self@.released() =~= s.released().push(id));
                lemma_push_no_dup(s.released(), id);
                lemma_push_contains(s.released(), id);
            }
            None
        } else {
            self.free_ids.push(id);
            proof {
                assert(self@.ids_to_free =~= s.ids_to_free);
                assert(s.ids_to_free =~= Seq::<Seq<u64>>::empty());
                assert(s.released() =~= s.free_ids);
                assert(self@.released() =~= s.released().push(id));
                lemma_push_no_dup(s.released(), id);
                lemma_push_contains(s.released(), id);
            }
            Some(id)
        }
    }

    /// Take the message data and reset the batch for reuse.
    pub fn take_message(&mut self) -> (r: IPCMessage)
        requires
            old(self)@.encoder.byte_len() <= u32::MAX,
        ensures
            r@ == old(self)@.encoder.serialize(),
            final(self)@ == (BatchView { encoder: evaluate_start(), ..old(self)@ }),
    {
        let encoder = self.take_encoder();
        IPCMessage::new(encoder.to_bytes())
    }

    /// Whether the accumulated batch fits a message.
    pub fn message_fits(&self) -> (r: bool)
        ensures
            r == (self@.encoder.byte_len() <= u32::MAX),
    {
        self.encoder.fits_message()
    }

    /// Whether the batch holds no operation (only the header and the type byte).
    pub fn is_empty(&self) -> (r: bool)
        requires
            self@.encoder.byte_len() <= usize::MAX,
        ensures
            r == (self@.encoder.byte_len() <= 13),
    {
        self.encoder.byte_len() <= 13
    }

    /// Open a new list of ids to free when the current operation completes.
    pub fn push_ids_to_free(&mut self)
        requires
            old(self)@.wf(),
        ensures
            final(self)@ == (BatchView {
                ids_to_free: old(self)@.ids_to_free.push(Seq::empty()),
                ..old(self)@
            }),
            final(self)@.wf(),
    {
        self.ids_to_free.push(Vec::new());
        proof {
            let s = old(self)@;
            assert(self@.ids_to_free =~= s.ids_to_free.push(Seq::empty()));
            lemma_flatten_push(s.ids_to_free, Seq::empty());
            assert(self@.released() =~= s.released());
        }
    }

    /// Close the innermost list of ids to free. Its ids move to the enclosing list when
    /// there is one; otherwise they become free and are returned, for JS to drop.
    pub fn pop_and_release_ids(&mut self) -> (r: Vec<u64>)
        requires
            old(self)@.wf(),
        ensures
            final(self)@.wf(),
            old(self)@.ids_to_free.len() == 0 ==> r@ == Seq::<u64>::empty() && final(self)@
                == old(self)@,
            old(self)@.ids_to_free.len() == 1 ==> r@ == old(self)@.ids_to_free.last() && final(self)@ == (BatchView {
                free_ids: old(self)@.free_ids + old(self)@.ids_to_free.last(),
                ids_to_free: Seq::empty(),
                ..old(self)@
            }),
            old(self)@.ids_to_free.len() > 1 ==> r@ == Seq::<u64>::empty() && final(self)@ == (
            BatchView {
                ids_to_free: old(self)@.ids_to_free.drop_last().update(
                    old(self)@.ids_to_free.len() - 2,
                    old(self)@.ids_to_free[old(self)@.ids_to_free.len() - 2]
                        + old(self)@.ids_to_free.last(),
                ),
                ..old(self)@
            }),
    {
        let ghost s = self@;
        let mut to_free: Vec<u64> = Vec::new();
        match self.ids_to_free.pop() {
            Some(ids) => {
                proof {
                    assert(self@.ids_to_free =~= s.ids_to_free.drop_last());
                    assert(s.ids_to_free =~= s.ids_to_free.drop_last().push(ids@));
                    lemma_flatten_push(s.ids_to_free.drop_last(), ids@);
                    assert(s.released() =~= self@.released() + ids@);
                    lemma_no_dup_concat(self@.released(), ids@);
                    assert forall|x: u64| #[trigger] self@.released().contains(x) implies s.released().contains(x) by {
                        let k = choose|k: int| 0 <= k < self@.released().len() && self@.released()[k] == x;
                        assert(s.released()[k] == x);
                    }
                    assert(ids@.subrange(0, ids@.len() as int) =~= ids@);
                }
                let mut i: usize = 0;
                while i < ids.len()
                    invariant
                        i <= ids@.len(),
                        s.wf(),
                        self@.wf(),
                        self@.released() + ids@.subrange(i as int, ids@.len() as int)
                            =~= s.released(),
                        self@.max_id == s.max_id,
                        self@.borrow_stack_pointer == s.borrow_stack_pointer,
                        self@.borrow_frame_stack == s.borrow_frame_stack,
                        self@.is_batching == s.is_batching,
                        self@.encoder == s.encoder,
                        s.ids_to_free.len() == 1 ==> self@.free_ids == s.free_ids + ids@.take(
                            i as int,
                        ) && self@.ids_to_free.len() == 0 && to_free@ == ids@.take(i as int),
                        s.ids_to_free.len() > 1 ==> self@.free_ids == s.free_ids
                            && to_free@ == Seq::<u64>::empty() && self@.ids_to_free == s.ids_to_free.drop_last().update(
                            s.ids_to_free.len() - 2,
                            s.ids_to_free[s.ids_to_free.len() - 2] + ids@.take(i as int),
                        ),
                    decreases ids@.len() - i,
                {
                    let id = ids[i];
                    proof {
                        let rest = ids@.subrange(i as int, ids@.len() as int);
                        assert(rest[0] == id);
                        assert(rest.contains(id));
                        assert(self@.released() + rest == s.released());
                        lemma_no_dup_concat(self@.released(), rest);
                        assert(!self@.released().contains(id));
                        assert(s.released()[self@.released().len() as int] == id);
                        assert(s.released().contains(id));
                    }
                    let freed = self.release_heap_id(id);
                    match freed {
                        Some(f) => {
                            to_free.push(f);
                        },
                        None => {},
                    }
                    proof {
                        assert(ids@.take(i + 1) =~= ids@.take(i as int).push(id));
                        assert(ids@.subrange(i as int, ids@.len() as int) =~= seq![id] + ids@.subrange(i + 1, ids@.len() as int));
                        if s.ids_to_free.len() > 1 {
                            assert(self@.ids_to_free =~= s.ids_to_free.drop_last().update(
                                s.ids_to_free.len() - 2,
                                s.ids_to_free[s.ids_to_free.len() - 2] + ids@.take(i + 1),
                            ));
                        }
                    }
                    i = i + 1;
                }
                proof {
                    assert(ids@.take(i as int) =~= ids@);
                    if s.ids_to_free.len() == 1 {
                        assert(self@.ids_to_free =~= Seq::<Seq<u64>>::empty());
                    }
                }
            },
            None => {},
        }
        to_free
    }

    /// Enter or leave batching mode.
    pub fn set_batching(&mut self, batching: bool)
        ensures
            final(self)@ == (BatchView { is_batching: batching, ..old(self)@ }),
    {
        self.is_batching = batching;
        proof {
            assert(self@.ids_to_free =~= old(self)@.ids_to_free);
        }
    }

    /// Whether we're inside a batch() call.
    pub fn is_batching(&self) -> (r: bool)
        ensures
            r == self@.is_batching,
    {
        self.is_batching
    }

    /// Take the accumulated operations, leaving a fresh evaluate batch.
    pub fn take_encoder(&mut self) -> (r: EncodedData)
        ensures
            r@ == old(self)@.encoder,
            final(self)@ == (BatchView { encoder: evaluate_start(), ..old(self)@ }),
    {
        let mut r = Self::new_encoder_for_evaluate();
        core::mem::swap(&mut self.encoder, &mut r);
        proof {
            assert(self@.ids_to_free =~= old(self)@.ids_to_free);
        }
        r
    }

    /// Start encoding an operation: open its list of ids to free, and take the batch out
    /// so that calls made while the arguments are encoded queue up behind it.
    pub fn begin_operation(&mut self) -> (r: EncodedData)
        requires
            old(self)@.wf(),
        ensures
            r@ == old(self)@.encoder,
            final(self)@ == (BatchView {
                encoder: evaluate_start(),
                ids_to_free: old(self)@.ids_to_free.push(Seq::empty()),
                ..old(self)@
            }),
            final(self)@.wf(),
    {
        self.push_ids_to_free();
        self.take_encoder()
    }

    /// Finish encoding an operation: put the batch back, followed by whatever was
    /// encoded in the meantime (without its type byte).
    pub fn end_operation_encoding(&mut self, batch: EncodedData)
        requires
            old(self)@.encoder.u8s.len() >= 1,
        ensures
            final(self)@ == (BatchView {
                encoder: batch@.append(
                    old(self)@.encoder.with_u8s(old(self)@.encoder.u8s.drop_first()),
                ),
                ..old(self)@
            }),
    {
        let mut during = batch;
        core::mem::swap(&mut self.encoder, &mut during);
        self.extend_encoder(&during);
        proof {
            assert(self@.ids_to_free =~= old(self)@.ids_to_free);
        }
    }

    /// How the result of a call is obtained: decoded from the answer when its type needs
    /// a flush; otherwise a placeholder, after a flush when not batching (so that the call
    /// has run when it returns).
    pub fn call_plan(&self, needs_flush: bool) -> (r: CallPlan)
        ensures
            r == (if needs_flush {
                CallPlan::FlushAndDecode
            } else if !self@.is_batching {
                CallPlan::FlushThenPlaceholder
            } else {
                CallPlan::Placeholder
            }),
    {
        if needs_flush {
            CallPlan::FlushAndDecode
        } else if !self.is_batching {
            CallPlan::FlushThenPlaceholder
        } else {
            CallPlan::Placeholder
        }
    }

    /// Append the operations of `other` (an evaluate batch) without its type byte.
    pub fn extend_encoder(&mut self, other: &EncodedData)
        requires
            other@.u8s.len() >= 1,
        ensures
            final(self)@ == (BatchView {
                encoder: old(self)@.encoder.append(other@.with_u8s(other@.u8s.drop_first())),
                ..old(self)@
            }),
    {
        self.encoder.extend_after_first_u8(other);
        proof {
            assert(self@.ids_to_free =~= old(self)@.ids_to_free);
        }
    }
}

/// After a push, the sequence holds the new element and otherwise what it held.
proof fn lemma_push_contains(s: Seq<u64>, x: u64)
    ensures
        s.push(x).contains(x),
        forall|y: u64| y != x ==> (#[trigger] s.push(x).contains(y) == s.contains(y)),
{
    assert(s.push(x)[s.len() as int] == x);
    assert forall|y: u64| y != x implies (#[trigger] s.push(x).contains(y) == s.contains(y)) by {
        if s.contains(y) {
            let k = choose|k: int| 0 <= k < s.len() && s[k] == y;
            assert(s.push(x)[k] == y);
        }
        if s.push(x).contains(y) {
            let k = choose|k: int| 0 <= k < s.push(x).len() && s.push(x)[k] == y;
            assert(s[k] == y);
        }
    }
}

/// The parts of a duplicate-free concatenation are duplicate-free and disjoint.
proof fn lemma_no_dup_concat(a: Seq<u64>, b: Seq<u64>)
    requires
        (a + b).no_duplicates(),
    ensures
        a.no_duplicates(),
        b.no_duplicates(),
        forall|x: u64| #[trigger] b.contains(x) ==> !a.contains(x),
{
    let c = a + b;
    assert forall|i: int, j: int| 0 <= i < j < a.len() implies a[i] != a[j] by {
        assert(c[i] == a[i] && c[j] == a[j]);
    }
    assert forall|i: int, j: int| 0 <= i < j < b.len() implies b[i] != b[j] by {
        assert(c[a.len() + i] == b[i] && c[a.len() + j] == b[j]);
    }
    assert forall|x: u64| #[trigger] b.contains(x) implies !a.contains(x) by {
        let j = choose|j: int| 0 <= j < b.len() && b[j] == x;
        if a.contains(x) {
            let i = choose|i: int| 0 <= i < a.len() && a[i] == x;
            assert(c[i] == c[a.len() + j]);
        }
    }
}

/// Removing an element from the middle of a duplicate-free sequence.
proof fn lemma_no_dup_middle(a: Seq<u64>, x: u64, b: Seq<u64>)
    requires
        (a + seq![x] + b).no_duplicates(),
    ensures
        (a + b).no_duplicates(),
        !(a + b).contains(x),
{
    let c = a + seq![x] + b;
    let d = a + b;
    assert forall|i: int, j: int| 0 <= i < j < d.len() implies d[i] != d[j] by {
        let ii = if i < a.len() { i } else { i + 1 };
        let jj = if j < a.len() { j } else { j + 1 };
        assert(c[ii] == d[i] && c[jj] == d[j]);
    }
    if d.contains(x) {
        let k = choose|k: int| 0 <= k < d.len() && d[k] == x;
        let kk = if k < a.len() { k } else { k + 1 };
        assert(c[kk] == c[a.len() as int]);
    }
}

/// Pushing an element that is not there keeps a sequence free of duplicates.
proof fn lemma_push_no_dup(s: Seq<u64>, x: u64)
    requires
        s.no_duplicates(),
        !s.contains(x),
    ensures
        s.push(x).no_duplicates(),
{
    assert forall|i: int, j: int| 0 <= i < j < s.push(x).len() implies s.push(x)[i] != s.push(x)[j] by {
        if j == s.len() {
            assert(s[i] == s.push(x)[i]);
        }
    }
}


/// How the result of a call is obtained.
#[derive(Debug, Clone, Copy, PartialEq, Eq, Structural)]
pub enum CallPlan {
    /// Send the batch and decode the result from the answer.
    FlushAndDecode,
    /// Send the batch, wait for it to run, and hand out a placeholder.
    FlushThenPlaceholder,
    /// Hand out a placeholder; the call runs with the rest of the batch.
    Placeholder,
}

/// Add an operation to a batch: the function id, then its encoded arguments.
pub fn add_operation(encoder: &mut EncodedData, fn_id: u32, args: &EncodedData)
    ensures
        final(encoder)@ == old(encoder)@.append(Buffers::empty().with_u32s(seq![fn_id])).append(
            args@,
        ),
{
    encoder.push_u32(fn_id);
    encoder.extend(args);
    assert(old(encoder)@.with_u32s(old(encoder)@.u32s.push(fn_id)) =~= old(encoder)@.append(
        Buffers::empty().with_u32s(seq![fn_id]),
    ));
}

/// Why the answer to a flushed batch could not be read.
#[derive(Debug)]
pub enum ResponseError {
    /// The return value could not be decoded.
    Decode(DecodeError),
    /// Data remained after the return value.
    TrailingData,
}

/// Reads the return value of a flushed batch from its answer, which must hold nothing else.
pub fn decode_response<R: BinaryDecode>(data: &mut DecodedData) -> (r: Result<R, ResponseError>)
    ensures
        match r {
            Ok(v) => R::decodes_to(old(data)@, Ok(v), final(data)@) && final(data)@.is_empty(),
            Err(ResponseError::Decode(e)) => R::decodes_to(old(data)@, Err(e), final(data)@),
            Err(ResponseError::TrailingData) => exists|v: R|
                R::decodes_to(old(data)@, Ok(v), final(data)@) && !final(data)@.is_empty(),
        },
{
    match R::decode(data) {
        Err(e) => Err(ResponseError::Decode(e)),
        Ok(v) => {
            if data.is_empty() {
                Ok(v)
            } else {
                Err(ResponseError::TrailingData)
            }
        },
    }
}

/// Borrowed references live within a frame: saving the borrow stack pointer, taking
/// any number of borrow ids, and restoring it gives back the state before.
pub proof fn lemma_borrow_frame_restores(v: BatchView, n: nat)
    ensures
        v.frame_pushed().borrowed_n(n).frame_popped() == v,
    decreases n,
{
    lemma_borrowed_n_frames(v.frame_pushed(), n);
    assert(v.frame_pushed().borrow_frame_stack.drop_last() =~= v.borrow_frame_stack);
}

/// Taking borrow ids leaves everything but the borrow stack pointer as it was.
proof fn lemma_borrowed_n_frames(v: BatchView, n: nat)
    ensures
        v.borrowed_n(n) == (BatchView {
            borrow_stack_pointer: v.borrowed_n(n).borrow_stack_pointer,
            ..v
        }),
    decreases n,
{
    if n > 0 {
        lemma_borrowed_n_frames(v, (n - 1) as nat);
    }
}

/// An id released outside any operation is the next one handed out, and handing it out
/// gives back the state before the release.
pub proof fn lemma_release_then_alloc(v: BatchView, id: u64)
    ensures
        v.released_outside(id).next_heap_id() == id,
        v.released_outside(id).after_heap_alloc() == v,
{
    assert(v.released_outside(id).free_ids.drop_last() =~= v.free_ids);
}

/// Popping a frame restores the borrow stack pointer that was saved when it was
/// pushed, whatever happened inside: any borrow ids taken, and any frames pushed and
/// popped again, which leave the frame stack as the push left it.
pub proof fn lemma_pop_restores_saved_pointer(v: BatchView, w: BatchView)
    requires
        w.borrow_frame_stack == v.frame_pushed().borrow_frame_stack,
    ensures
        w.frame_popped().borrow_stack_pointer == v.borrow_stack_pointer,
        w.frame_popped().borrow_frame_stack == v.borrow_frame_stack,
{
    assert(v.frame_pushed().borrow_frame_stack.drop_last() =~= v.borrow_frame_stack);
}

/// Taking borrow ids leaves the frame stack as it was, so a frame pushed and popped
/// around them, or nested inside another, is balanced.
pub proof fn lemma_borrowing_keeps_frames(v: BatchView, n: nat)
    ensures
        v.borrowed_n(n).borrow_frame_stack == v.borrow_frame_stack,
{
    lemma_borrowed_n_frames(v, n);
}

/// A step on the borrow stack: taking a borrow id, pushing a frame, popping one.
pub enum BorrowStep {
    Borrow,
    PushFrame,
    PopFrame,
}

/// The state after one step, as `get_next_borrow_id`, `push_borrow_frame` and
/// `pop_borrow_frame` leave it.
pub open spec fn after_step(v: BatchView, step: BorrowStep) -> BatchView {
    match step {
        BorrowStep::Borrow => v.borrowed(),
        BorrowStep::PushFrame => v.frame_pushed(),
        BorrowStep::PopFrame => v.frame_popped(),
    }
}

/// The state after the steps, first to last.
pub open spec fn after_steps(v: BatchView, steps: Seq<BorrowStep>) -> BatchView
    decreases steps.len(),
{
    if steps.len() == 0 {
        v
    } else {
        after_step(after_steps(v, steps.drop_last()), steps.last())
    }
}

/// How many more frames the steps push than pop.
pub open spec fn frame_depth(steps: Seq<BorrowStep>) -> int
    decreases steps.len(),
{
    if steps.len() == 0 {
        0
    } else {
        frame_depth(steps.drop_last()) + match steps.last() {
            BorrowStep::PushFrame => 1int,
            BorrowStep::PopFrame => -1int,
            BorrowStep::Borrow => 0int,
        }
    }
}

/// Whether every frame the steps pop was pushed by them, and every one they push is
/// popped again.
pub open spec fn balanced_steps(steps: Seq<BorrowStep>) -> bool {
    &&& forall|i: int| 0 <= i <= steps.len() ==> frame_depth(#[trigger] steps.take(i)) >= 0
    &&& frame_depth(steps) == 0
}

/// Steps whose pops never outnumber their pushes leave the frames below untouched and
/// add one frame per unmatched push.
proof fn lemma_steps_keep_lower_frames(v: BatchView, steps: Seq<BorrowStep>)
    requires
        forall|i: int| 0 <= i <= steps.len() ==> frame_depth(#[trigger] steps.take(i)) >= 0,
    ensures
        after_steps(v, steps).borrow_frame_stack.len() == v.borrow_frame_stack.len()
            + frame_depth(steps),
        after_steps(v, steps).borrow_frame_stack.take(v.borrow_frame_stack.len() as int)
            == v.borrow_frame_stack,
    decreases steps.len(),
{
    if steps.len() == 0 {
        assert(v.borrow_frame_stack.take(v.borrow_frame_stack.len() as int) =~= v.borrow_frame_stack);
    } else {
        let prev = steps.drop_last();
        assert forall|i: int| 0 <= i <= prev.len() implies frame_depth(#[trigger] prev.take(i)) >= 0 by {
            assert(prev.take(i) =~= steps.take(i));
        }
        lemma_steps_keep_lower_frames(v, prev);
        assert(steps.take(steps.len() as int) =~= steps);
        let w = after_steps(v, prev);
        let n = v.borrow_frame_stack.len() as int;
        match steps.last() {
            BorrowStep::Borrow => {},
            BorrowStep::PushFrame => {
                assert(w.borrow_frame_stack.push(w.borrow_stack_pointer).take(n) =~= w.borrow_frame_stack.take(n));
            },
            BorrowStep::PopFrame => {
                assert(w.borrow_frame_stack.drop_last().take(n) =~= w.borrow_frame_stack.take(n));
            },
        }
    }
}

/// A frame restores the borrow stack pointer it saved: pushing a frame, then any
/// balanced steps (borrow ids taken, frames pushed and popped again), then popping the
/// frame gives back the pointer and the frames as they were before the push.
pub proof fn lemma_balanced_frame_restores_pointer(v: BatchView, steps: Seq<BorrowStep>)
    requires
        balanced_steps(steps),
    ensures
        after_steps(v.frame_pushed(), steps).frame_popped().borrow_stack_pointer
            == v.borrow_stack_pointer,
        after_steps(v.frame_pushed(), steps).frame_popped().borrow_frame_stack
            == v.borrow_frame_stack,
{
    let w = v.frame_pushed();
    lemma_steps_keep_lower_frames(w, steps);
    let u = after_steps(w, steps);
    assert(u.borrow_frame_stack =~= u.borrow_frame_stack.take(w.borrow_frame_stack.len() as int));
    lemma_pop_restores_saved_pointer(v, u);
}

} // verus!
