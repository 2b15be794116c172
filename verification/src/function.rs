//! JavaScript function references and the cache of type definitions sent to JavaScript.

use vstd::prelude::*;
use crate::encode::{TYPE_CACHED, TYPE_FULL};
use crate::ipc::{Buffers, EncodedData};

verus! {

/// Reserved function ID for dropping native Rust refs when JS objects are GC'd.
/// JS sends this when a FinalizationRegistry callback fires for a RustFunction.
pub const DROP_NATIVE_REF_FN_ID: u32 = 0xFFFFFFFF;

/// Reserved function ID for calling exported Rust struct methods from JS.
/// JS sends this with the export name to call the appropriate handler.
pub const CALL_EXPORT_FN_ID: u32 = 0xFFFFFFFE;

/// A reference to a JavaScript function that can be called from Rust.
///
/// The type parameter encodes the function signature.
/// Arguments and return values are serialized using the binary protocol.
pub struct JSFunction<T> {
    id: u32,
    function: core::marker::PhantomData<T>,
}

impl<T> JSFunction<T> {
    /// The function ID.
    pub closed spec fn spec_id(&self) -> u32 {
        self.id
    }

    pub fn new(id: u32) -> (r: Self)
        ensures
            r.spec_id() == id,
    {
        JSFunction { id, function: core::marker::PhantomData }
    }

    /// Get the function ID.
    pub fn id(&self) -> (r: u32)
        ensures
            r == self.spec_id(),
    {
        self.id
    }

    /// The data of a call of this function with the given signature description and
    /// encoded arguments: the (possibly cached) type definition, then the arguments.
    pub fn call_data(&self, cache: &mut TypeCache, type_def: Vec<u8>, args: &EncodedData) -> (r:
        EncodedData)
        requires
            old(cache).wf(),
            old(cache)@.len() < u32::MAX,
        ensures
            final(cache).wf(),
            final(cache)@ == cache_after(old(cache)@, type_def@),
            r@ == type_header(old(cache)@, type_def@).append(args@),
    {
        let mut encoder = EncodedData::new();
        encode_function_types(&mut encoder, cache, type_def);
        encoder.extend(args);
        assert(Buffers::empty().append(type_header(old(cache)@, type_def@)) =~= type_header(
            old(cache)@,
            type_def@,
        ));
        encoder
    }
}

/// Cache of the type definitions already sent to JavaScript; the id of a
/// definition is its position. A vector searched in order: vstd specifies `BTreeMap`
/// only for keys whose order obeys its model, which byte strings do not.
pub struct TypeCache {
    entries: Vec<Vec<u8>>,
}

impl View for TypeCache {
    type V = Seq<Seq<u8>>;

    closed spec fn view(&self) -> Seq<Seq<u8>> {
        Seq::new(self.entries@.len(), |i: int| self.entries@[i]@)
    }
}

/// The id under which a type definition was cached.
pub open spec fn cached_id(cache: Seq<Seq<u8>>, t: Seq<u8>) -> int {
    cache.index_of(t)
}

/// What is sent for a type definition: a reference to the cached id, or the full
/// definition under the next id.
pub open spec fn type_header(cache: Seq<Seq<u8>>, t: Seq<u8>) -> Buffers {
    if cache.contains(t) {
        Buffers::empty().with_u8s(seq![TYPE_CACHED]).with_u32s(seq![cached_id(cache, t) as u32])
    } else {
        Buffers::empty().with_u8s(seq![TYPE_FULL] + t).with_u32s(seq![cache.len() as u32])
    }
}

/// The cache after sending a type definition.
pub open spec fn cache_after(cache: Seq<Seq<u8>>, t: Seq<u8>) -> Seq<Seq<u8>> {
    if cache.contains(t) {
        cache
    } else {
        cache.push(t)
    }
}

impl TypeCache {
    /// Every type definition is cached at most once.
    pub open spec fn wf(&self) -> bool {
        self@.no_duplicates()
    }

    /// An empty cache.
    pub fn new() -> (r: Self)
        ensures
            r@ == Seq::<Seq<u8>>::empty(),
            r.wf(),
    {
        let r = TypeCache { entries: Vec::new() };
        assert(r@ =~= Seq::<Seq<u8>>::empty());
        r
    }

    /// The position of `t` in the cache, if it is there.
    fn find(&self, t: &Vec<u8>) -> (r: Option<usize>)
        ensures
            match r {
                Some(i) => i < self@.len() && self@[i as int] == t@,
                None => !self@.contains(t@),
            },
    {
        let mut i: usize = 0;
        while i < self.entries.len()
            invariant
                i <= self.entries@.len(),
                forall|j: int| 0 <= j < i ==> self@[j] != t@,
            decreases self.entries@.len() - i,
        {
            if bytes_eq(&self.entries[i], t) {
                return Some(i);
            }
            i = i + 1;
        }
        None
    }
}

/// Whether two byte vectors hold the same bytes.
fn bytes_eq(a: &Vec<u8>, b: &Vec<u8>) -> (r: bool)
    ensures
        r == (a@ == b@),
{
    if a.len() != b.len() {
        return false;
    }
    let mut i: usize = 0;
    while i < a.len()
        invariant
            i <= a@.len(),
            a@.len() == b@.len(),
            forall|j: int| 0 <= j < i ==> a@[j] == b@[j],
        decreases a@.len() - i,
    {
        if a[i] != b[i] {
            return false;
        }
        i = i + 1;
    }
    assert(a@ =~= b@);
    true
}

/// Encode type definitions for a function call.
/// On first call for a type signature, sends TYPE_FULL + id + the type definition.
/// On subsequent calls, sends TYPE_CACHED + id.
pub fn encode_function_types(encoder: &mut EncodedData, cache: &mut TypeCache, type_buf: Vec<u8>)
    requires
        old(cache).wf(),
        old(cache)@.len() < u32::MAX,
    ensures
        final(cache).wf(),
        final(cache)@ == cache_after(old(cache)@, type_buf@),
        final(encoder)@ == old(encoder)@.append(type_header(old(cache)@, type_buf@)),
{
    let ghost c = cache@;
    match cache.find(&type_buf) {
        Some(id) => {
            proof {
                assert(c.contains(type_buf@));
                let k = c.index_of(type_buf@);
                assert(0 <= k < c.len() && c[k] == type_buf@);
                assert(c[k] == c[id as int]);
            }
            encoder.push_u8(TYPE_CACHED);
            encoder.push_u32(id as u32);
        },
        None => {
            let id = cache.entries.len() as u32;
            encoder.push_u8(TYPE_FULL);
            encoder.push_u32(id);
            let mut i: usize = 0;
            let ghost mid = encoder@;
            while i < type_buf.len()
                invariant
                    i <= type_buf@.len(),
                    encoder@ == mid.with_u8s(mid.u8s + type_buf@.take(i as int)),
                decreases type_buf@.len() - i,
            {
                encoder.push_u8(type_buf[i]);
                i = i + 1;
                assert(encoder@.u8s =~= mid.u8s + type_buf@.take(i as int));
            }
            assert(type_buf@.take(i as int) =~= type_buf@);
            let ghost t = type_buf@;
            cache.entries.push(type_buf);
            proof {
                assert(cache@ =~= c.push(t));
                assert forall|a: int, b: int| 0 <= a < b < cache@.len() implies cache@[a]
                    != cache@[b] by {
                    if b == c.len() {
                        assert(cache@[a] == c[a]);
                    } else {
                        assert(cache@[a] == c[a] && cache@[b] == c[b]);
                    }
                }
            }
        },
    }
    assert(final(encoder)@ =~= old(encoder)@.append(type_header(old(cache)@, type_buf@)));
}

/// Sending the same type definition twice: the second time it goes by the id that
/// the first time gave it.
pub proof fn lemma_type_cache_reuse(cache: Seq<Seq<u8>>, t: Seq<u8>)
    requires
        cache.no_duplicates(),
    ensures
        cache_after(cache_after(cache, t), t) == cache_after(cache, t),
        type_header(cache_after(cache, t), t) == Buffers::empty().with_u8s(seq![TYPE_CACHED])
            .with_u32s(
            seq![
                (if cache.contains(t) {
                    cached_id(cache, t)
                } else {
                    cache.len() as int
                }) as u32,
            ],
        ),
{
    let c2 = cache_after(cache, t);
    if cache.contains(t) {
        let k = cache.index_of(t);
        assert(0 <= k < cache.len() && cache[k] == t);
    } else {
        assert(c2[cache.len() as int] == t);
        assert(c2.contains(t));
        let k = c2.index_of(t);
        assert(0 <= k < c2.len() && c2[k] == t);
        if k < cache.len() {
            assert(cache[k] == t);
        }
    }
}

/// Distinct type definitions are cached under distinct ids.
pub proof fn lemma_type_ids_distinct(cache: Seq<Seq<u8>>, t1: Seq<u8>, t2: Seq<u8>)
    requires
        cache.no_duplicates(),
        cache.contains(t1),
        cache.contains(t2),
        t1 != t2,
    ensures
        cached_id(cache, t1) != cached_id(cache, t2),
{
    let k1 = cache.index_of(t1);
    let k2 = cache.index_of(t2);
    assert(0 <= k1 < cache.len() && cache[k1] == t1);
    assert(0 <= k2 < cache.len() && cache[k2] == t2);
}

/// A cached type definition keeps its id whatever other definitions are sent after
/// it, and the cache never holds one definition twice.
pub proof fn lemma_type_id_stable(cache: Seq<Seq<u8>>, t: Seq<u8>, other: Seq<u8>)
    requires
        cache.no_duplicates(),
        cache.contains(t),
    ensures
        cache_after(cache, other).no_duplicates(),
        cache_after(cache, other).contains(t),
        cached_id(cache_after(cache, other), t) == cached_id(cache, t),
{
    let k = cache.index_of(t);
    assert(0 <= k < cache.len() && cache[k] == t);
    if !cache.contains(other) {
        let c2 = cache.push(other);
        assert(c2[k] == t);
        assert forall|a: int, b: int| 0 <= a < b < c2.len() implies c2[a] != c2[b] by {
            if b == cache.len() {
                assert(c2[a] == cache[a]);
                assert(cache.contains(cache[a]));
            }
        }
        let k2 = c2.index_of(t);
        assert(0 <= k2 < c2.len() && c2[k2] == t);
        assert(c2[k] == t);
    }
}

} // verus!
