//! The hash of a text handle: that of its text.
use crate::text::{lemma_text_by_bytes, text_bytes_of, RustCStringWrapper};
use core::hash::{Hash, Hasher};
use std::collections::hash_map::DefaultHasher;
use vstd::prelude::*;
use vstd::std_specs::hash::DefaultHasherAdditionalSpecFns;

verus! {

/// The hash that the default hasher gives a sequence of bytes written to
/// it at once.
pub open spec fn bytes_hash(bytes: Seq<u8>) -> u64 {
    DefaultHasher::spec_finish(seq![bytes])
}

/// The hash that the default hasher gives the text of a buffer.
pub open spec fn text_hash(bytes: Seq<u8>) -> u64 {
    bytes_hash(text_bytes_of(bytes))
}

/// The hash of the bytes under the default hasher.
pub fn hash_of_bytes(bytes: &[u8]) -> (r: u64)
    ensures
        r == bytes_hash(bytes@),
{
    let mut state = DefaultHasher::new();
    state.write(bytes);
    assert(state@ == seq![bytes@]);
    state.finish()
}

/// Buffers that decode to the same text have the same hash.
pub proof fn lemma_equal_texts_hash_equal(a: RustCStringWrapper, b: RustCStringWrapper)
    requires
        a.text() == b.text(),
    ensures
        text_hash(a@) == text_hash(b@),
{
    lemma_text_by_bytes(a@, b@);
}

impl RustCStringWrapper {
    /// The hash of the handle's text under the default hasher.
    pub fn hash_value(&self) -> (r: u64)
        ensures
            r == text_hash(self@),
    {
        hash_of_bytes(self.text_bytes())
    }
}

/// `Hasher::write`: feeds the bytes to the hasher. Nothing is claimed of the
/// state that a hasher of an unknown kind is left in.
#[verifier::external_body]
fn feed<H: Hasher>(state: &mut H, bytes: &[u8]) {
    state.write(bytes);
}

impl Hash for RustCStringWrapper {
    /// Feeds the bytes of the handle's text, so that handles with the same
    /// text feed the same bytes.
    fn hash<H: Hasher>(&self, state: &mut H) {
        feed(state, self.text_bytes());
    }
}

} // verus!
