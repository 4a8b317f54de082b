//! The order of text handles: that of their texts.
use crate::text::{lexical_order, text_bytes_of, RustCStringWrapper, TextOrder};
use std::cmp::Ordering;
use vstd::prelude::*;

verus! {

impl PartialOrd for RustCStringWrapper {
    fn partial_cmp(&self, other: &Self) -> (r: Option<Ordering>) {
        match self.compare(other) {
            TextOrder::Less => Some(Ordering::Less),
            TextOrder::Equal => Some(Ordering::Equal),
            TextOrder::Greater => Some(Ordering::Greater),
        }
    }
}

impl vstd::std_specs::cmp::PartialOrdSpecImpl for RustCStringWrapper {
    open spec fn obeys_partial_cmp_spec() -> bool {
        true
    }

    open spec fn partial_cmp_spec(&self, other: &Self) -> Option<Ordering> {
        match lexical_order(text_bytes_of(self@), text_bytes_of(other@)) {
            TextOrder::Less => Some(Ordering::Less),
            TextOrder::Equal => Some(Ordering::Equal),
            TextOrder::Greater => Some(Ordering::Greater),
        }
    }
}

} // verus!
