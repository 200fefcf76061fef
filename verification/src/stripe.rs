//! Stripe-level descriptors: the kind of a stream, the record of one
//! serialized stream, and the record of one completed stripe.

use vstd::prelude::*;

verus! {

/// The kind of a stream within a stripe.
#[derive(Clone, Copy, PartialEq, Eq, Structural, Debug)]
pub enum StreamKind {
    Present,
    Data,
    Length,
    Secondary,
    DictionaryData,
    RowIndex,
}

/// One serialized stream: its kind, its column, and its byte length.
/// Offsets are implicit: a reader prefix-sums lengths in footer order.
#[derive(Clone, Copy, PartialEq, Eq, Structural, Debug)]
pub struct StreamInfo {
    pub kind: StreamKind,
    pub column_id: u32,
    pub length: u64,
}

/// One completed stripe, as recorded in the file footer.
#[derive(Clone, Copy, PartialEq, Eq, Structural, Debug)]
pub struct StripeInfo {
    pub offset: u64,
    pub index_length: u64,
    pub data_length: u64,
    pub footer_length: u64,
    pub num_rows: u64,
}

} // verus!
