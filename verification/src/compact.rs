//! The two capabilities of a value with a compact form: to be written, and to be read
//! back from the start of a buffer. A collaborator whose data travels inside this
//! library's messages provides them for its own types.

use vstd::prelude::*;
use crate::config::SerializationContext;
use crate::endorsement::{parse_endorsement, Endorsement};
use crate::error::ModelsError;
use crate::operation::{parse_operation, Operation};
use crate::slot::{parse_slot, Slot};

verus! {

/// A value that can be written in compact form.
pub trait SerializeCompact {
    /// The compact form under `context`, or nothing when the value has none.
    spec fn spec_compact(&self, context: SerializationContext) -> Option<Seq<u8>>;

    /// Writes the compact form. Fails exactly when the value has none.
    fn to_bytes_compact(&self, context: &SerializationContext) -> (r: Result<Vec<u8>, ModelsError>)
        ensures
            match self.spec_compact(*context) {
                Some(bytes) => r.is_ok() && r.unwrap()@ == bytes,
                None => r.is_err(),
            },
    ;
}

/// A value that can be read from the start of a buffer.
pub trait DeserializeCompact: Sized {
    /// What reading at the start of `buffer` yields under `context`: the value and the
    /// number of bytes read, or nothing when no value stands there.
    spec fn spec_read(buffer: Seq<u8>, context: SerializationContext) -> Option<(Self, int)>;

    /// Reads a value at the start of `buffer`: the value and the number of bytes read,
    /// which is no more than the buffer holds. Fails exactly when no value stands
    /// there.
    fn from_bytes_compact(buffer: &[u8], context: &SerializationContext) -> (r: Result<
        (Self, usize),
        ModelsError,
    >)
        ensures
            match Self::spec_read(buffer@, *context) {
                Some((value, read)) => r.is_ok() && r.unwrap().0 == value && r.unwrap().1 == read
                    && read <= buffer@.len(),
                None => r.is_err(),
            },
    ;
}

impl SerializeCompact for Slot {
    open spec fn spec_compact(&self, context: SerializationContext) -> Option<Seq<u8>> {
        Some(self.spec_bytes())
    }

    fn to_bytes_compact(&self, context: &SerializationContext) -> (r: Result<Vec<u8>, ModelsError>) {
        Ok(Slot::to_bytes_compact(self))
    }
}

impl DeserializeCompact for Slot {
    open spec fn spec_read(buffer: Seq<u8>, context: SerializationContext) -> Option<(Slot, int)> {
        parse_slot(buffer, 0, context.thread_count)
    }

    fn from_bytes_compact(buffer: &[u8], context: &SerializationContext) -> (r: Result<
        (Slot, usize),
        ModelsError,
    >) {
        Slot::from_bytes_compact_at(buffer, 0, context)
    }
}

impl SerializeCompact for Operation {
    open spec fn spec_compact(&self, context: SerializationContext) -> Option<Seq<u8>> {
        Some(self.spec_bytes())
    }

    fn to_bytes_compact(&self, context: &SerializationContext) -> (r: Result<Vec<u8>, ModelsError>) {
        Ok(Operation::to_bytes_compact(self))
    }
}

impl DeserializeCompact for Operation {
    open spec fn spec_read(buffer: Seq<u8>, context: SerializationContext) -> Option<
        (Operation, int),
    > {
        parse_operation(buffer, 0)
    }

    fn from_bytes_compact(buffer: &[u8], context: &SerializationContext) -> (r: Result<
        (Operation, usize),
        ModelsError,
    >) {
        Operation::from_bytes_compact_at(buffer, 0)
    }
}

impl SerializeCompact for Endorsement {
    open spec fn spec_compact(&self, context: SerializationContext) -> Option<Seq<u8>> {
        Some(self.spec_bytes())
    }

    fn to_bytes_compact(&self, context: &SerializationContext) -> (r: Result<Vec<u8>, ModelsError>) {
        Ok(Endorsement::to_bytes_compact(self))
    }
}

impl DeserializeCompact for Endorsement {
    open spec fn spec_read(buffer: Seq<u8>, context: SerializationContext) -> Option<
        (Endorsement, int),
    > {
        parse_endorsement(buffer, 0, context.thread_count)
    }

    fn from_bytes_compact(buffer: &[u8], context: &SerializationContext) -> (r: Result<
        (Endorsement, usize),
        ModelsError,
    >) {
        Endorsement::from_bytes_compact_at(buffer, 0, context)
    }
}

} // verus!
