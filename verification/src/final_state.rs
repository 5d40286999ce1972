//! The snapshot from which a final state is bootstrapped: the slot at whose output
//! the state is attached, and the final ledger as its owner writes it.

use vstd::prelude::*;
use crate::codec::extend_bytes;
use crate::compact::{DeserializeCompact, SerializeCompact};
use crate::config::SerializationContext;
use crate::error::ModelsError;
use crate::slot::{parse_slot, Slot};

verus! {

/// A snapshot of the final state, enough to bootstrap one. The ledger is whatever the
/// ledger's owner hands over in compact form.
#[derive(Debug, Clone)]
pub struct FinalStateBootstrap<L> {
    /// The slot at the output of which the state is attached.
    pub slot: Slot,
    /// The final ledger.
    pub ledger: L,
}

impl<L: SerializeCompact> FinalStateBootstrap<L> {
    /// The compact form: the slot, then the ledger. Nothing when the ledger has none.
    pub open spec fn spec_bytes(&self, context: SerializationContext) -> Option<Seq<u8>> {
        match self.ledger.spec_compact(context) {
            Some(ledger) => Some(self.slot.spec_bytes() + ledger),
            None => None,
        }
    }

    /// Writes the compact form. Fails exactly when the ledger cannot be written, with
    /// the ledger's error.
    pub fn to_bytes_compact(&self, context: &SerializationContext) -> (r: Result<
        Vec<u8>,
        ModelsError,
    >)
        ensures
            match self.spec_bytes(*context) {
                Some(bytes) => r.is_ok() && r.unwrap()@ == bytes,
                None => r.is_err(),
            },
    {
        let mut out = self.slot.to_bytes_compact();
        match self.ledger.to_bytes_compact(context) {
            Ok(ledger) => {
                extend_bytes(&mut out, ledger.as_slice());
                Ok(out)
            },
            Err(e) => Err(e),
        }
    }
}

impl<L: DeserializeCompact> FinalStateBootstrap<L> {
    /// What reading a snapshot at the start of `buffer` yields: the slot, the ledger
    /// read behind it, and the number of bytes that the two take.
    pub open spec fn spec_read(buffer: Seq<u8>, context: SerializationContext) -> Option<
        (Slot, L, int),
    > {
        match parse_slot(buffer, 0, context.thread_count) {
            Some((slot, at)) => match L::spec_read(
                buffer.subrange(at, buffer.len() as int),
                context,
            ) {
                Some((ledger, read)) => Some((slot, ledger, at + read)),
                None => None,
            },
            None => None,
        }
    }

    /// Reads a snapshot at the start of `buffer`: the snapshot and the number of bytes
    /// read. Fails exactly when no slot stands there or no ledger behind it.
    pub fn from_bytes_compact(buffer: &[u8], context: &SerializationContext) -> (r: Result<
        (FinalStateBootstrap<L>, usize),
        ModelsError,
    >)
        ensures
            match Self::spec_read(buffer@, *context) {
                Some((slot, ledger, read)) => r.is_ok() && r.unwrap().0.slot == slot
                    && r.unwrap().0.ledger == ledger && r.unwrap().1 == read,
                None => r.is_err(),
            },
    {
        let (slot, at) = match Slot::from_bytes_compact_at(buffer, 0, context) {
            Ok(read) => read,
            Err(e) => { return Err(e); },
        };
        let rest = vstd::slice::slice_subrange(buffer, at, buffer.len());
        match L::from_bytes_compact(rest, context) {
            Ok((ledger, read)) => Ok((FinalStateBootstrap { slot, ledger }, at + read)),
            Err(e) => Err(e),
        }
    }
}

} // verus!
