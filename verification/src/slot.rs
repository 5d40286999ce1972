//! The coordinate of a block: a period and a thread.

use vstd::prelude::*;
use crate::codec::{
    from_varint_bytes, holds_at, lemma_holds_at_part, lemma_varint_round_trip,
    parse_varint_bounded, to_varint_bytes, u8_from_slice, varint_bytes, be_bytes, lemma_be_len,
};
use crate::config::SerializationContext;
use crate::error::{deserialize_error, ModelsError};

verus! {

/// Size of the fixed-width key form of a slot, in bytes.
pub const SLOT_KEY_SIZE: usize = 9;

/// A period and a thread. Slots are ordered by period, then by thread.
#[derive(Clone, Copy, Debug, PartialEq, Eq, PartialOrd, Ord, Hash)]
pub struct Slot {
    pub period: u64,
    pub thread: u8,
}

/// What reading a slot at `pos` yields: the period in variable-length form, then the
/// thread, which must be below `thread_count`.
pub open spec fn parse_slot(s: Seq<u8>, pos: int, thread_count: u8) -> Option<(Slot, int)> {
    match parse_varint_bounded(s, pos, u64::MAX as nat) {
        Some((period, at)) => if at < s.len() && s[at] < thread_count {
            Some((Slot { period: period as u64, thread: s[at] }, at + 1))
        } else {
            None
        },
        None => None,
    }
}

impl Slot {
    /// The slot of the given period and thread.
    pub fn new(period: u64, thread: u8) -> (slot: Slot)
        ensures
            slot == (Slot { period, thread }),
    {
        Slot { period, thread }
    }

    /// The order of slots: by period, then by thread.
    pub open spec fn spec_lt(self, other: Slot) -> bool {
        self.period < other.period || (self.period == other.period && self.thread
            < other.thread)
    }

    /// Whether this slot comes strictly before `other`.
    pub fn precedes(&self, other: &Slot) -> (before: bool)
        ensures
            before == self.spec_lt(*other),
    {
        self.period < other.period || (self.period == other.period && self.thread
            < other.thread)
    }

    /// The compact form: the period in variable-length form, then the thread.
    pub open spec fn spec_bytes(self) -> Seq<u8> {
        varint_bytes(self.period as nat).push(self.thread)
    }

    /// The key form: the period in eight big-endian bytes, then the thread.
    pub open spec fn spec_key(self) -> Seq<u8> {
        be_bytes(self.period as nat, 8).push(self.thread)
    }

    /// Writes the compact form.
    pub fn to_bytes_compact(&self) -> (out: Vec<u8>)
        ensures
            out@ == self.spec_bytes(),
    {
        let mut out = to_varint_bytes(self.period);
        out.push(self.thread);
        out
    }

    /// Writes the key form, whose byte order is the order of slots.
    pub fn to_bytes_key(&self) -> (key: [u8; 9])
        ensures
            key@ == self.spec_key(),
    {
        let mut key = [0u8; 9];
        key[8] = self.thread;
        let mut rest: u64 = self.period;
        let mut k: usize = 8;
        proof {
            lemma_be_len(self.period as nat, 8);
            assert(be_bytes(rest as nat, 8) + key@.subrange(8, 8) =~= be_bytes(rest as nat, 8));
        }
        while k > 0
            invariant
                k <= 8,
                key@[8] == self.thread,
                be_bytes(self.period as nat, 8) == be_bytes(rest as nat, k as nat)
                    + key@.subrange(k as int, 8),
            decreases k,
        {
            let ghost before = key@;
            key[k - 1] = (rest % 256) as u8;
            proof {
                lemma_be_len((rest / 256) as nat, (k - 1) as nat);
                assert(be_bytes((rest / 256) as nat, (k - 1) as nat) + key@.subrange(k - 1, 8)
                    =~= be_bytes(rest as nat, k as nat) + before.subrange(k as int, 8));
            }
            rest = rest / 256;
            k = k - 1;
        }
        proof {
            lemma_be_len(self.period as nat, 8);
            assert(key@ =~= self.spec_key());
        }
        key
    }

    /// Reads a slot at `pos`: the slot and the position behind it.
    pub fn from_bytes_compact_at(buffer: &[u8], pos: usize, context: &SerializationContext) -> (r:
        Result<(Slot, usize), ModelsError>)
        ensures
            match parse_slot(buffer@, pos as int, context.thread_count) {
                Some((slot, end)) => r.is_ok() && r.unwrap().0 == slot && r.unwrap().1 == end,
                None => r.is_err() && r.unwrap_err().is_deserialize(),
            },
    {
        let (period, at) = match from_varint_bytes(buffer, pos) {
            Ok(read) => read,
            Err(e) => { return Err(e); },
        };
        let thread = match u8_from_slice(buffer, at) {
            Ok(read) => read,
            Err(e) => { return Err(e); },
        };
        if thread >= context.thread_count {
            return Err(deserialize_error("invalid thread number"));
        }
        Ok((Slot { period, thread }, at + 1))
    }

    /// Reads a slot at the start of `buffer`: the slot and the number of bytes read.
    pub fn from_bytes_compact(buffer: &[u8], context: &SerializationContext) -> (r: Result<
        (Slot, usize),
        ModelsError,
    >)
        ensures
            match parse_slot(buffer@, 0, context.thread_count) {
                Some((slot, end)) => r.is_ok() && r.unwrap().0 == slot && r.unwrap().1 == end,
                None => r.is_err() && r.unwrap_err().is_deserialize(),
            },
    {
        Self::from_bytes_compact_at(buffer, 0, context)
    }
}

/// Slots are totally ordered: of two different slots exactly one comes before the
/// other, and no slot comes before itself.
pub proof fn lemma_slot_order_total(a: Slot, b: Slot)
    ensures
        a == b || a.spec_lt(b) || b.spec_lt(a),
        !(a.spec_lt(b) && b.spec_lt(a)),
        !a.spec_lt(a),
{
}

/// The order of slots is transitive.
pub proof fn lemma_slot_order_transitive(a: Slot, b: Slot, c: Slot)
    requires
        a.spec_lt(b),
        b.spec_lt(c),
    ensures
        a.spec_lt(c),
{
}

/// Reading the compact form of a slot whose thread exists gives the slot back.
pub proof fn lemma_slot_round_trip(s: Seq<u8>, pos: int, slot: Slot, thread_count: u8)
    requires
        holds_at(s, pos, slot.spec_bytes()),
        slot.thread < thread_count,
    ensures
        parse_slot(s, pos, thread_count) == Some((slot, pos + slot.spec_bytes().len())),
{
    let head = varint_bytes(slot.period as nat);
    assert(slot.spec_bytes() =~= head + seq![slot.thread]);
    lemma_holds_at_part(s, pos, head, seq![slot.thread]);
    lemma_varint_round_trip(s, pos, slot.period as nat);
    assert(s[pos + head.len()] == s.subrange(pos + head.len(), pos + head.len() + 1)[0]);
}

} // verus!
