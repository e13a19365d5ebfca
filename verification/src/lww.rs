//! Last-writer-wins registers.
//!
//! Each scalar field of a replicated record is wrapped in an [`LwwReg`]: the
//! value together with the logical timestamp of its last write.  When two
//! replicas diverge, the write with the strictly later timestamp wins, field
//! by field.  [`lemma_lww_merge_commutes`] shows that for writes with
//! different timestamps the outcome does not depend on the merge order.

use vstd::prelude::*;

verus! {

/// A scalar value under last-writer-wins conflict resolution.
pub struct LwwReg<T> {
    /// The current value of the register.
    pub value: T,
    /// The logical timestamp of the write that produced `value`.
    pub written_at: u64,
}

/// The register that survives when `a` is reconciled with `b`: the one with
/// the strictly later write, the local one on ties.
pub open spec fn lww_merged<T>(a: LwwReg<T>, b: LwwReg<T>) -> LwwReg<T> {
    if b.written_at > a.written_at {
        b
    } else {
        a
    }
}

impl<T> LwwReg<T> {
    /// A register freshly written with `value` at time `written_at`.
    pub fn new(value: T, written_at: u64) -> (r: LwwReg<T>)
        ensures
            r.value == value,
            r.written_at == written_at,
    {
        LwwReg { value, written_at }
    }

    /// Overwrites the register locally, stamping the write time.
    pub fn set(&mut self, value: T, written_at: u64)
        ensures
            final(self).value == value,
            final(self).written_at == written_at,
    {
        self.value = value;
        self.written_at = written_at;
    }

    /// Reconciles this register with a replica's copy: the later write wins.
    pub fn merge_from(&mut self, other: LwwReg<T>)
        ensures
            *final(self) == lww_merged(*old(self), other),
    {
        if other.written_at > self.written_at {
            self.value = other.value;
            self.written_at = other.written_at;
        }
    }
}

/// Two divergent writes to the same register with different timestamps
/// reconcile to the same register in either merge order: the later write.
pub proof fn lemma_lww_merge_commutes<T>(a: LwwReg<T>, b: LwwReg<T>)
    requires
        a.written_at != b.written_at,
    ensures
        lww_merged(a, b) == lww_merged(b, a),
        lww_merged(a, b) == if a.written_at > b.written_at {
            a
        } else {
            b
        },
{
}

} // verus!
