//! What a tick reports to its caller.

use vstd::prelude::*;

verus! {

/// Something that happened to a record during a tick. `tempo` is the tick in
/// which it happened, `processo` the identifier of the record.
#[derive(Debug, Clone, Copy, PartialEq, Eq)]
pub enum Evento {
    /// The record was granted its whole demand and placed on core `nucleo`.
    Iniciado { tempo: u32, nucleo: u32, processo: u32 },
    /// The record had no time left; what it held went back to the ledger.
    Concluido { tempo: u32, processo: u32 },
    /// The record lost its core at a quantum boundary and went to the back
    /// of the ready queue.
    Preemptado { tempo: u32, processo: u32 },
    /// The ledger could not grant the record's demand; it left the ready
    /// queue for the blocked set.
    Bloqueado { tempo: u32, processo: u32 },
    /// The ledger can grant the record's demand again; it went to the front
    /// of the ready queue.
    Desbloqueado { tempo: u32, processo: u32 },
    /// The periodic safety check found no safe order. `vitima` is the record
    /// that was at the head of the ready queue and was evicted, if there was
    /// one.
    DeadlockRecuperado { tempo: u32, vitima: Option<u32> },
}

} // verus!
