//! Per-connection decision logic.
//!
//! A connection handler drives one accepted connection from first byte to
//! disconnect: read, decode, record, repeat. The socket itself stays at the
//! service edge; what a read means and what follows from it is a pure
//! function of the bytes read, decided here.

use crate::codec;
use crate::codec::CollectorCommandV1;
use crate::codec::ProtocolDecodeError;
use crate::store::DataPoint;
use crate::store::Store;
use vstd::prelude::*;

verus! {

/// What one socket read means for the connection.
#[derive(Clone, Copy, Debug, PartialEq, Eq, Structural)]
pub enum ConnectionStep {
    /// A zero-length read: the peer closed. The handler stops cleanly;
    /// nothing is recorded and no error is reported.
    Closed,
    /// The bytes were not one well-formed message. The handler reports the
    /// reason and terminates this connection only; there is no resync
    /// mid-stream.
    Rejected { error: ProtocolDecodeError },
    /// One message decoded. Its sample is submitted to the store and the
    /// handler keeps reading.
    Accepted { command: CollectorCommandV1 },
}

/// The handler's decision on the bytes of one read.
pub open spec fn spec_connection_step(buf: Seq<u8>) -> ConnectionStep {
    if buf.len() == 0 {
        ConnectionStep::Closed
    } else {
        match codec::spec_decode_v1(buf) {
            Ok(command) => ConnectionStep::Accepted { command },
            Err(error) => ConnectionStep::Rejected { error },
        }
    }
}

/// The row a command becomes once the server stamps its arrival.
pub open spec fn spec_recorded_sample(command: CollectorCommandV1, id: u64, received: u64) -> DataPoint {
    match command {
        CollectorCommandV1::SubmitData {
            collector_id,
            total_memory,
            used_memory,
            average_cpu_bits,
        } => DataPoint { id, collector_id, received, total_memory, used_memory, average_cpu_bits },
    }
}

/// Decides what one read means: a clean close on zero bytes, otherwise the
/// decoded command or the exact decode failure.
pub fn handle_read(buf: &[u8]) -> (r: ConnectionStep)
    ensures
        r == spec_connection_step(buf@),
{
    if buf.len() == 0 {
        return ConnectionStep::Closed;
    }
    match codec::decode_v1(buf) {
        Ok(command) => ConnectionStep::Accepted { command },
        Err(error) => ConnectionStep::Rejected { error },
    }
}

/// Processes one read against the store: decodes the bytes and, on success,
/// records the sample under the server-observed arrival time `received`.
///
/// A zero-length read or a rejected buffer leaves the store untouched. A
/// write the store refuses drops that one sample and nothing else: a single
/// failed insert must not end an otherwise healthy stream.
pub fn ingest(store: &mut Store, received: u64, buf: &[u8]) -> (r: ConnectionStep)
    requires
        old(store).wf(),
    ensures
        final(store).wf(),
        r == spec_connection_step(buf@),
        !(spec_connection_step(buf@) is Accepted) ==> final(store)@ == old(store)@,
        spec_connection_step(buf@) matches ConnectionStep::Accepted { command } ==> {
            &&& old(store)@.len() < u64::MAX ==> final(store)@ == old(store)@.push(
                spec_recorded_sample(command, (old(store)@.len() + 1) as u64, received),
            )
            &&& old(store)@.len() >= u64::MAX ==> final(store)@ == old(store)@
        },
{
    let step = handle_read(buf);
    match step {
        ConnectionStep::Accepted { command } => {
            match command {
                CollectorCommandV1::SubmitData {
                    collector_id,
                    total_memory,
                    used_memory,
                    average_cpu_bits,
                } => {
                    let _ = store.insert_sample(
                        collector_id,
                        received,
                        total_memory,
                        used_memory,
                        average_cpu_bits,
                    );
                },
            }
        },
        _ => {},
    }
    step
}

/// Law: a connection that sends zero bytes closes cleanly — the step is
/// neither a recorded sample nor an error.
pub proof fn lemma_zero_read_closes_cleanly(buf: Seq<u8>)
    requires
        buf.len() == 0,
    ensures
        spec_connection_step(buf) == ConnectionStep::Closed,
{
}

} // verus!
