//! The stream driver's state machine.
//!
//! The driver repeatedly fetches the currently available encoded payloads,
//! decodes them in arrival order into a FIFO buffer, and yields changes one
//! at a time, sleeping and retrying while nothing is available. The
//! fetching itself is I/O and lives outside; this module holds the state
//! and the verified step taken on each fetch result.

use vstd::prelude::*;

use crate::catalog::{Catalog, RelationInfoV};
use crate::change::{Change, ChangeV};
use crate::decoder::{decode_pgoutput_message, spec_decode, spec_decode_catalog, DecodeError};

verus! {

/// How long the driver sleeps between fetches when no data is available,
/// in milliseconds.
pub const IDLE_DELAY_MS: u64 = 100;

/// One fetched upstream row: the payload's position and its encoded bytes.
#[derive(Debug, Clone, PartialEq, Eq)]
pub struct FetchedRow {
    pub lsn: String,
    pub data: Vec<u8>,
}

/// Mathematical model of a fetched row.
pub ghost struct FetchedRowV {
    pub lsn: Seq<char>,
    pub data: Seq<u8>,
}

impl View for FetchedRow {
    type V = FetchedRowV;

    open spec fn view(&self) -> FetchedRowV {
        FetchedRowV { lsn: self.lsn@, data: self.data@ }
    }
}

impl DeepView for FetchedRow {
    type V = FetchedRowV;

    open spec fn deep_view(&self) -> FetchedRowV {
        self@
    }
}

/// The upstream's view of a replication slot, for shutdown diagnostics.
#[derive(Debug, Clone, PartialEq, Eq)]
pub struct SlotStatus {
    pub confirmed_flush_lsn: String,
    pub restart_lsn: String,
    pub active: bool,
}

/// What one polling step asks the caller to do next.
#[derive(Debug, PartialEq, Eq)]
pub enum PollStep {
    /// A decoded change is ready; dispatch it.
    Deliver(Change),
    /// Nothing was available: sleep for [`IDLE_DELAY_MS`] and fetch again.
    Sleep,
    /// The fetch produced no deliverable change: fetch again at once.
    Retry,
}

/// Mathematical model of a polling step.
pub ghost enum PollStepV {
    Deliver(ChangeV),
    Sleep,
    Retry,
}

impl View for PollStep {
    type V = PollStepV;

    open spec fn view(&self) -> PollStepV {
        match self {
            PollStep::Deliver(c) => PollStepV::Deliver(c@),
            PollStep::Sleep => PollStepV::Sleep,
            PollStep::Retry => PollStepV::Retry,
        }
    }
}

/// Mathematical model of the driver's state.
#[verifier::ext_equal]
pub ghost struct ReplicationStateV {
    pub catalog: Map<u32, RelationInfoV>,
    pub buffer: Seq<ChangeV>,
    pub last_received_lsn: Option<Seq<char>>,
    pub last_processed_lsn: Option<Seq<char>>,
}

/// The driver's decoding state: the relation catalog, the FIFO of decoded
/// but undelivered changes, and the observability positions.
pub struct ReplicationState {
    catalog: Catalog,
    buffer: Vec<Change>,
    last_received_lsn: Option<String>,
    last_processed_lsn: Option<String>,
}

impl View for ReplicationState {
    type V = ReplicationStateV;

    closed spec fn view(&self) -> ReplicationStateV {
        ReplicationStateV {
            catalog: self.catalog@,
            buffer: self.buffer.deep_view(),
            last_received_lsn: self.last_received_lsn.deep_view(),
            last_processed_lsn: self.last_processed_lsn.deep_view(),
        }
    }
}

/// The state after ingesting fetched rows in arrival order, and the error
/// that stopped ingestion, if one did. Each row first records its position
/// as received, then decodes; a decode failure aborts the batch on the
/// spot, keeping what earlier rows contributed.
pub open spec fn spec_ingest(st: ReplicationStateV, rows: Seq<FetchedRowV>) -> (
    ReplicationStateV,
    Option<DecodeError>,
)
    decreases rows.len(),
{
    if rows.len() == 0 {
        (st, None)
    } else {
        let row = rows[0];
        let received = ReplicationStateV { last_received_lsn: Some(row.lsn), ..st };
        match spec_decode(row.data, st.catalog) {
            Err(e) => (received, Some(e)),
            Ok(oc) => {
                let stepped = ReplicationStateV {
                    catalog: spec_decode_catalog(row.data, st.catalog),
                    buffer: match oc {
                        Some(c) => received.buffer.push(c),
                        None => received.buffer,
                    },
                    ..received
                };
                spec_ingest(stepped, rows.drop_first())
            }
        }
    }
}

/// One polling step on a fetch result: an empty fetch asks for a sleep
/// and changes nothing; otherwise the batch is ingested and the buffer's
/// front change, if any, is delivered.
pub open spec fn spec_poll(st: ReplicationStateV, rows: Seq<FetchedRowV>) -> (
    ReplicationStateV,
    Result<PollStepV, DecodeError>,
) {
    if rows.len() == 0 {
        (st, Ok(PollStepV::Sleep))
    } else {
        let (st2, err) = spec_ingest(st, rows);
        match err {
            Some(e) => (st2, Err(e)),
            None => if st2.buffer.len() > 0 {
                (
                    ReplicationStateV { buffer: st2.buffer.drop_first(), ..st2 },
                    Ok(PollStepV::Deliver(st2.buffer[0])),
                )
            } else {
                (st2, Ok(PollStepV::Retry))
            },
        }
    }
}

/// The state after a sequence of polling steps.
pub open spec fn spec_poll_run(st: ReplicationStateV, batches: Seq<Seq<FetchedRowV>>)
    -> ReplicationStateV
    decreases batches.len(),
{
    if batches.len() == 0 {
        st
    } else {
        spec_poll_run(spec_poll(st, batches[0]).0, batches.drop_first())
    }
}

/// Law: idle polling is harmless. When every fetch in a run comes back
/// empty, each step leaves the driver's state exactly as it was and asks
/// only for a sleep-and-retry; no number of consecutive empty fetches
/// raises an error.
pub proof fn lemma_idle_polling(st: ReplicationStateV, batches: Seq<Seq<FetchedRowV>>)
    requires
        forall|i: int| 0 <= i < batches.len() ==> batches[i].len() == 0,
    ensures
        spec_poll_run(st, batches) == st,
        forall|i: int|
            0 <= i < batches.len() ==> spec_poll(st, batches[i]) == (
                st,
                Ok::<PollStepV, DecodeError>(PollStepV::Sleep),
            ),
    decreases batches.len(),
{
    if batches.len() > 0 {
        lemma_idle_polling(st, batches.drop_first());
        assert(forall|i: int|
            1 <= i < batches.len() ==> batches[i] == batches.drop_first()[i - 1]);
    }
}

impl ReplicationState {
    /// A fresh driver state: empty catalog, empty buffer, no positions.
    pub fn new() -> (st: ReplicationState)
        ensures
            st@ == (ReplicationStateV {
                catalog: Map::empty(),
                buffer: Seq::empty(),
                last_received_lsn: None,
                last_processed_lsn: None,
            }),
    {
        let st = ReplicationState {
            catalog: Catalog::new(),
            buffer: Vec::new(),
            last_received_lsn: None,
            last_processed_lsn: None,
        };
        proof {
            assert(st@.buffer =~= Seq::<ChangeV>::empty());
        }
        st
    }

    /// Ingest one fetched batch in arrival order: record each row's
    /// position, decode its payload, and buffer every decoded change. A
    /// decode failure aborts the batch with that error.
    pub fn ingest_batch(&mut self, rows: &Vec<FetchedRow>) -> (r: Result<(), DecodeError>)
        requires
            forall|i: int|
                0 <= i < rows.deep_view().len() ==> rows.deep_view()[i].data.len() < usize::MAX,
        ensures
            ({
                let (st2, err) = spec_ingest(old(self)@, rows.deep_view());
                &&& final(self)@ == st2
                &&& match r {
                    Ok(u) => err is None,
                    Err(e) => err == Some(e),
                }
            }),
    {
        let ghost rowsv = rows.deep_view();
        proof {
            assert(rowsv.skip(0) =~= rowsv);
        }
        let n = rows.len();
        let mut i: usize = 0;
        while i < n
            invariant
                i <= n,
                n == rowsv.len(),
                rowsv == rows.deep_view(),
                forall|j: int| 0 <= j < rowsv.len() ==> rowsv[j].data.len() < usize::MAX,
                spec_ingest(old(self)@, rowsv) == spec_ingest(self@, rowsv.skip(i as int)),
            decreases n - i,
        {
            let ghost st0 = self@;
            let ghost restv = rowsv.skip(i as int);
            self.last_received_lsn = Some(rows[i].lsn.clone());
            let ghost received = self@;
            proof {
                assert(restv[0] == rowsv[i as int]);
                assert(received =~= (ReplicationStateV {
                    last_received_lsn: Some(restv[0].lsn),
                    ..st0
                }));
            }
            match decode_pgoutput_message(rows[i].data.as_slice(), &mut self.catalog) {
                Err(e) => {
                    proof {
                        assert(spec_ingest(st0, restv) == (received, Some(e)));
                    }
                    return Err(e);
                }
                Ok(oc) => {
                    match oc {
                        Some(c) => {
                            self.buffer.push(c);
                        }
                        None => (),
                    }
                    proof {
                        assert(self@ =~= (ReplicationStateV {
                            catalog: spec_decode_catalog(restv[0].data, st0.catalog),
                            buffer: match spec_decode(restv[0].data, st0.catalog)->Ok_0 {
                                Some(cv) => received.buffer.push(cv),
                                None => received.buffer,
                            },
                            ..received
                        }));
                        assert(spec_ingest(st0, restv) == spec_ingest(self@, restv.drop_first()));
                        assert(restv.drop_first() =~= rowsv.skip(i + 1));
                    }
                }
            }
            i += 1;
        }
        proof {
            assert(rowsv.skip(n as int) =~= Seq::<FetchedRowV>::empty());
        }
        Ok(())
    }

    /// Pop the buffer's front change, if any.
    pub fn next_buffered(&mut self) -> (r: Option<Change>)
        ensures
            old(self)@.buffer.len() == 0 ==> r is None && final(self)@ == old(self)@,
            old(self)@.buffer.len() > 0 ==> (r matches Some(c) && c@ == old(self)@.buffer[0]
                && final(self)@ == (ReplicationStateV {
                buffer: old(self)@.buffer.drop_first(),
                ..old(self)@
            })),
    {
        if self.buffer.len() > 0 {
            let c = self.buffer.remove(0);
            proof {
                assert(self@.buffer =~= old(self)@.buffer.drop_first());
                assert(self@ =~= (ReplicationStateV {
                    buffer: old(self)@.buffer.drop_first(),
                    ..old(self)@
                }));
            }
            Some(c)
        } else {
            None
        }
    }

    /// One polling step on a fetch result: `Sleep` on an empty fetch,
    /// otherwise ingest and deliver the buffer's front change, or `Retry`
    /// when the batch produced nothing deliverable.
    pub fn poll_step(&mut self, rows: &Vec<FetchedRow>) -> (r: Result<PollStep, DecodeError>)
        requires
            forall|i: int|
                0 <= i < rows.deep_view().len() ==> rows.deep_view()[i].data.len() < usize::MAX,
        ensures
            ({
                let (st2, res) = spec_poll(old(self)@, rows.deep_view());
                &&& final(self)@ == st2
                &&& match r {
                    Ok(step) => res matches Ok(sv) && step@ == sv,
                    Err(e) => res matches Err(pe) && pe == e,
                }
            }),
    {
        if rows.len() == 0 {
            return Ok(PollStep::Sleep);
        }
        match self.ingest_batch(rows) {
            Err(e) => Err(e),
            Ok(_u) => {
                match self.next_buffered() {
                    Some(c) => Ok(PollStep::Deliver(c)),
                    None => Ok(PollStep::Retry),
                }
            }
        }
    }

    /// Record a position as processed: bookkeeping only, no I/O.
    pub fn mark_processed(&mut self, lsn: &str)
        ensures
            final(self)@ == (ReplicationStateV {
                last_processed_lsn: Some(lsn@),
                ..old(self)@
            }),
    {
        self.last_processed_lsn = Some(String::from_str(lsn));
        proof {
            assert(final(self)@ =~= (ReplicationStateV {
                last_processed_lsn: Some(lsn@),
                ..old(self)@
            }));
        }
    }

    /// The highest position seen from upstream, if any.
    pub fn last_received_lsn(&self) -> (r: Option<&str>)
        ensures
            match r {
                Some(s) => self@.last_received_lsn == Some(s@),
                None => self@.last_received_lsn is None,
            },
    {
        match &self.last_received_lsn {
            Some(s) => Some(s.as_str()),
            None => None,
        }
    }

    /// The highest position the caller has acknowledged, if any.
    pub fn last_processed_lsn(&self) -> (r: Option<&str>)
        ensures
            match r {
                Some(s) => self@.last_processed_lsn == Some(s@),
                None => self@.last_processed_lsn is None,
            },
    {
        match &self.last_processed_lsn {
            Some(s) => Some(s.as_str()),
            None => None,
        }
    }
}

/// The query that fetches all currently available encoded payloads for a
/// slot and publication, at protocol version 1.
pub fn fetch_changes_query(slot_name: &str, publication_name: &str) -> (q: String)
    ensures
        q@ == "SELECT lsn, xid, data FROM pg_logical_slot_get_binary_changes('"@ + slot_name@
            + "', NULL, NULL, 'proto_version', '1', 'publication_names', '"@ + publication_name@
            + "')"@,
{
    let mut q = String::from_str("SELECT lsn, xid, data FROM pg_logical_slot_get_binary_changes('");
    q.append(slot_name);
    q.append("', NULL, NULL, 'proto_version', '1', 'publication_names', '");
    q.append(publication_name);
    q.append("')");
    proof {
        assert(q@ =~= "SELECT lsn, xid, data FROM pg_logical_slot_get_binary_changes('"@
            + slot_name@ + "', NULL, NULL, 'proto_version', '1', 'publication_names', '"@
            + publication_name@ + "')"@);
    }
    q
}

/// The query that looks a slot's status up for shutdown diagnostics.
pub fn slot_status_query(slot_name: &str) -> (q: String)
    ensures
        q@ == "SELECT confirmed_flush_lsn, restart_lsn, active FROM pg_replication_slots WHERE slot_name = '"@
            + slot_name@ + "'"@,
{
    let mut q = String::from_str(
        "SELECT confirmed_flush_lsn, restart_lsn, active FROM pg_replication_slots WHERE slot_name = '",
    );
    q.append(slot_name);
    q.append("'");
    proof {
        assert(q@
            =~= "SELECT confirmed_flush_lsn, restart_lsn, active FROM pg_replication_slots WHERE slot_name = '"@
            + slot_name@ + "'"@);
    }
    q
}

/// The statement that creates the logical replication slot bound to the
/// binary output plugin.
pub fn create_slot_query(slot_name: &str) -> (q: String)
    ensures
        q@ == "SELECT pg_create_logical_replication_slot('"@ + slot_name@ + "', 'pgoutput')"@,
{
    let mut q = String::from_str("SELECT pg_create_logical_replication_slot('");
    q.append(slot_name);
    q.append("', 'pgoutput')");
    proof {
        assert(q@ =~= "SELECT pg_create_logical_replication_slot('"@ + slot_name@
            + "', 'pgoutput')"@);
    }
    q
}

} // verus!
