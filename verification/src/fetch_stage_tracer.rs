//! Shred packets as they arrive at the sockets, before anything else looks at them.
use crate::parquet_writer::RotatingParquetWriter;
use crate::table::{optional, required, Cell, CellKind, FieldSpec, IntoRecordBatch, TableRow};
use vstd::prelude::*;

verus! {

/// One packet.
#[derive(Debug, Clone)]
pub struct FetchStageArrival {
    /// Unix time of arrival in microseconds.
    pub timestamp_us: u64,
    /// Slot, index and sort of the shred, if the packet shows them.
    pub slot: Option<u64>,
    pub shred_index: Option<u32>,
    pub is_data: Option<bool>,
    pub source_ip: String,
    pub source_port: u16,
    /// Size in bytes.
    pub packet_size: usize,
    pub is_repair: bool,
    pub is_quic: bool,
}

impl FetchStageArrival {
    /// A packet that arrives now, at `timestamp_us`.
    #[allow(clippy::too_many_arguments)]
    pub fn new(
        timestamp_us: u64,
        slot: Option<u64>,
        shred_index: Option<u32>,
        is_data: Option<bool>,
        source_ip: String,
        source_port: u16,
        packet_size: usize,
        is_repair: bool,
        is_quic: bool,
    ) -> (arrival: FetchStageArrival)
        ensures
            arrival == (FetchStageArrival {
                timestamp_us,
                slot,
                shred_index,
                is_data,
                source_ip,
                source_port,
                packet_size,
                is_repair,
                is_quic,
            }),
    {
        FetchStageArrival::with_timestamp(
            timestamp_us,
            slot,
            shred_index,
            is_data,
            source_ip,
            source_port,
            packet_size,
            is_repair,
            is_quic,
        )
    }

    /// A packet that arrived at `timestamp_us`.
    #[allow(clippy::too_many_arguments)]
    pub fn with_timestamp(
        timestamp_us: u64,
        slot: Option<u64>,
        shred_index: Option<u32>,
        is_data: Option<bool>,
        source_ip: String,
        source_port: u16,
        packet_size: usize,
        is_repair: bool,
        is_quic: bool,
    ) -> (arrival: FetchStageArrival)
        ensures
            arrival == (FetchStageArrival {
                timestamp_us,
                slot,
                shred_index,
                is_data,
                source_ip,
                source_port,
                packet_size,
                is_repair,
                is_quic,
            }),
    {
        FetchStageArrival {
            timestamp_us,
            slot,
            shred_index,
            is_data,
            source_ip,
            source_port,
            packet_size,
            is_repair,
            is_quic,
        }
    }
}

impl TableRow for FetchStageArrival {
    open spec fn field_list() -> Seq<crate::table::FieldView> {
        seq![
            crate::table::required_field("timestamp_us"@, CellKind::U64),
            crate::table::optional_field("slot"@, CellKind::U64),
            crate::table::optional_field("shred_index"@, CellKind::U32),
            crate::table::optional_field("is_data"@, CellKind::Flag),
            crate::table::required_field("source_ip"@, CellKind::Text),
            crate::table::required_field("source_port"@, CellKind::U16),
            crate::table::required_field("packet_size"@, CellKind::U64),
            crate::table::required_field("is_repair"@, CellKind::Flag),
            crate::table::required_field("is_quic"@, CellKind::Flag),
        ]
    }

    open spec fn row(&self) -> Seq<crate::table::CellView> {
        seq![
            crate::table::CellView::U64(Some(self.timestamp_us)),
            crate::table::CellView::U64(self.slot),
            crate::table::CellView::U32(self.shred_index),
            crate::table::CellView::Flag(self.is_data),
            crate::table::CellView::Text(Some(self.source_ip@)),
            crate::table::CellView::U16(Some(self.source_port)),
            crate::table::CellView::U64(Some(self.packet_size as u64)),
            crate::table::CellView::Flag(Some(self.is_repair)),
            crate::table::CellView::Flag(Some(self.is_quic)),
        ]
    }

    open spec fn cell_bound(&self, j: int) -> nat {
        self.row()[j].bytes()
    }

    proof fn lemma_row_fits(&self) {
    }

    fn fields() -> (fields: Vec<FieldSpec>) {
        let fields: Vec<FieldSpec> = vec![
            required("timestamp_us", CellKind::U64),
            optional("slot", CellKind::U64),
            optional("shred_index", CellKind::U32),
            optional("is_data", CellKind::Flag),
            required("source_ip", CellKind::Text),
            required("source_port", CellKind::U16),
            required("packet_size", CellKind::U64),
            required("is_repair", CellKind::Flag),
            required("is_quic", CellKind::Flag),
        ];
        assert(crate::table::field_views(fields@) =~= Self::field_list());
        fields
    }

    fn cells(&self) -> (cells: Vec<Cell>) {
        let cells: Vec<Cell> = vec![
            Cell::U64(Some(self.timestamp_us)),
            Cell::U64(self.slot),
            Cell::U32(self.shred_index),
            Cell::Flag(self.is_data),
            Cell::Text(Some(self.source_ip.clone())),
            Cell::U16(Some(self.source_port)),
            Cell::U64(Some(self.packet_size as u64)),
            Cell::Flag(Some(self.is_repair)),
            Cell::Flag(Some(self.is_quic)),
        ];
        assert(crate::table::cell_views(cells@) =~= self.row());
        cells
    }
}

impl IntoRecordBatch for FetchStageArrival {

}

impl FetchStageArrival {
    /// Prefix of the files that hold these records.
    pub fn file_prefix() -> (prefix: &'static str)
        ensures
            prefix@ == "fetch_stage_arrivals"@,
    {
        "fetch_stage_arrivals"
    }
}

/// The writer of arrivals.
pub type FetchStageArrivalCsvWriter = RotatingParquetWriter<FetchStageArrival>;

} // verus!
