use vstd::prelude::*;

use super::wire::RecordView;

verus! {

/// A keyboard report as the firmware saw it, with its three timestamps.
#[derive(Debug, Clone, PartialEq, Eq)]
pub struct Tap {
    pub seq: u32,
    /// esp_timer µs at the lowest-level deframe of the keyboard report.
    pub t_cap_us: i64,
    /// esp_timer µs at the USB submit to the target PC.
    pub t_sub_us: i64,
    /// esp_timer µs just before the record was written to the serial.
    pub t_emit_us: i64,
    /// Raw report bytes actually submitted (what the host receives).
    pub report: Vec<u8>,
}

/// A clock beacon: the firmware time at which it was emitted.
#[derive(Debug, Clone, PartialEq, Eq)]
pub struct Sync {
    pub seq: u32,
    pub t_emit_us: i64,
}

#[derive(Debug, Clone, PartialEq, Eq)]
pub enum Record {
    Tap(Tap),
    Sync(Sync),
}

impl View for Tap {
    type V = RecordView;

    open spec fn view(&self) -> RecordView {
        RecordView::Tap {
            seq: self.seq,
            t_cap_us: self.t_cap_us,
            t_sub_us: self.t_sub_us,
            t_emit_us: self.t_emit_us,
            report: self.report@,
        }
    }
}

impl View for Sync {
    type V = RecordView;

    open spec fn view(&self) -> RecordView {
        RecordView::Sync { seq: self.seq, t_emit_us: self.t_emit_us }
    }
}

impl View for Record {
    type V = RecordView;

    open spec fn view(&self) -> RecordView {
        match self {
            Record::Tap(t) => t@,
            Record::Sync(s) => s@,
        }
    }
}

/// The views of a sequence of records.
pub open spec fn records_view(v: Seq<Record>) -> Seq<RecordView> {
    v.map_values(|r: Record| r@)
}

impl Record {
    /// The sequence number carried by either kind of record.
    pub fn seq(&self) -> (s: u32)
        ensures
            s == match self@ {
                RecordView::Tap { seq, .. } => seq,
                RecordView::Sync { seq, .. } => seq,
            },
    {
        match self {
            Record::Tap(t) => t.seq,
            Record::Sync(s) => s.seq,
        }
    }
}

} // verus!
