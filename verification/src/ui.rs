//! The state shown by the progress display and how events change it.

use vstd::prelude::*;

verus! {

/// The stage the measurement is in.
#[derive(Debug, Clone, Copy, PartialEq, Eq, Structural)]
pub enum ProgressStage {
    Ping,
    Download,
    Finished,
}

/// What the measurement reports to the display.
#[derive(Debug, Clone)]
pub enum UiEvent {
    /// A new stage begins, with an optional description and the number of steps.
    SetStage { stage: ProgressStage, sub_header: Option<String>, total: u64 },
    /// Steps done so far, and, in the latency stage, addresses available so far.
    UpdateProgress { pos: u64, available: Option<usize> },
    /// A line for the activity log.
    AddLog(String),
    /// A line for the error log.
    AddError(String),
    /// Everything is done.
    Finished,
}

/// What the progress display shows.
#[derive(Debug, Clone)]
pub struct AppState {
    pub header_info: String,
    pub sub_header_info: Option<String>,
    pub stage: ProgressStage,
    pub progress_pos: u64,
    pub progress_len: u64,
    pub available_count: usize,
    pub logs: Vec<String>,
    pub errors: Vec<String>,
}

impl AppState {
    /// The state before any event: the latency stage, nothing done, no logs.
    pub fn new(header_info: String) -> (s: Self)
        ensures
            s.header_info == header_info,
            s.sub_header_info is None,
            s.stage == ProgressStage::Ping,
            s.progress_pos == 0,
            s.progress_len == 0,
            s.available_count == 0,
            s.logs@ == Seq::<String>::empty(),
            s.errors@ == Seq::<String>::empty(),
    {
        Self {
            header_info,
            sub_header_info: None,
            stage: ProgressStage::Ping,
            progress_pos: 0,
            progress_len: 0,
            available_count: 0,
            logs: Vec::new(),
            errors: Vec::new(),
        }
    }

    /// Applies one event to the state.
    pub fn handle_event(&mut self, event: UiEvent)
        ensures
            final(self).header_info == old(self).header_info,
            match event {
                UiEvent::SetStage { stage, sub_header, total } => {
                    &&& final(self).stage == stage
                    &&& final(self).sub_header_info == if sub_header is Some {
                        sub_header
                    } else {
                        old(self).sub_header_info
                    }
                    &&& final(self).progress_len == total
                    &&& final(self).progress_pos == 0
                    &&& final(self).available_count == old(self).available_count
                    &&& final(self).logs@ == Seq::<String>::empty()
                    &&& final(self).errors@ == old(self).errors@
                },
                UiEvent::UpdateProgress { pos, available } => {
                    &&& final(self).stage == old(self).stage
                    &&& final(self).sub_header_info == old(self).sub_header_info
                    &&& final(self).progress_len == old(self).progress_len
                    &&& final(self).progress_pos == pos
                    &&& final(self).available_count == if available is Some {
                        available->0
                    } else {
                        old(self).available_count
                    }
                    &&& final(self).logs@ == old(self).logs@
                    &&& final(self).errors@ == old(self).errors@
                },
                UiEvent::AddLog(log) => {
                    &&& final(self).stage == old(self).stage
                    &&& final(self).sub_header_info == old(self).sub_header_info
                    &&& final(self).progress_len == old(self).progress_len
                    &&& final(self).progress_pos == old(self).progress_pos
                    &&& final(self).available_count == old(self).available_count
                    &&& final(self).logs@ == old(self).logs@.push(log)
                    &&& final(self).errors@ == old(self).errors@
                },
                UiEvent::AddError(err) => {
                    &&& final(self).stage == old(self).stage
                    &&& final(self).sub_header_info == old(self).sub_header_info
                    &&& final(self).progress_len == old(self).progress_len
                    &&& final(self).progress_pos == old(self).progress_pos
                    &&& final(self).available_count == old(self).available_count
                    &&& final(self).logs@ == old(self).logs@
                    &&& final(self).errors@ == old(self).errors@.push(err)
                },
                UiEvent::Finished => {
                    &&& final(self).stage == ProgressStage::Finished
                    &&& final(self).sub_header_info == old(self).sub_header_info
                    &&& final(self).progress_len == old(self).progress_len
                    &&& final(self).progress_pos == old(self).progress_len
                    &&& final(self).available_count == old(self).available_count
                    &&& final(self).logs@ == old(self).logs@
                    &&& final(self).errors@ == old(self).errors@
                },
            },
    {
        match event {
            UiEvent::SetStage { stage, sub_header, total } => {
                self.stage = stage;
                if sub_header.is_some() {
                    self.sub_header_info = sub_header;
                }
                self.progress_len = total;
                self.progress_pos = 0;
                self.logs.clear();
            },
            UiEvent::UpdateProgress { pos, available } => {
                self.progress_pos = pos;
                if let Some(avail) = available {
                    self.available_count = avail;
                }
            },
            UiEvent::AddLog(log) => {
                self.logs.push(log);
            },
            UiEvent::AddError(err) => {
                self.errors.push(err);
            },
            UiEvent::Finished => {
                self.stage = ProgressStage::Finished;
                self.progress_pos = self.progress_len;
            },
        }
    }

    /// Hands out the error log, leaving it empty.
    pub fn take_errors(&mut self) -> (errors: Vec<String>)
        ensures
            errors@ == old(self).errors@,
            final(self).errors@ == Seq::<String>::empty(),
            final(self).header_info == old(self).header_info,
            final(self).sub_header_info == old(self).sub_header_info,
            final(self).stage == old(self).stage,
            final(self).progress_pos == old(self).progress_pos,
            final(self).progress_len == old(self).progress_len,
            final(self).available_count == old(self).available_count,
            final(self).logs@ == old(self).logs@,
    {
        let mut errors = Vec::new();
        std::mem::swap(&mut errors, &mut self.errors);
        errors
    }
}

} // verus!
