//! One command exchange: send a packed report, read the response, and
//! retry a bounded number of times while the device reports busy.
//!
//! The exchange is a state machine. The caller performs each step it is
//! handed (wait and send, wait and read, back off) and reports back; a
//! transport failure ends the exchange and is the caller's to return.

use vstd::prelude::*;

use crate::error::{HidError, ProtocolErrorKind};
use crate::report::{payload_of, remaining_of, status_of, RazerReport, Status, REPORT_SIZE};

verus! {

/// Wait before each send and before each read, unless the caller picks one.
pub const DEFAULT_DELAY_MS: u64 = 7;

/// Wait after a busy or timed-out response, unless the caller picks one.
pub const DEFAULT_BACKOFF_MS: u64 = 100;

/// Extra attempts after a busy or timed-out response, by default.
pub const DEFAULT_RETRIES: u32 = 3;

/// Where an exchange stands.
#[derive(Clone, Copy, Debug, PartialEq, Eq, Structural)]
pub enum CommandPhase {
    /// Not started.
    Idle,
    /// A send has been asked for.
    Sending,
    /// A read has been asked for.
    AwaitingResponse,
    /// A backoff has been asked for.
    BackingOff,
    /// Finished.
    Done,
}

/// What the caller is to do next.
#[derive(Debug)]
pub enum CommandStep {
    /// Wait `delay_ms`, then send `packet` as a feature report.
    Send { delay_ms: u64, packet: Vec<u8> },
    /// Wait `delay_ms`, then read a feature report of `size` bytes.
    Receive { delay_ms: u64, size: usize },
    /// Wait `ms`, then report that the backoff is over.
    Backoff { ms: u64 },
    /// The exchange is over, with this outcome.
    Finished(Result<(Status, Vec<u8>), HidError>),
}

/// Mathematical model of an exchange.
pub ghost struct CommandView {
    /// The packed report sent at every attempt.
    pub packet: Seq<u8>,
    pub delay_ms: u64,
    pub backoff_ms: u64,
    /// Attempts that may still follow a busy or timed-out response.
    pub retries_left: nat,
    /// The report is one segment of a larger transfer: no response is read.
    pub multi_packet: bool,
    pub phase: CommandPhase,
}

/// One command exchange with a device.
pub struct CommandMachine {
    report: RazerReport,
    packet: Vec<u8>,
    delay_ms: u64,
    backoff_ms: u64,
    retries_left: u32,
    multi_packet: bool,
    phase: CommandPhase,
}

impl View for CommandMachine {
    type V = CommandView;

    closed spec fn view(&self) -> CommandView {
        CommandView {
            packet: self.packet@,
            delay_ms: self.delay_ms,
            backoff_ms: self.backoff_ms,
            retries_left: self.retries_left as nat,
            multi_packet: self.multi_packet,
            phase: self.phase,
        }
    }
}

pub open spec fn option_or(v: Option<u64>, default: u64) -> u64 {
    match v {
        Some(x) => x,
        None => default,
    }
}

impl CommandMachine {
    /// An exchange for `report`, which is packed here, once. `retries` is the
    /// number of extra attempts allowed after busy or timed-out responses.
    pub fn new(
        report: RazerReport,
        delay_ms: Option<u64>,
        backoff_ms: Option<u64>,
        retries: u32,
    ) -> (r: CommandMachine)
        requires
            report@.wf(),
        ensures
            r@.packet == report@.packed(),
            r@.delay_ms == option_or(delay_ms, DEFAULT_DELAY_MS),
            r@.backoff_ms == option_or(backoff_ms, DEFAULT_BACKOFF_MS),
            r@.retries_left == retries,
            r@.multi_packet == (remaining_of(report@.bytes) != 0),
            r@.phase == CommandPhase::Idle,
    {
        let mut report = report;
        let remaining = report.get_remaining_packets();
        let packet = report.pack();
        CommandMachine {
            report,
            packet,
            delay_ms: match delay_ms {
                Some(d) => d,
                None => DEFAULT_DELAY_MS,
            },
            backoff_ms: match backoff_ms {
                Some(b) => b,
                None => DEFAULT_BACKOFF_MS,
            },
            retries_left: retries,
            multi_packet: remaining != 0,
            phase: CommandPhase::Idle,
        }
    }

    /// Where the exchange stands.
    pub fn phase(&self) -> (r: CommandPhase)
        ensures
            r == self@.phase,
    {
        self.phase
    }

    /// The first step: wait, then send.
    pub fn start(&mut self) -> (r: CommandStep)
        requires
            old(self)@.phase == CommandPhase::Idle,
        ensures
            r matches CommandStep::Send { delay_ms, packet } && delay_ms == old(self)@.delay_ms
                && packet@ == old(self)@.packet,
            final(self)@ == (CommandView { phase: CommandPhase::Sending, ..old(self)@ }),
    {
        self.phase = CommandPhase::Sending;
        CommandStep::Send { delay_ms: self.delay_ms, packet: self.packet.clone() }
    }

    /// The report was sent. A segment of a larger transfer is done at once,
    /// with no response read; otherwise wait, then read the response.
    pub fn on_sent(&mut self) -> (r: CommandStep)
        requires
            old(self)@.phase == CommandPhase::Sending,
        ensures
            old(self)@.multi_packet ==> (r matches CommandStep::Finished(Ok((status, data)))
                && status == Status::Success && data@.len() == 0) && final(self)@ == (
            CommandView { phase: CommandPhase::Done, ..old(self)@ }),
            !old(self)@.multi_packet ==> r == (CommandStep::Receive {
                delay_ms: old(self)@.delay_ms,
                size: REPORT_SIZE,
            }) && final(self)@ == (CommandView {
                phase: CommandPhase::AwaitingResponse,
                ..old(self)@
            }),
    {
        if self.multi_packet {
            self.phase = CommandPhase::Done;
            CommandStep::Finished(Ok((Status::Success, Vec::new())))
        } else {
            self.phase = CommandPhase::AwaitingResponse;
            CommandStep::Receive { delay_ms: self.delay_ms, size: REPORT_SIZE }
        }
    }

    /// The response arrived. `Success` and `Unsupported` end the exchange
    /// with the status and payload; `Fail` ends it with an error; `Busy`
    /// and `Timeout` back off and try again while retries are left, and
    /// end it with the last status once they are spent; any other status,
    /// and a response of the wrong length, end it with an error.
    pub fn on_response(&mut self, response: &[u8]) -> (r: CommandStep)
        requires
            old(self)@.phase == CommandPhase::AwaitingResponse,
        ensures
            ({
                let st = status_of(response@[0]);
                let done = CommandView { phase: CommandPhase::Done, ..old(self)@ };
                &&& response@.len() != REPORT_SIZE ==> r == CommandStep::Finished(
                    Err(
                        HidError::InvalidReportSize {
                            expected: REPORT_SIZE,
                            actual: response@.len() as usize,
                        },
                    ),
                ) && final(self)@ == done
                &&& response@.len() == REPORT_SIZE && (st == Status::Success || st
                    == Status::Unsupported) ==> (r matches CommandStep::Finished(Ok((status, data)))
                    && status == st && data@ == payload_of(response@)) && final(self)@ == done
                &&& response@.len() == REPORT_SIZE && st == Status::Fail ==> r
                    == CommandStep::Finished(
                    Err(HidError::ProtocolError(ProtocolErrorKind::CommandFailed)),
                ) && final(self)@ == done
                &&& response@.len() == REPORT_SIZE && (st == Status::Busy || st == Status::Timeout)
                    && old(self)@.retries_left == 0 ==> r == CommandStep::Finished(
                    Err(HidError::ProtocolError(ProtocolErrorKind::RetriesExhausted(st))),
                ) && final(self)@ == done
                &&& response@.len() == REPORT_SIZE && (st == Status::Busy || st == Status::Timeout)
                    && old(self)@.retries_left > 0 ==> r == (CommandStep::Backoff {
                    ms: old(self)@.backoff_ms,
                }) && final(self)@ == (CommandView {
                    phase: CommandPhase::BackingOff,
                    retries_left: (old(self)@.retries_left - 1) as nat,
                    ..old(self)@
                })
                &&& response@.len() == REPORT_SIZE && (st == Status::Unknown || st
                    == Status::BadCrc || st == Status::OsError) ==> r == CommandStep::Finished(
                    Err(HidError::ProtocolError(ProtocolErrorKind::UnexpectedStatus(st))),
                ) && final(self)@ == done
            }),
    {
        let (status, payload) = match self.report.parse_response(response) {
            Ok(decoded) => decoded,
            Err(e) => {
                self.phase = CommandPhase::Done;
                return CommandStep::Finished(Err(e));
            },
        };
        match status {
            Status::Success | Status::Unsupported => {
                self.phase = CommandPhase::Done;
                CommandStep::Finished(Ok((status, payload)))
            },
            Status::Fail => {
                self.phase = CommandPhase::Done;
                CommandStep::Finished(Err(HidError::ProtocolError(ProtocolErrorKind::CommandFailed)))
            },
            Status::Busy | Status::Timeout => {
                if self.retries_left == 0 {
                    self.phase = CommandPhase::Done;
                    CommandStep::Finished(
                        Err(HidError::ProtocolError(ProtocolErrorKind::RetriesExhausted(status))),
                    )
                } else {
                    self.retries_left = self.retries_left - 1;
                    self.phase = CommandPhase::BackingOff;
                    CommandStep::Backoff { ms: self.backoff_ms }
                }
            },
            _ => {
                self.phase = CommandPhase::Done;
                CommandStep::Finished(
                    Err(HidError::ProtocolError(ProtocolErrorKind::UnexpectedStatus(status))),
                )
            },
        }
    }

    /// The backoff is over: wait, then send again.
    pub fn on_backoff_elapsed(&mut self) -> (r: CommandStep)
        requires
            old(self)@.phase == CommandPhase::BackingOff,
        ensures
            r matches CommandStep::Send { delay_ms, packet } && delay_ms == old(self)@.delay_ms
                && packet@ == old(self)@.packet,
            final(self)@ == (CommandView { phase: CommandPhase::Sending, ..old(self)@ }),
    {
        self.phase = CommandPhase::Sending;
        CommandStep::Send { delay_ms: self.delay_ms, packet: self.packet.clone() }
    }
}

} // verus!
