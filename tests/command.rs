use uchroma_hid::command::{CommandMachine, CommandPhase, CommandStep};
use uchroma_hid::error::{HidError, ProtocolErrorKind};
use uchroma_hid::report::{RazerReport, Status};

fn response(status: Status, payload: &[u8]) -> Vec<u8> {
    let mut r = vec![0u8; 90];
    r[0] = status.code();
    r[5] = payload.len() as u8;
    r[8..8 + payload.len()].copy_from_slice(payload);
    r
}

/// Drives an exchange against a scripted device; counts sends and backoffs.
fn drive(
    machine: &mut CommandMachine,
    responses: &[Vec<u8>],
) -> (Result<(Status, Vec<u8>), HidError>, usize, usize, Vec<u64>) {
    let mut sends = 0;
    let mut backoffs = 0;
    let mut waits = Vec::new();
    let mut next = 0;
    let mut step = machine.start();
    loop {
        step = match step {
            CommandStep::Send { delay_ms, packet } => {
                assert_eq!(packet.len(), 90);
                waits.push(delay_ms);
                sends += 1;
                machine.on_sent()
            }
            CommandStep::Receive { delay_ms, size } => {
                assert_eq!(size, 90);
                waits.push(delay_ms);
                let r = responses[next].clone();
                next += 1;
                machine.on_response(&r)
            }
            CommandStep::Backoff { ms } => {
                waits.push(ms);
                backoffs += 1;
                machine.on_backoff_elapsed()
            }
            CommandStep::Finished(outcome) => return (outcome, sends, backoffs, waits),
        }
    }
}

#[test]
fn busy_busy_ok_succeeds_after_two_backoffs() {
    let report = RazerReport::new(0x00, 0x81, Some(2), 0xFF);
    let mut machine = CommandMachine::new(report, None, None, 3);
    let script = vec![
        response(Status::Busy, &[]),
        response(Status::Busy, &[]),
        response(Status::Success, &[1, 2]),
    ];
    let (outcome, sends, backoffs, waits) = drive(&mut machine, &script);
    assert_eq!(outcome, Ok((Status::Success, vec![1, 2])));
    assert_eq!(sends, 3);
    assert_eq!(backoffs, 2);
    assert_eq!(waits, vec![7, 7, 100, 7, 7, 100, 7, 7]);
    assert_eq!(machine.phase(), CommandPhase::Done);
}

#[test]
fn always_busy_exhausts_retries_after_three_attempts() {
    let report = RazerReport::new(0x00, 0x81, None, 0xFF);
    let mut machine = CommandMachine::new(report, Some(1), Some(5), 2);
    let script = vec![response(Status::Busy, &[]); 10];
    let (outcome, sends, backoffs, _) = drive(&mut machine, &script);
    assert_eq!(
        outcome,
        Err(HidError::ProtocolError(ProtocolErrorKind::RetriesExhausted(Status::Busy)))
    );
    assert_eq!(sends, 3);
    assert_eq!(backoffs, 2);
}

#[test]
fn timeout_is_retried_like_busy() {
    let report = RazerReport::new(0x00, 0x81, None, 0xFF);
    let mut machine = CommandMachine::new(report, None, None, 0);
    let script = vec![response(Status::Timeout, &[])];
    let (outcome, sends, _, _) = drive(&mut machine, &script);
    assert_eq!(
        outcome,
        Err(HidError::ProtocolError(ProtocolErrorKind::RetriesExhausted(Status::Timeout)))
    );
    assert_eq!(sends, 1);
}

#[test]
fn fail_and_unknown_statuses_end_without_retry() {
    let mut machine = CommandMachine::new(RazerReport::new(0, 0x81, None, 0xFF), None, None, 3);
    let (outcome, sends, _, _) = drive(&mut machine, &[response(Status::Fail, &[])]);
    assert_eq!(outcome, Err(HidError::ProtocolError(ProtocolErrorKind::CommandFailed)));
    assert_eq!(sends, 1);

    let mut machine = CommandMachine::new(RazerReport::new(0, 0x81, None, 0xFF), None, None, 3);
    let (outcome, sends, _, _) = drive(&mut machine, &[response(Status::BadCrc, &[])]);
    assert_eq!(
        outcome,
        Err(HidError::ProtocolError(ProtocolErrorKind::UnexpectedStatus(Status::BadCrc)))
    );
    assert_eq!(sends, 1);

    let mut machine = CommandMachine::new(RazerReport::new(0, 0x81, None, 0xFF), None, None, 3);
    let mut odd = response(Status::Success, &[]);
    odd[0] = 0x42;
    let (outcome, _, _, _) = drive(&mut machine, &[odd]);
    assert_eq!(
        outcome,
        Err(HidError::ProtocolError(ProtocolErrorKind::UnexpectedStatus(Status::Unknown)))
    );
}

#[test]
fn unsupported_is_a_successful_end() {
    let mut machine = CommandMachine::new(RazerReport::new(0, 0x81, None, 0xFF), None, None, 3);
    let (outcome, _, _, _) = drive(&mut machine, &[response(Status::Unsupported, &[9])]);
    assert_eq!(outcome, Ok((Status::Unsupported, vec![9])));
}

#[test]
fn short_response_is_an_error() {
    let mut machine = CommandMachine::new(RazerReport::new(0, 0x81, None, 0xFF), None, None, 3);
    let (outcome, _, _, _) = drive(&mut machine, &[vec![2u8; 64]]);
    assert_eq!(outcome, Err(HidError::InvalidReportSize { expected: 90, actual: 64 }));
}

#[test]
fn segment_of_larger_transfer_reads_no_response() {
    let mut report = RazerReport::new(0x03, 0x0B, None, 0xFF);
    report.set_remaining_packets(4);
    let mut machine = CommandMachine::new(report, None, None, 3);
    let (outcome, sends, _, waits) = drive(&mut machine, &[]);
    assert_eq!(outcome, Ok((Status::Success, vec![])));
    assert_eq!(sends, 1);
    assert_eq!(waits, vec![7]);
}

#[test]
fn the_packed_report_is_sent() {
    let mut report = RazerReport::new(0x03, 0x0B, None, 0x1F);
    report.put_byte(0x42).unwrap();
    let mut machine = CommandMachine::new(report, None, None, 3);
    match machine.start() {
        CommandStep::Send { packet, .. } => {
            assert_eq!(packet[1], 0x1F);
            assert_eq!(packet[5], 1);
            assert_eq!(packet[8], 0x42);
            assert_eq!(packet[88], 0x1F ^ 1 ^ 0x03 ^ 0x0B ^ 0x42);
        }
        other => panic!("unexpected step {:?}", other),
    }
    assert_eq!(machine.phase(), CommandPhase::Sending);
}
