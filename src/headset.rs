//! Headset protocol over interrupt transfers: fixed-size reports with a
//! report-id byte, and a memory read/write command format on top.

use vstd::prelude::*;

use crate::error::{HidError, ProtocolErrorKind};

verus! {

/// Report id of every OUT report.
pub const REPORT_ID_OUT: u8 = 0x04;

/// Report id of every IN report.
pub const REPORT_ID_IN: u8 = 0x05;

/// OUT report length, without the report id.
pub const REPORT_LENGTH_OUT: usize = 37;

/// IN report length, without the report id.
pub const REPORT_LENGTH_IN: usize = 33;

/// Wait before a command and before reading its response, by default.
pub const DELAY_MS: u64 = 25;

/// Time allowed for a response, by default.
pub const READ_TIMEOUT_MS: u64 = 500;

/// Memory destination: read RAM.
pub const READ_RAM: u8 = 0x00;

/// Memory destination: read EEPROM.
pub const READ_EEPROM: u8 = 0x20;

/// Memory destination: write RAM.
pub const WRITE_RAM: u8 = 0x40;

/// Length of the memory command header: destination, length, address.
pub const MEMORY_HEADER_LEN: usize = 4;

/// The protocol constants: the three memory destinations and the OUT and
/// IN report lengths.
pub fn headset_constants() -> (r: (u8, u8, u8, usize, usize))
    ensures
        r == (READ_RAM, READ_EEPROM, WRITE_RAM, REPORT_LENGTH_OUT, REPORT_LENGTH_IN),
{
    (READ_RAM, READ_EEPROM, WRITE_RAM, REPORT_LENGTH_OUT, REPORT_LENGTH_IN)
}

/// `n` zero bytes.
pub open spec fn zeros(n: int) -> Seq<u8> {
    Seq::new(n as nat, |i: int| 0u8)
}

/// `data` cut or zero-padded to exactly `n` bytes.
pub open spec fn fit_to(data: Seq<u8>, n: int) -> Seq<u8> {
    if data.len() >= n {
        data.take(n)
    } else {
        data + zeros(n - data.len())
    }
}

/// Appends `data` cut or zero-padded to exactly `n` bytes.
fn push_fitted(out: &mut Vec<u8>, data: &[u8], n: usize)
    ensures
        final(out)@ == old(out)@ + fit_to(data@, n as int),
{
    let ghost start = out@;
    let mut k: usize = 0;
    while k < n
        invariant
            k <= n,
            out@ =~= start + fit_to(data@, n as int).take(k as int),
        decreases n - k,
    {
        if k < data.len() {
            out.push(data[k]);
        } else {
            out.push(0);
        }
        k = k + 1;
    }
    assert(fit_to(data@, n as int).take(n as int) =~= fit_to(data@, n as int));
}

/// The OUT report for a payload: the OUT report id, then the payload
/// zero-padded (or cut) to 37 bytes.
pub fn out_report(data: &[u8]) -> (r: Vec<u8>)
    ensures
        r@ == seq![REPORT_ID_OUT] + fit_to(data@, REPORT_LENGTH_OUT as int),
{
    let mut out: Vec<u8> = Vec::new();
    out.push(REPORT_ID_OUT);
    push_fitted(&mut out, data, REPORT_LENGTH_OUT);
    out
}

/// The payload of an IN report: refused unless the first byte is the IN
/// report id, which is stripped.
pub fn strip_in_report(data: &[u8]) -> (r: Result<Vec<u8>, HidError>)
    ensures
        data@.len() == 0 ==> r == Err::<Vec<u8>, HidError>(
            HidError::ProtocolError(ProtocolErrorKind::UnexpectedReportId(0)),
        ),
        data@.len() > 0 && data@[0] != REPORT_ID_IN ==> r == Err::<Vec<u8>, HidError>(
            HidError::ProtocolError(ProtocolErrorKind::UnexpectedReportId(data@[0])),
        ),
        data@.len() > 0 && data@[0] == REPORT_ID_IN ==> (r matches Ok(payload)
            && payload@ == data@.skip(1)),
{
    take_in_payload(data, data.len())
}

/// Checks the IN report id and takes up to `limit` payload bytes after it.
fn take_in_payload(data: &[u8], limit: usize) -> (r: Result<Vec<u8>, HidError>)
    ensures
        data@.len() == 0 ==> r == Err::<Vec<u8>, HidError>(
            HidError::ProtocolError(ProtocolErrorKind::UnexpectedReportId(0)),
        ),
        data@.len() > 0 && data@[0] != REPORT_ID_IN ==> r == Err::<Vec<u8>, HidError>(
            HidError::ProtocolError(ProtocolErrorKind::UnexpectedReportId(data@[0])),
        ),
        data@.len() > 0 && data@[0] == REPORT_ID_IN ==> (r matches Ok(payload)
            && payload@ == data@.subrange(
            1,
            1 + if limit < data@.len() - 1 {
                limit as int
            } else {
                data@.len() - 1
            },
        )),
{
    if data.len() == 0 {
        return Err(HidError::ProtocolError(ProtocolErrorKind::UnexpectedReportId(0)));
    }
    if data[0] != REPORT_ID_IN {
        return Err(HidError::ProtocolError(ProtocolErrorKind::UnexpectedReportId(data[0])));
    }
    let n: usize = if limit < data.len() - 1 {
        limit
    } else {
        data.len() - 1
    };
    let mut payload: Vec<u8> = Vec::new();
    let mut k: usize = 0;
    while k < n
        invariant
            k <= n,
            n < data@.len(),
            payload@ =~= data@.subrange(1, 1 + k as int),
        decreases n - k,
    {
        payload.push(data[1 + k]);
        k = k + 1;
    }
    proof {
        if n == data@.len() - 1 {
            assert(data@.subrange(1, 1 + n as int) =~= data@.skip(1));
        }
    }
    Ok(payload)
}

/// The 37-byte memory command: destination, length, address big-endian,
/// then as many argument bytes as fit (at most 33), zero-padded.
pub fn memory_request(destination: u8, length: u8, address: u16, args: Option<Vec<u8>>) -> (r:
    Vec<u8>)
    ensures
        r@ == seq![destination, length, (address / 256) as u8, (address % 256) as u8] + fit_to(
            match args {
                Some(a) => a@,
                None => Seq::empty(),
            },
            (REPORT_LENGTH_OUT - MEMORY_HEADER_LEN) as int,
        ),
{
    let mut req: Vec<u8> = Vec::new();
    req.push(destination);
    req.push(length);
    req.push((address / 256) as u8);
    req.push((address % 256) as u8);
    let empty: Vec<u8> = Vec::new();
    let body: &[u8] = match &args {
        Some(a) => a.as_slice(),
        None => empty.as_slice(),
    };
    push_fitted(&mut req, body, REPORT_LENGTH_OUT - MEMORY_HEADER_LEN);
    req
}

/// Whether a memory command is answered: reads of a nonzero length are,
/// writes are not.
pub fn expects_memory_response(destination: u8, length: u8) -> (r: bool)
    ensures
        r == ((destination == READ_RAM || destination == READ_EEPROM) && length > 0),
{
    (destination == READ_RAM || destination == READ_EEPROM) && length > 0
}

/// The data of a memory read response: refused unless it starts with the
/// IN report id; then up to `length` bytes after the id.
pub fn memory_response(response: &[u8], length: u8) -> (r: Result<Vec<u8>, HidError>)
    ensures
        response@.len() == 0 ==> r == Err::<Vec<u8>, HidError>(
            HidError::ProtocolError(ProtocolErrorKind::UnexpectedReportId(0)),
        ),
        response@.len() > 0 && response@[0] != REPORT_ID_IN ==> r == Err::<Vec<u8>, HidError>(
            HidError::ProtocolError(ProtocolErrorKind::UnexpectedReportId(response@[0])),
        ),
        response@.len() > 0 && response@[0] == REPORT_ID_IN ==> (r matches Ok(data)
            && data@ == response@.skip(1).take(
            if (length as int) < response@.len() - 1 {
                length as int
            } else {
                response@.len() - 1
            },
        )),
{
    let r = take_in_payload(response, length as usize);
    proof {
        if response@.len() > 0 && response@[0] == REPORT_ID_IN {
            let n = if (length as int) < response@.len() - 1 {
                length as int
            } else {
                response@.len() - 1
            };
            assert(response@.subrange(1, 1 + n) =~= response@.skip(1).take(n));
        }
    }
    r
}

/// One endpoint of an interface, as its descriptor gives it.
#[derive(Clone, Copy, Debug, PartialEq, Eq, Structural)]
pub struct EndpointRecord {
    pub address: u8,
    pub is_interrupt: bool,
    /// Direction: IN (device to host) when true, OUT otherwise.
    pub is_in: bool,
}

/// Address of the first interrupt endpoint of a direction.
pub open spec fn first_interrupt(eps: Seq<EndpointRecord>, is_in: bool) -> Option<u8>
    decreases eps.len(),
{
    if eps.len() == 0 {
        None
    } else if eps[0].is_interrupt && eps[0].is_in == is_in {
        Some(eps[0].address)
    } else {
        first_interrupt(eps.drop_first(), is_in)
    }
}

proof fn lemma_first_interrupt_step(eps: Seq<EndpointRecord>, i: int, is_in: bool)
    requires
        0 <= i < eps.len(),
    ensures
        first_interrupt(eps.skip(i), is_in) == if eps[i].is_interrupt && eps[i].is_in == is_in {
            Some(eps[i].address)
        } else {
            first_interrupt(eps.skip(i + 1), is_in)
        },
{
    assert(eps.skip(i).drop_first() =~= eps.skip(i + 1));
}

/// The interrupt OUT and IN endpoints, in that order: the first of each
/// direction; refused when either is missing.
pub fn select_endpoints(eps: &Vec<EndpointRecord>) -> (r: Result<(u8, u8), HidError>)
    ensures
        first_interrupt(eps@, false) is Some && first_interrupt(eps@, true) is Some ==> r == Ok::<
            (u8, u8),
            HidError,
        >((first_interrupt(eps@, false)->0, first_interrupt(eps@, true)->0)),
        first_interrupt(eps@, false) is None || first_interrupt(eps@, true) is None ==> r
            == Err::<(u8, u8), HidError>(
            HidError::ProtocolError(ProtocolErrorKind::EndpointsNotFound),
        ),
{
    let mut ep_out: Option<u8> = None;
    let mut ep_in: Option<u8> = None;
    let mut i: usize = 0;
    assert(eps@.skip(0) =~= eps@);
    while i < eps.len()
        invariant
            i <= eps@.len(),
            ep_in is None ==> first_interrupt(eps@, true) == first_interrupt(eps@.skip(i as int), true),
            ep_in is Some ==> first_interrupt(eps@, true) == ep_in,
            ep_out is None ==> first_interrupt(eps@, false) == first_interrupt(
                eps@.skip(i as int),
                false,
            ),
            ep_out is Some ==> first_interrupt(eps@, false) == ep_out,
        decreases eps@.len() - i,
    {
        proof {
            lemma_first_interrupt_step(eps@, i as int, true);
            lemma_first_interrupt_step(eps@, i as int, false);
        }
        let ep = eps[i];
        if ep.is_interrupt {
            if ep.is_in {
                if ep_in.is_none() {
                    ep_in = Some(ep.address);
                }
            } else {
                if ep_out.is_none() {
                    ep_out = Some(ep.address);
                }
            }
        }
        i = i + 1;
    }
    assert(eps@.skip(i as int) =~= Seq::<EndpointRecord>::empty());
    match (ep_out, ep_in) {
        (Some(o), Some(n)) => Ok((o, n)),
        _ => Err(HidError::ProtocolError(ProtocolErrorKind::EndpointsNotFound)),
    }
}

} // verus!
