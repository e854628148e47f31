//! Identity of one HID interface, as enumeration reports it.

use vstd::prelude::*;

verus! {

/// One HID interface of a present USB device.
#[derive(Clone, Debug)]
pub struct DeviceInfo {
    pub vendor_id: u16,
    pub product_id: u16,
    pub interface_number: i32,
    pub manufacturer_string: String,
    pub product_string: String,
    pub serial_number: String,
    /// Bus number where the platform gives a stable one, else 0.
    pub bus_number: u8,
    pub device_address: u8,
}

/// Mathematical model of an interface identity.
pub ghost struct InfoView {
    pub vendor_id: u16,
    pub product_id: u16,
    pub interface_number: i32,
    pub manufacturer_string: Seq<char>,
    pub product_string: Seq<char>,
    pub serial_number: Seq<char>,
    pub bus_number: u8,
    pub device_address: u8,
}

impl View for DeviceInfo {
    type V = InfoView;

    open spec fn view(&self) -> InfoView {
        InfoView {
            vendor_id: self.vendor_id,
            product_id: self.product_id,
            interface_number: self.interface_number,
            manufacturer_string: self.manufacturer_string@,
            product_string: self.product_string@,
            serial_number: self.serial_number@,
            bus_number: self.bus_number,
            device_address: self.device_address,
        }
    }
}

/// ASCII code of a decimal digit.
pub open spec fn digit_char(d: int) -> u8 {
    (48 + d) as u8
}

/// Decimal digits of a natural number, without leading zeros.
pub open spec fn decimal(n: nat) -> Seq<u8>
    decreases n,
{
    if n < 10 {
        seq![digit_char(n as int)]
    } else {
        decimal(n / 10).push(digit_char((n % 10) as int))
    }
}

/// Decimal digits, zero-padded on the left to at least `width`.
pub open spec fn zero_padded(n: nat, width: nat) -> Seq<u8> {
    let d = decimal(n);
    if d.len() >= width {
        d
    } else {
        Seq::new((width - d.len()) as nat, |i: int| digit_char(0)) + d
    }
}

/// A signed decimal, zero-padded to at least `width` characters with the
/// sign counted among them.
pub open spec fn signed_padded(v: int, width: nat) -> Seq<u8> {
    if v < 0 {
        seq![45u8] + zero_padded((-v) as nat, if width > 0 {
            (width - 1) as nat
        } else {
            0
        })
    } else {
        zero_padded(v as nat, width)
    }
}

/// The path of an interface: `bus:address:interface`, zero-padded to
/// three, three and two digits.
pub open spec fn path_of(bus: u8, address: u8, interface: i32) -> Seq<u8> {
    zero_padded(bus as nat, 3) + seq![58u8] + zero_padded(address as nat, 3) + seq![58u8]
        + signed_padded(interface as int, 2)
}

fn decimal_digits(n: u32) -> (r: Vec<u8>)
    ensures
        r@ == decimal(n as nat),
    decreases n,
{
    if n < 10 {
        let mut v: Vec<u8> = Vec::new();
        v.push(48 + n as u8);
        v
    } else {
        let mut v = decimal_digits(n / 10);
        v.push(48 + (n % 10) as u8);
        v
    }
}

/// Appends `n` in decimal, zero-padded to at least `width` digits.
fn push_padded(out: &mut Vec<u8>, n: u32, width: usize)
    ensures
        final(out)@ == old(out)@ + zero_padded(n as nat, width as nat),
{
    let digits = decimal_digits(n);
    let mut k: usize = digits.len();
    let ghost start = out@;
    let ghost pad: nat = if digits@.len() >= width {
        0
    } else {
        (width - digits@.len()) as nat
    };
    let mut written: usize = 0;
    while k < width
        invariant
            digits@ == decimal(n as nat),
            written + digits@.len() == k,
            k <= width || written == 0,
            out@ =~= start + Seq::new(written as nat, |i: int| digit_char(0)),
            pad == if digits@.len() >= width {
                0
            } else {
                (width - digits@.len()) as nat
            },
        decreases width - k,
    {
        out.push(48);
        written = written + 1;
        k = k + 1;
    }
    assert(written == pad);
    let mut j: usize = 0;
    while j < digits.len()
        invariant
            j <= digits@.len(),
            out@ =~= start + Seq::new(pad, |i: int| digit_char(0)) + digits@.take(j as int),
        decreases digits@.len() - j,
    {
        out.push(digits[j]);
        j = j + 1;
    }
    proof {
        assert(digits@.take(digits@.len() as int) =~= digits@);
        if digits@.len() >= width {
            assert(Seq::new(pad, |i: int| digit_char(0)) =~= Seq::<u8>::empty());
        }
    }
}

impl DeviceInfo {
    /// Stable path of the interface, `bus:address:interface` as bytes,
    /// for example `b"001:005:02"`.
    pub fn path(&self) -> (r: Vec<u8>)
        ensures
            r@ == path_of(self.bus_number, self.device_address, self.interface_number),
    {
        let mut out: Vec<u8> = Vec::new();
        push_padded(&mut out, self.bus_number as u32, 3);
        out.push(58);
        push_padded(&mut out, self.device_address as u32, 3);
        out.push(58);
        if self.interface_number < 0 {
            out.push(45);
            let magnitude: u32 = (0i64 - self.interface_number as i64) as u32;
            push_padded(&mut out, magnitude, 1);
        } else {
            push_padded(&mut out, self.interface_number as u32, 2);
        }
        out
    }
}

} // verus!
