//! Device enumeration: which interfaces of the present devices are HID
//! interfaces that pass the vendor/product filter, in a fixed order.
//!
//! Listing and opening devices is the caller's; this module takes what
//! that found, as plain records, and selects and orders.

use vstd::prelude::*;
use vstd::seq_lib::{
    lemma_multiset_commutative, to_multiset_build, to_multiset_insert, to_multiset_len,
};

use crate::device::DeviceLocation;
use crate::device_info::{DeviceInfo, InfoView};

verus! {

/// USB interface class code of HID.
pub const HID_CLASS: u8 = 0x03;

/// One interface of a device's active configuration.
pub struct InterfaceRecord {
    pub interface_number: u8,
    /// Class code of each alternate setting.
    pub classes: Vec<u8>,
}

/// One present device, as listing and opening it found it.
pub struct UsbDeviceRecord {
    pub location: DeviceLocation,
    pub manufacturer_string: String,
    pub product_string: String,
    pub serial_number: String,
    /// The interfaces of its active configuration; `None` when the device
    /// could not be opened or its configuration could not be read.
    pub interfaces: Option<Vec<InterfaceRecord>>,
}

/// A device passes the filter: 0 matches any vendor, and any product.
pub open spec fn passes_filter(vendor_id: u16, product_id: u16, loc: DeviceLocation) -> bool {
    (vendor_id == 0 || loc.vendor_id == vendor_id) && (product_id == 0 || loc.product_id
        == product_id)
}

/// Whether a device passes the vendor/product filter.
pub fn matches_filter(vendor_id: u16, product_id: u16, loc: &DeviceLocation) -> (r: bool)
    ensures
        r == passes_filter(vendor_id, product_id, *loc),
{
    (vendor_id == 0 || loc.vendor_id == vendor_id) && (product_id == 0 || loc.product_id
        == product_id)
}

/// The identity enumeration reports for an interface of a device.
pub open spec fn info_view(dev: UsbDeviceRecord, interface_number: u8) -> InfoView {
    InfoView {
        vendor_id: dev.location.vendor_id,
        product_id: dev.location.product_id,
        interface_number: interface_number as i32,
        manufacturer_string: dev.manufacturer_string@,
        product_string: dev.product_string@,
        serial_number: dev.serial_number@,
        bus_number: dev.location.bus_number,
        device_address: dev.location.device_address,
    }
}

/// Identities of the interfaces that have a HID alternate setting, in order.
pub open spec fn hid_infos(dev: UsbDeviceRecord, ifaces: Seq<InterfaceRecord>) -> Seq<InfoView>
    decreases ifaces.len(),
{
    if ifaces.len() == 0 {
        Seq::empty()
    } else {
        let rest = hid_infos(dev, ifaces.drop_last());
        if ifaces.last().classes@.contains(HID_CLASS) {
            rest.push(info_view(dev, ifaces.last().interface_number))
        } else {
            rest
        }
    }
}

/// What one device contributes: nothing if it fails the filter or could
/// not be opened, else its HID interfaces.
pub open spec fn device_hid_infos(vendor_id: u16, product_id: u16, dev: UsbDeviceRecord) -> Seq<
    InfoView,
> {
    if !passes_filter(vendor_id, product_id, dev.location) {
        Seq::empty()
    } else {
        match dev.interfaces {
            Some(ifs) => hid_infos(dev, ifs@),
            None => Seq::empty(),
        }
    }
}

/// Every interface enumeration selects, in listing order.
pub open spec fn candidates(vendor_id: u16, product_id: u16, devs: Seq<UsbDeviceRecord>) -> Seq<
    InfoView,
>
    decreases devs.len(),
{
    if devs.len() == 0 {
        Seq::empty()
    } else {
        candidates(vendor_id, product_id, devs.drop_last()) + device_hid_infos(
            vendor_id,
            product_id,
            devs.last(),
        )
    }
}

/// Order of enumeration results: by bus, then address, then interface.
pub open spec fn location_le(a: InfoView, b: InfoView) -> bool {
    a.bus_number < b.bus_number || (a.bus_number == b.bus_number && (a.device_address
        < b.device_address || (a.device_address == b.device_address && a.interface_number
        <= b.interface_number)))
}

pub open spec fn sorted_by_location(s: Seq<InfoView>) -> bool {
    forall|i: int, j: int| 0 <= i < j < s.len() ==> location_le(#[trigger] s[i], #[trigger] s[j])
}

/// Two identities sit at the same bus, address and interface.
pub open spec fn same_location(a: InfoView, b: InfoView) -> bool {
    a.bus_number == b.bus_number && a.device_address == b.device_address && a.interface_number
        == b.interface_number
}

/// The identities of `s` at the location of `k`, in their order in `s`.
pub open spec fn at_location(s: Seq<InfoView>, k: InfoView) -> Seq<InfoView>
    decreases s.len(),
{
    if s.len() == 0 {
        Seq::empty()
    } else if same_location(s[0], k) {
        seq![s[0]] + at_location(s.drop_first(), k)
    } else {
        at_location(s.drop_first(), k)
    }
}

proof fn lemma_at_location_concat(a: Seq<InfoView>, b: Seq<InfoView>, k: InfoView)
    ensures
        at_location(a + b, k) == at_location(a, k) + at_location(b, k),
    decreases a.len(),
{
    if a.len() == 0 {
        assert(a + b =~= b);
        assert(at_location(a, k) + at_location(b, k) =~= at_location(b, k));
    } else {
        assert((a + b).drop_first() =~= a.drop_first() + b);
        lemma_at_location_concat(a.drop_first(), b, k);
        if same_location(a[0], k) {
            assert(seq![a[0]] + (at_location(a.drop_first(), k) + at_location(b, k)) =~= (seq![a[0]]
                + at_location(a.drop_first(), k)) + at_location(b, k));
        }
    }
}

proof fn lemma_at_location_none(a: Seq<InfoView>, k: InfoView)
    requires
        forall|i: int| 0 <= i < a.len() ==> !same_location(#[trigger] a[i], k),
    ensures
        at_location(a, k) == Seq::<InfoView>::empty(),
    decreases a.len(),
{
    if a.len() > 0 {
        assert forall|i: int| 0 <= i < a.drop_first().len() implies !same_location(
            #[trigger] a.drop_first()[i],
            k,
        ) by {
            assert(a.drop_first()[i] == a[i + 1]);
        }
        lemma_at_location_none(a.drop_first(), k);
    }
}

proof fn lemma_at_location_some(a: Seq<InfoView>, k: InfoView, j: int)
    requires
        0 <= j < a.len(),
        same_location(a[j], k),
    ensures
        at_location(a, k).len() > 0,
    decreases a.len(),
{
    if !same_location(a[0], k) {
        assert(a.drop_first()[j - 1] == a[j]);
        lemma_at_location_some(a.drop_first(), k, j - 1);
    }
}

/// The models of a sequence of identities.
pub open spec fn views(s: Seq<DeviceInfo>) -> Seq<InfoView> {
    s.map_values(|d: DeviceInfo| d@)
}

fn location_le_exec(a: &DeviceInfo, b: &DeviceInfo) -> (r: bool)
    ensures
        r == location_le(a@, b@),
{
    a.bus_number < b.bus_number || (a.bus_number == b.bus_number && (a.device_address
        < b.device_address || (a.device_address == b.device_address && a.interface_number
        <= b.interface_number)))
}

fn has_hid_class(classes: &Vec<u8>) -> (r: bool)
    ensures
        r == classes@.contains(HID_CLASS),
{
    let mut i: usize = 0;
    while i < classes.len()
        invariant
            i <= classes@.len(),
            forall|j: int| 0 <= j < i ==> classes@[j] != HID_CLASS,
        decreases classes@.len() - i,
    {
        if classes[i] == HID_CLASS {
            return true;
        }
        i = i + 1;
    }
    false
}

/// Orders identities by bus, address and interface.
fn sort_by_location(found: Vec<DeviceInfo>) -> (r: Vec<DeviceInfo>)
    ensures
        sorted_by_location(views(r@)),
        views(r@).to_multiset() == views(found@).to_multiset(),
        forall|k: InfoView| #[trigger] at_location(views(r@), k) == at_location(views(found@), k),
{
    let ghost input = views(found@);
    let mut rest = found;
    let mut sorted: Vec<DeviceInfo> = Vec::new();
    proof {
        assert(views(sorted@) =~= Seq::<InfoView>::empty());
        lemma_multiset_commutative(input, views(sorted@));
        assert(input + views(sorted@) =~= input);
        assert(input.take(input.len() as int) =~= input);
        assert(input.skip(input.len() as int) =~= Seq::<InfoView>::empty());
    }
    while rest.len() > 0
        invariant
            sorted_by_location(views(sorted@)),
            views(rest@).to_multiset().add(views(sorted@).to_multiset()) =~= input.to_multiset(),
            views(rest@) == input.take(rest@.len() as int),
            rest@.len() <= input.len(),
            forall|k: InfoView|
                #[trigger] at_location(views(sorted@), k) == at_location(
                    input.skip(rest@.len() as int),
                    k,
                ),
        decreases rest@.len(),
    {
        let ghost before = rest@;
        let x = rest.pop().unwrap();
        proof {
            assert(views(before) =~= views(rest@).push(x@));
            to_multiset_build(views(rest@), x@);
            assert(views(rest@) =~= input.take(rest@.len() as int));
            assert(x@ == views(before)[before.len() - 1]);
            assert(views(before)[before.len() - 1] == input[before.len() - 1]);
            assert(input.skip(rest@.len() as int) =~= seq![x@] + input.skip(before.len() as int));
        }
        let mut p: usize = 0;
        while p < sorted.len() && !location_le_exec(&x, &sorted[p])
            invariant
                p <= sorted@.len(),
                forall|i: int| 0 <= i < p ==> !location_le(x@, #[trigger] views(sorted@)[i]),
            decreases sorted@.len() - p,
        {
            p = p + 1;
        }
        let ghost old_sorted = views(sorted@);
        sorted.insert(p, x);
        proof {
            assert(views(sorted@) =~= old_sorted.insert(p as int, x@));
            to_multiset_insert(old_sorted, p as int, x@);
            let front = old_sorted.take(p as int);
            let back = old_sorted.skip(p as int);
            assert(old_sorted =~= front + back);
            assert(views(sorted@) =~= (front + seq![x@]) + back);
            assert forall|k: InfoView| #[trigger]
                at_location(views(sorted@), k) == at_location(
                    input.skip(rest@.len() as int),
                    k,
                ) by {
                lemma_at_location_concat(front + seq![x@], back, k);
                lemma_at_location_concat(front, seq![x@], k);
                lemma_at_location_concat(front, back, k);
                let tail = input.skip(before.len() as int);
                let now = input.skip(rest@.len() as int);
                assert(now[0] == x@);
                assert(now.drop_first() =~= tail);
                assert(at_location(old_sorted, k) == at_location(tail, k));
                assert(at_location(seq![x@].drop_first(), k) =~= Seq::<InfoView>::empty());
                if !same_location(x@, k) {
                    assert(at_location(seq![x@], k) =~= Seq::<InfoView>::empty());
                    assert(at_location(front, k) + Seq::<InfoView>::empty() =~= at_location(
                        front,
                        k,
                    ));
                }
                if same_location(x@, k) {
                    assert forall|i: int| 0 <= i < front.len() implies !same_location(
                        #[trigger] front[i],
                        k,
                    ) by {
                        assert(!location_le(x@, old_sorted[i]));
                    }
                    lemma_at_location_none(front, k);
                    assert(at_location(front, k) + at_location(back, k) =~= at_location(back, k));
                    assert(at_location(seq![x@], k) =~= seq![x@]);
                    assert(at_location(front, k) + at_location(seq![x@], k) =~= seq![x@]);
                }
            }
            let s = views(sorted@);
            assert forall|i: int, j: int| 0 <= i < j < s.len() implies location_le(
                #[trigger] s[i],
                #[trigger] s[j],
            ) by {
                if i < p && j == p {
                    assert(!location_le(x@, old_sorted[i]));
                } else if i == p && j > p {
                    assert(location_le(x@, old_sorted[p as int]));
                    assert(location_le(old_sorted[p as int], old_sorted[j - 1]) || j - 1 == p);
                } else if i < p && j > p {
                    assert(location_le(old_sorted[i], old_sorted[j - 1]));
                } else if i > p {
                    assert(location_le(old_sorted[i - 1], old_sorted[j - 1]));
                }
            }
        }
    }
    proof {
        assert(views(rest@) =~= Seq::<InfoView>::empty());
        lemma_multiset_commutative(views(rest@), views(sorted@));
        assert(views(rest@) + views(sorted@) =~= views(sorted@));
        assert(input.skip(0) =~= input);
    }
    sorted
}

/// The HID interfaces of the listed devices that pass the vendor/product
/// filter (0 matches any), ordered by bus, address and interface. A device
/// that could not be opened contributes nothing; no device is an error.
pub fn select_hid_interfaces(vendor_id: u16, product_id: u16, devices: &Vec<UsbDeviceRecord>) -> (r:
    Vec<DeviceInfo>)
    ensures
        sorted_by_location(views(r@)),
        views(r@).to_multiset() == candidates(vendor_id, product_id, devices@).to_multiset(),
        forall|k: InfoView|
            #[trigger] at_location(views(r@), k) == at_location(
                candidates(vendor_id, product_id, devices@),
                k,
            ),
{
    let mut found: Vec<DeviceInfo> = Vec::new();
    let mut i: usize = 0;
    assert(devices@.take(0) =~= Seq::<UsbDeviceRecord>::empty());
    assert(views(found@) =~= Seq::<InfoView>::empty());
    while i < devices.len()
        invariant
            i <= devices@.len(),
            views(found@) == candidates(vendor_id, product_id, devices@.take(i as int)),
        decreases devices@.len() - i,
    {
        let dev = &devices[i];
        let ghost base = views(found@);
        assert(devices@.take(i + 1).drop_last() =~= devices@.take(i as int));
        if matches_filter(vendor_id, product_id, &dev.location) {
            match &dev.interfaces {
                Some(ifs) => {
                    let mut j: usize = 0;
                    assert(ifs@.take(0) =~= Seq::<InterfaceRecord>::empty());
                    assert(base + Seq::<InfoView>::empty() =~= base);
                    while j < ifs.len()
                        invariant
                            j <= ifs@.len(),
                            views(found@) == base + hid_infos(*dev, ifs@.take(j as int)),
                        decreases ifs@.len() - j,
                    {
                        assert(ifs@.take(j + 1).drop_last() =~= ifs@.take(j as int));
                        let iface = &ifs[j];
                        if has_hid_class(&iface.classes) {
                            let info = DeviceInfo {
                                vendor_id: dev.location.vendor_id,
                                product_id: dev.location.product_id,
                                interface_number: iface.interface_number as i32,
                                manufacturer_string: dev.manufacturer_string.clone(),
                                product_string: dev.product_string.clone(),
                                serial_number: dev.serial_number.clone(),
                                bus_number: dev.location.bus_number,
                                device_address: dev.location.device_address,
                            };
                            let ghost prev = views(found@);
                            found.push(info);
                            assert(views(found@) =~= prev.push(info@));
                        }
                        j = j + 1;
                    }
                    assert(ifs@.take(ifs@.len() as int) =~= ifs@);
                },
                None => {
                    assert(base + Seq::<InfoView>::empty() =~= base);
                },
            }
        } else {
            assert(base + Seq::<InfoView>::empty() =~= base);
        }
        i = i + 1;
    }
    assert(devices@.take(devices@.len() as int) =~= devices@);
    sort_by_location(found)
}


proof fn lemma_no_candidates(vendor_id: u16, product_id: u16, devices: Seq<UsbDeviceRecord>)
    requires
        forall|i: int|
            0 <= i < devices.len() ==> !passes_filter(vendor_id, product_id, #[trigger] devices[i].location),
    ensures
        candidates(vendor_id, product_id, devices) == Seq::<InfoView>::empty(),
    decreases devices.len(),
{
    if devices.len() > 0 {
        let init = devices.drop_last();
        assert forall|i: int| 0 <= i < init.len() implies !passes_filter(
            vendor_id,
            product_id,
            #[trigger] init[i].location,
        ) by {
            assert(init[i] == devices[i]);
        }
        lemma_no_candidates(vendor_id, product_id, init);
        assert(!passes_filter(vendor_id, product_id, devices[devices.len() - 1].location));
        assert(candidates(vendor_id, product_id, devices) =~= Seq::<InfoView>::empty());
    }
}

/// When no listed device passes the filter, enumeration selects nothing:
/// any result it may return is empty.
pub proof fn lemma_unmatched_filter_selects_nothing(
    vendor_id: u16,
    product_id: u16,
    devices: Seq<UsbDeviceRecord>,
    result: Seq<InfoView>,
)
    requires
        forall|i: int|
            0 <= i < devices.len() ==> !passes_filter(vendor_id, product_id, #[trigger] devices[i].location),
        result.to_multiset() == candidates(vendor_id, product_id, devices).to_multiset(),
    ensures
        candidates(vendor_id, product_id, devices) == Seq::<InfoView>::empty(),
        result.len() == 0,
{
    lemma_no_candidates(vendor_id, product_id, devices);
    to_multiset_len(result);
    to_multiset_len(candidates(vendor_id, product_id, devices));
}

proof fn lemma_sorted_by_location_unique(a: Seq<InfoView>, b: Seq<InfoView>)
    requires
        sorted_by_location(a),
        sorted_by_location(b),
        forall|k: InfoView| #[trigger] at_location(a, k) == at_location(b, k),
    ensures
        a == b,
    decreases a.len() + b.len(),
{
    if a.len() == 0 || b.len() == 0 {
        if a.len() > 0 {
            lemma_at_location_some(a, a[0], 0);
            assert(at_location(b, a[0]) == at_location(a, a[0]));
        }
        if b.len() > 0 {
            lemma_at_location_some(b, b[0], 0);
            assert(at_location(b, b[0]) == at_location(a, b[0]));
        }
        assert(a =~= b);
    } else {
        let x = a[0];
        let y = b[0];
        assert(at_location(a, x) == seq![x] + at_location(a.drop_first(), x));
        assert(at_location(b, x) == at_location(a, x));
        if forall|i: int| 0 <= i < b.len() ==> !same_location(#[trigger] b[i], x) {
            lemma_at_location_none(b, x);
        }
        let j = choose|j: int| 0 <= j < b.len() && same_location(#[trigger] b[j], x);
        if j > 0 {
            assert(location_le(b[0], b[j]));
        }
        assert(at_location(a, y) == at_location(b, y));
        assert(at_location(b, y) == seq![y] + at_location(b.drop_first(), y));
        if forall|i: int| 0 <= i < a.len() ==> !same_location(#[trigger] a[i], y) {
            lemma_at_location_none(a, y);
        }
        let i = choose|i: int| 0 <= i < a.len() && same_location(#[trigger] a[i], y);
        if i > 0 {
            assert(location_le(a[0], a[i]));
        }
        assert(same_location(x, y));
        assert(at_location(b, x) == seq![y] + at_location(b.drop_first(), x));
        assert(at_location(a, x)[0] == x);
        assert(at_location(b, x)[0] == y);
        assert(x == y);
        let a1 = a.drop_first();
        let b1 = b.drop_first();
        assert forall|k: InfoView| #[trigger] at_location(a1, k) == at_location(b1, k) by {
            assert(at_location(a, k) == at_location(b, k));
            if same_location(x, k) {
                assert(at_location(a, k) == seq![x] + at_location(a1, k));
                assert(at_location(b, k) == seq![x] + at_location(b1, k));
                assert(at_location(a1, k) =~= at_location(a, k).drop_first());
                assert(at_location(b1, k) =~= at_location(b, k).drop_first());
            }
        }
        assert forall|p: int, q: int| 0 <= p < q < a1.len() implies location_le(
            #[trigger] a1[p],
            #[trigger] a1[q],
        ) by {
            assert(a1[p] == a[p + 1] && a1[q] == a[q + 1]);
        }
        assert forall|p: int, q: int| 0 <= p < q < b1.len() implies location_le(
            #[trigger] b1[p],
            #[trigger] b1[q],
        ) by {
            assert(b1[p] == b[p + 1] && b1[q] == b[q + 1]);
        }
        lemma_sorted_by_location_unique(a1, b1);
        assert forall|k: int| 0 <= k < a.len() implies a[k] == b[k] by {
            if k > 0 {
                assert(a[k] == a1[k - 1]);
                assert(b[k] == b1[k - 1]);
            }
        }
        assert(a.len() == a1.len() + 1 && b.len() == b1.len() + 1);
        assert(a =~= b);
    }
}

/// Enumeration order is fully determined: any two results that meet what
/// enumeration promises for the same devices and filter (ordered by
/// location, and holding at each location the selected identities in
/// listing order) are equal. So enumerating an unchanged set of devices
/// twice gives identically ordered results.
pub proof fn lemma_enumeration_order_is_determined(
    vendor_id: u16,
    product_id: u16,
    devices: Seq<UsbDeviceRecord>,
    first: Seq<InfoView>,
    second: Seq<InfoView>,
)
    requires
        sorted_by_location(first),
        sorted_by_location(second),
        forall|k: InfoView|
            #[trigger] at_location(first, k) == at_location(
                candidates(vendor_id, product_id, devices),
                k,
            ),
        forall|k: InfoView|
            #[trigger] at_location(second, k) == at_location(
                candidates(vendor_id, product_id, devices),
                k,
            ),
    ensures
        first == second,
{
    assert forall|k: InfoView| #[trigger] at_location(first, k) == at_location(second, k) by {
        assert(at_location(first, k) == at_location(candidates(vendor_id, product_id, devices), k));
        assert(at_location(second, k) == at_location(candidates(vendor_id, product_id, devices), k));
    }
    lemma_sorted_by_location_unique(first, second);
}

} // verus!
