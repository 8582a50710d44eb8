//! USB endpoint pairs and the order in which endpoint candidates are
//! probed.
use vstd::prelude::*;

use crate::error::AtctlError;

verus! {

/// How an endpoint pair was found.
#[derive(Debug, Copy, Clone, PartialEq, Eq, Structural)]
pub enum EndpointSelection {
    ManualOverride,
    DescriptorShape,
}

/// A bulk IN / bulk OUT endpoint pair on one interface.
#[derive(Debug, Copy, Clone, PartialEq, Eq, Structural)]
pub struct EndpointPair {
    pub interface_number: u8,
    pub alternate_setting: Option<u8>,
    pub bulk_in: u8,
    pub bulk_out: u8,
    pub selection: EndpointSelection,
}

/// The endpoint pair the user gave explicitly.
pub fn manual_override_pair(interface_number: u8, bulk_in: u8, bulk_out: u8) -> (r: EndpointPair)
    ensures
        r == (EndpointPair {
            interface_number,
            alternate_setting: None,
            bulk_in,
            bulk_out,
            selection: EndpointSelection::ManualOverride,
        }),
{
    EndpointPair {
        interface_number,
        alternate_setting: None,
        bulk_in,
        bulk_out,
        selection: EndpointSelection::ManualOverride,
    }
}

/// The alternate setting to select after claiming the pair's interface:
/// only for a pair found by descriptor shape on a non-zero setting.
pub fn alternate_setting_to_select(pair: &EndpointPair) -> (r: Option<u8>)
    ensures
        r == if pair.selection == EndpointSelection::DescriptorShape && pair.alternate_setting is Some
            && pair.alternate_setting->0 != 0 {
            pair.alternate_setting
        } else {
            None
        },
{
    match (pair.selection, pair.alternate_setting) {
        (EndpointSelection::DescriptorShape, Some(alt)) => {
            if alt != 0 {
                Some(alt)
            } else {
                None
            }
        },
        _ => None,
    }
}

/// A bulk write must send every byte.
pub fn check_bulk_write(written: usize, expected: usize) -> (r: Result<(), AtctlError>)
    ensures
        written == expected <==> r is Ok,
        written != expected ==> (r matches Err(AtctlError::Transport(m)) && m@
            == "partial USB bulk write: wrote "@ + crate::text::decimal(written as nat) + " of "@
            + crate::text::decimal(expected as nat) + " bytes"@),
{
    if written != expected {
        let mut m = crate::text::chars_of("partial USB bulk write: wrote ");
        crate::text::push_decimal(&mut m, written as u128);
        crate::text::push_str(&mut m, " of ");
        crate::text::push_decimal(&mut m, expected as u128);
        crate::text::push_str(&mut m, " bytes");
        return Err(AtctlError::Transport(crate::text::string_of(&m)));
    }
    Ok(())
}

/// How a USB transport finds and talks to the modem.
#[derive(Debug, Clone, PartialEq, Eq)]
pub struct UsbAtTransportConfig {
    pub filter: UsbDeviceFilter,
    pub manual_pair: Option<EndpointPair>,
    pub timeout_ms: u64,
    pub probe_timeout_ms: u64,
}

// ---------------------------------------------------------------------
// Devices
// ---------------------------------------------------------------------
/// Which USB devices a command may use: each given value must match.
#[derive(Debug, Copy, Clone, PartialEq, Eq, Structural)]
pub struct UsbDeviceFilter {
    pub vendor_id: Option<u16>,
    pub product_id: Option<u16>,
    pub bus: Option<u8>,
    pub address: Option<u8>,
}

/// What the USB descriptors tell about a device.
#[derive(Debug, Clone, PartialEq, Eq)]
pub struct UsbDeviceInfo {
    pub vendor_id: u16,
    pub product_id: u16,
    pub bus: u8,
    pub address: u8,
    pub class_code: u8,
    pub sub_class_code: u8,
    pub protocol_code: u8,
    pub num_configurations: u8,
    pub manufacturer: Option<String>,
    pub product: Option<String>,
    pub serial_number: Option<String>,
}

pub open spec fn opt_matches<T>(want: Option<T>, have: T) -> bool {
    match want {
        Some(w) => w == have,
        None => true,
    }
}

/// Whether a device passes the filter.
pub open spec fn filter_matches(f: UsbDeviceFilter, d: UsbDeviceInfo) -> bool {
    opt_matches(f.vendor_id, d.vendor_id) && opt_matches(f.product_id, d.product_id)
        && opt_matches(f.bus, d.bus) && opt_matches(f.address, d.address)
}

impl UsbDeviceFilter {
    pub fn matches(&self, device: &UsbDeviceInfo) -> (b: bool)
        ensures
            b == filter_matches(*self, *device),
    {
        let vendor = match self.vendor_id {
            Some(v) => v == device.vendor_id,
            None => true,
        };
        let product = match self.product_id {
            Some(v) => v == device.product_id,
            None => true,
        };
        let bus = match self.bus {
            Some(v) => v == device.bus,
            None => true,
        };
        let address = match self.address {
            Some(v) => v == device.address,
            None => true,
        };
        vendor && product && bus && address
    }
}

/// The name a device is listed under: its product, else its
/// manufacturer, else `USB device`.
pub open spec fn device_label_text(d: UsbDeviceInfo) -> Seq<char> {
    match d.product {
        Some(p) => p@,
        None => match d.manufacturer {
            Some(m) => m@,
            None => "USB device"@,
        },
    }
}

pub fn device_label(device: &UsbDeviceInfo) -> (r: &str)
    ensures
        r@ == device_label_text(*device),
{
    match &device.product {
        Some(p) => p.as_str(),
        None => match &device.manufacturer {
            Some(m) => m.as_str(),
            None => "USB device",
        },
    }
}

/// `<vid>:<pid> bus=<bus> address=<address>`, the identity of a device.
pub open spec fn device_identity_text(d: UsbDeviceInfo) -> Seq<char> {
    crate::cli::hex_u16_text(d.vendor_id) + ":"@ + crate::cli::hex_u16_text(d.product_id)
        + " bus="@ + crate::text::decimal(d.bus as nat) + " address="@ + crate::text::decimal(
        d.address as nat,
    )
}

pub fn device_identity(device: &UsbDeviceInfo) -> (r: String)
    ensures
        r@ == device_identity_text(*device),
{
    let mut v = crate::cli::hex_u16(device.vendor_id);
    crate::text::push_str(&mut v, ":");
    crate::text::push_all(&mut v, &crate::cli::hex_u16(device.product_id));
    crate::text::push_str(&mut v, " bus=");
    crate::text::push_decimal(&mut v, device.bus as u128);
    crate::text::push_str(&mut v, " address=");
    crate::text::push_decimal(&mut v, device.address as u128);
    crate::text::string_of(&v)
}

/// The identities of the devices, one per line.
pub open spec fn identities_text(ds: Seq<UsbDeviceInfo>) -> Seq<char>
    decreases ds.len(),
{
    if ds.len() == 0 {
        Seq::empty()
    } else if ds.len() == 1 {
        device_identity_text(ds[0])
    } else {
        identities_text(ds.drop_last()) + "\n"@ + device_identity_text(ds.last())
    }
}

/// The one device that passed the filter; none is not found, and several
/// are listed so the user can narrow the choice.
pub fn select_single_device(devices: &[UsbDeviceInfo]) -> (r: Result<usize, AtctlError>)
    ensures
        devices.len() == 0 ==> r == Err::<usize, AtctlError>(AtctlError::DeviceNotFound),
        devices.len() == 1 ==> r == Ok::<usize, AtctlError>(0),
        devices.len() > 1 ==> (r matches Err(AtctlError::MultipleDevices { devices: text })
            && text@ == identities_text(devices@)),
{
    if devices.len() == 0 {
        return Err(AtctlError::DeviceNotFound);
    }
    if devices.len() == 1 {
        return Ok(0);
    }
    let mut v: Vec<char> = Vec::new();
    let mut i: usize = 0;
    while i < devices.len()
        invariant
            i <= devices.len(),
            v@ == identities_text(devices@.take(i as int)),
        decreases devices.len() - i,
    {
        assert(devices@.take(i + 1).drop_last() =~= devices@.take(i as int));
        if i > 0 {
            crate::text::push_str(&mut v, "\n");
        }
        let id = device_identity(&devices[i]);
        crate::text::push_str(&mut v, id.as_str());
        proof {
            if i == 0 {
                assert(devices@.take(1)[0] == devices@[0]);
            }
        }
        i += 1;
    }
    assert(devices@.take(i as int) =~= devices@);
    Err(AtctlError::MultipleDevices { devices: crate::text::string_of(&v) })
}

// ---------------------------------------------------------------------
// Endpoint descriptors
// ---------------------------------------------------------------------
/// An endpoint's direction.
#[derive(Debug, Copy, Clone, PartialEq, Eq, Structural)]
pub enum EndpointDirection {
    In,
    Out,
}

/// An endpoint's transfer type.
#[derive(Debug, Copy, Clone, PartialEq, Eq, Structural)]
pub enum EndpointTransferType {
    Control,
    Isochronous,
    Bulk,
    Interrupt,
}

/// One endpoint of an interface setting.
#[derive(Debug, Copy, Clone, PartialEq, Eq, Structural)]
pub struct EndpointDescriptor {
    pub address: u8,
    pub direction: EndpointDirection,
    pub transfer_type: EndpointTransferType,
    pub max_packet_size: u16,
}

/// The position of the first bulk endpoint of a direction.
pub open spec fn first_bulk(endpoints: Seq<EndpointDescriptor>, dir: EndpointDirection) -> Option<int>
    decreases endpoints.len(),
{
    if endpoints.len() == 0 {
        None
    } else {
        match first_bulk(endpoints.drop_last(), dir) {
            Some(i) => Some(i),
            None => if endpoints.last().transfer_type == EndpointTransferType::Bulk
                && endpoints.last().direction == dir {
                Some(endpoints.len() - 1)
            } else {
                None
            },
        }
    }
}

fn first_bulk_exec(endpoints: &[EndpointDescriptor], dir: EndpointDirection) -> (r: Option<usize>)
    ensures
        r matches Some(i) ==> i < endpoints.len() && first_bulk(endpoints@, dir) == Some(i as int),
        r is None ==> first_bulk(endpoints@, dir) is None,
{
    let mut i: usize = 0;
    while i < endpoints.len()
        invariant
            i <= endpoints.len(),
            first_bulk(endpoints@.take(i as int), dir) is None,
        decreases endpoints.len() - i,
    {
        assert(endpoints@.take(i + 1).drop_last() =~= endpoints@.take(i as int));
        if endpoints[i].transfer_type == EndpointTransferType::Bulk && endpoints[i].direction == dir {
            proof {
                lemma_first_bulk_prefix(endpoints@, dir, i + 1);
            }
            return Some(i);
        }
        i += 1;
    }
    assert(endpoints@.take(i as int) =~= endpoints@);
    None
}

/// A bulk endpoint found in a prefix is the first of all.
pub proof fn lemma_first_bulk_prefix(endpoints: Seq<EndpointDescriptor>, dir: EndpointDirection, k: int)
    requires
        0 <= k <= endpoints.len(),
        first_bulk(endpoints.take(k), dir) is Some,
    ensures
        first_bulk(endpoints, dir) == first_bulk(endpoints.take(k), dir),
    decreases endpoints.len() - k,
{
    if k < endpoints.len() {
        assert(endpoints.take(k + 1).drop_last() =~= endpoints.take(k));
        lemma_first_bulk_prefix(endpoints, dir, k + 1);
    } else {
        assert(endpoints.take(k) =~= endpoints);
    }
}

/// The AT candidate an interface setting offers by its shape: its first
/// bulk IN and first bulk OUT endpoints, when it has both.
pub open spec fn shape_pair(
    interface_number: u8,
    alternate_setting: u8,
    endpoints: Seq<EndpointDescriptor>,
) -> Option<EndpointPair> {
    let i = first_bulk(endpoints, EndpointDirection::In);
    let o = first_bulk(endpoints, EndpointDirection::Out);
    if i is Some && o is Some {
        Some(
            EndpointPair {
                interface_number,
                alternate_setting: Some(alternate_setting),
                bulk_in: endpoints[i->0].address,
                bulk_out: endpoints[o->0].address,
                selection: EndpointSelection::DescriptorShape,
            },
        )
    } else {
        None
    }
}

/// The AT candidates of an interface setting, found by its shape.
pub fn descriptor_shape_pairs(
    interface_number: u8,
    alternate_setting: u8,
    endpoints: &[EndpointDescriptor],
) -> (r: Vec<EndpointPair>)
    ensures
        r@ == match shape_pair(interface_number, alternate_setting, endpoints@) {
            Some(p) => seq![p],
            None => Seq::<EndpointPair>::empty(),
        },
{
    let mut r: Vec<EndpointPair> = Vec::new();
    let bulk_in = first_bulk_exec(endpoints, EndpointDirection::In);
    let bulk_out = first_bulk_exec(endpoints, EndpointDirection::Out);
    if let Some(i) = bulk_in {
        if let Some(o) = bulk_out {
            r.push(
                EndpointPair {
                    interface_number,
                    alternate_setting: Some(alternate_setting),
                    bulk_in: endpoints[i].address,
                    bulk_out: endpoints[o].address,
                    selection: EndpointSelection::DescriptorShape,
                },
            );
        }
    }
    assert(r@ =~= match shape_pair(interface_number, alternate_setting, endpoints@) {
        Some(p) => seq![p],
        None => Seq::<EndpointPair>::empty(),
    });
    r
}

/// An endpoint pair found on one configuration.
#[derive(Debug, Copy, Clone, PartialEq, Eq, Structural)]
pub struct EndpointCandidate {
    pub configuration_value: u8,
    pub pair: EndpointPair,
}

/// The probing order: configuration, interface, alternate setting (none
/// counting as zero), then OUT endpoint.
pub open spec fn candidate_key(c: EndpointCandidate) -> (u8, u8, u8, u8) {
    (
        c.configuration_value,
        c.pair.interface_number,
        match c.pair.alternate_setting {
            Some(a) => a,
            None => 0,
        },
        c.pair.bulk_out,
    )
}

/// The key as one number, ordered as the key's tuple is.
pub open spec fn key_rank(k: (u8, u8, u8, u8)) -> nat {
    ((k.0 as nat * 256 + k.1 as nat) * 256 + k.2 as nat) * 256 + k.3 as nat
}

/// Whether the tuple `a` comes before or equals `b`, field by field.
pub open spec fn key_le(a: (u8, u8, u8, u8), b: (u8, u8, u8, u8)) -> bool {
    a.0 < b.0 || (a.0 == b.0 && (a.1 < b.1 || (a.1 == b.1 && (a.2 < b.2 || (a.2 == b.2 && a.3
        <= b.3)))))
}

/// The sort key of a candidate.
pub fn candidate_sort_key(candidate: &EndpointCandidate) -> (r: (u8, u8, u8, u8))
    ensures
        r == candidate_key(*candidate),
{
    let alt = match candidate.pair.alternate_setting {
        Some(a) => a,
        None => 0,
    };
    (candidate.configuration_value, candidate.pair.interface_number, alt, candidate.pair.bulk_out)
}

/// Ranking keys numerically orders them as tuples.
pub proof fn lemma_key_rank_order(a: (u8, u8, u8, u8), b: (u8, u8, u8, u8))
    ensures
        key_le(a, b) <==> key_rank(a) <= key_rank(b),
{
    assert(key_le(a, b) <==> key_rank(a) <= key_rank(b)) by (nonlinear_arith)
        requires
            0 <= a.0 < 256,
            0 <= a.1 < 256,
            0 <= a.2 < 256,
            0 <= a.3 < 256,
            0 <= b.0 < 256,
            0 <= b.1 < 256,
            0 <= b.2 < 256,
            0 <= b.3 < 256,
    ;
}

fn key_rank_exec(k: (u8, u8, u8, u8)) -> (r: u32)
    ensures
        r == key_rank(k),
{
    let r = ((k.0 as u32 * 256 + k.1 as u32) * 256 + k.2 as u32) * 256 + k.3 as u32;
    r
}

/// Whether the candidate at position `x` comes before the one at `y`: a
/// smaller key, or the same key and an earlier position.
pub open spec fn comes_before(items: Seq<EndpointCandidate>, x: usize, y: usize) -> bool {
    let kx = key_rank(candidate_key(items[x as int]));
    let ky = key_rank(candidate_key(items[y as int]));
    kx < ky || (kx == ky && x < y)
}

/// Whether `order` lists positions of `items` in stable key order: every
/// position once, keys ascending, equal keys in their original order.
pub open spec fn stable_order(items: Seq<EndpointCandidate>, order: Seq<usize>) -> bool {
    &&& order.len() == items.len()
    &&& forall|k: int| 0 <= k < order.len() ==> order[k] < items.len()
    &&& forall|a: int, b: int|
        #![trigger order[a], order[b]]
        0 <= a < b < order.len() ==> comes_before(items, order[a], order[b])
}

/// The positions of the candidates in stable key order.
pub fn stable_candidate_order(candidates: &[EndpointCandidate]) -> (order: Vec<usize>)
    ensures
        stable_order(candidates@, order@),
{
    let n = candidates.len();
    let mut order: Vec<usize> = Vec::new();
    let mut i: usize = 0;
    while i < n
        invariant
            i <= n,
            n == candidates@.len(),
            order.len() == i,
            forall|k: int| 0 <= k < order.len() ==> order@[k] < i,
            forall|a: int, b: int|
                #![trigger order@[a], order@[b]]
                0 <= a < b < order.len() ==> comes_before(candidates@, order@[a], order@[b]),
        decreases n - i,
    {
        let key = key_rank_exec(candidate_sort_key(&candidates[i]));
        let mut pos: usize = 0;
        while pos < order.len() && key_rank_exec(candidate_sort_key(&candidates[order[pos]]))
            <= key
            invariant
                pos <= order.len(),
                order.len() == i,
                i < n,
                n == candidates@.len(),
                key == key_rank(candidate_key(candidates@[i as int])),
                forall|k: int| 0 <= k < order.len() ==> order@[k] < i,
                forall|k: int|
                    0 <= k < pos ==> key_rank(candidate_key(candidates@[order@[k] as int]))
                        <= key,
            decreases order.len() - pos,
        {
            pos += 1;
        }
        proof {
            assert forall|k: int| pos <= k < order.len() implies key < key_rank(
                candidate_key(candidates@[order@[k] as int]),
            ) by {
                if pos < order.len() {
                    let kp = key_rank(candidate_key(candidates@[order@[pos as int] as int]));
                    assert(key < kp);
                    if k > pos {
                        assert(comes_before(candidates@, order@[pos as int], order@[k]));
                    }
                }
            }
        }
        let ghost before = order@;
        order.insert(pos, i);
        proof {
            assert forall|a: int, b: int|
                #![trigger order@[a], order@[b]]
                0 <= a < b < order.len() implies comes_before(candidates@, order@[a], order@[b]) by {
                if b < pos {
                    assert(order@[a] == before[a] && order@[b] == before[b]);
                } else if b == pos {
                    assert(order@[a] == before[a]);
                } else if a < pos {
                    assert(order@[a] == before[a] && order@[b] == before[b - 1]);
                } else if a == pos {
                    assert(order@[b] == before[b - 1]);
                } else {
                    assert(order@[a] == before[a - 1] && order@[b] == before[b - 1]);
                }
            }
        }
        i += 1;
    }
    order
}

/// The candidates in probing order, equal keys keeping their original
/// order (as a stable sort by [`candidate_sort_key`] leaves them).
pub fn sort_endpoint_candidates(candidates: &[EndpointCandidate]) -> (r: Vec<EndpointCandidate>)
    ensures
        exists|order: Seq<usize>|
            stable_order(candidates@, order) && r@ == order.map_values(
                |k: usize| candidates@[k as int],
            ),
{
    let order = stable_candidate_order(candidates);
    let mut r: Vec<EndpointCandidate> = Vec::new();
    let mut k: usize = 0;
    while k < order.len()
        invariant
            k <= order.len(),
            stable_order(candidates@, order@),
            r@ == order@.take(k as int).map_values(|j: usize| candidates@[j as int]),
        decreases order.len() - k,
    {
        r.push(candidates[order[k]]);
        assert(r@ =~= order@.take(k + 1).map_values(|j: usize| candidates@[j as int]));
        k += 1;
    }
    assert(order@.take(k as int) =~= order@);
    r
}

} // verus!
