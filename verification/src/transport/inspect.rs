//! The descriptor inspection report: each device that passes the filter,
//! its configurations, interface settings, endpoints and the AT endpoint
//! pairs their shape suggests.
use vstd::prelude::*;

use crate::cli::{hex2, hex_u8, hex_u8_text, hex_u16, hex_u16_text};
use crate::text::{chars_of, decimal, push_all, push_decimal, push_str, string_of, strings_view};
use crate::transport::usb::{
    descriptor_shape_pairs, device_label, device_label_text, shape_pair, EndpointDescriptor,
    EndpointDirection, EndpointPair, EndpointSelection, EndpointTransferType, UsbDeviceInfo,
};

verus! {

broadcast use vstd::string::group_string_axioms;

/// One setting of an interface as its descriptor gives it.
#[derive(Debug, Clone, PartialEq, Eq)]
pub struct UsbSettingInspection {
    pub interface_number: u8,
    pub alternate_setting: u8,
    pub class_code: u8,
    pub sub_class_code: u8,
    pub protocol_code: u8,
    pub endpoints: Vec<EndpointDescriptor>,
}

/// One configuration of a device and its interface settings.
#[derive(Debug, Clone, PartialEq, Eq)]
pub struct UsbConfigurationInspection {
    pub configuration_value: u8,
    pub self_powered: bool,
    pub remote_wakeup: bool,
    pub max_power_ma: u16,
    pub interfaces: Vec<UsbSettingInspection>,
}

/// A device and its configurations.
#[derive(Debug, Clone, PartialEq, Eq)]
pub struct UsbInspection {
    pub device: UsbDeviceInfo,
    pub configurations: Vec<UsbConfigurationInspection>,
}

/// Two lowercase hex digits.
pub open spec fn two_hex(v: u8) -> Seq<char> {
    seq![hex2((v / 16) as nat), hex2((v % 16) as nat)]
}

pub open spec fn class_text(class: u8, sub_class: u8, protocol: u8) -> Seq<char> {
    two_hex(class) + "/"@ + two_hex(sub_class) + "/"@ + two_hex(protocol)
}

pub open spec fn bool_text(b: bool) -> Seq<char> {
    if b {
        "true"@
    } else {
        "false"@
    }
}

pub open spec fn direction_text(d: EndpointDirection) -> Seq<char> {
    match d {
        EndpointDirection::In => "in"@,
        EndpointDirection::Out => "out"@,
    }
}

pub open spec fn transfer_text(t: EndpointTransferType) -> Seq<char> {
    match t {
        EndpointTransferType::Control => "control"@,
        EndpointTransferType::Isochronous => "isochronous"@,
        EndpointTransferType::Bulk => "bulk"@,
        EndpointTransferType::Interrupt => "interrupt"@,
    }
}

pub open spec fn selection_text(s: EndpointSelection) -> Seq<char> {
    match s {
        EndpointSelection::ManualOverride => "manual-override"@,
        EndpointSelection::DescriptorShape => "descriptor-shape"@,
    }
}

/// The lines in front of the report: the requested overrides.
pub open spec fn override_lines(interface_override: Option<u8>, manual_pair: Option<EndpointPair>) -> Seq<
    Seq<char>,
> {
    (match interface_override {
        Some(n) => seq!["Manual interface override requested: interface="@ + decimal(n as nat)],
        None => Seq::empty(),
    }) + (match manual_pair {
        Some(p) => seq![
            "Manual endpoint override requested: selection="@ + selection_text(p.selection)
                + " interface="@ + decimal(p.interface_number as nat) + " bulk-in="@ + hex_u8_text(
                p.bulk_in,
            ) + " bulk-out="@ + hex_u8_text(p.bulk_out),
        ],
        None => Seq::empty(),
    })
}

pub open spec fn endpoint_line(e: EndpointDescriptor) -> Seq<char> {
    "      Endpoint "@ + hex_u8_text(e.address) + " direction="@ + direction_text(e.direction)
        + " transfer="@ + transfer_text(e.transfer_type) + " max-packet-size="@ + decimal(
        e.max_packet_size as nat,
    )
}

pub open spec fn pair_line(p: EndpointPair) -> Seq<char> {
    "      Descriptor-shape AT candidate: interface="@ + decimal(p.interface_number as nat) + " alt="@
        + decimal(
        match p.alternate_setting {
            Some(a) => a as nat,
            None => 0nat,
        },
    ) + " bulk-in="@ + hex_u8_text(p.bulk_in) + " bulk-out="@ + hex_u8_text(p.bulk_out)
}

/// The lines of one interface setting: its header (marked when it is the
/// interface the user named), its endpoints, and its AT endpoint pairs.
pub open spec fn setting_lines(s: UsbSettingInspection, interface_override: Option<u8>) -> Seq<
    Seq<char>,
> {
    let marker = if interface_override == Some(s.interface_number) {
        " manual-interface-override-target"@
    } else {
        Seq::empty()
    };
    let header = "    Interface "@ + decimal(s.interface_number as nat) + " alt "@ + decimal(
        s.alternate_setting as nat,
    ) + marker + " class="@ + class_text(s.class_code, s.sub_class_code, s.protocol_code);
    let endpoints = if s.endpoints@.len() == 0 {
        seq!["      Endpoints: none"@]
    } else {
        s.endpoints@.map_values(|e: EndpointDescriptor| endpoint_line(e))
    };
    let pairs = match shape_pair(s.interface_number, s.alternate_setting, s.endpoints@) {
        Some(p) => seq![pair_line(p)],
        None => seq!["      Descriptor-shape AT candidates: none"@],
    };
    seq![header] + endpoints + pairs
}

/// Line groups joined in order.
pub open spec fn concat_lines(groups: Seq<Seq<Seq<char>>>) -> Seq<Seq<char>>
    decreases groups.len(),
{
    if groups.len() == 0 {
        Seq::empty()
    } else {
        concat_lines(groups.drop_last()) + groups.last()
    }
}

pub open spec fn configuration_lines(c: UsbConfigurationInspection, interface_override: Option<u8>) -> Seq<
    Seq<char>,
> {
    seq![
        "  Configuration "@ + decimal(c.configuration_value as nat) + ": self-powered="@ + bool_text(
            c.self_powered,
        ) + " remote-wakeup="@ + bool_text(c.remote_wakeup) + " max-power="@ + decimal(
            c.max_power_ma as nat,
        ) + "mA"@,
    ] + concat_lines(
        c.interfaces@.map_values(|s: UsbSettingInspection| setting_lines(s, interface_override)),
    )
}

pub open spec fn device_lines(i: UsbInspection, interface_override: Option<u8>) -> Seq<Seq<char>> {
    let d = i.device;
    seq![
        "Device: "@ + device_label_text(d) + " "@ + hex_u16_text(d.vendor_id) + ":"@ + hex_u16_text(
            d.product_id,
        ) + " bus="@ + decimal(d.bus as nat) + " address="@ + decimal(d.address as nat),
        "  class="@ + class_text(d.class_code, d.sub_class_code, d.protocol_code)
            + " configurations="@ + decimal(d.num_configurations as nat),
    ] + concat_lines(
        i.configurations@.map_values(
            |c: UsbConfigurationInspection| configuration_lines(c, interface_override),
        ),
    )
}

/// The whole report: the overrides, then each device, or a line saying
/// that no device matched.
pub open spec fn inspection_report(
    inspections: Seq<UsbInspection>,
    interface_override: Option<u8>,
    manual_pair: Option<EndpointPair>,
) -> Seq<Seq<char>> {
    override_lines(interface_override, manual_pair) + if inspections.len() == 0 {
        seq!["No matching USB devices found."@]
    } else {
        concat_lines(inspections.map_values(|i: UsbInspection| device_lines(i, interface_override)))
    }
}

fn hex_digit(d: u8) -> (c: char)
    requires
        d < 16,
    ensures
        c == hex2(d as nat),
{
    if d < 10 {
        (48u8 + d) as char
    } else {
        (87u8 + d) as char
    }
}

fn push_two_hex(out: &mut Vec<char>, v: u8)
    ensures
        final(out)@ == old(out)@ + two_hex(v),
{
    out.push(hex_digit(v / 16));
    out.push(hex_digit(v % 16));
    assert(out@ =~= old(out)@ + two_hex(v));
}

fn push_class(out: &mut Vec<char>, class: u8, sub_class: u8, protocol: u8)
    ensures
        final(out)@ == old(out)@ + class_text(class, sub_class, protocol),
{
    push_two_hex(out, class);
    push_str(out, "/");
    push_two_hex(out, sub_class);
    push_str(out, "/");
    push_two_hex(out, protocol);
    assert(out@ =~= old(out)@ + class_text(class, sub_class, protocol));
}

fn push_bool(out: &mut Vec<char>, b: bool)
    ensures
        final(out)@ == old(out)@ + bool_text(b),
{
    if b {
        push_str(out, "true");
    } else {
        push_str(out, "false");
    }
}

fn direction_str(d: EndpointDirection) -> (r: &'static str)
    ensures
        r@ == direction_text(d),
{
    match d {
        EndpointDirection::In => "in",
        EndpointDirection::Out => "out",
    }
}

fn transfer_str(t: EndpointTransferType) -> (r: &'static str)
    ensures
        r@ == transfer_text(t),
{
    match t {
        EndpointTransferType::Control => "control",
        EndpointTransferType::Isochronous => "isochronous",
        EndpointTransferType::Bulk => "bulk",
        EndpointTransferType::Interrupt => "interrupt",
    }
}

fn selection_str(s: EndpointSelection) -> (r: &'static str)
    ensures
        r@ == selection_text(s),
{
    match s {
        EndpointSelection::ManualOverride => "manual-override",
        EndpointSelection::DescriptorShape => "descriptor-shape",
    }
}

fn push_line(out: &mut Vec<String>, line: &Vec<char>)
    ensures
        strings_view(final(out)@) == strings_view(old(out)@).push(line@),
{
    out.push(string_of(line));
    assert(strings_view(out@) =~= strings_view(old(out)@).push(line@));
}

fn push_setting_lines(out: &mut Vec<String>, s: &UsbSettingInspection, interface_override: Option<u8>)
    ensures
        strings_view(final(out)@) == strings_view(old(out)@) + setting_lines(*s, interface_override),
{
    let ghost base = strings_view(out@);
    let mut h = chars_of("    Interface ");
    push_decimal(&mut h, s.interface_number as u128);
    push_str(&mut h, " alt ");
    push_decimal(&mut h, s.alternate_setting as u128);
    let marked = match interface_override {
        Some(n) => n == s.interface_number,
        None => false,
    };
    if marked {
        push_str(&mut h, " manual-interface-override-target");
    }
    push_str(&mut h, " class=");
    push_class(&mut h, s.class_code, s.sub_class_code, s.protocol_code);
    push_line(out, &h);
    let ghost after_header = strings_view(out@);
    let ghost eps = s.endpoints@.map_values(|e: EndpointDescriptor| endpoint_line(e));
    if s.endpoints.len() == 0 {
        push_line(out, &chars_of("      Endpoints: none"));
    } else {
        let mut k: usize = 0;
        assert(after_header + eps.take(0) =~= after_header);
        while k < s.endpoints.len()
            invariant
                k <= s.endpoints.len(),
                eps == s.endpoints@.map_values(|e: EndpointDescriptor| endpoint_line(e)),
                strings_view(out@) == after_header + eps.take(k as int),
            decreases s.endpoints.len() - k,
        {
            let e = s.endpoints[k];
            let mut line = chars_of("      Endpoint ");
            push_all(&mut line, &hex_u8(e.address));
            push_str(&mut line, " direction=");
            push_str(&mut line, direction_str(e.direction));
            push_str(&mut line, " transfer=");
            push_str(&mut line, transfer_str(e.transfer_type));
            push_str(&mut line, " max-packet-size=");
            push_decimal(&mut line, e.max_packet_size as u128);
            assert(line@ =~= endpoint_line(e));
            push_line(out, &line);
            assert(eps.take(k + 1) =~= eps.take(k as int).push(eps[k as int]));
            k += 1;
        }
        assert(eps.take(k as int) =~= eps);
    }
    let ghost after_endpoints = strings_view(out@);
    let pairs = descriptor_shape_pairs(s.interface_number, s.alternate_setting, s.endpoints.as_slice());
    if pairs.len() == 0 {
        push_line(out, &chars_of("      Descriptor-shape AT candidates: none"));
    } else {
        let p = pairs[0];
        let mut line = chars_of("      Descriptor-shape AT candidate: interface=");
        push_decimal(&mut line, p.interface_number as u128);
        push_str(&mut line, " alt=");
        let alt: u8 = match p.alternate_setting {
            Some(a) => a,
            None => 0,
        };
        push_decimal(&mut line, alt as u128);
        push_str(&mut line, " bulk-in=");
        push_all(&mut line, &hex_u8(p.bulk_in));
        push_str(&mut line, " bulk-out=");
        push_all(&mut line, &hex_u8(p.bulk_out));
        assert(line@ =~= pair_line(p));
        push_line(out, &line);
    }
    proof {
        let marker = if interface_override == Some(s.interface_number) {
            " manual-interface-override-target"@
        } else {
            Seq::<char>::empty()
        };
        assert(h@ =~= "    Interface "@ + decimal(s.interface_number as nat) + " alt "@ + decimal(
            s.alternate_setting as nat,
        ) + marker + " class="@ + class_text(s.class_code, s.sub_class_code, s.protocol_code));
        assert(strings_view(out@) =~= base + setting_lines(*s, interface_override));
    }
}

fn push_configuration_lines(
    out: &mut Vec<String>,
    c: &UsbConfigurationInspection,
    interface_override: Option<u8>,
)
    ensures
        strings_view(final(out)@) == strings_view(old(out)@) + configuration_lines(
            *c,
            interface_override,
        ),
{
    let ghost base = strings_view(out@);
    let mut h = chars_of("  Configuration ");
    push_decimal(&mut h, c.configuration_value as u128);
    push_str(&mut h, ": self-powered=");
    push_bool(&mut h, c.self_powered);
    push_str(&mut h, " remote-wakeup=");
    push_bool(&mut h, c.remote_wakeup);
    push_str(&mut h, " max-power=");
    push_decimal(&mut h, c.max_power_ma as u128);
    push_str(&mut h, "mA");
    push_line(out, &h);
    let ghost after_header = strings_view(out@);
    let ghost groups = c.interfaces@.map_values(
        |s: UsbSettingInspection| setting_lines(s, interface_override),
    );
    let mut k: usize = 0;
    assert(groups.take(0) =~= Seq::<Seq<Seq<char>>>::empty());
    assert(after_header + concat_lines(groups.take(0)) =~= after_header);
    while k < c.interfaces.len()
        invariant
            k <= c.interfaces.len(),
            groups == c.interfaces@.map_values(
                |s: UsbSettingInspection| setting_lines(s, interface_override),
            ),
            strings_view(out@) == after_header + concat_lines(groups.take(k as int)),
        decreases c.interfaces.len() - k,
    {
        push_setting_lines(out, &c.interfaces[k], interface_override);
        assert(groups.take(k + 1).drop_last() =~= groups.take(k as int));
        k += 1;
    }
    assert(groups.take(k as int) =~= groups);
    assert(strings_view(out@) =~= base + configuration_lines(*c, interface_override));
}

fn push_device_lines(out: &mut Vec<String>, i: &UsbInspection, interface_override: Option<u8>)
    ensures
        strings_view(final(out)@) == strings_view(old(out)@) + device_lines(*i, interface_override),
{
    let ghost base = strings_view(out@);
    let d = &i.device;
    let mut h = chars_of("Device: ");
    push_str(&mut h, device_label(d));
    push_str(&mut h, " ");
    push_all(&mut h, &hex_u16(d.vendor_id));
    push_str(&mut h, ":");
    push_all(&mut h, &hex_u16(d.product_id));
    push_str(&mut h, " bus=");
    push_decimal(&mut h, d.bus as u128);
    push_str(&mut h, " address=");
    push_decimal(&mut h, d.address as u128);
    push_line(out, &h);
    let mut c = chars_of("  class=");
    push_class(&mut c, d.class_code, d.sub_class_code, d.protocol_code);
    push_str(&mut c, " configurations=");
    push_decimal(&mut c, d.num_configurations as u128);
    push_line(out, &c);
    let ghost after_header = strings_view(out@);
    let ghost groups = i.configurations@.map_values(
        |c: UsbConfigurationInspection| configuration_lines(c, interface_override),
    );
    let mut k: usize = 0;
    assert(groups.take(0) =~= Seq::<Seq<Seq<char>>>::empty());
    assert(after_header + concat_lines(groups.take(0)) =~= after_header);
    while k < i.configurations.len()
        invariant
            k <= i.configurations.len(),
            groups == i.configurations@.map_values(
                |c: UsbConfigurationInspection| configuration_lines(c, interface_override),
            ),
            strings_view(out@) == after_header + concat_lines(groups.take(k as int)),
        decreases i.configurations.len() - k,
    {
        push_configuration_lines(out, &i.configurations[k], interface_override);
        assert(groups.take(k + 1).drop_last() =~= groups.take(k as int));
        k += 1;
    }
    assert(groups.take(k as int) =~= groups);
    assert(strings_view(out@) =~= base + device_lines(*i, interface_override));
}

/// The lines of the descriptor inspection report.
pub fn inspection_lines(
    inspections: &[UsbInspection],
    interface_override: Option<u8>,
    manual_pair: Option<&EndpointPair>,
) -> (r: Vec<String>)
    ensures
        strings_view(r@) == inspection_report(
            inspections@,
            interface_override,
            match manual_pair {
                Some(p) => Some(*p),
                None => None,
            },
        ),
{
    let mut out: Vec<String> = Vec::new();
    match interface_override {
        Some(n) => {
            let mut line = chars_of("Manual interface override requested: interface=");
            push_decimal(&mut line, n as u128);
            push_line(&mut out, &line);
        },
        None => {},
    }
    match manual_pair {
        Some(p) => {
            let mut line = chars_of("Manual endpoint override requested: selection=");
            push_str(&mut line, selection_str(p.selection));
            push_str(&mut line, " interface=");
            push_decimal(&mut line, p.interface_number as u128);
            push_str(&mut line, " bulk-in=");
            push_all(&mut line, &hex_u8(p.bulk_in));
            push_str(&mut line, " bulk-out=");
            push_all(&mut line, &hex_u8(p.bulk_out));
            push_line(&mut out, &line);
        },
        None => {},
    }
    let ghost mp = match manual_pair {
        Some(p) => Some(*p),
        None => None,
    };
    assert(strings_view(out@) =~= override_lines(interface_override, mp));
    let ghost base = strings_view(out@);
    if inspections.len() == 0 {
        push_line(&mut out, &chars_of("No matching USB devices found."));
        return out;
    }
    let ghost groups = inspections@.map_values(|i: UsbInspection| device_lines(i, interface_override));
    let mut k: usize = 0;
    assert(groups.take(0) =~= Seq::<Seq<Seq<char>>>::empty());
    assert(base + concat_lines(groups.take(0)) =~= base);
    while k < inspections.len()
        invariant
            k <= inspections.len(),
            groups == inspections@.map_values(|i: UsbInspection| device_lines(i, interface_override)),
            strings_view(out@) == base + concat_lines(groups.take(k as int)),
        decreases inspections.len() - k,
    {
        push_device_lines(&mut out, &inspections[k], interface_override);
        assert(groups.take(k + 1).drop_last() =~= groups.take(k as int));
        k += 1;
    }
    assert(groups.take(k as int) =~= groups);
    out
}

} // verus!
