//! What is known of a USB device from its descriptors, how it is shown, and
//! whether its endpoints are those of an STIr4200.
//!
//! The descriptors come in as plain values; reading them from the bus is left to
//! the caller.

use vstd::prelude::*;

use crate::text;

verus! {

/// Vendor of the SigmaTel STIr4200 infrared/USB bridge.
pub const STIR_VID: u16 = 0x066f;

/// Product number of the SigmaTel STIr4200 infrared/USB bridge.
pub const STIR_PID: u16 = 0x4200;

/// Number of the endpoint that transmits.
pub const EXPECTED_BULK_OUT_EP: u8 = 1;

/// Number of the endpoint that receives.
pub const EXPECTED_BULK_IN_EP: u8 = 2;

/// The bulk endpoints of an interface.
#[derive(Debug, Clone, Copy, PartialEq, Eq, Structural)]
pub struct Endpoints {
    pub interface: u8,
    pub setting: u8,
    /// Address of the endpoint towards the device.
    pub bulk_out: Option<u8>,
    /// Address of the endpoint towards the host.
    pub bulk_in: Option<u8>,
}

impl Default for Endpoints {
    /// Interface zero without endpoints.
    fn default() -> (r: Self)
        ensures
            r == no_endpoints(),
    {
        Endpoints { interface: 0, setting: 0, bulk_out: None, bulk_in: None }
    }
}

/// Interface zero without endpoints.
pub open spec fn no_endpoints() -> Endpoints {
    Endpoints { interface: 0, setting: 0, bulk_out: None, bulk_in: None }
}

/// What came of a search on the bus.
#[derive(Debug, Clone, Copy, PartialEq, Eq, Structural)]
pub enum Search {
    /// The device at this position.
    Found(usize),
    /// The descriptor at this position could not be read.
    Unreadable(usize),
    /// No such device.
    Missing,
}

/// The device at `k` can be identified and is another one.
pub open spec fn passed_over(ids: Seq<Option<(u16, u16)>>, k: int, vid: u16, pid: u16) -> bool {
    ids[k] is Some && ids[k] != Some((vid, pid))
}

/// Searches the vendor and product numbers on the bus for a device; the search
/// ends at the first device that fits or cannot be identified.
pub fn find_device(ids: &[Option<(u16, u16)>], vid: u16, pid: u16) -> (r: Search)
    ensures
        match r {
            Search::Found(i) => {
                &&& i < ids@.len()
                &&& ids@[i as int] == Some((vid, pid))
                &&& forall|k: int| 0 <= k < i ==> #[trigger] passed_over(ids@, k, vid, pid)
            },
            Search::Unreadable(i) => {
                &&& i < ids@.len()
                &&& ids@[i as int] is None
                &&& forall|k: int| 0 <= k < i ==> #[trigger] passed_over(ids@, k, vid, pid)
            },
            Search::Missing => forall|k: int|
                0 <= k < ids@.len() ==> #[trigger] passed_over(ids@, k, vid, pid),
        },
{
    let n: usize = ids.len();
    for i in 0..n
        invariant
            n == ids@.len(),
            forall|k: int| 0 <= k < i ==> #[trigger] passed_over(ids@, k, vid, pid),
    {
        match ids[i] {
            Some((v, p)) => {
                if v == vid && p == pid {
                    return Search::Found(i);
                }
            },
            None => {
                return Search::Unreadable(i);
            },
        }
    }
    Search::Missing
}

/// Vendor and product numbers with a colon between them.
pub open spec fn id_pair(vid: u16, pid: u16) -> Seq<char> {
    text::zero_hex(vid as nat, 4) + ":"@ + text::zero_hex(pid as nat, 4)
}

/// What is said when a device is not on the bus.
pub open spec fn missing(vid: u16, pid: u16) -> Seq<char> {
    "device "@ + id_pair(vid, pid)
        + " not found. Is the STIr4200 dongle plugged in? (On macOS, check with `system_profiler SPUSBDataType` / `ioreg -p IOUSB`.)"@
}

/// Shows vendor and product numbers.
pub fn id_text(vid: u16, pid: u16) -> (r: String)
    ensures
        r@ == id_pair(vid, pid),
{
    let mut s = text::zero_hex_text(vid as u64, 4);
    s.append(":");
    s.append(text::zero_hex_text(pid as u64, 4).as_str());
    s
}

/// Says that a device is not on the bus.
pub fn missing_text(vid: u16, pid: u16) -> (r: String)
    ensures
        r@ == missing(vid, pid),
{
    let mut s = "device ".to_owned();
    s.append(id_text(vid, pid).as_str());
    s.append(
        " not found. Is the STIr4200 dongle plugged in? (On macOS, check with `system_profiler SPUSBDataType` / `ioreg -p IOUSB`.)",
    );
    s
}

/// How an endpoint transfers data.
#[derive(Debug, Clone, Copy, PartialEq, Eq, Structural)]
pub enum Transfer {
    Control,
    Isochronous,
    Bulk,
    Interrupt,
}

/// An endpoint descriptor.
#[derive(Debug, Clone, Copy, PartialEq, Eq, Structural)]
pub struct EndpointInfo {
    pub address: u8,
    /// The endpoint is towards the host.
    pub input: bool,
    pub transfer: Transfer,
    pub max_packet_size: u16,
    pub interval: u8,
}

/// An interface descriptor: one setting of an interface.
#[derive(Debug)]
pub struct SettingInfo {
    pub interface: u8,
    pub setting: u8,
    pub class_code: u8,
    pub sub_class_code: u8,
    pub protocol_code: u8,
    pub num_endpoints: u8,
    pub endpoints: Vec<EndpointInfo>,
}

/// A configuration descriptor.
#[derive(Debug)]
pub struct ConfigInfo {
    pub number: u8,
    pub num_interfaces: u8,
    /// In milliamperes.
    pub max_power: u16,
    pub self_powered: bool,
    /// The settings of all interfaces, in order.
    pub settings: Vec<SettingInfo>,
}

/// A device descriptor and what belongs to it.
#[derive(Debug)]
pub struct DeviceInfo {
    pub bus: u8,
    pub address: u8,
    pub vendor_id: u16,
    pub product_id: u16,
    pub device_version: (u8, u8, u8),
    pub usb_version: (u8, u8, u8),
    pub class_code: u8,
    pub sub_class_code: u8,
    pub protocol_code: u8,
    pub num_configurations: u8,
    /// The strings, as far as they could be read.
    pub manufacturer: Option<String>,
    pub product: Option<String>,
    pub serial_number: Option<String>,
    /// The configurations that could be read.
    pub configs: Vec<ConfigInfo>,
}

/// The address of the last bulk endpoint in one direction.
pub open spec fn last_bulk(endpoints: Seq<EndpointInfo>, input: bool) -> Option<u8>
    decreases endpoints.len(),
{
    if endpoints.len() == 0 {
        None
    } else if endpoints.last().transfer == Transfer::Bulk && endpoints.last().input == input {
        Some(endpoints.last().address)
    } else {
        last_bulk(endpoints.drop_last(), input)
    }
}

/// The bulk endpoints of a setting.
pub open spec fn bulk_endpoints(s: SettingInfo) -> Endpoints {
    Endpoints {
        interface: s.interface,
        setting: s.setting,
        bulk_out: last_bulk(s.endpoints@, false),
        bulk_in: last_bulk(s.endpoints@, true),
    }
}

/// The bulk endpoints of the first setting among the first `n` configurations.
pub open spec fn first_endpoints(configs: Seq<ConfigInfo>, n: nat) -> Option<Endpoints>
    decreases n,
{
    if n == 0 {
        None
    } else {
        match first_endpoints(configs, (n - 1) as nat) {
            Some(e) => Some(e),
            None => if configs[n - 1].settings@.len() > 0 {
                Some(bulk_endpoints(configs[n - 1].settings@[0]))
            } else {
                None
            },
        }
    }
}

/// The bulk endpoints of the device's first setting.
pub open spec fn device_endpoints(info: DeviceInfo) -> Endpoints {
    match first_endpoints(info.configs@, info.configs@.len()) {
        Some(e) => e,
        None => no_endpoints(),
    }
}

/// A version of three numbers.
pub open spec fn version(v: (u8, u8, u8)) -> Seq<char> {
    text::decimal(v.0 as nat) + "."@ + text::decimal(v.1 as nat) + "."@ + text::decimal(v.2 as nat)
}

fn version_text(v: (u8, u8, u8)) -> (r: String)
    ensures
        r@ == version(v),
{
    let mut s = text::decimal_text(v.0 as u64);
    s.append(".");
    s.append(text::decimal_text(v.1 as u64).as_str());
    s.append(".");
    s.append(text::decimal_text(v.2 as u64).as_str());
    s
}

/// Name of a kind of transfer.
pub open spec fn transfer_name(t: Transfer) -> Seq<char> {
    match t {
        Transfer::Control => "control"@,
        Transfer::Isochronous => "isochronous"@,
        Transfer::Bulk => "bulk"@,
        Transfer::Interrupt => "interrupt"@,
    }
}

/// The line of an endpoint.
pub open spec fn endpoint_line(e: EndpointInfo) -> Seq<char> {
    "      Endpoint 0x"@ + text::zero_hex(e.address as nat, 2) + "  "@ + (if e.input {
        "IN "@
    } else {
        "OUT"@
    }) + "  "@ + text::padded_end(transfer_name(e.transfer), 11) + " max_packet="@ + text::decimal(
        e.max_packet_size as nat,
    ) + " interval="@ + text::decimal(e.interval as nat) + "\n"@
}

fn endpoint_text(e: EndpointInfo) -> (r: String)
    ensures
        r@ == endpoint_line(e),
{
    let name: &str = match e.transfer {
        Transfer::Control => "control",
        Transfer::Isochronous => "isochronous",
        Transfer::Bulk => "bulk",
        Transfer::Interrupt => "interrupt",
    };
    let mut s = "      Endpoint 0x".to_owned();
    s.append(text::zero_hex_text(e.address as u64, 2).as_str());
    s.append("  ");
    s.append(if e.input { "IN " } else { "OUT" });
    s.append("  ");
    s.append(text::pad_end(name, 11).as_str());
    s.append(" max_packet=");
    s.append(text::decimal_text(e.max_packet_size as u64).as_str());
    s.append(" interval=");
    s.append(text::decimal_text(e.interval as u64).as_str());
    s.append("\n");
    s
}

/// The lines of the first `n` endpoints.
pub open spec fn endpoint_lines(endpoints: Seq<EndpointInfo>, n: nat) -> Seq<char>
    decreases n,
{
    if n == 0 {
        Seq::empty()
    } else {
        endpoint_lines(endpoints, (n - 1) as nat) + endpoint_line(endpoints[n - 1])
    }
}

/// The lines of a setting: its own, then those of its endpoints.
pub open spec fn setting_lines(s: SettingInfo) -> Seq<char> {
    "    Interface "@ + text::decimal(s.interface as nat) + " (alt "@ + text::decimal(
        s.setting as nat,
    ) + "): class=0x"@ + text::zero_hex(s.class_code as nat, 2) + " subclass=0x"@ + text::zero_hex(
        s.sub_class_code as nat,
        2,
    ) + " protocol=0x"@ + text::zero_hex(s.protocol_code as nat, 2) + ", "@ + text::decimal(
        s.num_endpoints as nat,
    ) + " endpoint(s)\n"@ + endpoint_lines(s.endpoints@, s.endpoints@.len())
}

fn describe_setting(s: &SettingInfo) -> (r: (String, Endpoints))
    ensures
        r.0@ == setting_lines(*s),
        r.1 == bulk_endpoints(*s),
{
    let mut out = "    Interface ".to_owned();
    out.append(text::decimal_text(s.interface as u64).as_str());
    out.append(" (alt ");
    out.append(text::decimal_text(s.setting as u64).as_str());
    out.append("): class=0x");
    out.append(text::zero_hex_text(s.class_code as u64, 2).as_str());
    out.append(" subclass=0x");
    out.append(text::zero_hex_text(s.sub_class_code as u64, 2).as_str());
    out.append(" protocol=0x");
    out.append(text::zero_hex_text(s.protocol_code as u64, 2).as_str());
    out.append(", ");
    out.append(text::decimal_text(s.num_endpoints as u64).as_str());
    out.append(" endpoint(s)\n");
    let mut lines = String::new();
    let mut found = Endpoints {
        interface: s.interface,
        setting: s.setting,
        bulk_out: None,
        bulk_in: None,
    };
    let n: usize = s.endpoints.len();
    assert(s.endpoints@.take(0) =~= Seq::empty());
    for i in 0..n
        invariant
            n == s.endpoints@.len(),
            lines@ == endpoint_lines(s.endpoints@, i as nat),
            found.interface == s.interface,
            found.setting == s.setting,
            found.bulk_out == last_bulk(s.endpoints@.take(i as int), false),
            found.bulk_in == last_bulk(s.endpoints@.take(i as int), true),
    {
        let e = s.endpoints[i];
        assert(s.endpoints@.take(i + 1).drop_last() =~= s.endpoints@.take(i as int));
        lines.append(endpoint_text(e).as_str());
        if e.transfer == Transfer::Bulk {
            if e.input {
                found.bulk_in = Some(e.address);
            } else {
                found.bulk_out = Some(e.address);
            }
        }
    }
    assert(s.endpoints@.take(n as int) =~= s.endpoints@);
    out.append(lines.as_str());
    (out, found)
}

/// The lines of the first `n` settings.
pub open spec fn settings_lines(settings: Seq<SettingInfo>, n: nat) -> Seq<char>
    decreases n,
{
    if n == 0 {
        Seq::empty()
    } else {
        settings_lines(settings, (n - 1) as nat) + setting_lines(settings[n - 1])
    }
}

/// The lines of a configuration: its own, then those of its settings.
pub open spec fn config_lines(c: ConfigInfo) -> Seq<char> {
    "  Configuration "@ + text::decimal(c.number as nat) + ": "@ + text::decimal(
        c.num_interfaces as nat,
    ) + " interface(s), max_power="@ + text::decimal(c.max_power as nat) + " mA, self_powered="@
        + (if c.self_powered {
        "true"@
    } else {
        "false"@
    }) + "\n"@ + settings_lines(c.settings@, c.settings@.len())
}

fn describe_config(c: &ConfigInfo) -> (r: (String, Option<Endpoints>))
    ensures
        r.0@ == config_lines(*c),
        r.1 == if c.settings@.len() > 0 {
            Some(bulk_endpoints(c.settings@[0]))
        } else {
            None
        },
{
    let mut out = "  Configuration ".to_owned();
    out.append(text::decimal_text(c.number as u64).as_str());
    out.append(": ");
    out.append(text::decimal_text(c.num_interfaces as u64).as_str());
    out.append(" interface(s), max_power=");
    out.append(text::decimal_text(c.max_power as u64).as_str());
    out.append(" mA, self_powered=");
    out.append(if c.self_powered { "true" } else { "false" });
    out.append("\n");
    let mut lines = String::new();
    let mut first: Option<Endpoints> = None;
    let n: usize = c.settings.len();
    for i in 0..n
        invariant
            n == c.settings@.len(),
            lines@ == settings_lines(c.settings@, i as nat),
            first == if i > 0 {
                Some(bulk_endpoints(c.settings@[0]))
            } else {
                None
            },
    {
        let (text, found) = describe_setting(&c.settings[i]);
        lines.append(text.as_str());
        if i == 0 {
            first = Some(found);
        }
    }
    out.append(lines.as_str());
    (out, first)
}

/// The lines of the first `n` configurations.
pub open spec fn configs_lines(configs: Seq<ConfigInfo>, n: nat) -> Seq<char>
    decreases n,
{
    if n == 0 {
        Seq::empty()
    } else {
        configs_lines(configs, (n - 1) as nat) + config_lines(configs[n - 1])
    }
}

/// The line of a string descriptor, if it could be read.
pub open spec fn string_line(name: Seq<char>, value: Option<String>) -> Seq<char> {
    match value {
        Some(s) => "  "@ + name + "=\""@ + s@ + "\"\n"@,
        None => ""@,
    }
}

fn string_text(name: &str, value: &Option<String>) -> (r: String)
    ensures
        r@ == string_line(name@, *value),
{
    match value {
        Some(s) => {
            let mut out = "  ".to_owned();
            out.append(name);
            out.append("=\"");
            out.append(s.as_str());
            out.append("\"\n");
            out
        },
        None => "".to_owned(),
    }
}

/// The lines of the device descriptor.
pub open spec fn device_lines(d: DeviceInfo) -> Seq<char> {
    "Device on bus "@ + text::zero_decimal(d.bus as nat, 3) + " address "@ + text::zero_decimal(
        d.address as nat,
        3,
    ) + "\n  idVendor=0x"@ + text::zero_hex(d.vendor_id as nat, 4) + " idProduct=0x"@
        + text::zero_hex(d.product_id as nat, 4) + "\n  bcdDevice="@ + version(d.device_version)
        + "  (chip revision — verify register values apply, brief §6)\n  bcdUSB="@ + version(d.usb_version)
        + "\n  bDeviceClass=0x"@ + text::zero_hex(d.class_code as nat, 2)
        + " bDeviceSubClass=0x"@ + text::zero_hex(d.sub_class_code as nat, 2)
        + " bDeviceProtocol=0x"@ + text::zero_hex(d.protocol_code as nat, 2)
        + "\n  bNumConfigurations="@ + text::decimal(d.num_configurations as nat) + "\n"@
}

fn device_text(d: &DeviceInfo) -> (r: String)
    ensures
        r@ == device_lines(*d),
{
    let mut s = "Device on bus ".to_owned();
    s.append(text::zero_decimal_text(d.bus as u64, 3).as_str());
    s.append(" address ");
    s.append(text::zero_decimal_text(d.address as u64, 3).as_str());
    s.append("\n  idVendor=0x");
    s.append(text::zero_hex_text(d.vendor_id as u64, 4).as_str());
    s.append(" idProduct=0x");
    s.append(text::zero_hex_text(d.product_id as u64, 4).as_str());
    s.append("\n  bcdDevice=");
    s.append(version_text(d.device_version).as_str());
    s.append("  (chip revision — verify register values apply, brief §6)\n  bcdUSB=");
    s.append(version_text(d.usb_version).as_str());
    s.append("\n  bDeviceClass=0x");
    s.append(text::zero_hex_text(d.class_code as u64, 2).as_str());
    s.append(" bDeviceSubClass=0x");
    s.append(text::zero_hex_text(d.sub_class_code as u64, 2).as_str());
    s.append(" bDeviceProtocol=0x");
    s.append(text::zero_hex_text(d.protocol_code as u64, 2).as_str());
    s.append("\n  bNumConfigurations=");
    s.append(text::decimal_text(d.num_configurations as u64).as_str());
    s.append("\n");
    s
}

/// The whole descriptor tree.
pub open spec fn descriptor_tree(d: DeviceInfo) -> Seq<char> {
    device_lines(d) + string_line("iManufacturer"@, d.manufacturer) + string_line(
        "iProduct"@,
        d.product,
    ) + string_line("iSerialNumber"@, d.serial_number) + configs_lines(d.configs@, d.configs@.len())
}

/// Shows the descriptor tree, and finds the bulk endpoints of the first setting
/// of the first interface.
pub fn describe_device(d: &DeviceInfo) -> (r: (String, Endpoints))
    ensures
        r.0@ == descriptor_tree(*d),
        r.1 == device_endpoints(*d),
{
    let mut out = device_text(d);
    out.append(string_text("iManufacturer", &d.manufacturer).as_str());
    out.append(string_text("iProduct", &d.product).as_str());
    out.append(string_text("iSerialNumber", &d.serial_number).as_str());
    let mut lines = String::new();
    let mut first: Option<Endpoints> = None;
    let n: usize = d.configs.len();
    for i in 0..n
        invariant
            n == d.configs@.len(),
            lines@ == configs_lines(d.configs@, i as nat),
            first == first_endpoints(d.configs@, i as nat),
    {
        let (text, found) = describe_config(&d.configs[i]);
        lines.append(text.as_str());
        if first.is_none() {
            first = found;
        }
    }
    out.append(lines.as_str());
    let endpoints = match first {
        Some(e) => e,
        None => Endpoints::default(),
    };
    (out, endpoints)
}

/// The verdict on one endpoint.
pub open spec fn verdict(
    label: Seq<char>,
    address: Option<u8>,
    yes: Seq<char>,
    no: Seq<char>,
    missing: Seq<char>,
    expected: u8,
) -> Seq<char> {
    match address {
        Some(a) => "  "@ + label + ": 0x"@ + text::zero_hex(a as nat, 2) + " (ep "@ + text::decimal(
            (a % 16) as nat,
        ) + ") — "@ + (if a % 16 == expected {
            yes
        } else {
            no
        }) + "\n"@,
        None => "  "@ + label + missing + "\n"@,
    }
}

fn verdict_text(
    label: &str,
    address: Option<u8>,
    yes: &str,
    no: &str,
    missing: &str,
    expected: u8,
) -> (r: String)
    ensures
        r@ == verdict(label@, address, yes@, no@, missing@, expected),
{
    let mut s = "  ".to_owned();
    s.append(label);
    match address {
        Some(a) => {
            s.append(": 0x");
            s.append(text::zero_hex_text(a as u64, 2).as_str());
            s.append(" (ep ");
            s.append(text::decimal_text((a % 16) as u64).as_str());
            s.append(") — ");
            s.append(if a % 16 == expected { yes } else { no });
        },
        None => {
            s.append(missing);
        },
    }
    s.append("\n");
    s
}

/// The check of the endpoints against those of an STIr4200.
pub open spec fn expectations(ep: Endpoints) -> Seq<char> {
    "\nEndpoint check (vs Linux stir4200.c assumptions):\n"@ + verdict(
        "bulk OUT "@,
        ep.bulk_out,
        "matches expected ep 1"@,
        "DIFFERS from expected ep 1"@,
        ": MISSING — expected an ep 1 bulk OUT"@,
        EXPECTED_BULK_OUT_EP,
    ) + verdict(
        "bulk IN  "@,
        ep.bulk_in,
        "matches expected ep 2"@,
        "DIFFERS from expected ep 2"@,
        ": MISSING — expected an ep 2 bulk IN"@,
        EXPECTED_BULK_IN_EP,
    ) + "  control  : endpoint 0 (implicit) — used for register read/write\n"@
}

/// Checks the endpoints against those of an STIr4200.
pub fn report_expectations(ep: &Endpoints) -> (r: String)
    ensures
        r@ == expectations(*ep),
{
    let mut s = "\nEndpoint check (vs Linux stir4200.c assumptions):\n".to_owned();
    s.append(
        verdict_text(
            "bulk OUT ",
            ep.bulk_out,
            "matches expected ep 1",
            "DIFFERS from expected ep 1",
            ": MISSING — expected an ep 1 bulk OUT",
            EXPECTED_BULK_OUT_EP,
        ).as_str(),
    );
    s.append(
        verdict_text(
            "bulk IN  ",
            ep.bulk_in,
            "matches expected ep 2",
            "DIFFERS from expected ep 2",
            ": MISSING — expected an ep 2 bulk IN",
            EXPECTED_BULK_IN_EP,
        ).as_str(),
    );
    s.append("  control  : endpoint 0 (implicit) — used for register read/write\n");
    s
}

/// An endpoint transfers in bulk in the given direction.
pub open spec fn is_bulk(e: EndpointInfo, input: bool) -> bool {
    e.transfer == Transfer::Bulk && e.input == input
}

/// The bulk endpoint of a direction is the last one that there is: its address is
/// that of a bulk endpoint in that direction, and no other one follows. Without
/// such an endpoint there is none.
pub proof fn last_bulk_endpoint_counts(endpoints: Seq<EndpointInfo>, input: bool)
    ensures
        match last_bulk(endpoints, input) {
            Some(a) => exists|i: int|
                0 <= i < endpoints.len() && endpoints[i].address == a && #[trigger] is_bulk(
                    endpoints[i],
                    input,
                ) && forall|j: int|
                    i < j < endpoints.len() ==> !is_bulk(#[trigger] endpoints[j], input),
            None => forall|j: int|
                0 <= j < endpoints.len() ==> !is_bulk(#[trigger] endpoints[j], input),
        },
    decreases endpoints.len(),
{
    if endpoints.len() > 0 {
        let last = endpoints.len() - 1;
        let init = endpoints.drop_last();
        if is_bulk(endpoints[last], input) {
            assert(endpoints[last].address == last_bulk(endpoints, input)->0);
        } else {
            last_bulk_endpoint_counts(init, input);
            assert(forall|j: int| 0 <= j < init.len() ==> #[trigger] endpoints[j] == init[j]);
            if let Some(a) = last_bulk(init, input) {
                let i = choose|i: int|
                    0 <= i < init.len() && init[i].address == a && #[trigger] is_bulk(
                        init[i],
                        input,
                    ) && forall|j: int|
                        i < j < init.len() ==> !is_bulk(#[trigger] init[j], input);
                assert(is_bulk(endpoints[i], input));
                assert forall|j: int| i < j < endpoints.len() implies !is_bulk(
                    #[trigger] endpoints[j],
                    input,
                ) by {
                    if j < last {
                        assert(!is_bulk(init[j], input));
                    }
                }
            }
        }
    }
}

proof fn first_setting_is_found(configs: Seq<ConfigInfo>, n: nat, k: int)
    requires
        0 <= k,
        n <= configs.len(),
        forall|j: int| 0 <= j < k && j < n ==> #[trigger] configs[j].settings@.len() == 0,
    ensures
        k < n && configs[k].settings@.len() > 0 ==> first_endpoints(configs, n) == Some(
            bulk_endpoints(configs[k].settings@[0]),
        ),
        k >= n ==> first_endpoints(configs, n) is None,
    decreases n,
{
    if n > 0 {
        first_setting_is_found(configs, (n - 1) as nat, k);
        if k >= n {
            assert(configs[n - 1].settings@.len() == 0);
        }
    }
}

/// The endpoints of a device are those of the first setting of its first
/// configuration that has any; without one it has no endpoints.
pub proof fn first_setting_counts(d: DeviceInfo, k: int)
    requires
        0 <= k <= d.configs@.len(),
        forall|j: int| 0 <= j < k ==> #[trigger] d.configs@[j].settings@.len() == 0,
    ensures
        ({
            let r = device_endpoints(d);
            let first = d.configs@[k].settings@[0];
            &&& k < d.configs@.len() && d.configs@[k].settings@.len() > 0 ==> {
                &&& r.interface == first.interface && r.setting == first.setting
                &&& r.bulk_out == last_bulk(first.endpoints@, false)
                &&& r.bulk_in == last_bulk(first.endpoints@, true)
            }
            &&& k == d.configs@.len() ==> {
                &&& r.interface == 0 && r.setting == 0
                &&& r.bulk_out is None && r.bulk_in is None
            }
        }),
{
    first_setting_is_found(d.configs@, d.configs@.len(), k);
}

/// The line of an endpoint shows all of its descriptor.
pub proof fn endpoints_are_shown(e: EndpointInfo)
    ensures
        ({
            let t = endpoint_line(e);
            &&& text::starts_with(
                t,
                "      Endpoint 0x"@ + text::zero_hex(e.address as nat, 2) + "  "@,
            )
            &&& e.input ==> text::occurs(t, "  "@ + "IN "@ + "  "@)
            &&& !e.input ==> text::occurs(t, "  "@ + "OUT"@ + "  "@)
            &&& e.transfer == Transfer::Control ==> text::occurs(
                t,
                "  "@ + text::padded_end("control"@, 11) + " max_packet="@,
            )
            &&& e.transfer == Transfer::Isochronous ==> text::occurs(
                t,
                "  "@ + text::padded_end("isochronous"@, 11) + " max_packet="@,
            )
            &&& e.transfer == Transfer::Bulk ==> text::occurs(
                t,
                "  "@ + text::padded_end("bulk"@, 11) + " max_packet="@,
            )
            &&& e.transfer == Transfer::Interrupt ==> text::occurs(
                t,
                "  "@ + text::padded_end("interrupt"@, 11) + " max_packet="@,
            )
            &&& text::occurs(
                t,
                " max_packet="@ + text::decimal(e.max_packet_size as nat) + " interval="@,
            )
            &&& text::ends_with(t, " interval="@ + text::decimal(e.interval as nat) + "\n"@)
        }),
{
    broadcast use text::group_occurs;

    let t = endpoint_line(e);
    let head = "      Endpoint 0x"@ + text::zero_hex(e.address as nat, 2) + "  "@;
    let tail = " interval="@ + text::decimal(e.interval as nat) + "\n"@;
    assert(t.take(head.len() as int) =~= head);
    assert(t.skip(t.len() - tail.len()) =~= tail);
}

/// The first line of a setting shows all of its descriptor.
pub proof fn settings_are_shown(s: SettingInfo)
    ensures
        ({
            let t = setting_lines(s);
            &&& text::starts_with(
                t,
                "    Interface "@ + text::decimal(s.interface as nat) + " (alt "@,
            )
            &&& text::occurs(t, " (alt "@ + text::decimal(s.setting as nat) + "): class=0x"@)
            &&& text::occurs(
                t,
                "): class=0x"@ + text::zero_hex(s.class_code as nat, 2) + " subclass=0x"@,
            )
            &&& text::occurs(
                t,
                " subclass=0x"@ + text::zero_hex(s.sub_class_code as nat, 2) + " protocol=0x"@,
            )
            &&& text::occurs(
                t,
                " protocol=0x"@ + text::zero_hex(s.protocol_code as nat, 2) + ", "@,
            )
            &&& text::occurs(t, ", "@ + text::decimal(s.num_endpoints as nat) + " endpoint(s)\n"@)
            &&& text::ends_with(
                t,
                " endpoint(s)\n"@ + endpoint_lines(s.endpoints@, s.endpoints@.len()),
            )
        }),
{
    broadcast use text::group_occurs;

    let t = setting_lines(s);
    let head = "    Interface "@ + text::decimal(s.interface as nat) + " (alt "@;
    let tail = " endpoint(s)\n"@ + endpoint_lines(s.endpoints@, s.endpoints@.len());
    assert(t.take(head.len() as int) =~= head);
    assert(t.skip(t.len() - tail.len()) =~= tail);
}

/// The first line of a configuration shows all of its descriptor.
pub proof fn configurations_are_shown(c: ConfigInfo)
    ensures
        ({
            let t = config_lines(c);
            &&& text::starts_with(t, "  Configuration "@ + text::decimal(c.number as nat) + ": "@)
            &&& text::occurs(
                t,
                ": "@ + text::decimal(c.num_interfaces as nat) + " interface(s), max_power="@,
            )
            &&& text::occurs(
                t,
                " interface(s), max_power="@ + text::decimal(c.max_power as nat)
                    + " mA, self_powered="@,
            )
            &&& c.self_powered ==> text::occurs(t, " mA, self_powered="@ + "true"@ + "\n"@)
            &&& !c.self_powered ==> text::occurs(t, " mA, self_powered="@ + "false"@ + "\n"@)
            &&& text::ends_with(t, "\n"@ + settings_lines(c.settings@, c.settings@.len()))
        }),
{
    broadcast use text::group_occurs;

    let t = config_lines(c);
    let head = "  Configuration "@ + text::decimal(c.number as nat) + ": "@;
    let tail = "\n"@ + settings_lines(c.settings@, c.settings@.len());
    assert(t.take(head.len() as int) =~= head);
    assert(t.skip(t.len() - tail.len()) =~= tail);
}

/// The lines of a device show all of its descriptor.
pub proof fn devices_are_shown(d: DeviceInfo)
    ensures
        ({
            let t = device_lines(d);
            &&& text::starts_with(
                t,
                "Device on bus "@ + text::zero_decimal(d.bus as nat, 3) + " address "@,
            )
            &&& text::occurs(
                t,
                " address "@ + text::zero_decimal(d.address as nat, 3) + "\n  idVendor=0x"@,
            )
            &&& text::occurs(
                t,
                "\n  idVendor=0x"@ + text::zero_hex(d.vendor_id as nat, 4) + " idProduct=0x"@,
            )
            &&& text::occurs(
                t,
                " idProduct=0x"@ + text::zero_hex(d.product_id as nat, 4) + "\n  bcdDevice="@,
            )
            &&& text::occurs(t, "\n  bcdDevice="@ + version(d.device_version))
            &&& text::occurs(t, version(d.usb_version) + "\n  bDeviceClass=0x"@)
            &&& text::occurs(
                t,
                "\n  bDeviceClass=0x"@ + text::zero_hex(d.class_code as nat, 2)
                    + " bDeviceSubClass=0x"@,
            )
            &&& text::occurs(
                t,
                " bDeviceSubClass=0x"@ + text::zero_hex(d.sub_class_code as nat, 2)
                    + " bDeviceProtocol=0x"@,
            )
            &&& text::occurs(
                t,
                " bDeviceProtocol=0x"@ + text::zero_hex(d.protocol_code as nat, 2)
                    + "\n  bNumConfigurations="@,
            )
            &&& text::ends_with(
                t,
                "\n  bNumConfigurations="@ + text::decimal(d.num_configurations as nat) + "\n"@,
            )
        }),
{
    broadcast use text::group_occurs;

    let t = device_lines(d);
    let head = "Device on bus "@ + text::zero_decimal(d.bus as nat, 3) + " address "@;
    let tail = "\n  bNumConfigurations="@ + text::decimal(d.num_configurations as nat) + "\n"@;
    assert(t.take(head.len() as int) =~= head);
    assert(t.skip(t.len() - tail.len()) =~= tail);
}

/// A version shows its three numbers in order.
pub proof fn versions_are_shown(v: (u8, u8, u8))
    ensures
        text::starts_with(version(v), text::decimal(v.0 as nat) + "."@),
        text::occurs(version(v), "."@ + text::decimal(v.1 as nat) + "."@),
        text::ends_with(version(v), "."@ + text::decimal(v.2 as nat)),
{
    broadcast use text::group_occurs;

    let t = version(v);
    let head = text::decimal(v.0 as nat) + "."@;
    let tail = "."@ + text::decimal(v.2 as nat);
    assert(t.take(head.len() as int) =~= head);
    assert(t.skip(t.len() - tail.len()) =~= tail);
}

proof fn lines_of_all(
    endpoints: Seq<EndpointInfo>,
    settings: Seq<SettingInfo>,
    configs: Seq<ConfigInfo>,
    n: nat,
    k: int,
)
    requires
        0 <= k < n,
    ensures
        text::occurs(endpoint_lines(endpoints, n), endpoint_line(endpoints[k])),
        text::occurs(settings_lines(settings, n), setting_lines(settings[k])),
        text::occurs(configs_lines(configs, n), config_lines(configs[k])),
    decreases n,
{
    let m = (n - 1) as nat;
    if k == m {
        text::occurs_at_end(endpoint_lines(endpoints, m), endpoint_line(endpoints[k]));
        text::occurs_at_end(settings_lines(settings, m), setting_lines(settings[k]));
        text::occurs_at_end(configs_lines(configs, m), config_lines(configs[k]));
    } else {
        lines_of_all(endpoints, settings, configs, m, k);
        text::occurs_in_longer(
            endpoint_lines(endpoints, m),
            endpoint_line(endpoints[m as int]),
            endpoint_line(endpoints[k]),
        );
        text::occurs_in_longer(
            settings_lines(settings, m),
            setting_lines(settings[m as int]),
            setting_lines(settings[k]),
        );
        text::occurs_in_longer(
            configs_lines(configs, m),
            config_lines(configs[m as int]),
            config_lines(configs[k]),
        );
    }
}

/// The descriptor tree shows the device, those of its strings that could be read,
/// and every configuration.
pub proof fn trees_show_the_device(d: DeviceInfo, k: int)
    ensures
        ({
            let t = descriptor_tree(d);
            &&& text::starts_with(t, device_lines(d))
            &&& d.manufacturer matches Some(s) ==> text::occurs(
                t,
                "  "@ + "iManufacturer"@ + "=\""@ + s@ + "\"\n"@,
            )
            &&& d.product matches Some(s) ==> text::occurs(
                t,
                "  "@ + "iProduct"@ + "=\""@ + s@ + "\"\n"@,
            )
            &&& d.serial_number matches Some(s) ==> text::occurs(
                t,
                "  "@ + "iSerialNumber"@ + "=\""@ + s@ + "\"\n"@,
            )
            &&& d.manufacturer is None && d.product is None && d.serial_number is None ==> t
                == device_lines(d) + configs_lines(d.configs@, d.configs@.len())
            &&& 0 <= k < d.configs@.len() ==> text::occurs(t, config_lines(d.configs@[k]))
        }),
{
    let a = device_lines(d);
    let b = string_line("iManufacturer"@, d.manufacturer);
    let c = string_line("iProduct"@, d.product);
    let e = string_line("iSerialNumber"@, d.serial_number);
    let f = configs_lines(d.configs@, d.configs@.len());
    let t = descriptor_tree(d);
    five_parts(a, b, c, e, f);
    reveal_strlit("");
    if d.manufacturer is None && d.product is None && d.serial_number is None {
        assert(t =~= a + f);
    }
    if 0 <= k < d.configs@.len() {
        lines_of_all(Seq::empty(), Seq::empty(), d.configs@, d.configs@.len(), k);
        text::occurs_within(t, f, config_lines(d.configs@[k]));
    }
}

proof fn five_parts(a: Seq<char>, b: Seq<char>, c: Seq<char>, d: Seq<char>, e: Seq<char>)
    ensures
        ({
            let t = a + b + c + d + e;
            &&& text::starts_with(t, a)
            &&& text::occurs(t, b)
            &&& text::occurs(t, c)
            &&& text::occurs(t, d)
            &&& text::occurs(t, e)
        }),
{
    broadcast use text::group_occurs;

    let t = a + b + c + d + e;
    assert(t.take(a.len() as int) =~= a);
}

/// A configuration shows every one of its settings, and a setting every one of its
/// endpoints.
pub proof fn nothing_is_left_out(c: ConfigInfo, s: SettingInfo, k: int)
    ensures
        0 <= k < c.settings@.len() ==> text::occurs(
            config_lines(c),
            setting_lines(c.settings@[k]),
        ),
        0 <= k < s.endpoints@.len() ==> text::occurs(
            setting_lines(s),
            endpoint_line(s.endpoints@[k]),
        ),
{
    if 0 <= k < c.settings@.len() {
        let n = c.settings@.len();
        lines_of_all(Seq::empty(), c.settings@, Seq::empty(), n, k);
        let own = config_lines(c).take(config_lines(c).len() - settings_lines(c.settings@, n).len());
        assert(config_lines(c) =~= own + settings_lines(c.settings@, n));
        text::occurs_at_end(own, settings_lines(c.settings@, n));
        text::occurs_within(
            config_lines(c),
            settings_lines(c.settings@, n),
            setting_lines(c.settings@[k]),
        );
    }
    if 0 <= k < s.endpoints@.len() {
        let n = s.endpoints@.len();
        lines_of_all(s.endpoints@, Seq::empty(), Seq::empty(), n, k);
        let own = setting_lines(s).take(setting_lines(s).len() - endpoint_lines(s.endpoints@, n).len());
        assert(setting_lines(s) =~= own + endpoint_lines(s.endpoints@, n));
        text::occurs_at_end(own, endpoint_lines(s.endpoints@, n));
        text::occurs_within(
            setting_lines(s),
            endpoint_lines(s.endpoints@, n),
            endpoint_line(s.endpoints@[k]),
        );
    }
}

/// The check of the endpoints tells of each direction whether its endpoint is
/// there and whether the number in the low four bits of its address is the
/// expected one, 1 towards the device and 2 towards the host.
pub proof fn check_tells_the_endpoints(ep: Endpoints)
    ensures
        ({
            let t = expectations(ep);
            let line = |label: Seq<char>, a: u8, told: Seq<char>|
                "  "@ + label + ": 0x"@ + text::zero_hex(a as nat, 2) + " (ep "@ + text::decimal(
                    (a & 0x0f) as nat,
                ) + ") — "@ + told + "\n"@;
            &&& ep.bulk_out matches Some(a) ==> text::occurs(
                t,
                line(
                    "bulk OUT "@,
                    a,
                    if a & 0x0f == 1 {
                        "matches expected ep 1"@
                    } else {
                        "DIFFERS from expected ep 1"@
                    },
                ),
            )
            &&& ep.bulk_in matches Some(a) ==> text::occurs(
                t,
                line(
                    "bulk IN  "@,
                    a,
                    if a & 0x0f == 2 {
                        "matches expected ep 2"@
                    } else {
                        "DIFFERS from expected ep 2"@
                    },
                ),
            )
            &&& ep.bulk_out is None ==> text::occurs(
                t,
                "  "@ + "bulk OUT "@ + ": MISSING — expected an ep 1 bulk OUT"@ + "\n"@,
            )
            &&& ep.bulk_in is None ==> text::occurs(
                t,
                "  "@ + "bulk IN  "@ + ": MISSING — expected an ep 2 bulk IN"@ + "\n"@,
            )
        }),
{
    broadcast use text::group_occurs;

    if let Some(a) = ep.bulk_out {
        assert(a & 0x0f == a % 16) by (bit_vector);
    }
    if let Some(a) = ep.bulk_in {
        assert(a & 0x0f == a % 16) by (bit_vector);
    }
}

/// A missing device is named by its two numbers.
pub proof fn missing_devices_are_named(vid: u16, pid: u16)
    ensures
        text::starts_with(
            missing(vid, pid),
            "device "@ + (text::zero_hex(vid as nat, 4) + ":"@ + text::zero_hex(pid as nat, 4)),
        ),
{
    let t = missing(vid, pid);
    let head = "device "@ + id_pair(vid, pid);
    assert(t.take(head.len() as int) =~= head);
}

} // verus!
