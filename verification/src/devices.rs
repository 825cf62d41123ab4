//! The hardware listed in the Miniserver's status document (`/data/status`):
//! extensions, tree and air devices, network devices and plugins, and the
//! health summary drawn from them.

use vstd::prelude::*;
use crate::client::{clone_opt, opt_view};
use crate::config::chars_equal;
use crate::status::{parse_unsigned, parsed_unsigned};
use crate::text::{chars_of, contains_ignore_case, contains_seq, lowercase_of, push_str, string_of};
use crate::xml::{XmlElement, ElementModel, element_views, attr, attr_value, start_tags, tags_from};

verus! {

/// One entry of the extension listing.
#[derive(Debug)]
pub struct ExtensionRecord {
    pub name: String,
    /// The entry's type as shown (`Tree`, the extension's type, ...).
    pub kind: String,
    pub serial: String,
    pub version: String,
    pub online: bool,
    /// Where the entry has a place field: its `Place` attribute.
    pub place: Option<String>,
    /// Where the entry has a parent field: the last tree branch or network
    /// device listed before it, if any.
    pub parent: Option<Option<String>>,
    /// Where the entry has a battery field: its `Battery` attribute as a
    /// number, if it is one.
    pub battery: Option<Option<u32>>,
    /// Tree branches only: their `Devices` count (0 when unreadable).
    pub devices: Option<u32>,
    /// Tree branches only: their `Errors` count (0 when unreadable).
    pub errors: Option<u32>,
}

/// An extension entry, viewed.
pub ghost struct ExtensionModel {
    pub name: Seq<char>,
    pub kind: Seq<char>,
    pub serial: Seq<char>,
    pub version: Seq<char>,
    pub online: bool,
    pub place: Option<Seq<char>>,
    pub parent: Option<Option<Seq<char>>>,
    pub battery: Option<Option<u32>>,
    pub devices: Option<u32>,
    pub errors: Option<u32>,
}

/// An optional optional text, viewed.
pub open spec fn opt_opt_view(o: Option<Option<String>>) -> Option<Option<Seq<char>>> {
    match o {
        Some(x) => Some(opt_view(x)),
        None => None,
    }
}

impl View for ExtensionRecord {
    type V = ExtensionModel;

    open spec fn view(&self) -> ExtensionModel {
        ExtensionModel {
            name: self.name@,
            kind: self.kind@,
            serial: self.serial@,
            version: self.version@,
            online: self.online,
            place: opt_view(self.place),
            parent: opt_opt_view(self.parent),
            battery: self.battery,
            devices: self.devices,
            errors: self.errors,
        }
    }
}

/// A number attribute read as `u32`.
pub open spec fn attr_u32(e: ElementModel, name: Seq<char>) -> Option<u32> {
    match parsed_unsigned(attr_value(e.attrs, name), u32::MAX as nat) {
        Some(v) => Some(v as u32),
        None => None,
    }
}

/// An attribute read as a flag: `true` exactly when it reads `true`.
pub open spec fn attr_flag(e: ElementModel, name: Seq<char>) -> bool {
    attr_value(e.attrs, name) == "true"@
}

/// The listing entry a status element gives, with the parent in effect.
pub open spec fn extension_of(e: ElementModel, parent: Option<Seq<char>>) -> Option<ExtensionModel> {
    let a = |n: Seq<char>| attr_value(e.attrs, n);
    let tag = e.tag;
    if tag == "TreeBranch"@ {
        Some(ExtensionModel {
            name: a("Name"@), kind: "Tree"@, serial: a("Serial"@), version: a("Version"@), online: true,
            place: None, parent: None, battery: None,
            devices: Some(match attr_u32(e, "Devices"@) { Some(v) => v, None => 0 }),
            errors: Some(match attr_u32(e, "Errors"@) { Some(v) => v, None => 0 }),
        })
    } else if tag == "Extension"@ {
        Some(ExtensionModel {
            name: a("Name"@), kind: a("Type"@), serial: a("Serial"@), version: a("Version"@),
            online: attr_flag(e, "Online"@), place: None, parent: None, battery: None, devices: None, errors: None,
        })
    } else if tag == "GenericNetworkDevice"@ {
        Some(ExtensionModel {
            name: a("Name"@), kind: a("Type"@), serial: a("MAC"@), version: a("Version"@),
            online: attr_flag(e, "Online"@), place: Some(a("Place"@)), parent: None, battery: None, devices: None, errors: None,
        })
    } else if tag == "TreeDevice"@ {
        Some(ExtensionModel {
            name: a("Name"@), kind: "Tree Device"@, serial: a("Serial"@), version: a("Version"@),
            online: attr_flag(e, "Online"@), place: Some(a("Place"@)), parent: Some(parent), battery: None, devices: None, errors: None,
        })
    } else if tag == "AirDevice"@ {
        Some(ExtensionModel {
            name: a("Name"@), kind: a("Type"@), serial: a("Serial"@), version: a("Version"@),
            online: attr_flag(e, "Online"@), place: Some(a("Place"@)), parent: Some(parent),
            battery: Some(attr_u32(e, "Battery"@)), devices: None, errors: None,
        })
    } else if tag == "Plugin"@ {
        Some(ExtensionModel {
            name: a("Name"@), kind: "Plugin ("@ + a("Type"@) + ")"@, serial: Seq::empty(), version: a("Version"@),
            online: attr_flag(e, "Online"@), place: None, parent: None, battery: None, devices: None, errors: None,
        })
    } else {
        None
    }
}

/// The parent in effect after an element: tree branches and network devices
/// become the parent of what follows.
pub open spec fn parent_after(e: ElementModel, parent: Option<Seq<char>>) -> Option<Seq<char>> {
    if e.tag == "TreeBranch"@ || e.tag == "GenericNetworkDevice"@ {
        Some(attr_value(e.attrs, "Name"@))
    } else {
        parent
    }
}

/// The listing entries of the elements from `i` on, `parent` in effect.
pub open spec fn extensions_from(els: Seq<ElementModel>, i: int, parent: Option<Seq<char>>) -> Seq<ExtensionModel>
    decreases els.len() - i,
{
    if i < 0 || i >= els.len() {
        Seq::empty()
    } else {
        let rest = extensions_from(els, i + 1, parent_after(els[i], parent));
        match extension_of(els[i], parent) {
            Some(m) => seq![m] + rest,
            None => rest,
        }
    }
}

/// Records viewed.
pub open spec fn extension_views(v: Seq<ExtensionRecord>) -> Seq<ExtensionModel> {
    v.map_values(|r: ExtensionRecord| r@)
}

fn u32_attr(e: &XmlElement, name: &str) -> (r: Option<u32>)
    ensures
        r == attr_u32(e@, name@),
{
    let v = attr(e, name);
    match parse_unsigned(v.as_str(), 0xffff_ffff) {
        Some(x) => Some(x as u32),
        None => None,
    }
}

fn flag_attr(e: &XmlElement, name: &str) -> (b: bool)
    ensures
        b == attr_flag(e@, name@),
{
    let v = attr(e, name);
    let c = chars_of(v.as_str());
    let t = chars_of("true");
    chars_equal(&c, &t)
}

fn tag_is(e: &XmlElement, tag: &str) -> (b: bool)
    ensures
        b == (e@.tag == tag@),
{
    let c = chars_of(e.tag.as_str());
    let t = chars_of(tag);
    chars_equal(&c, &t)
}

/// The listing entry of one element, with the parent in effect.
pub fn extension_record(e: &XmlElement, parent: &Option<String>) -> (r: Option<ExtensionRecord>)
    ensures
        match r {
            Some(x) => extension_of(e@, opt_view(*parent)) == Some(x@),
            None => extension_of(e@, opt_view(*parent)) is None,
        },
{
    if tag_is(e, "TreeBranch") {
        Some(ExtensionRecord {
            name: attr(e, "Name"), kind: "Tree".to_owned(), serial: attr(e, "Serial"), version: attr(e, "Version"),
            online: true, place: None, parent: None, battery: None,
            devices: Some(match u32_attr(e, "Devices") { Some(v) => v, None => 0 }),
            errors: Some(match u32_attr(e, "Errors") { Some(v) => v, None => 0 }),
        })
    } else if tag_is(e, "Extension") {
        Some(ExtensionRecord {
            name: attr(e, "Name"), kind: attr(e, "Type"), serial: attr(e, "Serial"), version: attr(e, "Version"),
            online: flag_attr(e, "Online"), place: None, parent: None, battery: None, devices: None, errors: None,
        })
    } else if tag_is(e, "GenericNetworkDevice") {
        Some(ExtensionRecord {
            name: attr(e, "Name"), kind: attr(e, "Type"), serial: attr(e, "MAC"), version: attr(e, "Version"),
            online: flag_attr(e, "Online"), place: Some(attr(e, "Place")), parent: None, battery: None,
            devices: None, errors: None,
        })
    } else if tag_is(e, "TreeDevice") {
        Some(ExtensionRecord {
            name: attr(e, "Name"), kind: "Tree Device".to_owned(), serial: attr(e, "Serial"), version: attr(e, "Version"),
            online: flag_attr(e, "Online"), place: Some(attr(e, "Place")), parent: Some(clone_opt(parent)),
            battery: None, devices: None, errors: None,
        })
    } else if tag_is(e, "AirDevice") {
        Some(ExtensionRecord {
            name: attr(e, "Name"), kind: attr(e, "Type"), serial: attr(e, "Serial"), version: attr(e, "Version"),
            online: flag_attr(e, "Online"), place: Some(attr(e, "Place")), parent: Some(clone_opt(parent)),
            battery: Some(u32_attr(e, "Battery")), devices: None, errors: None,
        })
    } else if tag_is(e, "Plugin") {
        let mut k: Vec<char> = Vec::new();
        push_str(&mut k, "Plugin (");
        let t = attr(e, "Type");
        push_str(&mut k, t.as_str());
        push_str(&mut k, ")");
        Some(ExtensionRecord {
            name: attr(e, "Name"), kind: string_of(&k), serial: String::new(), version: attr(e, "Version"),
            online: flag_attr(e, "Online"), place: None, parent: None, battery: None, devices: None, errors: None,
        })
    } else {
        None
    }
}

/// The extension listing of a status document's start tags, in order.
pub fn extension_records(els: &Vec<XmlElement>) -> (r: Vec<ExtensionRecord>)
    ensures
        extension_views(r@) == extensions_from(element_views(els@), 0, None),
{
    let n = els.len();
    let mut out: Vec<ExtensionRecord> = Vec::new();
    let mut parent: Option<String> = None;
    let mut i: usize = 0;
    while i < n
        invariant
            n == els@.len(),
            i <= n,
            extension_views(out@) + extensions_from(element_views(els@), i as int, opt_view(parent)) == extensions_from(element_views(els@), 0, None),
        decreases n - i,
    {
        let e = &els[i];
        let ghost before = extension_views(out@);
        let ghost rest = extensions_from(element_views(els@), i + 1, parent_after(els@[i as int]@, opt_view(parent)));
        match extension_record(e, &parent) {
            Some(rec) => {
                out.push(rec);
                proof {
                    assert(extension_views(out@) =~= before.push(rec@));
                    assert(before.push(rec@) + rest =~= before + (seq![rec@] + rest));
                }
            },
            None => {},
        }
        if tag_is(e, "TreeBranch") || tag_is(e, "GenericNetworkDevice") {
            parent = Some(attr(e, "Name"));
        }
        i = i + 1;
    }
    assert(extension_views(out@) + Seq::<ExtensionModel>::empty() =~= extension_views(out@));
    out
}

/// The message for a status document the reader rejects.
pub open spec fn parse_failure(m: Seq<char>) -> Seq<char> {
    "Failed to parse status XML: "@ + m
}

fn parse_failure_message(m: &str) -> (s: String)
    ensures
        s@ == parse_failure(m@),
{
    let mut v: Vec<char> = Vec::new();
    push_str(&mut v, "Failed to parse status XML: ");
    push_str(&mut v, m);
    string_of(&v)
}

/// The extension listing of a status document: its entries in document
/// order, or the parse failure for a document the reader rejects.
pub fn extensions_in(status_xml: &str) -> (r: Result<Vec<ExtensionRecord>, String>)
    ensures
        match tags_from(status_xml@, 0, status_xml.len() as nat) {
            Ok(els) => r matches Ok(v) && extension_views(v@) == extensions_from(els, 0, None),
            Err(m) => r matches Err(e) && e@ == parse_failure(m),
        },
{
    match start_tags(status_xml) {
        Ok(els) => Ok(extension_records(&els)),
        Err(m) => Err(parse_failure_message(m.as_str())),
    }
}

/// The devices of the health report of a status document, in document
/// order, only those whose type contains `type_filter` (case-insensitively)
/// where one is given; or the parse failure for a document the reader
/// rejects.
pub fn health_report(status_xml: &str, type_filter: Option<&str>) -> (r: Result<Vec<DeviceInfo>, String>)
    ensures
        match tags_from(status_xml@, 0, status_xml.len() as nat) {
            Ok(els) => r matches Ok(v) && device_views(v@) == (match type_filter {
                Some(tf) => of_type(devices_of(els), tf@),
                None => devices_of(els),
            }),
            Err(m) => r matches Err(e) && e@ == parse_failure(m),
        },
{
    match start_tags(status_xml) {
        Ok(els) => {
            let devices = health_devices(&els);
            match type_filter {
                Some(tf) => Ok(filter_by_type(devices, tf)),
                None => Ok(devices),
            }
        },
        Err(m) => Err(parse_failure_message(m.as_str())),
    }
}

/// Whether an entry belongs to the upper table of the listing (trees,
/// extensions, plugins, intercoms) rather than the device table.
pub open spec fn is_top_level_kind(kind: Seq<char>) -> bool {
    kind == "Tree"@ || contains_seq(kind, "Extension"@) || contains_seq(kind, "Plugin"@) || kind == "Intercom"@
}

/// Decides `is_top_level_kind`.
pub fn is_top_level(kind: &str) -> (b: bool)
    ensures
        b == is_top_level_kind(kind@),
{
    let k = chars_of(kind);
    let tree = chars_of("Tree");
    let ext = chars_of("Extension");
    let plugin = chars_of("Plugin");
    let intercom = chars_of("Intercom");
    chars_equal(&k, &tree) || crate::text::contains_chars(&k, &ext) || crate::text::contains_chars(&k, &plugin)
        || chars_equal(&k, &intercom)
}

/// A device of the health report.
#[derive(Debug)]
pub struct DeviceInfo {
    pub name: String,
    pub device_type: String,
    pub place: Option<String>,
    pub online: bool,
    pub battery: Option<u32>,
}

/// A device of the health report, viewed.
pub ghost struct DeviceModel {
    pub name: Seq<char>,
    pub device_type: Seq<char>,
    pub place: Option<Seq<char>>,
    pub online: bool,
    pub battery: Option<u32>,
}

impl View for DeviceInfo {
    type V = DeviceModel;

    open spec fn view(&self) -> DeviceModel {
        DeviceModel {
            name: self.name@,
            device_type: self.device_type@,
            place: opt_view(self.place),
            online: self.online,
            battery: self.battery,
        }
    }
}

/// A place attribute, absent when empty.
pub open spec fn place_of(e: ElementModel) -> Option<Seq<char>> {
    let p = attr_value(e.attrs, "Place"@);
    if p.len() == 0 { None } else { Some(p) }
}

/// The health-report device a status element gives, if any.
pub open spec fn device_of(e: ElementModel) -> Option<DeviceModel> {
    let a = |n: Seq<char>| attr_value(e.attrs, n);
    let tag = e.tag;
    if tag == "TreeBranch"@ {
        Some(DeviceModel { name: a("Name"@), device_type: "Tree"@, place: None, online: true, battery: None })
    } else if tag == "Extension"@ {
        Some(DeviceModel { name: a("Name"@), device_type: a("Type"@), place: None, online: attr_flag(e, "Online"@), battery: None })
    } else if tag == "GenericNetworkDevice"@ {
        Some(DeviceModel { name: a("Name"@), device_type: a("Type"@), place: place_of(e), online: attr_flag(e, "Online"@), battery: None })
    } else if tag == "TreeDevice"@ {
        Some(DeviceModel { name: a("Name"@), device_type: "Tree Device"@, place: place_of(e), online: attr_flag(e, "Online"@), battery: None })
    } else if tag == "AirDevice"@ {
        Some(DeviceModel { name: a("Name"@), device_type: a("Type"@), place: place_of(e), online: attr_flag(e, "Online"@), battery: attr_u32(e, "Battery"@) })
    } else {
        None
    }
}

/// The health-report devices of the elements, in order.
pub open spec fn devices_of(els: Seq<ElementModel>) -> Seq<DeviceModel>
    decreases els.len(),
{
    if els.len() == 0 {
        Seq::empty()
    } else {
        let rest = devices_of(els.drop_last());
        match device_of(els.last()) {
            Some(d) => rest.push(d),
            None => rest,
        }
    }
}

/// Devices viewed.
pub open spec fn device_views(v: Seq<DeviceInfo>) -> Seq<DeviceModel> {
    v.map_values(|d: DeviceInfo| d@)
}

fn place_attr(e: &XmlElement) -> (r: Option<String>)
    ensures
        opt_view(r) == place_of(e@),
{
    let p = attr(e, "Place");
    if p.as_str().is_empty() {
        None
    } else {
        Some(p)
    }
}

/// The health-report device of one element.
pub fn device_info(e: &XmlElement) -> (r: Option<DeviceInfo>)
    ensures
        match r {
            Some(d) => device_of(e@) == Some(d@),
            None => device_of(e@) is None,
        },
{
    if tag_is(e, "TreeBranch") {
        Some(DeviceInfo { name: attr(e, "Name"), device_type: "Tree".to_owned(), place: None, online: true, battery: None })
    } else if tag_is(e, "Extension") {
        Some(DeviceInfo { name: attr(e, "Name"), device_type: attr(e, "Type"), place: None, online: flag_attr(e, "Online"), battery: None })
    } else if tag_is(e, "GenericNetworkDevice") {
        Some(DeviceInfo { name: attr(e, "Name"), device_type: attr(e, "Type"), place: place_attr(e), online: flag_attr(e, "Online"), battery: None })
    } else if tag_is(e, "TreeDevice") {
        Some(DeviceInfo { name: attr(e, "Name"), device_type: "Tree Device".to_owned(), place: place_attr(e), online: flag_attr(e, "Online"), battery: None })
    } else if tag_is(e, "AirDevice") {
        Some(DeviceInfo { name: attr(e, "Name"), device_type: attr(e, "Type"), place: place_attr(e), online: flag_attr(e, "Online"), battery: u32_attr(e, "Battery") })
    } else {
        None
    }
}

/// The health-report devices of a status document's start tags, in order.
pub fn health_devices(els: &Vec<XmlElement>) -> (r: Vec<DeviceInfo>)
    ensures
        device_views(r@) == devices_of(element_views(els@)),
{
    let n = els.len();
    let mut out: Vec<DeviceInfo> = Vec::new();
    let mut i: usize = 0;
    while i < n
        invariant
            n == els@.len(),
            i <= n,
            device_views(out@) == devices_of(element_views(els@).take(i as int)),
        decreases n - i,
    {
        assert(element_views(els@).take(i + 1).drop_last() == element_views(els@).take(i as int));
        assert(element_views(els@).take(i + 1).last() == els@[i as int]@);
        match device_info(&els[i]) {
            Some(d) => {
                let ghost before = device_views(out@);
                out.push(d);
                assert(device_views(out@) =~= before.push(d@));
            },
            None => {},
        }
        i = i + 1;
    }
    assert(element_views(els@).take(n as int) == element_views(els@));
    out
}

/// The health of a device.
#[derive(Debug, PartialEq, Eq, Structural, Clone, Copy)]
pub enum DeviceStatus {
    Online,
    Warning,
    Offline,
}

/// Offline when not online; a warning when its battery is below 20 %;
/// online otherwise.
pub open spec fn status_of(d: DeviceModel) -> DeviceStatus {
    if !d.online {
        DeviceStatus::Offline
    } else if d.battery matches Some(b) && b < 20 {
        DeviceStatus::Warning
    } else {
        DeviceStatus::Online
    }
}

/// The health of a device.
pub fn device_status(d: &DeviceInfo) -> (s: DeviceStatus)
    ensures
        s == status_of(d@),
{
    if !d.online {
        DeviceStatus::Offline
    } else {
        match d.battery {
            Some(b) => if b < 20 { DeviceStatus::Warning } else { DeviceStatus::Online },
            None => DeviceStatus::Online,
        }
    }
}

/// Whether the health report lists a device: every device, or with
/// `problems` only those with a warning or offline.
pub fn shown_in_report(d: &DeviceInfo, problems: bool) -> (b: bool)
    ensures
        b == (!problems || status_of(d@) != DeviceStatus::Online),
{
    !problems || device_status(d) != DeviceStatus::Online
}

/// The devices of `s` whose type contains the filter (case-insensitively).
pub open spec fn of_type(s: Seq<DeviceModel>, tf: Seq<char>) -> Seq<DeviceModel>
    decreases s.len(),
{
    if s.len() == 0 {
        Seq::empty()
    } else {
        let rest = of_type(s.drop_last(), tf);
        if contains_seq(lowercase_of(s.last().device_type), lowercase_of(tf)) { rest.push(s.last()) } else { rest }
    }
}

/// Keeps the devices whose type contains `type_filter` (case-insensitively).
pub fn filter_by_type(devices: Vec<DeviceInfo>, type_filter: &str) -> (r: Vec<DeviceInfo>)
    ensures
        device_views(r@) == of_type(device_views(devices@), type_filter@),
{
    let ghost all = device_views(devices@);
    let n = devices.len();
    let mut rest = devices;
    let mut out: Vec<DeviceInfo> = Vec::new();
    let ghost mut k: int = 0;
    while rest.len() > 0
        invariant
            0 <= k <= all.len(),
            all.len() == n,
            device_views(rest@) == all.skip(k),
            device_views(out@) == of_type(all.take(k), type_filter@),
        decreases rest@.len(),
    {
        let ghost old_rest = rest@;
        assert(device_views(old_rest).len() == old_rest.len());
        let d = rest.remove(0);
        assert(device_views(old_rest)[0] == all[k]);
        assert forall|i: int| 0 <= i < rest@.len() implies device_views(rest@)[i] == all.skip(k + 1)[i] by {
            assert(rest@[i] == old_rest[i + 1]);
            assert(device_views(old_rest)[i + 1] == all.skip(k)[i + 1]);
        }
        assert(device_views(rest@) =~= all.skip(k + 1));
        assert(all.take(k + 1).drop_last() =~= all.take(k));
        assert(all.take(k + 1).last() == d@);
        if contains_ignore_case(d.device_type.as_str(), type_filter) {
            let ghost before = device_views(out@);
            out.push(d);
            assert(device_views(out@) =~= before.push(all[k]));
        }
        proof {
            k = k + 1;
        }
    }
    assert(all.take(k) =~= all);
    out
}

/// How many devices of `s` have this health.
pub open spec fn count_status(s: Seq<DeviceModel>, st: DeviceStatus) -> nat
    decreases s.len(),
{
    if s.len() == 0 {
        0
    } else {
        count_status(s.drop_last(), st) + if status_of(s.last()) == st { 1nat } else { 0nat }
    }
}

/// Every device has exactly one health, so the three counts make up the
/// whole list.
pub proof fn law_health_counts_cover(s: Seq<DeviceModel>)
    ensures
        count_status(s, DeviceStatus::Online) + count_status(s, DeviceStatus::Warning)
            + count_status(s, DeviceStatus::Offline) == s.len(),
    decreases s.len(),
{
    if s.len() > 0 {
        law_health_counts_cover(s.drop_last());
    }
}

/// The counts of the health report: devices online, with a warning, offline.
pub fn health_counts(devices: &Vec<DeviceInfo>) -> (r: (usize, usize, usize))
    ensures
        r.0 == count_status(device_views(devices@), DeviceStatus::Online),
        r.1 == count_status(device_views(devices@), DeviceStatus::Warning),
        r.2 == count_status(device_views(devices@), DeviceStatus::Offline),
        r.0 + r.1 + r.2 == devices@.len(),
{
    let ghost all = device_views(devices@);
    let n = devices.len();
    let mut online: usize = 0;
    let mut warning: usize = 0;
    let mut offline: usize = 0;
    let mut i: usize = 0;
    while i < n
        invariant
            n == devices@.len(),
            all == device_views(devices@),
            i <= n,
            online == count_status(all.take(i as int), DeviceStatus::Online),
            warning == count_status(all.take(i as int), DeviceStatus::Warning),
            offline == count_status(all.take(i as int), DeviceStatus::Offline),
        decreases n - i,
    {
        proof {
            law_health_counts_cover(all.take(i as int));
        }
        assert(all.take(i + 1).drop_last() =~= all.take(i as int));
        assert(all.take(i + 1).last() == devices@[i as int]@);
        match device_status(&devices[i]) {
            DeviceStatus::Online => online = online + 1,
            DeviceStatus::Warning => warning = warning + 1,
            DeviceStatus::Offline => offline = offline + 1,
        }
        i = i + 1;
    }
    assert(all.take(n as int) =~= all);
    proof {
        law_health_counts_cover(all);
    }
    (online, warning, offline)
}

/// Whether the bus counters (receive errors, frame errors, overruns) show
/// any error; a counter that is not a number counts as 0.
pub open spec fn bus_errors_shown(re: Seq<char>, fe: Seq<char>, ov: Seq<char>) -> bool {
    let n = |t: Seq<char>| match parsed_unsigned(t, u64::MAX as nat) { Some(v) => v, None => 0 };
    n(re) > 0 || n(fe) > 0 || n(ov) > 0
}

fn counter(t: &str) -> (v: u64)
    ensures
        v == (match parsed_unsigned(t@, u64::MAX as nat) { Some(x) => x, None => 0 }),
{
    match parse_unsigned(t, u64::MAX) {
        Some(x) => x,
        None => 0,
    }
}

/// Decides `bus_errors_shown`.
pub fn bus_has_errors(receive_errors: &str, frame_errors: &str, overruns: &str) -> (b: bool)
    ensures
        b == bus_errors_shown(receive_errors@, frame_errors@, overruns@),
{
    counter(receive_errors) > 0 || counter(frame_errors) > 0 || counter(overruns) > 0
}

/// A listed entry is online exactly when its element's `Online` attribute
/// reads `true`; tree branches, which carry no such attribute, are always
/// online.
pub proof fn law_extension_online(e: ElementModel, parent: Option<Seq<char>>)
    ensures
        extension_of(e, parent) matches Some(m) ==> m.online == (
            if e.tag == "TreeBranch"@ { true } else { attr_value(e.attrs, "Online"@) == "true"@ }),
        e.tag == "Plugin"@ || e.tag == "Extension"@ || e.tag == "TreeDevice"@ || e.tag == "AirDevice"@
            || e.tag == "GenericNetworkDevice"@ || e.tag == "TreeBranch"@ <==> extension_of(e, parent) is Some,
{
}

/// A device of the health report is online exactly when its element's
/// `Online` attribute reads `true` (tree branches are always online), and a
/// device that is not online is reported offline.
pub proof fn law_device_online(e: ElementModel)
    ensures
        device_of(e) matches Some(d) ==> d.online == (
            if e.tag == "TreeBranch"@ { true } else { attr_value(e.attrs, "Online"@) == "true"@ }),
        device_of(e) matches Some(d) ==> (!d.online <==> status_of(d) == DeviceStatus::Offline),
        e.tag == "Extension"@ || e.tag == "TreeDevice"@ || e.tag == "AirDevice"@
            || e.tag == "GenericNetworkDevice"@ || e.tag == "TreeBranch"@ <==> device_of(e) is Some,
{
}

/// The bus error section is shown exactly when one of the three counters
/// reads as a positive number.
pub proof fn law_bus_errors(re: Seq<char>, fe: Seq<char>, ov: Seq<char>)
    ensures
        bus_errors_shown(re, fe, ov) <==> (
            (parsed_unsigned(re, u64::MAX as nat) matches Some(a) && a > 0)
            || (parsed_unsigned(fe, u64::MAX as nat) matches Some(b) && b > 0)
            || (parsed_unsigned(ov, u64::MAX as nat) matches Some(k) && k > 0)),
{
}

} // verus!
