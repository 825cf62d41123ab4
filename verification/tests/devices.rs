use lox::devices::{
    bus_has_errors, device_status, extensions_in, health_counts, health_report, is_top_level,
    shown_in_report, DeviceInfo, DeviceStatus,
};
use lox::xml::{attr, start_tags, xml_attr};

const STATUS: &str = r#"<?xml version="1.0" encoding="utf-8"?>
<Status>
  <Miniserver Name="Haus" IP="192.168.1.2" Modified="2024-05-01 10:20:30"/>
  <TreeBranch Name="Tree 1" Serial="T100" Version="13.1" Devices="2" Errors="x">
    <TreeDevice Name="Touch Küche" Serial="D1" Version="13.0" Online="true" Place="Küche"/>
    <TreeDevice Name="Sensor Bad" Serial="D2" Version="13.0" Online="false" Place=""/>
  </TreeBranch>
  <Extension Name="Relay Ext" Type="Relay Extension" Serial="E1" Version="12.0" Online="true"/>
  <GenericNetworkDevice Name="Intercom" Type="Intercom" MAC="AA:BB" Version="2.0" Online="true" Place="Eingang">
    <AirDevice Name="Window Bad" Type="Air Window" Serial="A1" Version="1.0" Online="true" Place="Bad" Battery="15"/>
  </GenericNetworkDevice>
  <Plugin Name="Sonos" Type="Audio" Version="3.1" Online="false"/>
</Status>
"#;

#[test]
fn start_tags_in_order() {
    let tags = start_tags(STATUS).unwrap();
    let names: Vec<&str> = tags.iter().map(|t| t.tag.as_str()).collect();
    assert_eq!(
        names,
        vec!["Status", "Miniserver", "TreeBranch", "TreeDevice", "TreeDevice", "Extension", "GenericNetworkDevice", "AirDevice", "Plugin"]
    );
    assert_eq!(attr(&tags[1], "IP"), "192.168.1.2");
    assert_eq!(attr(&tags[1], "Missing"), "");
}

#[test]
fn malformed_document_is_refused() {
    assert!(start_tags("<a><b></a>").is_err());
    let err = extensions_in("<a><b></a>").unwrap_err();
    assert!(err.starts_with("Failed to parse status XML: "));
    assert!(health_report("<a></b>", None).is_err());
}

#[test]
fn empty_document_has_no_tags() {
    assert!(start_tags("").unwrap().is_empty());
    assert!(extensions_in("").unwrap().is_empty());
}

#[test]
fn extension_listing() {
    let ext = extensions_in(STATUS).unwrap();
    let names: Vec<&str> = ext.iter().map(|e| e.name.as_str()).collect();
    assert_eq!(names, vec!["Tree 1", "Touch Küche", "Sensor Bad", "Relay Ext", "Intercom", "Window Bad", "Sonos"]);
    let tree = &ext[0];
    assert_eq!(tree.kind, "Tree");
    assert!(tree.online);
    assert_eq!(tree.devices, Some(2));
    assert_eq!(tree.errors, Some(0));
    let touch = &ext[1];
    assert_eq!(touch.kind, "Tree Device");
    assert_eq!(touch.place.as_deref(), Some("Küche"));
    assert_eq!(touch.parent, Some(Some("Tree 1".to_string())));
    assert!(!ext[2].online);
    assert_eq!(ext[3].kind, "Relay Extension");
    assert_eq!(ext[3].parent, None);
    assert_eq!(ext[4].serial, "AA:BB");
    let air = &ext[5];
    assert_eq!(air.parent, Some(Some("Intercom".to_string())));
    assert_eq!(air.battery, Some(Some(15)));
    assert_eq!(ext[6].kind, "Plugin (Audio)");
    assert_eq!(ext[6].serial, "");
}

#[test]
fn tree_device_before_any_branch_has_no_parent() {
    let ext = extensions_in(r#"<S><TreeDevice Name="d" Online="true"/></S>"#).unwrap();
    assert_eq!(ext.len(), 1);
    assert_eq!(ext[0].parent, Some(None));
    assert_eq!(ext[0].place.as_deref(), Some(""));
}

#[test]
fn top_level_kinds() {
    assert!(is_top_level("Tree"));
    assert!(is_top_level("Relay Extension"));
    assert!(is_top_level("Plugin (Audio)"));
    assert!(is_top_level("Intercom"));
    assert!(!is_top_level("Tree Device"));
    assert!(!is_top_level("Air Window"));
}

#[test]
fn health_devices_and_counts() {
    let devices = health_report(STATUS, None).unwrap();
    let names: Vec<&str> = devices.iter().map(|d| d.name.as_str()).collect();
    assert_eq!(names, vec!["Tree 1", "Touch Küche", "Sensor Bad", "Relay Ext", "Intercom", "Window Bad"]);
    assert_eq!(devices[2].place, None);
    assert_eq!(devices[5].battery, Some(15));
    assert_eq!(device_status(&devices[0]), DeviceStatus::Online);
    assert_eq!(device_status(&devices[2]), DeviceStatus::Offline);
    assert_eq!(device_status(&devices[5]), DeviceStatus::Warning);
    let (online, warning, offline) = health_counts(&devices);
    assert_eq!((online, warning, offline), (4, 1, 1));
    assert_eq!(online + warning + offline, devices.len());
}

#[test]
fn health_type_filter_ignores_case() {
    let tree = health_report(STATUS, Some("TREE")).unwrap();
    assert_eq!(tree.len(), 3);
    let air = health_report(STATUS, Some("air")).unwrap();
    assert_eq!(air.len(), 1);
    assert_eq!(air[0].name, "Window Bad");
}

#[test]
fn battery_threshold() {
    let d = |battery: Option<u32>, online: bool| DeviceInfo {
        name: "d".to_string(),
        device_type: "Air".to_string(),
        place: None,
        online,
        battery,
    };
    assert_eq!(device_status(&d(Some(19), true)), DeviceStatus::Warning);
    assert_eq!(device_status(&d(Some(20), true)), DeviceStatus::Online);
    assert_eq!(device_status(&d(None, true)), DeviceStatus::Online);
    assert_eq!(device_status(&d(Some(5), false)), DeviceStatus::Offline);
}

#[test]
fn bus_errors() {
    assert!(!bus_has_errors("0", "0", "0"));
    assert!(bus_has_errors("0", "3", "0"));
    assert!(!bus_has_errors("x", "", "?"));
    assert!(bus_has_errors("0", "0", "+1"));
}

#[test]
fn attribute_by_text_search() {
    let reply = r#"<LL control="dev/cfg/version" value="14.5.6.7" Code="200"/>"#;
    assert_eq!(xml_attr(reply, "value"), Some("14.5.6.7".to_string()));
    assert_eq!(xml_attr(reply, "Code"), Some("200".to_string()));
    assert_eq!(xml_attr(reply, "missing"), None);
    assert_eq!(xml_attr("a value=\"unterminated", "value"), None);
    // the search is textual: `xvalue` also matches `value="`
    assert_eq!(xml_attr("<x xvalue=\"1\" value=\"2\"/>", "value"), Some("1".to_string()));
}

#[test]
fn problems_filter() {
    let devices = health_report(STATUS, None).unwrap();
    let shown: Vec<&str> = devices
        .iter()
        .filter(|d| shown_in_report(d, true))
        .map(|d| d.name.as_str())
        .collect();
    assert_eq!(shown, vec!["Sensor Bad", "Window Bad"]);
    assert!(devices.iter().all(|d| shown_in_report(d, false)));
}
