use lox::client::{
    all_outputs_path, cache_is_fresh, command_path, control_passes, control_states, is_uuid,
    list_controls_in, matching_controls, request_url, room_names, split_room_qualifier,
    state_path, Control, LoxClient, ResolveError, Structure, StructureControl, StructureRoom,
};
use lox::config::Config;

fn room(uuid: &str, name: Option<&str>) -> StructureRoom {
    StructureRoom { uuid: uuid.to_string(), name: name.map(|s| s.to_string()) }
}

fn control(uuid: &str, name: &str, typ: &str, room: &str) -> StructureControl {
    StructureControl {
        uuid: uuid.to_string(),
        name: Some(name.to_string()),
        typ: Some(typ.to_string()),
        room: Some(room.to_string()),
        states: vec![("active".to_string(), format!("{}-active", uuid))],
    }
}

const U_KITCHEN_LIGHT: &str = "0f1e2d3c-0001-1111-ffff0000aaaa0001";
const U_BED_LIGHT: &str = "0f1e2d3c-0002-1111-ffff0000aaaa0002";
const U_BED_BLIND: &str = "0f1e2d3c-0003-1111-ffff0000aaaa0003";
const U_METER: &str = "0f1e2d3c-0004-1111-ffff0000aaaa0004";

fn structure() -> Structure {
    Structure {
        rooms: vec![room("r-kitchen", Some("Küche")), room("r-bed", Some("Schlafzimmer")), room("r-none", None)],
        controls: vec![
            control(U_KITCHEN_LIGHT, "Licht", "LightControllerV2", "r-kitchen"),
            control(U_BED_LIGHT, "Licht", "LightControllerV2", "r-bed"),
            control(U_BED_BLIND, "Jalousie Schlafzimmer", "Jalousie", "r-bed"),
            StructureControl {
                uuid: U_METER.to_string(),
                name: None,
                typ: None,
                room: None,
                states: vec![],
            },
        ],
    }
}

fn client() -> LoxClient {
    let mut c = LoxClient::new(Config::default());
    c.structure = Some(structure());
    c
}

fn names(v: &[Control]) -> Vec<String> {
    v.iter().map(|c| c.name.clone()).collect()
}

#[test]
fn uuid_detection() {
    assert!(is_uuid(U_KITCHEN_LIGHT));
    assert!(!is_uuid("Licht"));
    assert!(!is_uuid("a-b"));
    assert!(!is_uuid("abcdefghijklmnopqrstuvwxyz"));
    // exactly 20 bytes with a dash is not enough, 21 is
    assert!(!is_uuid("0123456789-012345678"));
    assert!(is_uuid("0123456789-0123456789"));
}

#[test]
fn listing_is_sorted_by_name() {
    let all = list_controls_in(&structure(), None, None);
    assert_eq!(names(&all), vec!["?", "Jalousie Schlafzimmer", "Licht", "Licht"]);
    // equal names keep file order
    assert_eq!(all[2].uuid, U_KITCHEN_LIGHT);
    assert_eq!(all[3].uuid, U_BED_LIGHT);
    assert_eq!(all[0].typ, "?");
    assert_eq!(all[0].room, None);
    assert_eq!(all[2].room.as_deref(), Some("Küche"));
}

#[test]
fn listing_filters_ignore_case() {
    let lights = list_controls_in(&structure(), Some("lightcontroller"), None);
    assert_eq!(lights.len(), 2);
    let bedroom = list_controls_in(&structure(), None, Some("SCHLAF"));
    assert_eq!(names(&bedroom), vec!["Jalousie Schlafzimmer", "Licht"]);
    let kitchen = list_controls_in(&structure(), None, Some("KÜCHE"));
    assert_eq!(names(&kitchen), vec!["Licht"]);
    assert_eq!(kitchen[0].uuid, U_KITCHEN_LIGHT);
    let both = list_controls_in(&structure(), Some("jalousie"), Some("schlaf"));
    assert_eq!(names(&both), vec!["Jalousie Schlafzimmer"]);
    // an empty room filter is met by every control, roomless ones included
    assert_eq!(list_controls_in(&structure(), None, Some("")).len(), 4);
}

#[test]
fn client_listing_needs_structure() {
    let c = LoxClient::new(Config::default());
    assert!(matches!(c.list_controls(None, None), Err(ResolveError::StructureNotLoaded)));
    assert_eq!(client().list_controls(Some("jalousie"), None).unwrap().len(), 1);
}

#[test]
fn resolve_uuid_passes_through() {
    let c = LoxClient::new(Config::default());
    assert_eq!(c.resolve("aaaaaaaa-bbbb-cccc-dddddddddddddddd").unwrap(), "aaaaaaaa-bbbb-cccc-dddddddddddddddd");
}

#[test]
fn resolve_by_unique_name() {
    assert_eq!(client().resolve("jalousie").unwrap(), U_BED_BLIND);
}

#[test]
fn resolve_ambiguous_name() {
    let err = client().resolve("licht").unwrap_err();
    match &err {
        ResolveError::Ambiguous { query, candidates } => {
            assert_eq!(query, "licht");
            assert_eq!(candidates.len(), 2);
        }
        _ => panic!("expected an ambiguity"),
    }
    assert_eq!(err.to_string(), "Ambiguous: 'licht'. Use [Room] qualifier or --room flag.");
}

#[test]
fn resolve_with_room_qualifier() {
    assert_eq!(client().resolve("Licht [Küche]").unwrap(), U_KITCHEN_LIGHT);
    assert_eq!(client().resolve("licht [schlaf]").unwrap(), U_BED_LIGHT);
}

#[test]
fn resolve_with_room_flag() {
    assert_eq!(client().resolve_with_room("Licht", Some("küche")).unwrap(), U_KITCHEN_LIGHT);
    // the qualifier wins over the flag
    assert_eq!(client().resolve_with_room("Licht [Schlafzimmer]", Some("Küche")).unwrap(), U_BED_LIGHT);
}

#[test]
fn resolve_no_match() {
    let err = client().resolve("Garage").unwrap_err();
    assert!(matches!(&err, ResolveError::NoMatch { query } if query == "Garage"));
    assert_eq!(err.to_string(), "No control matching 'Garage'");
}

#[test]
fn resolve_alias_first() {
    let mut c = client();
    c.cfg.aliases = vec![("licht".to_string(), "alias-target".to_string())];
    assert_eq!(c.resolve("licht").unwrap(), "alias-target");
}

#[test]
fn resolve_without_structure() {
    let c = LoxClient::new(Config::default());
    let err = c.resolve("Licht").unwrap_err();
    assert!(matches!(err, ResolveError::StructureNotLoaded));
    assert_eq!(err.to_string(), "Structure not loaded");
}

#[test]
fn find_control_by_uuid_and_name() {
    let c = client();
    let by_uuid = c.find_control(U_BED_BLIND).unwrap();
    assert_eq!(by_uuid.name, "Jalousie Schlafzimmer");
    let by_name = c.find_control("JALOUSIE").unwrap();
    assert_eq!(by_name.uuid, U_BED_BLIND);
    let missing = c.find_control("ffffffff-ffff-ffff-ffffffffffffffff").unwrap_err();
    assert!(matches!(missing, ResolveError::UuidNotFound));
    assert_eq!(missing.to_string(), "UUID not found");
    let amb = c.find_control("licht").unwrap_err();
    assert!(matches!(&amb, ResolveError::AmbiguousControl { candidates, .. } if candidates.len() == 2));
    assert_eq!(amb.to_string(), "Ambiguous: 'licht'");
}

#[test]
fn qualifier_split() {
    assert_eq!(split_room_qualifier("Licht [Küche]"), ("Licht".to_string(), Some("Küche".to_string())));
    assert_eq!(split_room_qualifier("Licht"), ("Licht".to_string(), None));
    assert_eq!(split_room_qualifier("Licht [Küche"), ("Licht [Küche".to_string(), None));
    assert_eq!(split_room_qualifier("a [b] [c]"), ("a [b]".to_string(), Some("c".to_string())));
    assert_eq!(split_room_qualifier("[]"), (String::new(), Some(String::new())));
}

#[test]
fn matching_by_name_and_room() {
    let all = list_controls_in(&structure(), None, None);
    assert_eq!(matching_controls(&all, "LICHT", None).len(), 2);
    assert_eq!(matching_controls(&all, "LICHT", Some("küche")).len(), 1);
    assert_eq!(matching_controls(&all, "", None).len(), 4);
}

#[test]
fn rooms_sorted() {
    assert_eq!(room_names(&structure()), vec!["Küche", "Schlafzimmer"]);
}

#[test]
fn states_of_a_control() {
    let s = control_states(&structure(), U_BED_LIGHT);
    assert_eq!(s, vec![("active".to_string(), format!("{}-active", U_BED_LIGHT))]);
    assert!(control_states(&structure(), "nope").is_empty());
}

#[test]
fn request_urls_and_paths() {
    assert_eq!(request_url("https://ms", "/jdev/cfg/ip"), "https://ms/jdev/cfg/ip");
    assert_eq!(request_url("https://ms", "//x"), "https://ms/x");
    assert_eq!(request_url("https://ms", "data/status"), "https://ms/data/status");
    assert_eq!(command_path("u1", "on"), "/jdev/sps/io/u1/on");
    assert_eq!(all_outputs_path("u1"), "/dev/sps/io/u1/all");
    assert_eq!(state_path("s1"), "/jdev/sps/io/s1/state");
}

#[test]
fn structure_cache() {
    assert!(cache_is_fresh(0));
    assert!(cache_is_fresh(86399));
    assert!(!cache_is_fresh(86400));
    let mut cfg = Config::default();
    cfg.data_dir = "/home/me/.lox".to_string();
    assert_eq!(LoxClient::cache_path(&cfg), "/home/me/.lox/cache/structure.json");
}

#[test]
fn qualifier_and_flag_select_alike() {
    let c = client();
    for (name, room) in [("Licht", "Küche"), ("Licht", "Schlafzimmer"), ("Jalousie", "Schlaf")] {
        let q = format!("{} [{}]", name, room);
        assert_eq!(c.resolve(&q).unwrap(), c.resolve_with_room(name, Some(room)).unwrap());
    }
}

#[test]
fn lookup_and_resolution_agree() {
    let c = client();
    for q in ["jalousie", "Schlafzimmer"] {
        let ctrl = c.find_control(q).unwrap();
        assert_eq!(c.resolve(q).unwrap(), ctrl.uuid);
    }
}

#[test]
fn filtered_listing_is_filtered_rows() {
    let all = list_controls_in(&structure(), None, None);
    for (tf, rf) in [(Some("light"), None), (None, Some("schlaf")), (Some("jalousie"), Some("zimmer")), (Some("x"), None)] {
        let filtered = list_controls_in(&structure(), tf, rf);
        let expected: Vec<String> = all.iter().filter(|c| control_passes(c, tf, rf)).map(|c| c.uuid.clone()).collect();
        let got: Vec<String> = filtered.iter().map(|c| c.uuid.clone()).collect();
        assert_eq!(got, expected);
    }
}

#[test]
fn qualifier_overrides_any_room_filter() {
    let c = client();
    for f in [None, Some("Küche"), Some("Garage")] {
        assert_eq!(c.resolve_with_room("Licht [Schlafzimmer]", f).unwrap(), U_BED_LIGHT);
    }
    assert_eq!(c.resolve_with_room("Licht", Some("Schlafzimmer")).unwrap(), U_BED_LIGHT);
}

#[test]
fn contexts_have_their_own_cache() {
    let mut a = Config::default();
    a.data_dir = "/home/me/.lox".to_string();
    let mut b = Config::default();
    b.data_dir = "/work/project/.lox".to_string();
    let c = Config::default();
    assert_ne!(LoxClient::cache_path(&a), LoxClient::cache_path(&b));
    assert_ne!(LoxClient::cache_path(&a), LoxClient::cache_path(&c));
    assert_eq!(LoxClient::cache_path(&c), "cache/structure.json");
}
