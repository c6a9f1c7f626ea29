use firefight::announce::{
    announcement, cue_key, cue_text, rebuild_cues, sort_crew, sort_crews, sort_vehicles, Cue, STAFF_SPEECH, VEHICLE_SPEECH,
};
use firefight::audio::{cache_file_name, decimal_string, get_string_hash};
use firefight::order::{lex_less, number_of_label, parse_number, strip_whitespace};
use firefight::speech::Synthesizable;
use firefight::store::DataStore;
use firefight::types::{
    FirefightError, Occurrence, Staff, StaffPermission, StaffRank, StaffState, Vehicle, VehicleAssignment,
    VehicleCategory, VehicleState,
};

fn s(text: &str) -> String {
    text.to_string()
}

fn add_staff(store: &mut DataStore, id: &str, label: &str) {
    let staff = Staff {
        internal_id: s(""),
        image: s(""),
        label: s(label),
        name: s("Name"),
        national_id: s(""),
        permission: StaffPermission::All,
        rank: StaffRank::Rank1,
        state: StaffState::Available,
    };
    store.create_staff_with_id(staff, s(id)).unwrap();
}

fn add_vehicle(store: &mut DataStore, id: &str, label: &str, capacity: Option<u8>) {
    let vehicle = Vehicle {
        internal_id: s(""),
        capacity,
        category: VehicleCategory::Ambulances,
        image: s(""),
        label: s(label),
        license_plate: Some(s("AA-00-00")),
        state: VehicleState::Available,
    };
    store.create_vehicle_with_id(vehicle, s(id)).unwrap();
}

fn entry(vehicle_id: &str, crew: &[&str]) -> VehicleAssignment {
    VehicleAssignment { vehicle_id: s(vehicle_id), staff_ids: crew.iter().map(|x| s(x)).collect() }
}

#[test]
fn vehicles_sort_by_capacity_then_label() {
    let mut store = DataStore::new();
    add_vehicle(&mut store, "A", "A1", Some(4));
    add_vehicle(&mut store, "B", "C3", None);
    add_vehicle(&mut store, "C", "B2", Some(4));
    let sorted = sort_vehicles(&store, vec![entry("A", &[]), entry("B", &[]), entry("C", &[])]);
    let ids: Vec<String> = sorted.into_iter().map(|e| e.vehicle_id).collect();
    assert_eq!(ids, vec![s("A"), s("C"), s("B")]);
}

#[test]
fn vehicles_larger_capacity_first_and_label_ignores_case_and_space() {
    let mut store = DataStore::new();
    add_vehicle(&mut store, "small", "aaa", Some(2));
    add_vehicle(&mut store, "big", "zzz", Some(9));
    add_vehicle(&mut store, "x", "v b", Some(2));
    add_vehicle(&mut store, "y", "VA", Some(2));
    let sorted = sort_vehicles(
        &store,
        vec![entry("x", &[]), entry("small", &[]), entry("missing", &[]), entry("y", &[]), entry("big", &[])],
    );
    let ids: Vec<String> = sorted.into_iter().map(|e| e.vehicle_id).collect();
    assert_eq!(ids, vec![s("big"), s("small"), s("y"), s("x"), s("missing")]);
}

#[test]
fn staff_sort_numerically() {
    let mut store = DataStore::new();
    add_staff(&mut store, "s07", "07");
    add_staff(&mut store, "s2", "2");
    add_staff(&mut store, "s10", "10");
    let sorted = sort_crew(&store, vec![s("s07"), s("s2"), s("s10")]);
    let labels: Vec<String> = sorted.iter().map(|id| store.get_staff_label(id).unwrap()).collect();
    assert_eq!(labels, vec![s("2"), s("07"), s("10")]);
}

#[test]
fn staff_ties_and_unparsable_labels() {
    let mut store = DataStore::new();
    add_staff(&mut store, "b", "5");
    add_staff(&mut store, "a", "05");
    add_staff(&mut store, "c", "chief");
    add_staff(&mut store, "d", "-1");
    let sorted = sort_crew(&store, vec![s("b"), s("c"), s("a"), s("d"), s("zz")]);
    assert_eq!(sorted, vec![s("d"), s("c"), s("zz"), s("a"), s("b")]);
}

#[test]
fn crews_sorted_within_each_vehicle() {
    let mut store = DataStore::new();
    add_staff(&mut store, "s07", "07");
    add_staff(&mut store, "s2", "2");
    let crews = sort_crews(&store, vec![entry("V1", &["s07", "s2"]), entry("V2", &[])]);
    assert_eq!(crews[0].vehicle_id, "V1");
    assert_eq!(crews[0].staff_ids, vec![s("s2"), s("s07")]);
    assert!(crews[1].staff_ids.is_empty());
}

#[test]
fn announcement_order_of_cues() {
    let cues = announcement(&s("O1"), &vec![entry("V1", &["S1", "S2"]), entry("V2", &[])]);
    assert_eq!(cues.len(), 9);
    assert!(matches!(cues[0], Cue::AlertTone));
    assert!(matches!(&cues[1], Cue::Occurrence(id) if id == "O1"));
    assert!(matches!(cues[2], Cue::VehiclePhrase));
    assert!(matches!(&cues[3], Cue::Vehicle(id) if id == "V1"));
    assert!(matches!(cues[4], Cue::StaffPhrase));
    assert!(matches!(&cues[5], Cue::Staff(id) if id == "S1"));
    assert!(matches!(&cues[6], Cue::Staff(id) if id == "S2"));
    assert!(matches!(cues[7], Cue::VehiclePhrase));
    assert!(matches!(&cues[8], Cue::Vehicle(id) if id == "V2"));
}

#[test]
fn announcement_without_vehicles() {
    let cues = announcement(&s("O1"), &vec![]);
    assert_eq!(cues.len(), 2);
}

#[test]
fn cue_keys() {
    assert!(cue_key(&Cue::AlertTone).is_none());
    assert_eq!(cue_key(&Cue::Staff(s("S1"))).unwrap(), "S1");
    assert_eq!(cue_key(&Cue::VehiclePhrase).unwrap(), get_string_hash(&s(VEHICLE_SPEECH)));
    assert_eq!(cue_key(&Cue::StaffPhrase).unwrap(), get_string_hash(&s(STAFF_SPEECH)));
    assert_ne!(cue_key(&Cue::VehiclePhrase).unwrap(), cue_key(&Cue::StaffPhrase).unwrap());
}

#[test]
fn cue_texts() {
    let mut store = DataStore::new();
    add_vehicle(&mut store, "V1", " vs 1 ", Some(4));
    add_staff(&mut store, "S1", "007");
    store
        .create_occurrence_with_id(Occurrence { internal_id: s(""), image: s(""), name: s("Incêndio") }, s("O1"))
        .unwrap();
    assert!(matches!(cue_text(&store, &Cue::Vehicle(s("V1"))), Ok(Synthesizable::Vehicle(l)) if l == "vs1"));
    assert!(matches!(cue_text(&store, &Cue::Staff(s("S1"))), Ok(Synthesizable::Staff(l)) if l == "007"));
    assert!(matches!(cue_text(&store, &Cue::Occurrence(s("O1"))), Ok(Synthesizable::Occurrence(l)) if l == "Incêndio"));
    assert!(matches!(cue_text(&store, &Cue::VehiclePhrase), Ok(Synthesizable::Pattern(l)) if l == "Veículo"));
    assert!(matches!(cue_text(&store, &Cue::StaffPhrase), Ok(Synthesizable::Pattern(l)) if l == "Guarnição"));
    assert!(matches!(cue_text(&store, &Cue::Staff(s("none"))), Err(FirefightError::NotFound)));
    assert!(matches!(cue_text(&store, &Cue::AlertTone), Err(FirefightError::ValidationError)));
}

#[test]
fn label_numbers() {
    assert_eq!(parse_number("07"), Some(7));
    assert_eq!(parse_number("-5"), Some(-5));
    assert_eq!(parse_number("+3"), Some(3));
    assert_eq!(parse_number("2147483647"), Some(i32::MAX));
    assert_eq!(parse_number("-2147483648"), Some(i32::MIN));
    assert_eq!(parse_number("2147483648"), None);
    assert_eq!(parse_number("99999999999999999999"), None);
    assert_eq!(parse_number(""), None);
    assert_eq!(parse_number("+"), None);
    assert_eq!(parse_number("1a"), None);
    assert_eq!(number_of_label("abc"), 0);
    assert_eq!(number_of_label("12"), 12);
}

#[test]
fn lexicographic_order() {
    assert!(lex_less("a", "b"));
    assert!(lex_less("ab", "abc"));
    assert!(!lex_less("abc", "ab"));
    assert!(!lex_less("x", "x"));
    assert!(lex_less("", "a"));
    assert!(lex_less("Z", "a"));
}

#[test]
fn whitespace_removed() {
    assert_eq!(strip_whitespace(" a b\tc\n"), "abc");
    assert_eq!(strip_whitespace("\u{3000}x\u{a0}"), "x");
    assert_eq!(strip_whitespace(""), "");
}

#[test]
fn string_hash_is_stable_decimal() {
    let a = get_string_hash(&s("Veículo"));
    let b = get_string_hash(&s("Veículo"));
    assert_eq!(a, b);
    assert!(!a.is_empty());
    assert!(a.chars().all(|c| c.is_ascii_digit()));
    assert_ne!(a, "Veículo");
    assert_ne!(a, get_string_hash(&s("Guarnição")));
    assert_eq!(a.parse::<u64>().unwrap().to_string(), a);
}

#[test]
fn decimal_rendering() {
    assert_eq!(decimal_string(0), "0");
    assert_eq!(decimal_string(7), "7");
    assert_eq!(decimal_string(1234567890), "1234567890");
    assert_eq!(decimal_string(u64::MAX), "18446744073709551615");
}

#[test]
fn cache_file_names() {
    assert_eq!(cache_file_name(&s("abc")), "abc.ogg");
}

#[test]
fn rebuild_lists_phrases_then_every_record() {
    let mut store = DataStore::new();
    store.create_occurrence_with_id(Occurrence { internal_id: s(""), image: s(""), name: s("Fire") }, s("O1")).unwrap();
    add_vehicle(&mut store, "V1", "AB", None);
    add_staff(&mut store, "S1", "1");
    add_staff(&mut store, "S2", "2");
    let cues = rebuild_cues(&store);
    assert_eq!(cues.len(), 6);
    assert!(matches!(cues[0], Cue::VehiclePhrase));
    assert!(matches!(cues[1], Cue::StaffPhrase));
    assert!(matches!(&cues[2], Cue::Occurrence(id) if id == "O1"));
    assert!(matches!(&cues[3], Cue::Vehicle(id) if id == "V1"));
    assert!(matches!(&cues[4], Cue::Staff(id) if id == "S1"));
    assert!(matches!(&cues[5], Cue::Staff(id) if id == "S2"));
}
