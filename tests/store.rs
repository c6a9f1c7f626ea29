use firefight::store::DataStore;
use firefight::types::{
    ActiveOccurrence, FirefightError, Occurrence, Staff, StaffPermission, StaffRank, StaffState, Vehicle,
    VehicleAssignment, VehicleCategory, VehicleState,
};

fn s(text: &str) -> String {
    text.to_string()
}

fn staff(label: &str, state: StaffState) -> Staff {
    Staff {
        internal_id: s("ignored"),
        image: s(""),
        label: s(label),
        name: s("Name"),
        national_id: s(""),
        permission: StaffPermission::Own,
        rank: StaffRank::Unknown,
        state,
    }
}

fn vehicle(label: &str, capacity: Option<u8>) -> Vehicle {
    Vehicle {
        internal_id: s("ignored"),
        capacity,
        category: VehicleCategory::FireFight,
        image: s(""),
        label: s(label),
        license_plate: None,
        state: VehicleState::Available,
    }
}

fn active(staff_ids: &[&str], vehicle_ids: &[&str], crews: &[(&str, &[&str])]) -> ActiveOccurrence {
    ActiveOccurrence {
        address: Some(s("Main street")),
        codu_number: Some(s("123")),
        creation_time: Some(42),
        description: Some(s("smoke")),
        internal_id: s("ignored"),
        location: None,
        occurrence_id: s("occ"),
        reference_point: None,
        staff_ids: staff_ids.iter().map(|x| s(x)).collect(),
        vehicle_assignment_map: crews
            .iter()
            .map(|(v, c)| VehicleAssignment { vehicle_id: s(v), staff_ids: c.iter().map(|x| s(x)).collect() })
            .collect(),
        vehicle_ids: vehicle_ids.iter().map(|x| s(x)).collect(),
        vmer_siv: Some(false),
    }
}

fn staff_state(store: &DataStore, id: &str) -> StaffState {
    store.get_staff(&s(id)).unwrap().state
}

fn vehicle_state(store: &DataStore, id: &str) -> VehicleState {
    store.get_vehicle(&s(id)).unwrap().state
}

fn store_with(staff_ids: &[&str], vehicle_ids: &[&str]) -> DataStore {
    let mut store = DataStore::new();
    for id in staff_ids {
        store.create_staff_with_id(staff("1", StaffState::Available), s(id)).unwrap();
    }
    for id in vehicle_ids {
        store.create_vehicle_with_id(vehicle("V", Some(4)), s(id)).unwrap();
    }
    store
}

#[test]
fn create_then_delete_active_occurrence_dispatches_and_releases() {
    let mut store = store_with(&["S1"], &["V1"]);
    assert_eq!(staff_state(&store, "S1"), StaffState::Available);
    assert_eq!(vehicle_state(&store, "V1"), VehicleState::Available);
    let id = store
        .create_active_occurrence_with_id(active(&["S1"], &["V1"], &[("V1", &["S1"])]), s("AO1"))
        .unwrap();
    assert_eq!(id, "AO1");
    assert_eq!(staff_state(&store, "S1"), StaffState::Dispatched);
    assert_eq!(vehicle_state(&store, "V1"), VehicleState::Dispatched);
    store.delete_active_occurrence(&s("AO1")).unwrap();
    assert_eq!(staff_state(&store, "S1"), StaffState::Available);
    assert_eq!(vehicle_state(&store, "V1"), VehicleState::Available);
    assert!(store.get_active_occurrence(&s("AO1")).is_err());
}

#[test]
fn create_active_occurrence_with_generated_id() {
    let mut store = store_with(&["S1"], &["V1"]);
    let id = store.create_active_occurrence(active(&["S1"], &["V1"], &[])).unwrap();
    assert_eq!(id.chars().count(), 36);
    let ao = store.get_active_occurrence(&id).unwrap();
    assert_eq!(ao.internal_id, id);
    assert_eq!(ao.occurrence_id, "occ");
    assert_eq!(staff_state(&store, "S1"), StaffState::Dispatched);
}

#[test]
fn delete_dispatched_staff_detaches_it() {
    let mut store = store_with(&["S1", "S2"], &["V1"]);
    store
        .create_active_occurrence_with_id(active(&["S1", "S2"], &["V1"], &[("V1", &["S2", "S1"])]), s("AO1"))
        .unwrap();
    assert_eq!(staff_state(&store, "S2"), StaffState::Dispatched);
    store.delete_staff(&s("S2")).unwrap();
    assert!(store.get_staff(&s("S2")).is_err());
    let ao = store.get_active_occurrence(&s("AO1")).unwrap();
    assert_eq!(ao.staff_ids, vec![s("S1")]);
    assert_eq!(ao.vehicle_assignment_map.len(), 1);
    assert_eq!(ao.vehicle_assignment_map[0].vehicle_id, "V1");
    assert_eq!(ao.vehicle_assignment_map[0].staff_ids, vec![s("S1")]);
    assert_eq!(ao.vehicle_ids, vec![s("V1")]);
    assert_eq!(ao.address, Some(s("Main street")));
    assert_eq!(ao.codu_number, Some(s("123")));
    assert_eq!(ao.creation_time, Some(42));
    assert_eq!(ao.description, Some(s("smoke")));
    assert_eq!(ao.occurrence_id, "occ");
    assert_eq!(ao.vmer_siv, Some(false));
    assert_eq!(staff_state(&store, "S1"), StaffState::Dispatched);
}

#[test]
fn delete_dispatched_vehicle_drops_its_crew_entry() {
    let mut store = store_with(&["S1"], &["V1", "V2"]);
    store
        .create_active_occurrence_with_id(active(&["S1"], &["V1", "V2"], &[("V1", &["S1"]), ("V2", &[])]), s("AO1"))
        .unwrap();
    store.delete_vehicle(&s("V1")).unwrap();
    let ao = store.get_active_occurrence(&s("AO1")).unwrap();
    assert_eq!(ao.vehicle_ids, vec![s("V2")]);
    assert_eq!(ao.vehicle_assignment_map.len(), 1);
    assert_eq!(ao.vehicle_assignment_map[0].vehicle_id, "V2");
    assert_eq!(ao.staff_ids, vec![s("S1")]);
}

#[test]
fn delete_available_staff_leaves_active_occurrences() {
    let mut store = store_with(&["S1", "S2"], &[]);
    store.create_active_occurrence_with_id(active(&["S1"], &[], &[]), s("AO1")).unwrap();
    store.delete_staff(&s("S2")).unwrap();
    assert_eq!(store.get_active_occurrence(&s("AO1")).unwrap().staff_ids, vec![s("S1")]);
    store.delete_staff(&s("missing")).unwrap();
}

#[test]
fn new_dispatch_takes_entities_from_older_one() {
    let mut store = store_with(&["S1", "S2"], &["V1", "V2"]);
    store
        .create_active_occurrence_with_id(active(&["S1", "S2"], &["V1", "V2"], &[("V1", &["S1"])]), s("AO1"))
        .unwrap();
    store.create_active_occurrence_with_id(active(&["S1"], &["V1"], &[]), s("AO2")).unwrap();
    let first = store.get_active_occurrence(&s("AO1")).unwrap();
    assert_eq!(first.staff_ids, vec![s("S2")]);
    assert_eq!(first.vehicle_ids, vec![s("V2")]);
    assert!(first.vehicle_assignment_map.is_empty());
    assert_eq!(store.get_active_occurrence_by_staff(&s("S1")).unwrap().internal_id, "AO2");
    assert_eq!(store.get_active_occurrence_by_staff(&s("S2")).unwrap().internal_id, "AO1");
    assert_eq!(store.get_active_occurrence_by_vehicle(&s("V1")).unwrap().internal_id, "AO2");
    for ao in store.get_active_occurrence_list() {
        let holders = store
            .get_active_occurrence_list()
            .iter()
            .filter(|other| other.staff_ids.contains(&s("S1")))
            .count();
        assert!(holders <= 1, "{} shares S1", ao.internal_id);
    }
}

#[test]
fn update_active_occurrence_releases_removed_entities() {
    let mut store = store_with(&["S1", "S2"], &["V1", "V2"]);
    store.create_active_occurrence_with_id(active(&["S1", "S2"], &["V1", "V2"], &[]), s("AO1")).unwrap();
    let previous = store.update_active_occurrence(&s("AO1"), active(&["S1"], &["V2"], &[])).unwrap().unwrap();
    assert_eq!(previous.staff_ids, vec![s("S1"), s("S2")]);
    assert_eq!(staff_state(&store, "S1"), StaffState::Dispatched);
    assert_eq!(staff_state(&store, "S2"), StaffState::Available);
    assert_eq!(vehicle_state(&store, "V1"), VehicleState::Available);
    assert_eq!(vehicle_state(&store, "V2"), VehicleState::Dispatched);
    assert_eq!(store.get_active_occurrence(&s("AO1")).unwrap().internal_id, "AO1");
}

#[test]
fn update_active_occurrence_twice_is_update_once() {
    let mut once = store_with(&["S1", "S2"], &["V1", "V2"]);
    once.create_active_occurrence_with_id(active(&["S1", "S2"], &["V1"], &[]), s("AO1")).unwrap();
    let mut twice = store_with(&["S1", "S2"], &["V1", "V2"]);
    twice.create_active_occurrence_with_id(active(&["S1", "S2"], &["V1"], &[]), s("AO1")).unwrap();
    once.update_active_occurrence(&s("AO1"), active(&["S2"], &["V2"], &[])).unwrap();
    twice.update_active_occurrence(&s("AO1"), active(&["S2"], &["V2"], &[])).unwrap();
    twice.update_active_occurrence(&s("AO1"), active(&["S2"], &["V2"], &[])).unwrap();
    for id in ["S1", "S2"] {
        assert_eq!(staff_state(&once, id), staff_state(&twice, id));
    }
    for id in ["V1", "V2"] {
        assert_eq!(vehicle_state(&once, id), vehicle_state(&twice, id));
    }
    assert_eq!(staff_state(&twice, "S1"), StaffState::Available);
    assert_eq!(vehicle_state(&twice, "V2"), VehicleState::Dispatched);
}

#[test]
fn update_missing_active_occurrence_is_not_found() {
    let mut store = store_with(&["S1"], &[]);
    let r = store.update_active_occurrence(&s("nope"), active(&["S1"], &[], &[]));
    assert_eq!(r.unwrap_err(), FirefightError::NotFound);
    assert_eq!(staff_state(&store, "S1"), StaffState::Available);
}

#[test]
fn create_active_occurrence_with_missing_staff_is_not_found() {
    let mut store = store_with(&["S1"], &["V1"]);
    let r = store.create_active_occurrence_with_id(active(&["S1", "ghost"], &["V1"], &[]), s("AO1"));
    assert_eq!(r.unwrap_err(), FirefightError::NotFound);
    assert_eq!(staff_state(&store, "S1"), StaffState::Available);
    assert!(store.get_active_occurrence_list().is_empty());
}

#[test]
fn crew_of_unlisted_vehicle_is_rejected() {
    let mut store = store_with(&["S1"], &["V1", "V2"]);
    let r = store.create_active_occurrence_with_id(active(&["S1"], &["V1"], &[("V2", &["S1"])]), s("AO1"));
    assert_eq!(r.unwrap_err(), FirefightError::ValidationError);
    let r = store.create_active_occurrence_with_id(active(&[], &["V1"], &[("V1", &["S1"])]), s("AO1"));
    assert_eq!(r.unwrap_err(), FirefightError::ValidationError);
    assert_eq!(vehicle_state(&store, "V1"), VehicleState::Available);
}

#[test]
fn taken_id_is_rejected() {
    let mut store = store_with(&["S1"], &[]);
    store.create_active_occurrence_with_id(active(&[], &[], &[]), s("AO1")).unwrap();
    let r = store.create_active_occurrence_with_id(active(&["S1"], &[], &[]), s("AO1"));
    assert_eq!(r.unwrap_err(), FirefightError::ValidationError);
    let r = store.create_staff_with_id(staff("2", StaffState::Available), s("S1"));
    assert_eq!(r.unwrap_err(), FirefightError::ValidationError);
}

#[test]
fn delete_missing_active_occurrence_is_a_no_op() {
    let mut store = store_with(&["S1"], &[]);
    assert!(store.delete_active_occurrence(&s("nope")).is_ok());
    assert_eq!(staff_state(&store, "S1"), StaffState::Available);
}

#[test]
fn new_records_cannot_start_dispatched() {
    let mut store = DataStore::new();
    let r = store.create_staff(staff("1", StaffState::Dispatched));
    assert_eq!(r.unwrap_err(), FirefightError::ValidationError);
    let mut v = vehicle("V", None);
    v.state = VehicleState::Dispatched;
    assert_eq!(store.create_vehicle(v).unwrap_err(), FirefightError::ValidationError);
    assert!(store.get_staff_list().is_empty());
}

#[test]
fn update_staff_keeps_dispatch_state_with_assignment_logic() {
    let mut store = store_with(&["S1"], &[]);
    store.create_active_occurrence_with_id(active(&["S1"], &[], &[]), s("AO1")).unwrap();
    let r = store.update_staff(&s("S1"), staff("9", StaffState::Available));
    assert_eq!(r.unwrap_err(), FirefightError::ValidationError);
    let previous = store.update_staff(&s("S1"), staff("9", StaffState::Dispatched)).unwrap().unwrap();
    assert_eq!(previous.label, "1");
    assert_eq!(store.get_staff_label(&s("S1")).unwrap(), "9");
    assert_eq!(store.get_staff(&s("S1")).unwrap().internal_id, "S1");
}

#[test]
fn update_inserts_missing_records() {
    let mut store = DataStore::new();
    let prev = store.update_vehicle(&s("V9"), vehicle("AB 1", Some(2))).unwrap();
    assert!(prev.is_none());
    assert_eq!(store.get_vehicle_capacity(&s("V9")).unwrap(), Some(2));
    assert_eq!(store.get_vehicle_label(&s("V9")).unwrap(), "AB 1");
    let occ = Occurrence { internal_id: s("x"), image: s(""), name: s("Fire") };
    assert!(store.update_occurrence(&s("O1"), occ).unwrap().is_none());
    let occ = Occurrence { internal_id: s("x"), image: s(""), name: s("Flood") };
    let prev = store.update_occurrence(&s("O1"), occ).unwrap().unwrap();
    assert_eq!(prev.name, "Fire");
    assert_eq!(store.get_occurrence_name(&s("O1")).unwrap(), "Flood");
    assert_eq!(store.get_occurrence(&s("O1")).unwrap().internal_id, "O1");
}

#[test]
fn occurrences_create_list_and_delete() {
    let mut store = DataStore::new();
    let id = store.create_occurrence(Occurrence { internal_id: s(""), image: s("i"), name: s("Fire") }).unwrap();
    assert_eq!(store.get_occurrence_list().len(), 1);
    assert_eq!(store.get_occurrence_name(&id).unwrap(), "Fire");
    store.create_active_occurrence_with_id(
        ActiveOccurrence { occurrence_id: id.clone(), ..active(&[], &[], &[]) },
        s("AO1"),
    )
    .unwrap();
    assert_eq!(store.get_active_occurrence_list_by_occurrence(&id).len(), 1);
    store.delete_occurrence(&id).unwrap();
    assert_eq!(store.get_occurrence_name(&id).unwrap_err(), FirefightError::NotFound);
    assert_eq!(store.get_active_occurrence(&s("AO1")).unwrap().occurrence_id, id);
}

#[test]
fn shift_toggles_only_available_and_unavailable() {
    let mut store = DataStore::new();
    store.create_staff_with_id(staff("1", StaffState::Available), s("A")).unwrap();
    store.create_staff_with_id(staff("2", StaffState::Unavailable), s("B")).unwrap();
    store.create_staff_with_id(staff("3", StaffState::SickLeave), s("C")).unwrap();
    store.create_staff_with_id(staff("4", StaffState::Available), s("D")).unwrap();
    store.create_active_occurrence_with_id(active(&["D"], &[], &[]), s("AO1")).unwrap();
    store.set_staff_shift(vec![s("B"), s("C")]).unwrap();
    assert_eq!(staff_state(&store, "A"), StaffState::Unavailable);
    assert_eq!(staff_state(&store, "B"), StaffState::Available);
    assert_eq!(staff_state(&store, "C"), StaffState::SickLeave);
    assert_eq!(staff_state(&store, "D"), StaffState::Dispatched);
}

#[test]
fn lookups_of_undispatched_entities_fail() {
    let store = store_with(&["S1"], &["V1"]);
    assert_eq!(store.get_active_occurrence_by_staff(&s("S1")).unwrap_err(), FirefightError::NotFound);
    assert_eq!(store.get_active_occurrence_by_vehicle(&s("V1")).unwrap_err(), FirefightError::NotFound);
    assert_eq!(store.get_staff_label(&s("none")).unwrap_err(), FirefightError::NotFound);
    assert_eq!(store.get_vehicle_capacity(&s("none")).unwrap_err(), FirefightError::NotFound);
}

#[test]
fn record_defaults() {
    assert_eq!(firefight::types::default_permission(), StaffPermission::Own);
    assert_eq!(firefight::types::default_rank(), StaffRank::Unknown);
    assert_eq!(firefight::types::default_national_id(), "");
    assert_eq!(firefight::types::default_category(), VehicleCategory::Unknown);
    assert_eq!(FirefightError::NotFound.message(), "referenced id not found");
    assert_eq!(FirefightError::StoreError.message(), "store read or write failed");
    assert_eq!(FirefightError::SynthesisError.message(), "speech synthesis failed");
    assert_eq!(FirefightError::CacheError.message(), "audio cache access failed");
}

#[test]
fn delete_staff_keeps_order_of_remaining_crew() {
    let mut store = store_with(&["S1", "S2", "S3"], &["V1"]);
    store
        .create_active_occurrence_with_id(
            active(&["S1", "S2", "S3"], &["V1"], &[("V1", &["S1", "S2", "S3"])]),
            s("AO1"),
        )
        .unwrap();
    store.delete_staff(&s("S1")).unwrap();
    let ao = store.get_active_occurrence(&s("AO1")).unwrap();
    assert_eq!(ao.staff_ids, vec![s("S2"), s("S3")]);
    assert_eq!(ao.vehicle_assignment_map[0].staff_ids, vec![s("S2"), s("S3")]);
}

#[test]
fn creations_succeed_on_a_fresh_store() {
    let mut store = DataStore::new();
    let staff_id = store.create_staff(staff("1", StaffState::Available)).unwrap();
    let vehicle_id = store.create_vehicle(vehicle("V", Some(2))).unwrap();
    let occurrence_id =
        store.create_occurrence(Occurrence { internal_id: s(""), image: s(""), name: s("Fire") }).unwrap();
    let dispatch = ActiveOccurrence { occurrence_id: occurrence_id.clone(), ..active(&[], &[], &[]) };
    let dispatch = ActiveOccurrence {
        staff_ids: vec![staff_id.clone()],
        vehicle_ids: vec![vehicle_id.clone()],
        ..dispatch
    };
    let id = store.create_active_occurrence(dispatch).unwrap();
    assert_eq!(store.get_active_occurrence(&id).unwrap().occurrence_id, occurrence_id);
    assert_eq!(staff_state(&store, &staff_id), StaffState::Dispatched);
    assert_eq!(vehicle_state(&store, &vehicle_id), VehicleState::Dispatched);
}
