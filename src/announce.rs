use vstd::prelude::*;

use crate::audio::{decimal_of, get_string_hash, string_hash_of};
use crate::order::{
    label_number, lemma_permutation_map, lemma_seq_lt_order, lex_less, no_space, number_of_label,
    seq_lt, sort_ranked, strip_whitespace, Ranked,
};
use crate::speech::{upper_of, uppercase, Synthesizable};
use crate::store::{DataStore, StoreView};
use crate::types::{FirefightError, Occurrence, Staff, Vehicle, VehicleAssignment};

verus! {

/// The word that introduces each vehicle of an announcement ("vehicle").
pub const VEHICLE_SPEECH: &'static str = "Veículo";

/// The word that introduces the crew of a vehicle ("crew").
pub const STAFF_SPEECH: &'static str = "Guarnição";

/// The number a staff member's label stands for; 0 for a missing staff member.
pub open spec fn staff_number(m: StoreView, id: Seq<char>) -> int {
    if m.staff.contains_key(id) {
        label_number(m.staff[id].label@)
    } else {
        0
    }
}

/// Staff member `a` is announced before `b`: a smaller label number first, then the smaller id.
pub open spec fn crew_before(m: StoreView, a: Seq<char>, b: Seq<char>) -> bool {
    staff_number(m, a) < staff_number(m, b) || (staff_number(m, a) == staff_number(m, b) && seq_lt(a, b))
}

/// The capacity of a vehicle; unknown for a missing vehicle.
pub open spec fn vehicle_capacity(m: StoreView, id: Seq<char>) -> Option<u8> {
    if m.vehicles.contains_key(id) {
        m.vehicles[id].capacity
    } else {
        None
    }
}

/// The label a vehicle is ordered by: upper case, without whitespace; empty for a missing one.
pub open spec fn vehicle_label_key(m: StoreView, id: Seq<char>) -> Seq<char> {
    no_space(upper_of(if m.vehicles.contains_key(id) { m.vehicles[id].label@ } else { Seq::empty() }))
}

/// Capacity `a` is announced before capacity `b`: known before unknown, larger first.
pub open spec fn capacity_before(a: Option<u8>, b: Option<u8>) -> bool {
    match (a, b) {
        (Some(x), Some(y)) => x > y,
        (Some(_), None) => true,
        _ => false,
    }
}

/// The rule that orders two vehicles: by capacity, then by label key.
pub open spec fn ranks_before(ca: Option<u8>, la: Seq<char>, cb: Option<u8>, lb: Seq<char>) -> bool {
    capacity_before(ca, cb) || (ca == cb && seq_lt(la, lb))
}

/// Vehicle `a` is announced before vehicle `b`.
pub open spec fn vehicle_before(m: StoreView, a: Seq<char>, b: Seq<char>) -> bool {
    ranks_before(vehicle_capacity(m, a), vehicle_label_key(m, a), vehicle_capacity(m, b), vehicle_label_key(m, b))
}

/// A staff id with the number it is ordered by.
pub struct CrewKey {
    pub number: i32,
    pub id: String,
}

impl Ranked for CrewKey {
    open spec fn before(&self, other: &Self) -> bool {
        self.number < other.number || (self.number == other.number && seq_lt(self.id@, other.id@))
    }

    fn is_before(&self, other: &Self) -> (r: bool) {
        self.number < other.number || (self.number == other.number && lex_less(self.id.as_str(), other.id.as_str()))
    }

    proof fn lemma_order(a: &Self, b: &Self, c: &Self) {
        lemma_seq_lt_order(a.id@, b.id@, c.id@);
    }
}

/// A crew entry with the capacity and label key its vehicle is ordered by.
pub struct VehicleKey {
    pub capacity: Option<u8>,
    pub label: String,
    pub entry: VehicleAssignment,
}

impl Ranked for VehicleKey {
    open spec fn before(&self, other: &Self) -> bool {
        ranks_before(self.capacity, self.label@, other.capacity, other.label@)
    }

    fn is_before(&self, other: &Self) -> (r: bool) {
        match (self.capacity, other.capacity) {
            (Some(x), Some(y)) => x > y || (x == y && lex_less(self.label.as_str(), other.label.as_str())),
            (Some(_), None) => true,
            (None, Some(_)) => false,
            (None, None) => lex_less(self.label.as_str(), other.label.as_str()),
        }
    }

    proof fn lemma_order(a: &Self, b: &Self, c: &Self) {
        lemma_seq_lt_order(a.label@, b.label@, c.label@);
    }
}

/// The ids of the keys.
pub open spec fn crew_ids(s: Seq<CrewKey>) -> Seq<String> {
    s.map_values(|k: CrewKey| k.id)
}

/// The number that staff member `id` is ordered by.
fn crew_number(store: &DataStore, id: &String) -> (r: i32)
    requires
        store.wf(),
    ensures
        r as int == staff_number(store@, id@),
{
    match store.get_staff_label(id) {
        Ok(label) => number_of_label(label.as_str()),
        Err(_) => 0,
    }
}

/// The staff ids in announcement order: ascending label number, ties by id.
pub fn sort_crew(store: &DataStore, staff_ids: Vec<String>) -> (r: Vec<String>)
    requires
        store.wf(),
    ensures
        r@.to_multiset() == staff_ids@.to_multiset(),
        r@.len() == staff_ids@.len(),
        forall|i: int, j: int| 0 <= i < j < r@.len() ==> !crew_before(store@, #[trigger] r@[j]@, #[trigger] r@[i]@),
{
    let ghost m = store@;
    let ghost orig = staff_ids@;
    let mut rest = staff_ids;
    let mut keys: Vec<CrewKey> = Vec::new();
    while rest.len() > 0
        invariant
            store.wf(),
            m == store@,
            keys@.len() + rest@.len() == orig.len(),
            rest@ == orig.subrange(keys@.len() as int, orig.len() as int),
            crew_ids(keys@) == orig.subrange(0, keys@.len() as int),
            forall|i: int| 0 <= i < keys@.len() ==> (#[trigger] keys@[i]).number as int == staff_number(m, keys@[i].id@),
        decreases rest@.len(),
    {
        let ghost before_rest = rest@;
        let id = rest.remove(0);
        assert(id == before_rest[0]);
        assert(id == orig[keys@.len() as int]);
        let number = crew_number(store, &id);
        let ghost before = keys@;
        keys.push(CrewKey { number, id });
        assert(keys@[before.len() as int].id == orig[before.len() as int]);
        assert(crew_ids(keys@) =~= crew_ids(before).push(orig[before.len() as int]));
        assert(orig.subrange(0, keys@.len() as int) =~= orig.subrange(0, before.len() as int).push(orig[before.len() as int]));
        assert(rest@ =~= orig.subrange(keys@.len() as int, orig.len() as int));
    }
    assert(orig.subrange(0, orig.len() as int) =~= orig);
    let ghost unsorted = keys@;
    let sorted = sort_ranked(keys);
    proof {
        lemma_permutation_map(sorted@, unsorted, |k: CrewKey| k.id);
        assert forall|i: int| 0 <= i < sorted@.len() implies (#[trigger] sorted@[i]).number as int == staff_number(
            m,
            sorted@[i].id@,
        ) by {
            assert(sorted@.to_multiset().count(sorted@[i]) > 0) by {
                broadcast use vstd::seq_lib::group_to_multiset_ensures;

                assert(sorted@.contains(sorted@[i]));
            }
            assert(unsorted.contains(sorted@[i])) by {
                broadcast use vstd::seq_lib::group_to_multiset_ensures;

            }
        }
    }
    let mut out: Vec<String> = Vec::new();
    let mut left = sorted;
    let ghost all = left@;
    while left.len() > 0
        invariant
            out@.len() + left@.len() == all.len(),
            left@ == all.subrange(out@.len() as int, all.len() as int),
            out@ == crew_ids(all.subrange(0, out@.len() as int)),
        decreases left@.len(),
    {
        let k = left.remove(0);
        assert(k == all[out@.len() as int]);
        let ghost before = out@;
        out.push(k.id);
        assert(all.subrange(0, out@.len() as int) =~= all.subrange(0, before.len() as int).push(all[before.len() as int]));
        assert(out@ =~= crew_ids(all.subrange(0, out@.len() as int)));
        assert(left@ =~= all.subrange(out@.len() as int, all.len() as int));
    }
    assert(all.subrange(0, all.len() as int) =~= all);
    proof {
        assert forall|i: int, j: int| 0 <= i < j < out@.len() implies !crew_before(m, #[trigger] out@[j]@, #[trigger] out@[i]@) by {
            assert(out@[i] == all[i].id && out@[j] == all[j].id);
            assert(!all[j].before(&all[i]));
        }
    }
    out
}

/// The entries of the keys.
pub open spec fn key_entries(s: Seq<VehicleKey>) -> Seq<VehicleAssignment> {
    s.map_values(|k: VehicleKey| k.entry)
}

/// The capacity that vehicle `id` is ordered by.
fn capacity_of(store: &DataStore, id: &String) -> (r: Option<u8>)
    requires
        store.wf(),
    ensures
        r == vehicle_capacity(store@, id@),
{
    match store.get_vehicle_capacity(id) {
        Ok(c) => c,
        Err(_) => None,
    }
}

/// The label key that vehicle `id` is ordered by.
fn label_key_of(store: &DataStore, id: &String) -> (r: String)
    requires
        store.wf(),
    ensures
        r@ == vehicle_label_key(store@, id@),
{
    let label = match store.get_vehicle_label(id) {
        Ok(l) => l,
        Err(_) => String::new(),
    };
    let upper = uppercase(label.as_str());
    strip_whitespace(upper.as_str())
}

/// The crew entries in announcement order: vehicles of known capacity first, larger capacity
/// first, ties by label key.
pub fn sort_vehicles(store: &DataStore, entries: Vec<VehicleAssignment>) -> (r: Vec<VehicleAssignment>)
    requires
        store.wf(),
    ensures
        r@.to_multiset() == entries@.to_multiset(),
        r@.len() == entries@.len(),
        forall|i: int, j: int|
            0 <= i < j < r@.len() ==> !vehicle_before(store@, #[trigger] r@[j].vehicle_id@, #[trigger] r@[i].vehicle_id@),
{
    let ghost m = store@;
    let ghost orig = entries@;
    let mut rest = entries;
    let mut keys: Vec<VehicleKey> = Vec::new();
    while rest.len() > 0
        invariant
            store.wf(),
            m == store@,
            keys@.len() + rest@.len() == orig.len(),
            rest@ == orig.subrange(keys@.len() as int, orig.len() as int),
            key_entries(keys@) == orig.subrange(0, keys@.len() as int),
            forall|i: int| 0 <= i < keys@.len() ==> {
                &&& (#[trigger] keys@[i]).capacity == vehicle_capacity(m, keys@[i].entry.vehicle_id@)
                &&& keys@[i].label@ == vehicle_label_key(m, keys@[i].entry.vehicle_id@)
            },
        decreases rest@.len(),
    {
        let entry = rest.remove(0);
        assert(entry == orig[keys@.len() as int]);
        let capacity = capacity_of(store, &entry.vehicle_id);
        let label = label_key_of(store, &entry.vehicle_id);
        let ghost before = keys@;
        keys.push(VehicleKey { capacity, label, entry });
        assert(key_entries(keys@) =~= key_entries(before).push(orig[before.len() as int]));
        assert(orig.subrange(0, keys@.len() as int) =~= orig.subrange(0, before.len() as int).push(orig[before.len() as int]));
        assert(rest@ =~= orig.subrange(keys@.len() as int, orig.len() as int));
    }
    assert(orig.subrange(0, orig.len() as int) =~= orig);
    let ghost unsorted = keys@;
    let sorted = sort_ranked(keys);
    proof {
        lemma_permutation_map(sorted@, unsorted, |k: VehicleKey| k.entry);
        assert forall|i: int| 0 <= i < sorted@.len() implies {
            &&& (#[trigger] sorted@[i]).capacity == vehicle_capacity(m, sorted@[i].entry.vehicle_id@)
            &&& sorted@[i].label@ == vehicle_label_key(m, sorted@[i].entry.vehicle_id@)
        } by {
            assert(sorted@.to_multiset().count(sorted@[i]) > 0) by {
                broadcast use vstd::seq_lib::group_to_multiset_ensures;

                assert(sorted@.contains(sorted@[i]));
            }
            assert(unsorted.contains(sorted@[i])) by {
                broadcast use vstd::seq_lib::group_to_multiset_ensures;

            }
        }
    }
    let mut out: Vec<VehicleAssignment> = Vec::new();
    let mut left = sorted;
    let ghost all = left@;
    while left.len() > 0
        invariant
            out@.len() + left@.len() == all.len(),
            left@ == all.subrange(out@.len() as int, all.len() as int),
            out@ == key_entries(all.subrange(0, out@.len() as int)),
        decreases left@.len(),
    {
        let k = left.remove(0);
        assert(k == all[out@.len() as int]);
        let ghost before = out@;
        out.push(k.entry);
        assert(all.subrange(0, out@.len() as int) =~= all.subrange(0, before.len() as int).push(all[before.len() as int]));
        assert(out@ =~= key_entries(all.subrange(0, out@.len() as int)));
        assert(left@ =~= all.subrange(out@.len() as int, all.len() as int));
    }
    assert(all.subrange(0, all.len() as int) =~= all);
    proof {
        assert forall|i: int, j: int| 0 <= i < j < out@.len() implies !vehicle_before(
            m,
            #[trigger] out@[j].vehicle_id@,
            #[trigger] out@[i].vehicle_id@,
        ) by {
            assert(out@[i] == all[i].entry && out@[j] == all[j].entry);
            assert(!all[j].before(&all[i]));
        }
    }
    out
}

/// Every crew, in announcement order; the entries keep their order and vehicles.
pub fn sort_crews(store: &DataStore, entries: Vec<VehicleAssignment>) -> (r: Vec<VehicleAssignment>)
    requires
        store.wf(),
    ensures
        r@.len() == entries@.len(),
        forall|i: int| 0 <= i < r@.len() ==> {
            &&& (#[trigger] r@[i]).vehicle_id == entries@[i].vehicle_id
            &&& r@[i].staff_ids@.to_multiset() == entries@[i].staff_ids@.to_multiset()
            &&& forall|a: int, b: int|
                0 <= a < b < r@[i].staff_ids@.len() ==> !crew_before(
                    store@,
                    #[trigger] r@[i].staff_ids@[b]@,
                    #[trigger] r@[i].staff_ids@[a]@,
                )
        },
{
    let ghost orig = entries@;
    let mut rest = entries;
    let mut out: Vec<VehicleAssignment> = Vec::new();
    while rest.len() > 0
        invariant
            store.wf(),
            out@.len() + rest@.len() == orig.len(),
            rest@ == orig.subrange(out@.len() as int, orig.len() as int),
            forall|i: int| 0 <= i < out@.len() ==> {
                &&& (#[trigger] out@[i]).vehicle_id == orig[i].vehicle_id
                &&& out@[i].staff_ids@.to_multiset() == orig[i].staff_ids@.to_multiset()
                &&& forall|a: int, b: int|
                    0 <= a < b < out@[i].staff_ids@.len() ==> !crew_before(
                        store@,
                        #[trigger] out@[i].staff_ids@[b]@,
                        #[trigger] out@[i].staff_ids@[a]@,
                    )
            },
        decreases rest@.len(),
    {
        let entry = rest.remove(0);
        assert(entry == orig[out@.len() as int]);
        let VehicleAssignment { vehicle_id, staff_ids } = entry;
        let crew = sort_crew(store, staff_ids);
        out.push(VehicleAssignment { vehicle_id, staff_ids: crew });
        assert(rest@ =~= orig.subrange(out@.len() as int, orig.len() as int));
    }
    out
}

/// One spoken part of an announcement.
pub enum Cue {
    /// The alert tone that opens every announcement.
    AlertTone,
    /// The occurrence with this id.
    Occurrence(String),
    /// The word that introduces a vehicle.
    VehiclePhrase,
    /// The vehicle with this id.
    Vehicle(String),
    /// The word that introduces a crew.
    StaffPhrase,
    /// The staff member with this id.
    Staff(String),
}

/// The cues of one crew entry: the vehicle, then its crew if it has one.
pub open spec fn entry_cues(e: VehicleAssignment) -> Seq<Cue> {
    seq![Cue::VehiclePhrase, Cue::Vehicle(e.vehicle_id)] + if e.staff_ids@.len() > 0 {
        seq![Cue::StaffPhrase] + e.staff_ids@.map_values(|s: String| Cue::Staff(s))
    } else {
        Seq::empty()
    }
}

pub open spec fn entries_cues(es: Seq<VehicleAssignment>) -> Seq<Cue>
    decreases es.len(),
{
    if es.len() == 0 {
        Seq::empty()
    } else {
        entries_cues(es.drop_last()) + entry_cues(es.last())
    }
}

/// The cues of an announcement: the alert tone, the occurrence, then each crew entry in order.
pub open spec fn announcement_cues(occurrence_id: String, es: Seq<VehicleAssignment>) -> Seq<Cue> {
    seq![Cue::AlertTone, Cue::Occurrence(occurrence_id)] + entries_cues(es)
}

/// The cues of an announcement for the crew entries, which are played in the order given.
pub fn announcement(occurrence_id: &String, entries: &Vec<VehicleAssignment>) -> (r: Vec<Cue>)
    ensures
        r@ == announcement_cues(*occurrence_id, entries@),
{
    let mut out: Vec<Cue> = Vec::new();
    out.push(Cue::AlertTone);
    out.push(Cue::Occurrence(occurrence_id.clone()));
    let ghost head = out@;
    let mut i: usize = 0;
    assert(entries@.subrange(0, 0) =~= Seq::<VehicleAssignment>::empty());
    assert(out@ =~= head + entries_cues(entries@.subrange(0, 0)));
    while i < entries.len()
        invariant
            i <= entries@.len(),
            head == seq![Cue::AlertTone, Cue::Occurrence(*occurrence_id)],
            out@ == head + entries_cues(entries@.subrange(0, i as int)),
        decreases entries@.len() - i,
    {
        let e = &entries[i];
        let ghost start = out@;
        out.push(Cue::VehiclePhrase);
        out.push(Cue::Vehicle(e.vehicle_id.clone()));
        if e.staff_ids.len() > 0 {
            out.push(Cue::StaffPhrase);
            let ghost crew_start = out@;
            let mut j: usize = 0;
            assert(out@ =~= crew_start + e.staff_ids@.subrange(0, 0).map_values(|s: String| Cue::Staff(s)));
            while j < e.staff_ids.len()
                invariant
                    j <= e.staff_ids@.len(),
                    out@ == crew_start + e.staff_ids@.subrange(0, j as int).map_values(|s: String| Cue::Staff(s)),
                decreases e.staff_ids@.len() - j,
            {
                out.push(Cue::Staff(e.staff_ids[j].clone()));
                assert(out@ =~= crew_start + e.staff_ids@.subrange(0, j as int + 1).map_values(|s: String| Cue::Staff(s)));
                j = j + 1;
            }
            assert(e.staff_ids@.subrange(0, e.staff_ids@.len() as int) =~= e.staff_ids@);
        }
        proof {
            let next = entries@.subrange(0, i as int + 1);
            assert(next.drop_last() =~= entries@.subrange(0, i as int));
            assert(next.last() == *e);
            assert(out@ =~= start + entry_cues(*e));
        }
        assert(out@ =~= head + entries_cues(entries@.subrange(0, i as int + 1)));
        i = i + 1;
    }
    assert(entries@.subrange(0, entries@.len() as int) =~= entries@);
    out
}

/// The cache key of a cue: the id of the record it names, or the hash of the fixed phrase;
/// none for the alert tone, which is a bundled recording.
pub open spec fn cue_key_of(c: Cue) -> Option<Seq<char>> {
    match c {
        Cue::AlertTone => None,
        Cue::Occurrence(id) => Some(id@),
        Cue::VehiclePhrase => Some(decimal_of(string_hash_of(VEHICLE_SPEECH@) as nat)),
        Cue::Vehicle(id) => Some(id@),
        Cue::StaffPhrase => Some(decimal_of(string_hash_of(STAFF_SPEECH@) as nat)),
        Cue::Staff(id) => Some(id@),
    }
}

/// The key under which the audio of a cue is cached.
pub fn cue_key(cue: &Cue) -> (r: Option<String>)
    ensures
        r matches Some(k) ==> cue_key_of(*cue) == Some(k@),
        r is None ==> cue_key_of(*cue) is None,
{
    match cue {
        Cue::AlertTone => None,
        Cue::Occurrence(id) => Some(id.clone()),
        Cue::VehiclePhrase => Some(get_string_hash(&String::from_str(VEHICLE_SPEECH))),
        Cue::Vehicle(id) => Some(id.clone()),
        Cue::StaffPhrase => Some(get_string_hash(&String::from_str(STAFF_SPEECH))),
        Cue::Staff(id) => Some(id.clone()),
    }
}

/// `t` is the text spoken for cue `c` of a store with content `m`.
pub open spec fn cue_text_is(m: StoreView, c: Cue, t: Synthesizable) -> bool {
    match c {
        Cue::AlertTone => false,
        Cue::Occurrence(id) => m.occurrences.contains_key(id@) && (t matches Synthesizable::Occurrence(name)
            && name@ == m.occurrences[id@].name@),
        Cue::VehiclePhrase => t matches Synthesizable::Pattern(p) && p@ == VEHICLE_SPEECH@,
        Cue::Vehicle(id) => m.vehicles.contains_key(id@) && (t matches Synthesizable::Vehicle(label)
            && label@ == no_space(m.vehicles[id@].label@)),
        Cue::StaffPhrase => t matches Synthesizable::Pattern(p) && p@ == STAFF_SPEECH@,
        Cue::Staff(id) => m.staff.contains_key(id@) && (t matches Synthesizable::Staff(label)
            && label@ == m.staff[id@].label@),
    }
}

/// The record that cue `c` names is missing from a store with content `m`.
pub open spec fn cue_missing(m: StoreView, c: Cue) -> bool {
    match c {
        Cue::Occurrence(id) => !m.occurrences.contains_key(id@),
        Cue::Vehicle(id) => !m.vehicles.contains_key(id@),
        Cue::Staff(id) => !m.staff.contains_key(id@),
        _ => false,
    }
}

/// The text to synthesise for a cue: the occurrence name, the vehicle label without whitespace,
/// the staff label, or the fixed phrase. The alert tone has no text.
pub fn cue_text(store: &DataStore, cue: &Cue) -> (r: Result<Synthesizable, FirefightError>)
    requires
        store.wf(),
    ensures
        match r {
            Ok(t) => cue_text_is(store@, *cue, t),
            Err(e) => if cue is AlertTone {
                e == FirefightError::ValidationError
            } else {
                e == FirefightError::NotFound && cue_missing(store@, *cue)
            },
        },
{
    match cue {
        Cue::AlertTone => Err(FirefightError::ValidationError),
        Cue::Occurrence(id) => match store.get_occurrence_name(id) {
            Ok(name) => Ok(Synthesizable::Occurrence(name)),
            Err(e) => Err(e),
        },
        Cue::VehiclePhrase => Ok(Synthesizable::Pattern(String::from_str(VEHICLE_SPEECH))),
        Cue::Vehicle(id) => match store.get_vehicle_label(id) {
            Ok(label) => Ok(Synthesizable::Vehicle(strip_whitespace(label.as_str()))),
            Err(e) => Err(e),
        },
        Cue::StaffPhrase => Ok(Synthesizable::Pattern(String::from_str(STAFF_SPEECH))),
        Cue::Staff(id) => match store.get_staff_label(id) {
            Ok(label) => Ok(Synthesizable::Staff(label)),
            Err(e) => Err(e),
        },
    }
}

/// The cues that a rebuilt cache holds: the two fixed phrases, then every occurrence, vehicle
/// and staff member of the store, in table order.
pub open spec fn rebuild_cues_of(
    occurrences: Seq<Occurrence>,
    vehicles: Seq<Vehicle>,
    staff: Seq<Staff>,
) -> Seq<Cue> {
    seq![Cue::VehiclePhrase, Cue::StaffPhrase] + occurrences.map_values(|o: Occurrence| Cue::Occurrence(o.internal_id))
        + vehicles.map_values(|v: Vehicle| Cue::Vehicle(v.internal_id)) + staff.map_values(
        |s: Staff| Cue::Staff(s.internal_id),
    )
}

/// The cues to synthesise when the audio cache is rebuilt from scratch.
pub fn rebuild_cues(store: &DataStore) -> (r: Vec<Cue>)
    ensures
        r@ == rebuild_cues_of(store.occurrences.entries@, store.vehicles.entries@, store.staff.entries@),
{
    let mut out: Vec<Cue> = Vec::new();
    out.push(Cue::VehiclePhrase);
    out.push(Cue::StaffPhrase);
    let ghost head = out@;
    let os = &store.occurrences.entries;
    let mut i: usize = 0;
    while i < os.len()
        invariant
            i <= os@.len(),
            out@ == head + os@.subrange(0, i as int).map_values(|o: Occurrence| Cue::Occurrence(o.internal_id)),
        decreases os@.len() - i,
    {
        out.push(Cue::Occurrence(os[i].internal_id.clone()));
        assert(out@ =~= head + os@.subrange(0, i as int + 1).map_values(|o: Occurrence| Cue::Occurrence(o.internal_id)));
        i = i + 1;
    }
    assert(os@.subrange(0, os@.len() as int) =~= os@);
    let ghost with_occurrences = out@;
    let vs = &store.vehicles.entries;
    let mut j: usize = 0;
    while j < vs.len()
        invariant
            j <= vs@.len(),
            out@ == with_occurrences + vs@.subrange(0, j as int).map_values(|v: Vehicle| Cue::Vehicle(v.internal_id)),
        decreases vs@.len() - j,
    {
        out.push(Cue::Vehicle(vs[j].internal_id.clone()));
        assert(out@ =~= with_occurrences + vs@.subrange(0, j as int + 1).map_values(|v: Vehicle| Cue::Vehicle(v.internal_id)));
        j = j + 1;
    }
    assert(vs@.subrange(0, vs@.len() as int) =~= vs@);
    let ghost with_vehicles = out@;
    let ss = &store.staff.entries;
    let mut k: usize = 0;
    while k < ss.len()
        invariant
            k <= ss@.len(),
            out@ == with_vehicles + ss@.subrange(0, k as int).map_values(|s: Staff| Cue::Staff(s.internal_id)),
        decreases ss@.len() - k,
    {
        out.push(Cue::Staff(ss[k].internal_id.clone()));
        assert(out@ =~= with_vehicles + ss@.subrange(0, k as int + 1).map_values(|s: Staff| Cue::Staff(s.internal_id)));
        k = k + 1;
    }
    assert(ss@.subrange(0, ss@.len() as int) =~= ss@);
    assert(out@ =~= rebuild_cues_of(os@, vs@, ss@));
    out
}

} // verus!
