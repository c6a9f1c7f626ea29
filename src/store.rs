use vstd::prelude::*;

use crate::ids::{contains_id, drop_references, drop_references_from, lemma_push_contains};
use crate::table::{
    index_of, key_map, lemma_key_map_index, lemma_key_map_pointwise, lemma_key_map_update, unique_keys, Keyed, Table,
};
use crate::types::{
    ids_view, ActiveOccurrence, ActiveOccurrenceView, AssignmentView, FirefightError, Occurrence, Staff, StaffState,
    Vehicle, VehicleState,
};

verus! {

/// The four collections of the application, each keyed by the records' own ids.
pub struct DataStore {
    pub active_occurrences: Table<ActiveOccurrence>,
    pub occurrences: Table<Occurrence>,
    pub staff: Table<Staff>,
    pub vehicles: Table<Vehicle>,
}

/// The abstract content of a store: one map per collection.
pub struct StoreView {
    pub active: Map<Seq<char>, ActiveOccurrenceView>,
    pub occurrences: Map<Seq<char>, Occurrence>,
    pub staff: Map<Seq<char>, Staff>,
    pub vehicles: Map<Seq<char>, Vehicle>,
}

pub open spec fn active_views(m: Map<Seq<char>, ActiveOccurrence>) -> Map<Seq<char>, ActiveOccurrenceView> {
    Map::new(|k: Seq<char>| m.contains_key(k), |k: Seq<char>| m[k]@)
}

impl View for DataStore {
    type V = StoreView;

    open spec fn view(&self) -> StoreView {
        StoreView {
            active: active_views(self.active_occurrences.view()),
            occurrences: self.occurrences.view(),
            staff: self.staff.view(),
            vehicles: self.vehicles.view(),
        }
    }
}

/// Some active occurrence lists staff member `k`.
pub open spec fn staff_referenced(m: StoreView, k: Seq<char>) -> bool {
    exists|a: Seq<char>| m.active.contains_key(a) && #[trigger] m.active[a].staff_ids.contains(k)
}

/// Some active occurrence lists vehicle `k`.
pub open spec fn vehicle_referenced(m: StoreView, k: Seq<char>) -> bool {
    exists|a: Seq<char>| m.active.contains_key(a) && #[trigger] m.active[a].vehicle_ids.contains(k)
}

/// No staff member and no vehicle is listed by two different active occurrences.
pub open spec fn exclusive_assignment(m: StoreView) -> bool {
    &&& forall|a: Seq<char>, b: Seq<char>, k: Seq<char>|
        m.active.contains_key(a) && m.active.contains_key(b) && a != b
            && #[trigger] m.active[a].staff_ids.contains(k) ==> !#[trigger] m.active[b].staff_ids.contains(k)
    &&& forall|a: Seq<char>, b: Seq<char>, k: Seq<char>|
        m.active.contains_key(a) && m.active.contains_key(b) && a != b
            && #[trigger] m.active[a].vehicle_ids.contains(k) ==> !#[trigger] m.active[b].vehicle_ids.contains(k)
}

/// Every id that an active occurrence lists names a present, dispatched record, and every
/// dispatched record is listed by some active occurrence.
pub open spec fn states_agree(m: StoreView) -> bool {
    &&& forall|a: Seq<char>, k: Seq<char>|
        m.active.contains_key(a) && #[trigger] m.active[a].staff_ids.contains(k)
            ==> m.staff.contains_key(k) && m.staff[k].state == StaffState::Dispatched
    &&& forall|a: Seq<char>, k: Seq<char>|
        m.active.contains_key(a) && #[trigger] m.active[a].vehicle_ids.contains(k)
            ==> m.vehicles.contains_key(k) && m.vehicles[k].state == VehicleState::Dispatched
    &&& forall|k: Seq<char>|
        #[trigger] m.staff.contains_key(k) && m.staff[k].state == StaffState::Dispatched
            ==> staff_referenced(m, k)
    &&& forall|k: Seq<char>|
        #[trigger] m.vehicles.contains_key(k) && m.vehicles[k].state == VehicleState::Dispatched
            ==> vehicle_referenced(m, k)
}

/// The consistency rules of the store.
pub open spec fn consistent(m: StoreView) -> bool {
    exclusive_assignment(m) && states_agree(m)
}

/// `m` with the staff of `ids` (those present) put in state `st`.
pub open spec fn with_staff_state(
    m: Map<Seq<char>, Staff>,
    ids: Seq<Seq<char>>,
    st: StaffState,
) -> Map<Seq<char>, Staff> {
    Map::new(
        |k: Seq<char>| m.contains_key(k),
        |k: Seq<char>| if ids.contains(k) { Staff { state: st, ..m[k] } } else { m[k] },
    )
}

/// `m` with the vehicles of `ids` (those present) put in state `st`.
pub open spec fn with_vehicle_state(
    m: Map<Seq<char>, Vehicle>,
    ids: Seq<Seq<char>>,
    st: VehicleState,
) -> Map<Seq<char>, Vehicle> {
    Map::new(
        |k: Seq<char>| m.contains_key(k),
        |k: Seq<char>| if ids.contains(k) { Vehicle { state: st, ..m[k] } } else { m[k] },
    )
}

/// Every active occurrence of `m` without references to the staff of `sd` and vehicles of `vd`.
pub open spec fn drop_references_all(
    m: Map<Seq<char>, ActiveOccurrenceView>,
    sd: Seq<Seq<char>>,
    vd: Seq<Seq<char>>,
) -> Map<Seq<char>, ActiveOccurrenceView> {
    Map::new(|k: Seq<char>| m.contains_key(k), |k: Seq<char>| drop_references(m[k], sd, vd))
}

/// The state a shift sets: staff that are available or unavailable become available when
/// listed and unavailable when not; other states are kept.
pub open spec fn shift_state(s: Staff, available: Seq<Seq<char>>) -> Staff {
    if s.state == StaffState::Available || s.state == StaffState::Unavailable {
        Staff {
            state: if available.contains(s.internal_id@) {
                StaffState::Available
            } else {
                StaffState::Unavailable
            },
            ..s
        }
    } else {
        s
    }
}

pub open spec fn after_staff_shift(m: StoreView, available: Seq<Seq<char>>) -> StoreView {
    StoreView {
        staff: Map::new(|k: Seq<char>| m.staff.contains_key(k), |k: Seq<char>| shift_state(m.staff[k], available)),
        ..m
    }
}

/// The store after a staff member is removed: a dispatched one is also taken out of every
/// active occurrence and every vehicle crew.
pub open spec fn after_delete_staff(m: StoreView, id: Seq<char>) -> StoreView {
    if !m.staff.contains_key(id) {
        m
    } else {
        StoreView {
            staff: m.staff.remove(id),
            active: if m.staff[id].state == StaffState::Dispatched {
                drop_references_all(m.active, seq![id], Seq::empty())
            } else {
                m.active
            },
            ..m
        }
    }
}

/// The store after a vehicle is removed: a dispatched one is also taken out of every active
/// occurrence, together with its crew entry.
pub open spec fn after_delete_vehicle(m: StoreView, id: Seq<char>) -> StoreView {
    if !m.vehicles.contains_key(id) {
        m
    } else {
        StoreView {
            vehicles: m.vehicles.remove(id),
            active: if m.vehicles[id].state == VehicleState::Dispatched {
                drop_references_all(m.active, Seq::empty(), seq![id])
            } else {
                m.active
            },
            ..m
        }
    }
}

/// Every staff id and vehicle id that `a` lists names a record of the store.
pub open spec fn references_exist(m: StoreView, a: ActiveOccurrenceView) -> bool {
    &&& forall|k: Seq<char>| #[trigger] a.staff_ids.contains(k) ==> m.staff.contains_key(k)
    &&& forall|k: Seq<char>| #[trigger] a.vehicle_ids.contains(k) ==> m.vehicles.contains_key(k)
}

/// The crew entry `e` is for one of the vehicles of `a` and lists only staff of `a`.
pub open spec fn assignment_valid(a: ActiveOccurrenceView, e: AssignmentView) -> bool {
    &&& a.vehicle_ids.contains(e.0)
    &&& forall|k: Seq<char>| #[trigger] e.1.contains(k) ==> a.staff_ids.contains(k)
}

/// Every crew entry of `a` is for one of its vehicles and lists only its staff.
pub open spec fn assignments_valid(a: ActiveOccurrenceView) -> bool {
    forall|i: int| 0 <= i < a.assignments.len() ==> assignment_valid(a, #[trigger] a.assignments[i])
}

/// `a` stored under id `id`.
pub open spec fn with_id(a: ActiveOccurrenceView, id: Seq<char>) -> ActiveOccurrenceView {
    ActiveOccurrenceView { internal_id: id, ..a }
}

/// The store after active occurrence `a` is created under id `id`.
pub open spec fn after_create_active(m: StoreView, a: ActiveOccurrenceView, id: Seq<char>) -> StoreView {
    StoreView {
        active: drop_references_all(m.active, a.staff_ids, a.vehicle_ids).insert(id, with_id(a, id)),
        staff: with_staff_state(m.staff, a.staff_ids, StaffState::Dispatched),
        vehicles: with_vehicle_state(m.vehicles, a.vehicle_ids, VehicleState::Dispatched),
        ..m
    }
}

/// The store after active occurrence `id` is replaced by `a`: staff and vehicles it no longer
/// lists become available, those it lists are dispatched and leave every other occurrence.
pub open spec fn after_update_active(m: StoreView, id: Seq<char>, a: ActiveOccurrenceView) -> StoreView {
    let prev = m.active[id];
    StoreView {
        active: drop_references_all(m.active.remove(id), a.staff_ids, a.vehicle_ids).insert(id, with_id(a, id)),
        staff: with_staff_state(
            with_staff_state(m.staff, prev.staff_ids, StaffState::Available),
            a.staff_ids,
            StaffState::Dispatched,
        ),
        vehicles: with_vehicle_state(
            with_vehicle_state(m.vehicles, prev.vehicle_ids, VehicleState::Available),
            a.vehicle_ids,
            VehicleState::Dispatched,
        ),
        ..m
    }
}

/// The store after active occurrence `id` is removed: the staff and vehicles it listed become
/// available.
pub open spec fn after_delete_active(m: StoreView, id: Seq<char>) -> StoreView {
    if !m.active.contains_key(id) {
        m
    } else {
        let prev = m.active[id];
        StoreView {
            active: m.active.remove(id),
            staff: with_staff_state(m.staff, prev.staff_ids, StaffState::Available),
            vehicles: with_vehicle_state(m.vehicles, prev.vehicle_ids, VehicleState::Available),
            ..m
        }
    }
}

/// Puts the staff member `id`, if present, in state `st`.
fn set_staff_state(t: &mut Table<Staff>, id: &String, st: StaffState)
    requires
        old(t).wf(),
    ensures
        final(t).wf(),
        final(t).view() == with_staff_state(old(t).view(), seq![id@], st),
{
    match t.find(id) {
        Some(p) => {
            let ghost before = t.entries@;
            proof {
                lemma_key_map_index(before, p as int);
            }
            t.entries[p].state = st;
            proof {
                lemma_key_map_update(before, p as int, t.entries@[p as int]);
                assert forall|k: Seq<char>| #[trigger] seq![id@].contains(k) == (k == id@) by {
                    if k == id@ {
                        assert(seq![id@][0] == k);
                    }
                }
            }
            assert(t.view() =~= with_staff_state(old(t).view(), seq![id@], st));
        },
        None => {
            assert forall|k: Seq<char>| #[trigger] seq![id@].contains(k) implies k == id@ by {}
            assert(t.view() =~= with_staff_state(old(t).view(), seq![id@], st));
        },
    }
}

/// Puts the vehicle `id`, if present, in state `st`.
fn set_vehicle_state(t: &mut Table<Vehicle>, id: &String, st: VehicleState)
    requires
        old(t).wf(),
    ensures
        final(t).wf(),
        final(t).view() == with_vehicle_state(old(t).view(), seq![id@], st),
{
    match t.find(id) {
        Some(p) => {
            let ghost before = t.entries@;
            proof {
                lemma_key_map_index(before, p as int);
            }
            t.entries[p].state = st;
            proof {
                lemma_key_map_update(before, p as int, t.entries@[p as int]);
                assert forall|k: Seq<char>| #[trigger] seq![id@].contains(k) == (k == id@) by {
                    if k == id@ {
                        assert(seq![id@][0] == k);
                    }
                }
            }
            assert(t.view() =~= with_vehicle_state(old(t).view(), seq![id@], st));
        },
        None => {
            assert forall|k: Seq<char>| #[trigger] seq![id@].contains(k) implies k == id@ by {}
            assert(t.view() =~= with_vehicle_state(old(t).view(), seq![id@], st));
        },
    }
}

/// Puts every listed staff member that is present in state `st`.
pub(crate) fn set_staff_states(t: &mut Table<Staff>, ids: &Vec<String>, st: StaffState)
    requires
        old(t).wf(),
    ensures
        final(t).wf(),
        final(t).view() == with_staff_state(old(t).view(), ids_view(ids@), st),
{
    let ghost orig = t.view();
    let mut j: usize = 0;
    assert(t.view() =~= with_staff_state(orig, ids_view(ids@).subrange(0, 0), st));
    while j < ids.len()
        invariant
            j <= ids@.len(),
            t.wf(),
            t.view() == with_staff_state(orig, ids_view(ids@).subrange(0, j as int), st),
        decreases ids@.len() - j,
    {
        let ghost pre = ids_view(ids@).subrange(0, j as int);
        set_staff_state(t, &ids[j], st);
        proof {
            let next = ids_view(ids@).subrange(0, j as int + 1);
            assert(next =~= pre.push(ids@[j as int]@));
            assert forall|k: Seq<char>| #[trigger] next.contains(k) == (pre.contains(k) || k == ids@[j as int]@) by {
                lemma_push_contains(pre, ids@[j as int]@, k);
            }
            assert forall|k: Seq<char>| #[trigger] seq![ids@[j as int]@].contains(k) == (k == ids@[j as int]@) by {
                if k == ids@[j as int]@ {
                    assert(seq![ids@[j as int]@][0] == k);
                }
            }
        }
        assert(t.view() =~= with_staff_state(orig, ids_view(ids@).subrange(0, j as int + 1), st));
        j = j + 1;
    }
    assert(ids_view(ids@).subrange(0, ids@.len() as int) =~= ids_view(ids@));
}

/// Puts every listed vehicle that is present in state `st`.
pub(crate) fn set_vehicle_states(t: &mut Table<Vehicle>, ids: &Vec<String>, st: VehicleState)
    requires
        old(t).wf(),
    ensures
        final(t).wf(),
        final(t).view() == with_vehicle_state(old(t).view(), ids_view(ids@), st),
{
    let ghost orig = t.view();
    let mut j: usize = 0;
    assert(t.view() =~= with_vehicle_state(orig, ids_view(ids@).subrange(0, 0), st));
    while j < ids.len()
        invariant
            j <= ids@.len(),
            t.wf(),
            t.view() == with_vehicle_state(orig, ids_view(ids@).subrange(0, j as int), st),
        decreases ids@.len() - j,
    {
        let ghost pre = ids_view(ids@).subrange(0, j as int);
        set_vehicle_state(t, &ids[j], st);
        proof {
            let next = ids_view(ids@).subrange(0, j as int + 1);
            assert(next =~= pre.push(ids@[j as int]@));
            assert forall|k: Seq<char>| #[trigger] next.contains(k) == (pre.contains(k) || k == ids@[j as int]@) by {
                lemma_push_contains(pre, ids@[j as int]@, k);
            }
            assert forall|k: Seq<char>| #[trigger] seq![ids@[j as int]@].contains(k) == (k == ids@[j as int]@) by {
                if k == ids@[j as int]@ {
                    assert(seq![ids@[j as int]@][0] == k);
                }
            }
        }
        assert(t.view() =~= with_vehicle_state(orig, ids_view(ids@).subrange(0, j as int + 1), st));
        j = j + 1;
    }
    assert(ids_view(ids@).subrange(0, ids@.len() as int) =~= ids_view(ids@));
}

/// Removes from every active occurrence of the table the references to the staff of `sd` and
/// to the vehicles of `vd`.
pub(crate) fn drop_references_everywhere(t: &mut Table<ActiveOccurrence>, sd: &Vec<String>, vd: &Vec<String>)
    requires
        old(t).wf(),
    ensures
        final(t).wf(),
        active_views(final(t).view()) == drop_references_all(
            active_views(old(t).view()),
            ids_view(sd@),
            ids_view(vd@),
        ),
{
    let ghost s = t.entries@;
    let ghost sv = ids_view(sd@);
    let ghost vv = ids_view(vd@);
    let mut i: usize = 0;
    while i < t.entries.len()
        invariant
            i <= s.len(),
            t.entries@.len() == s.len(),
            sv == ids_view(sd@),
            vv == ids_view(vd@),
            forall|j: int| 0 <= j < s.len() ==> (#[trigger] t.entries@[j]).key() == s[j].key(),
            forall|j: int| 0 <= j < i ==> (#[trigger] t.entries@[j])@ == drop_references(s[j]@, sv, vv),
            forall|j: int| i <= j < s.len() ==> #[trigger] t.entries@[j] == s[j],
        decreases s.len() - i,
    {
        let ghost before = t.entries@;
        let mut a = t.entries.remove(i);
        drop_references_from(&mut a, sd, vd);
        t.entries.insert(i, a);
        assert(t.entries@ =~= before.update(i as int, a));
        i = i + 1;
    }
    proof {
        lemma_key_map_pointwise(s, t.entries@);
        let om = active_views(key_map(s));
        assert(active_views(t.view()) =~= drop_references_all(om, sv, vv));
    }
}

/// True when every listed id names a record of the table.
pub fn all_present<T: Keyed>(t: &Table<T>, ids: &Vec<String>) -> (r: bool)
    requires
        t.wf(),
    ensures
        r == forall|k: Seq<char>| #[trigger] ids_view(ids@).contains(k) ==> t.view().contains_key(k),
{
    let mut j: usize = 0;
    while j < ids.len()
        invariant
            j <= ids@.len(),
            t.wf(),
            forall|i: int| 0 <= i < j ==> t.view().contains_key(#[trigger] ids@[i]@),
        decreases ids@.len() - j,
    {
        if t.find(&ids[j]).is_none() {
            assert(ids_view(ids@)[j as int] == ids@[j as int]@);
            assert(ids_view(ids@).contains(ids@[j as int]@));
            return false;
        }
        j = j + 1;
    }
    proof {
        assert forall|k: Seq<char>| #[trigger] ids_view(ids@).contains(k) implies t.view().contains_key(k) by {
            let i = choose|i: int| 0 <= i < ids_view(ids@).len() && ids_view(ids@)[i] == k;
            assert(ids@[i]@ == k);
        }
    }
    true
}

impl DataStore {
    /// The four tables hold unique ids.
    pub open spec fn wf(&self) -> bool {
        &&& self.active_occurrences.wf()
        &&& self.occurrences.wf()
        &&& self.staff.wf()
        &&& self.vehicles.wf()
    }

    /// A well-formed store that obeys the consistency rules.
    pub open spec fn inv(&self) -> bool {
        self.wf() && consistent(self@)
    }

    /// An empty store.
    pub fn new() -> (r: Self)
        ensures
            r.inv(),
            r@.active == Map::<Seq<char>, ActiveOccurrenceView>::empty(),
            r@.occurrences == Map::<Seq<char>, Occurrence>::empty(),
            r@.staff == Map::<Seq<char>, Staff>::empty(),
            r@.vehicles == Map::<Seq<char>, Vehicle>::empty(),
    {
        let r = DataStore {
            active_occurrences: Table::new(),
            occurrences: Table::new(),
            staff: Table::new(),
            vehicles: Table::new(),
        };
        assert(r@.active =~= Map::<Seq<char>, ActiveOccurrenceView>::empty());
        r
    }

    pub fn get_active_occurrence(&self, occurrence_id: &String) -> (r: Result<&ActiveOccurrence, FirefightError>)
        requires
            self.wf(),
        ensures
            match r {
                Ok(a) => self@.active.contains_key(occurrence_id@) && a@ == self@.active[occurrence_id@],
                Err(e) => e == FirefightError::NotFound && !self@.active.contains_key(occurrence_id@),
            },
    {
        match self.active_occurrences.get(occurrence_id) {
            Some(a) => Ok(a),
            None => Err(FirefightError::NotFound),
        }
    }

    /// The active occurrence that lists staff member `staff_id`.
    pub fn get_active_occurrence_by_staff(&self, staff_id: &String) -> (r: Result<&ActiveOccurrence, FirefightError>)
        requires
            self.wf(),
        ensures
            match r {
                Ok(a) => self@.active.contains_key(a@.internal_id) && self@.active[a@.internal_id] == a@
                    && a@.staff_ids.contains(staff_id@),
                Err(e) => e == FirefightError::NotFound && !staff_referenced(self@, staff_id@),
            },
    {
        let ghost s = self.active_occurrences.entries@;
        let mut i: usize = 0;
        while i < self.active_occurrences.entries.len()
            invariant
                i <= s.len(),
                s == self.active_occurrences.entries@,
                self.wf(),
                forall|j: int| 0 <= j < i ==> !(#[trigger] s[j]@).staff_ids.contains(staff_id@),
            decreases s.len() - i,
        {
            if contains_id(&self.active_occurrences.entries[i].staff_ids, staff_id) {
                proof {
                    lemma_key_map_index(s, i as int);
                }
                return Ok(&self.active_occurrences.entries[i]);
            }
            i = i + 1;
        }
        proof {
            if staff_referenced(self@, staff_id@) {
                let a = choose|a: Seq<char>| self@.active.contains_key(a) && #[trigger] self@.active[a].staff_ids.contains(staff_id@);
                let j = index_of(s, a);
                lemma_key_map_index(s, j);
            }
        }
        Err(FirefightError::NotFound)
    }

    /// The active occurrence that lists vehicle `vehicle_id`.
    pub fn get_active_occurrence_by_vehicle(&self, vehicle_id: &String) -> (r: Result<&ActiveOccurrence, FirefightError>)
        requires
            self.wf(),
        ensures
            match r {
                Ok(a) => self@.active.contains_key(a@.internal_id) && self@.active[a@.internal_id] == a@
                    && a@.vehicle_ids.contains(vehicle_id@),
                Err(e) => e == FirefightError::NotFound && !vehicle_referenced(self@, vehicle_id@),
            },
    {
        let ghost s = self.active_occurrences.entries@;
        let mut i: usize = 0;
        while i < self.active_occurrences.entries.len()
            invariant
                i <= s.len(),
                s == self.active_occurrences.entries@,
                self.wf(),
                forall|j: int| 0 <= j < i ==> !(#[trigger] s[j]@).vehicle_ids.contains(vehicle_id@),
            decreases s.len() - i,
        {
            if contains_id(&self.active_occurrences.entries[i].vehicle_ids, vehicle_id) {
                proof {
                    lemma_key_map_index(s, i as int);
                }
                return Ok(&self.active_occurrences.entries[i]);
            }
            i = i + 1;
        }
        proof {
            if vehicle_referenced(self@, vehicle_id@) {
                let a = choose|a: Seq<char>| self@.active.contains_key(a) && #[trigger] self@.active[a].vehicle_ids.contains(vehicle_id@);
                let j = index_of(s, a);
                lemma_key_map_index(s, j);
            }
        }
        Err(FirefightError::NotFound)
    }

    /// Every active occurrence, one per id.
    pub fn get_active_occurrence_list(&self) -> (r: &Vec<ActiveOccurrence>)
        ensures
            key_map(r@) == self.active_occurrences.view(),
            unique_keys(r@) == self.active_occurrences.wf(),
    {
        &self.active_occurrences.entries
    }

    /// The active occurrences of occurrence `occurrence_id`.
    pub fn get_active_occurrence_list_by_occurrence(&self, occurrence_id: &String) -> (r: Vec<&ActiveOccurrence>)
        requires
            self.wf(),
        ensures
            forall|i: int| 0 <= i < r@.len() ==> {
                &&& self@.active.contains_key((#[trigger] r@[i])@.internal_id)
                &&& self@.active[r@[i]@.internal_id] == r@[i]@
                &&& r@[i]@.occurrence_id == occurrence_id@
            },
            forall|k: Seq<char>| #[trigger] self@.active.contains_key(k) && self@.active[k].occurrence_id == occurrence_id@
                ==> exists|i: int| 0 <= i < r@.len() && (#[trigger] r@[i])@.internal_id == k,
    {
        let ghost s = self.active_occurrences.entries@;
        let mut out: Vec<&ActiveOccurrence> = Vec::new();
        let mut i: usize = 0;
        while i < self.active_occurrences.entries.len()
            invariant
                i <= s.len(),
                s == self.active_occurrences.entries@,
                self.wf(),
                forall|j: int| 0 <= j < out@.len() ==> {
                    &&& self@.active.contains_key((#[trigger] out@[j])@.internal_id)
                    &&& self@.active[out@[j]@.internal_id] == out@[j]@
                    &&& out@[j]@.occurrence_id == occurrence_id@
                },
                forall|j: int| 0 <= j < i && (#[trigger] s[j])@.occurrence_id == occurrence_id@
                    ==> exists|l: int| 0 <= l < out@.len() && (#[trigger] out@[l])@.internal_id == s[j]@.internal_id,
            decreases s.len() - i,
        {
            proof {
                lemma_key_map_index(s, i as int);
            }
            let a = &self.active_occurrences.entries[i];
            let ghost before = out@;
            if a.occurrence_id.eq(occurrence_id) {
                out.push(a);
            }
            proof {
                assert forall|j: int| 0 <= j < i + 1 && (#[trigger] s[j])@.occurrence_id == occurrence_id@
                    implies exists|l: int| 0 <= l < out@.len() && (#[trigger] out@[l])@.internal_id == s[j]@.internal_id by {
                    if j < i {
                        let l = choose|l: int| 0 <= l < before.len() && (#[trigger] before[l])@.internal_id == s[j]@.internal_id;
                        assert(out@[l] == before[l]);
                    } else {
                        assert(out@[out@.len() - 1]@.internal_id == s[j]@.internal_id);
                    }
                }
            }
            i = i + 1;
        }
        proof {
            assert forall|k: Seq<char>| #[trigger] self@.active.contains_key(k) && self@.active[k].occurrence_id == occurrence_id@
                implies exists|i: int| 0 <= i < out@.len() && (#[trigger] out@[i])@.internal_id == k by {
                let j = index_of(s, k);
                lemma_key_map_index(s, j);
            }
        }
        out
    }

    pub fn get_occurrence(&self, occurrence_id: &String) -> (r: Result<&Occurrence, FirefightError>)
        requires
            self.wf(),
        ensures
            match r {
                Ok(o) => self@.occurrences.contains_key(occurrence_id@) && *o == self@.occurrences[occurrence_id@],
                Err(e) => e == FirefightError::NotFound && !self@.occurrences.contains_key(occurrence_id@),
            },
    {
        match self.occurrences.get(occurrence_id) {
            Some(o) => Ok(o),
            None => Err(FirefightError::NotFound),
        }
    }

    /// The name of occurrence `occurrence_id`.
    pub fn get_occurrence_name(&self, occurrence_id: &String) -> (r: Result<String, FirefightError>)
        requires
            self.wf(),
        ensures
            match r {
                Ok(n) => self@.occurrences.contains_key(occurrence_id@) && n@ == self@.occurrences[occurrence_id@].name@,
                Err(e) => e == FirefightError::NotFound && !self@.occurrences.contains_key(occurrence_id@),
            },
    {
        match self.occurrences.get(occurrence_id) {
            Some(o) => Ok(o.name.clone()),
            None => Err(FirefightError::NotFound),
        }
    }

    /// Every occurrence, one per id.
    pub fn get_occurrence_list(&self) -> (r: &Vec<Occurrence>)
        ensures
            key_map(r@) == self.occurrences.view(),
    {
        &self.occurrences.entries
    }

    pub fn get_staff(&self, staff_id: &String) -> (r: Result<&Staff, FirefightError>)
        requires
            self.wf(),
        ensures
            match r {
                Ok(s) => self@.staff.contains_key(staff_id@) && *s == self@.staff[staff_id@],
                Err(e) => e == FirefightError::NotFound && !self@.staff.contains_key(staff_id@),
            },
    {
        match self.staff.get(staff_id) {
            Some(s) => Ok(s),
            None => Err(FirefightError::NotFound),
        }
    }

    /// The label of staff member `staff_id`.
    pub fn get_staff_label(&self, staff_id: &String) -> (r: Result<String, FirefightError>)
        requires
            self.wf(),
        ensures
            match r {
                Ok(l) => self@.staff.contains_key(staff_id@) && l@ == self@.staff[staff_id@].label@,
                Err(e) => e == FirefightError::NotFound && !self@.staff.contains_key(staff_id@),
            },
    {
        match self.staff.get(staff_id) {
            Some(s) => Ok(s.label.clone()),
            None => Err(FirefightError::NotFound),
        }
    }

    /// Every staff member, one per id.
    pub fn get_staff_list(&self) -> (r: &Vec<Staff>)
        ensures
            key_map(r@) == self.staff.view(),
    {
        &self.staff.entries
    }

    pub fn get_vehicle(&self, vehicle_id: &String) -> (r: Result<&Vehicle, FirefightError>)
        requires
            self.wf(),
        ensures
            match r {
                Ok(v) => self@.vehicles.contains_key(vehicle_id@) && *v == self@.vehicles[vehicle_id@],
                Err(e) => e == FirefightError::NotFound && !self@.vehicles.contains_key(vehicle_id@),
            },
    {
        match self.vehicles.get(vehicle_id) {
            Some(v) => Ok(v),
            None => Err(FirefightError::NotFound),
        }
    }

    /// The capacity of vehicle `vehicle_id`; `None` when it is not known.
    pub fn get_vehicle_capacity(&self, vehicle_id: &String) -> (r: Result<Option<u8>, FirefightError>)
        requires
            self.wf(),
        ensures
            match r {
                Ok(c) => self@.vehicles.contains_key(vehicle_id@) && c == self@.vehicles[vehicle_id@].capacity,
                Err(e) => e == FirefightError::NotFound && !self@.vehicles.contains_key(vehicle_id@),
            },
    {
        match self.vehicles.get(vehicle_id) {
            Some(v) => Ok(v.capacity),
            None => Err(FirefightError::NotFound),
        }
    }

    /// The label of vehicle `vehicle_id`.
    pub fn get_vehicle_label(&self, vehicle_id: &String) -> (r: Result<String, FirefightError>)
        requires
            self.wf(),
        ensures
            match r {
                Ok(l) => self@.vehicles.contains_key(vehicle_id@) && l@ == self@.vehicles[vehicle_id@].label@,
                Err(e) => e == FirefightError::NotFound && !self@.vehicles.contains_key(vehicle_id@),
            },
    {
        match self.vehicles.get(vehicle_id) {
            Some(v) => Ok(v.label.clone()),
            None => Err(FirefightError::NotFound),
        }
    }

    /// Every vehicle, one per id.
    pub fn get_vehicle_list(&self) -> (r: &Vec<Vehicle>)
        ensures
            key_map(r@) == self.vehicles.view(),
    {
        &self.vehicles.entries
    }
}

} // verus!
