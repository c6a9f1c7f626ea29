use vstd::prelude::*;

use crate::ids::contains_id;
use crate::laws::law_create_dispatches;
use crate::records::lemma_drop_references_contains;
use crate::store::{
    active_views, after_create_active, after_delete_active, after_update_active, all_present, assignment_valid,
    assignments_valid,
    consistent, drop_references_everywhere, references_exist, set_staff_states, set_vehicle_states,
    staff_referenced, vehicle_referenced, with_id, DataStore, StoreView,
};
use crate::types::{
    ids_view, ActiveOccurrence, ActiveOccurrenceView, FirefightError, StaffState, VehicleState,
};

verus! {

/// Creating an active occurrence keeps the store consistent.
pub proof fn lemma_create_active_consistent(m: StoreView, a: ActiveOccurrenceView, id: Seq<char>)
    requires
        consistent(m),
        references_exist(m, a),
        !m.active.contains_key(id),
    ensures
        consistent(after_create_active(m, a, id)),
{
    let r = after_create_active(m, a, id);
    assert forall|b: Seq<char>, k: Seq<char>| r.active.contains_key(b) implies
        #[trigger] r.active[b].staff_ids.contains(k) == if b == id {
            a.staff_ids.contains(k)
        } else {
            m.active[b].staff_ids.contains(k) && !a.staff_ids.contains(k)
        } by {
        if b != id {
            lemma_drop_references_contains(m.active[b], a.staff_ids, a.vehicle_ids, k);
        }
    }
    assert forall|b: Seq<char>, k: Seq<char>| r.active.contains_key(b) implies
        #[trigger] r.active[b].vehicle_ids.contains(k) == if b == id {
            a.vehicle_ids.contains(k)
        } else {
            m.active[b].vehicle_ids.contains(k) && !a.vehicle_ids.contains(k)
        } by {
        if b != id {
            lemma_drop_references_contains(m.active[b], a.staff_ids, a.vehicle_ids, k);
        }
    }
    assert forall|k: Seq<char>|
        #[trigger] r.staff.contains_key(k) && r.staff[k].state == StaffState::Dispatched implies staff_referenced(r, k) by {
        if a.staff_ids.contains(k) {
            assert(r.active[id].staff_ids.contains(k));
        } else {
            let b = choose|b: Seq<char>| m.active.contains_key(b) && #[trigger] m.active[b].staff_ids.contains(k);
            assert(r.active[b].staff_ids.contains(k));
        }
    }
    assert forall|k: Seq<char>|
        #[trigger] r.vehicles.contains_key(k) && r.vehicles[k].state == VehicleState::Dispatched implies vehicle_referenced(r, k) by {
        if a.vehicle_ids.contains(k) {
            assert(r.active[id].vehicle_ids.contains(k));
        } else {
            let b = choose|b: Seq<char>| m.active.contains_key(b) && #[trigger] m.active[b].vehicle_ids.contains(k);
            assert(r.active[b].vehicle_ids.contains(k));
        }
    }
}

/// Replacing an active occurrence keeps the store consistent.
pub proof fn lemma_update_active_consistent(m: StoreView, id: Seq<char>, a: ActiveOccurrenceView)
    requires
        consistent(m),
        references_exist(m, a),
        m.active.contains_key(id),
    ensures
        consistent(after_update_active(m, id, a)),
{
    let r = after_update_active(m, id, a);
    let prev = m.active[id];
    assert forall|b: Seq<char>, k: Seq<char>| r.active.contains_key(b) implies
        #[trigger] r.active[b].staff_ids.contains(k) == if b == id {
            a.staff_ids.contains(k)
        } else {
            m.active[b].staff_ids.contains(k) && !a.staff_ids.contains(k)
        } by {
        if b != id {
            lemma_drop_references_contains(m.active[b], a.staff_ids, a.vehicle_ids, k);
        }
    }
    assert forall|b: Seq<char>, k: Seq<char>| r.active.contains_key(b) implies
        #[trigger] r.active[b].vehicle_ids.contains(k) == if b == id {
            a.vehicle_ids.contains(k)
        } else {
            m.active[b].vehicle_ids.contains(k) && !a.vehicle_ids.contains(k)
        } by {
        if b != id {
            lemma_drop_references_contains(m.active[b], a.staff_ids, a.vehicle_ids, k);
        }
    }
    assert forall|b: Seq<char>, k: Seq<char>|
        r.active.contains_key(b) && #[trigger] r.active[b].staff_ids.contains(k) implies r.staff.contains_key(k)
            && r.staff[k].state == StaffState::Dispatched by {
        if b != id {
            assert(m.active[b].staff_ids.contains(k));
            assert(!prev.staff_ids.contains(k));
        }
    }
    assert forall|b: Seq<char>, k: Seq<char>|
        r.active.contains_key(b) && #[trigger] r.active[b].vehicle_ids.contains(k) implies r.vehicles.contains_key(k)
            && r.vehicles[k].state == VehicleState::Dispatched by {
        if b != id {
            assert(m.active[b].vehicle_ids.contains(k));
            assert(!prev.vehicle_ids.contains(k));
        }
    }
    assert forall|k: Seq<char>|
        #[trigger] r.staff.contains_key(k) && r.staff[k].state == StaffState::Dispatched implies staff_referenced(r, k) by {
        if a.staff_ids.contains(k) {
            assert(r.active[id].staff_ids.contains(k));
        } else {
            let b = choose|b: Seq<char>| m.active.contains_key(b) && #[trigger] m.active[b].staff_ids.contains(k);
            assert(r.active[b].staff_ids.contains(k));
        }
    }
    assert forall|k: Seq<char>|
        #[trigger] r.vehicles.contains_key(k) && r.vehicles[k].state == VehicleState::Dispatched implies vehicle_referenced(r, k) by {
        if a.vehicle_ids.contains(k) {
            assert(r.active[id].vehicle_ids.contains(k));
        } else {
            let b = choose|b: Seq<char>| m.active.contains_key(b) && #[trigger] m.active[b].vehicle_ids.contains(k);
            assert(r.active[b].vehicle_ids.contains(k));
        }
    }
}

/// Removing an active occurrence keeps the store consistent.
pub proof fn lemma_delete_active_consistent(m: StoreView, id: Seq<char>)
    requires
        consistent(m),
    ensures
        consistent(after_delete_active(m, id)),
{
    let r = after_delete_active(m, id);
    if m.active.contains_key(id) {
        let prev = m.active[id];
        assert forall|b: Seq<char>, k: Seq<char>|
            r.active.contains_key(b) && #[trigger] r.active[b].staff_ids.contains(k) implies r.staff.contains_key(k)
                && r.staff[k].state == StaffState::Dispatched by {
            assert(!prev.staff_ids.contains(k));
        }
        assert forall|b: Seq<char>, k: Seq<char>|
            r.active.contains_key(b) && #[trigger] r.active[b].vehicle_ids.contains(k) implies r.vehicles.contains_key(k)
                && r.vehicles[k].state == VehicleState::Dispatched by {
            assert(!prev.vehicle_ids.contains(k));
        }
        assert forall|k: Seq<char>|
            #[trigger] r.staff.contains_key(k) && r.staff[k].state == StaffState::Dispatched implies staff_referenced(r, k) by {
            let b = choose|b: Seq<char>| m.active.contains_key(b) && #[trigger] m.active[b].staff_ids.contains(k);
            assert(r.active[b].staff_ids.contains(k));
        }
        assert forall|k: Seq<char>|
            #[trigger] r.vehicles.contains_key(k) && r.vehicles[k].state == VehicleState::Dispatched implies vehicle_referenced(r, k) by {
            let b = choose|b: Seq<char>| m.active.contains_key(b) && #[trigger] m.active[b].vehicle_ids.contains(k);
            assert(r.active[b].vehicle_ids.contains(k));
        }
    }
}

proof fn lemma_missing_reference(m: StoreView, a: ActiveOccurrence, staff_present: bool, vehicles_present: bool)
    requires
        staff_present == forall|k: Seq<char>| #[trigger] ids_view(a.staff_ids@).contains(k) ==> m.staff.contains_key(k),
        vehicles_present == forall|k: Seq<char>| #[trigger] ids_view(a.vehicle_ids@).contains(k) ==> m.vehicles.contains_key(k),
    ensures
        references_exist(m, a@) == (staff_present && vehicles_present),
{
    if !staff_present {
        let k = choose|k: Seq<char>| ids_view(a.staff_ids@).contains(k) && !m.staff.contains_key(k);
        assert(a@.staff_ids.contains(k));
    } else if !vehicles_present {
        let k = choose|k: Seq<char>| ids_view(a.vehicle_ids@).contains(k) && !m.vehicles.contains_key(k);
        assert(a@.vehicle_ids.contains(k));
    } else {
        assert forall|k: Seq<char>| #[trigger] a@.staff_ids.contains(k) implies m.staff.contains_key(k) by {
            assert(ids_view(a.staff_ids@).contains(k));
        }
        assert forall|k: Seq<char>| #[trigger] a@.vehicle_ids.contains(k) implies m.vehicles.contains_key(k) by {
            assert(ids_view(a.vehicle_ids@).contains(k));
        }
    }
}

/// True when every listed id is also in `within`.
fn all_listed(ids: &Vec<String>, within: &Vec<String>) -> (r: bool)
    ensures
        r == forall|k: Seq<char>| #[trigger] ids_view(ids@).contains(k) ==> ids_view(within@).contains(k),
{
    let mut j: usize = 0;
    while j < ids.len()
        invariant
            j <= ids@.len(),
            forall|i: int| 0 <= i < j ==> ids_view(within@).contains(#[trigger] ids@[i]@),
        decreases ids@.len() - j,
    {
        if !contains_id(within, &ids[j]) {
            assert(ids_view(ids@)[j as int] == ids@[j as int]@);
            assert(ids_view(ids@).contains(ids@[j as int]@));
            return false;
        }
        j = j + 1;
    }
    proof {
        assert forall|k: Seq<char>| #[trigger] ids_view(ids@).contains(k) implies ids_view(within@).contains(k) by {
            let i = choose|i: int| 0 <= i < ids_view(ids@).len() && ids_view(ids@)[i] == k;
            assert(ids@[i]@ == k);
        }
    }
    true
}

/// True when every crew entry of `a` is for one of its vehicles and lists only its staff.
pub fn assignments_within(a: &ActiveOccurrence) -> (r: bool)
    ensures
        r == assignments_valid(a@),
{
    let ghost v = a@;
    let mut i: usize = 0;
    while i < a.vehicle_assignment_map.len()
        invariant
            i <= a.vehicle_assignment_map@.len(),
            v == a@,
            v.assignments.len() == a.vehicle_assignment_map@.len(),
            forall|j: int| 0 <= j < i ==> assignment_valid(v, #[trigger] v.assignments[j]),
        decreases a.vehicle_assignment_map@.len() - i,
    {
        let entry = &a.vehicle_assignment_map[i];
        let ghost e = v.assignments[i as int];
        assert(e == (entry.vehicle_id@, ids_view(entry.staff_ids@)));
        let known = contains_id(&a.vehicle_ids, &entry.vehicle_id);
        let crew_listed = all_listed(&entry.staff_ids, &a.staff_ids);
        if !known || !crew_listed {
            proof {
                if known {
                    let k = choose|k: Seq<char>| ids_view(entry.staff_ids@).contains(k) && !ids_view(a.staff_ids@).contains(k);
                    assert(e.1.contains(k) && !v.staff_ids.contains(k));
                }
                assert(!assignment_valid(v, e));
            }
            return false;
        }
        proof {
            assert forall|k: Seq<char>| #[trigger] e.1.contains(k) implies v.staff_ids.contains(k) by {
                assert(ids_view(entry.staff_ids@).contains(k));
            }
            assert(assignment_valid(v, e));
        }
        i = i + 1;
    }
    true
}

/// Relies on uuid::Uuid::new_v4 and the uuid's text form: a random version 4 uuid, written
/// in its hyphenated form of 36 characters.
#[verifier::external_body]
pub(crate) fn new_id() -> (r: String)
    ensures
        r@.len() == 36,
{
    uuid::Uuid::new_v4().to_string()
}

impl DataStore {
    /// Records `occurrence` under the id `id`, which must be new. Every other active occurrence
    /// first gives up the staff and vehicles it lists; then those are dispatched.
    pub fn create_active_occurrence_with_id(&mut self, occurrence: ActiveOccurrence, id: String) -> (r: Result<String, FirefightError>)
        requires
            old(self).inv(),
        ensures
            final(self).inv(),
            match r {
                Ok(k) => k@ == id@ && references_exist(old(self)@, occurrence@) && assignments_valid(occurrence@)
                    && !old(self)@.active.contains_key(id@)
                    && final(self)@ == after_create_active(old(self)@, occurrence@, id@),
                Err(e) => *final(self) == *old(self) && if !references_exist(old(self)@, occurrence@) {
                    e == FirefightError::NotFound
                } else {
                    e == FirefightError::ValidationError && (!assignments_valid(occurrence@)
                        || old(self)@.active.contains_key(id@))
                },
            },
    {
        let staff_present = all_present(&self.staff, &occurrence.staff_ids);
        let vehicles_present = all_present(&self.vehicles, &occurrence.vehicle_ids);
        if !staff_present || !vehicles_present {
            proof {
                lemma_missing_reference(self@, occurrence, staff_present, vehicles_present);
            }
            return Err(FirefightError::NotFound);
        }
        if !assignments_within(&occurrence) || self.active_occurrences.find(&id).is_some() {
            return Err(FirefightError::ValidationError);
        }
        let ghost m = self@;
        drop_references_everywhere(&mut self.active_occurrences, &occurrence.staff_ids, &occurrence.vehicle_ids);
        set_staff_states(&mut self.staff, &occurrence.staff_ids, StaffState::Dispatched);
        set_vehicle_states(&mut self.vehicles, &occurrence.vehicle_ids, VehicleState::Dispatched);
        let ghost stripped = self.active_occurrences.view();
        assert(!active_views(stripped).contains_key(id@));
        let r = id.clone();
        let mut occurrence = occurrence;
        let ghost given = occurrence@;
        occurrence.internal_id = id;
        self.active_occurrences.push_new(occurrence);
        proof {
            lemma_create_active_consistent(m, given, id@);
            assert(occurrence@ == with_id(given, id@));
            assert(active_views(stripped.insert(id@, occurrence)) =~= active_views(stripped).insert(id@, occurrence@));
        }
        assert(self@.active =~= after_create_active(m, given, id@).active);
        Ok(r)
    }

    /// Records a new active occurrence under a freshly generated id, which it hands back.
    pub fn create_active_occurrence(&mut self, occurrence: ActiveOccurrence) -> (r: Result<String, FirefightError>)
        requires
            old(self).inv(),
        ensures
            final(self).inv(),
            match r {
                Ok(k) => references_exist(old(self)@, occurrence@) && assignments_valid(occurrence@)
                    && !old(self)@.active.contains_key(k@)
                    && final(self)@ == after_create_active(old(self)@, occurrence@, k@),
                Err(e) => *final(self) == *old(self) && if !references_exist(old(self)@, occurrence@) {
                    e == FirefightError::NotFound
                } else {
                    e == FirefightError::ValidationError
                },
            },
            !references_exist(old(self)@, occurrence@) ==> r == Err::<String, FirefightError>(FirefightError::NotFound),
            references_exist(old(self)@, occurrence@) && !assignments_valid(occurrence@)
                ==> r == Err::<String, FirefightError>(FirefightError::ValidationError),
            references_exist(old(self)@, occurrence@) && assignments_valid(occurrence@) && (forall|k: Seq<char>|
                #[trigger] old(self)@.active.contains_key(k) ==> k.len() != 36) ==> r is Ok,
            r is Ok ==> forall|k: Seq<char>| #[trigger] occurrence@.staff_ids.contains(k) ==> {
                &&& final(self)@.staff.contains_key(k)
                &&& final(self)@.staff[k].state == StaffState::Dispatched
            },
            r is Ok ==> forall|k: Seq<char>| #[trigger] occurrence@.vehicle_ids.contains(k) ==> {
                &&& final(self)@.vehicles.contains_key(k)
                &&& final(self)@.vehicles[k].state == VehicleState::Dispatched
            },
    {
        let id = new_id();
        let r = self.create_active_occurrence_with_id(occurrence, id);
        proof {
            if r is Ok {
                law_create_dispatches(old(self)@, occurrence@, r->Ok_0@);
            }
        }
        r
    }

    /// Replaces active occurrence `active_occurrence_id` by `active_occurrence`, handing back the
    /// record it replaces. Staff and vehicles no longer listed become available; those listed
    /// are dispatched and leave every other active occurrence.
    pub fn update_active_occurrence(
        &mut self,
        active_occurrence_id: &String,
        active_occurrence: ActiveOccurrence,
    ) -> (r: Result<Option<ActiveOccurrence>, FirefightError>)
        requires
            old(self).inv(),
        ensures
            final(self).inv(),
            match r {
                Ok(p) => old(self)@.active.contains_key(active_occurrence_id@)
                    && references_exist(old(self)@, active_occurrence@) && assignments_valid(active_occurrence@)
                    && p.is_some() && p.unwrap()@ == old(self)@.active[active_occurrence_id@]
                    && final(self)@ == after_update_active(old(self)@, active_occurrence_id@, active_occurrence@),
                Err(e) => *final(self) == *old(self) && if !old(self)@.active.contains_key(active_occurrence_id@)
                    || !references_exist(old(self)@, active_occurrence@) {
                    e == FirefightError::NotFound
                } else {
                    e == FirefightError::ValidationError && !assignments_valid(active_occurrence@)
                },
            },
    {
        if self.active_occurrences.find(active_occurrence_id).is_none() {
            return Err(FirefightError::NotFound);
        }
        let staff_present = all_present(&self.staff, &active_occurrence.staff_ids);
        let vehicles_present = all_present(&self.vehicles, &active_occurrence.vehicle_ids);
        if !staff_present || !vehicles_present {
            proof {
                lemma_missing_reference(self@, active_occurrence, staff_present, vehicles_present);
            }
            return Err(FirefightError::NotFound);
        }
        if !assignments_within(&active_occurrence) {
            return Err(FirefightError::ValidationError);
        }
        let ghost m = self@;
        let ghost given = active_occurrence@;
        let prev = match self.active_occurrences.remove(active_occurrence_id) {
            Some(p) => p,
            None => {
                return Err(FirefightError::NotFound);
            },
        };
        assert(active_views(self.active_occurrences.view()) =~= m.active.remove(active_occurrence_id@));
        set_staff_states(&mut self.staff, &prev.staff_ids, StaffState::Available);
        set_staff_states(&mut self.staff, &active_occurrence.staff_ids, StaffState::Dispatched);
        set_vehicle_states(&mut self.vehicles, &prev.vehicle_ids, VehicleState::Available);
        set_vehicle_states(&mut self.vehicles, &active_occurrence.vehicle_ids, VehicleState::Dispatched);
        drop_references_everywhere(&mut self.active_occurrences, &active_occurrence.staff_ids, &active_occurrence.vehicle_ids);
        let ghost stripped = self.active_occurrences.view();
        assert(!active_views(stripped).contains_key(active_occurrence_id@));
        let mut active_occurrence = active_occurrence;
        active_occurrence.internal_id = active_occurrence_id.clone();
        self.active_occurrences.push_new(active_occurrence);
        proof {
            lemma_update_active_consistent(m, active_occurrence_id@, given);
            assert(active_occurrence@ == with_id(given, active_occurrence_id@));
            assert(active_views(stripped.insert(active_occurrence_id@, active_occurrence)) =~= active_views(stripped).insert(
                active_occurrence_id@,
                active_occurrence@,
            ));
        }
        assert(self@.active =~= after_update_active(m, active_occurrence_id@, given).active);
        Ok(Some(prev))
    }

    /// Removes active occurrence `active_occurrence_id`; the staff and vehicles it listed become
    /// available. Removing an id that is not there changes nothing.
    pub fn delete_active_occurrence(&mut self, active_occurrence_id: &String) -> (r: Result<(), FirefightError>)
        requires
            old(self).inv(),
        ensures
            final(self).inv(),
            r.is_ok(),
            final(self)@ == after_delete_active(old(self)@, active_occurrence_id@),
    {
        let ghost m = self@;
        match self.active_occurrences.remove(active_occurrence_id) {
            Some(prev) => {
                set_staff_states(&mut self.staff, &prev.staff_ids, StaffState::Available);
                set_vehicle_states(&mut self.vehicles, &prev.vehicle_ids, VehicleState::Available);
                assert(self@.active =~= m.active.remove(active_occurrence_id@));
            },
            None => {
                assert(self@.active =~= m.active);
            },
        }
        proof {
            lemma_delete_active_consistent(m, active_occurrence_id@);
        }
        Ok(())
    }
}

} // verus!
