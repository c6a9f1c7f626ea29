use vstd::prelude::*;

use crate::ids::{drop_references, lemma_drop_ids_contains};
use crate::store::{
    after_delete_staff, after_delete_vehicle, after_staff_shift, consistent, drop_references_everywhere, shift_state,
    staff_referenced, vehicle_referenced, DataStore, StoreView,
};
use crate::dispatch::new_id;
use crate::ids::contains_id;
use crate::table::{index_of, lemma_key_map_pointwise};
use crate::types::{ids_view, ActiveOccurrenceView, FirefightError, Occurrence, Staff, StaffState, Vehicle, VehicleState};

verus! {

pub proof fn lemma_drop_references_contains(
    a: ActiveOccurrenceView,
    sd: Seq<Seq<char>>,
    vd: Seq<Seq<char>>,
    k: Seq<char>,
)
    ensures
        drop_references(a, sd, vd).staff_ids.contains(k) == (a.staff_ids.contains(k) && !sd.contains(k)),
        drop_references(a, sd, vd).vehicle_ids.contains(k) == (a.vehicle_ids.contains(k) && !vd.contains(k)),
{
    lemma_drop_ids_contains(a.staff_ids, sd, k);
    lemma_drop_ids_contains(a.vehicle_ids, vd, k);
}

pub proof fn lemma_single_contains(id: Seq<char>, k: Seq<char>)
    ensures
        seq![id].contains(k) == (k == id),
        !Seq::<Seq<char>>::empty().contains(k),
{
    if k == id {
        assert(seq![id][0] == k);
    }
}

/// Removing a staff member keeps the store consistent.
pub proof fn lemma_delete_staff_consistent(m: StoreView, id: Seq<char>)
    requires
        consistent(m),
    ensures
        consistent(after_delete_staff(m, id)),
{
    let r = after_delete_staff(m, id);
    if m.staff.contains_key(id) {
        if m.staff[id].state == StaffState::Dispatched {
            let sd = seq![id];
            let vd = Seq::<Seq<char>>::empty();
            assert forall|a: Seq<char>, k: Seq<char>| r.active.contains_key(a) implies
                #[trigger] r.active[a].staff_ids.contains(k) == (m.active[a].staff_ids.contains(k) && k != id) by {
                lemma_drop_references_contains(m.active[a], sd, vd, k);
                lemma_single_contains(id, k);
            }
            assert forall|a: Seq<char>, k: Seq<char>| r.active.contains_key(a) implies
                #[trigger] r.active[a].vehicle_ids.contains(k) == m.active[a].vehicle_ids.contains(k) by {
                lemma_drop_references_contains(m.active[a], sd, vd, k);
                lemma_single_contains(id, k);
            }
            assert forall|k: Seq<char>|
                #[trigger] r.staff.contains_key(k) && r.staff[k].state == StaffState::Dispatched implies staff_referenced(r, k) by {
                let a = choose|a: Seq<char>| m.active.contains_key(a) && #[trigger] m.active[a].staff_ids.contains(k);
                lemma_drop_references_contains(m.active[a], sd, vd, k);
                lemma_single_contains(id, k);
                assert(r.active.contains_key(a));
                assert(r.active[a].staff_ids.contains(k));
            }
            assert forall|k: Seq<char>|
                #[trigger] r.vehicles.contains_key(k) && r.vehicles[k].state == VehicleState::Dispatched implies vehicle_referenced(r, k) by {
                let a = choose|a: Seq<char>| m.active.contains_key(a) && #[trigger] m.active[a].vehicle_ids.contains(k);
                lemma_drop_references_contains(m.active[a], sd, vd, k);
                lemma_single_contains(id, k);
                assert(r.active.contains_key(a));
                assert(r.active[a].vehicle_ids.contains(k));
            }
        } else {
            assert forall|k: Seq<char>|
                #[trigger] r.staff.contains_key(k) && r.staff[k].state == StaffState::Dispatched implies staff_referenced(r, k) by {
                assert(m.staff.contains_key(k));
            }
        }
    }
}

/// Removing a vehicle keeps the store consistent.
pub proof fn lemma_delete_vehicle_consistent(m: StoreView, id: Seq<char>)
    requires
        consistent(m),
    ensures
        consistent(after_delete_vehicle(m, id)),
{
    let r = after_delete_vehicle(m, id);
    if m.vehicles.contains_key(id) {
        if m.vehicles[id].state == VehicleState::Dispatched {
            let sd = Seq::<Seq<char>>::empty();
            let vd = seq![id];
            assert forall|a: Seq<char>, k: Seq<char>| r.active.contains_key(a) implies
                #[trigger] r.active[a].staff_ids.contains(k) == m.active[a].staff_ids.contains(k) by {
                lemma_drop_references_contains(m.active[a], sd, vd, k);
                lemma_single_contains(id, k);
            }
            assert forall|a: Seq<char>, k: Seq<char>| r.active.contains_key(a) implies
                #[trigger] r.active[a].vehicle_ids.contains(k) == (m.active[a].vehicle_ids.contains(k) && k != id) by {
                lemma_drop_references_contains(m.active[a], sd, vd, k);
                lemma_single_contains(id, k);
            }
            assert forall|k: Seq<char>|
                #[trigger] r.staff.contains_key(k) && r.staff[k].state == StaffState::Dispatched implies staff_referenced(r, k) by {
                let a = choose|a: Seq<char>| m.active.contains_key(a) && #[trigger] m.active[a].staff_ids.contains(k);
                lemma_drop_references_contains(m.active[a], sd, vd, k);
                lemma_single_contains(id, k);
                assert(r.active.contains_key(a));
                assert(r.active[a].staff_ids.contains(k));
            }
            assert forall|k: Seq<char>|
                #[trigger] r.vehicles.contains_key(k) && r.vehicles[k].state == VehicleState::Dispatched implies vehicle_referenced(r, k) by {
                let a = choose|a: Seq<char>| m.active.contains_key(a) && #[trigger] m.active[a].vehicle_ids.contains(k);
                lemma_drop_references_contains(m.active[a], sd, vd, k);
                lemma_single_contains(id, k);
                assert(r.active.contains_key(a));
                assert(r.active[a].vehicle_ids.contains(k));
            }
        } else {
            assert forall|k: Seq<char>|
                #[trigger] r.vehicles.contains_key(k) && r.vehicles[k].state == VehicleState::Dispatched implies vehicle_referenced(r, k) by {
                assert(m.vehicles.contains_key(k));
            }
        }
    }
}

/// A shift keeps the store consistent.
pub proof fn lemma_staff_shift_consistent(m: StoreView, available: Seq<Seq<char>>)
    requires
        consistent(m),
    ensures
        consistent(after_staff_shift(m, available)),
{
    let r = after_staff_shift(m, available);
    assert forall|k: Seq<char>|
        #[trigger] r.staff.contains_key(k) && r.staff[k].state == StaffState::Dispatched implies staff_referenced(r, k) by {
        assert(m.staff[k].state == StaffState::Dispatched);
    }
}

impl DataStore {
    /// Adds occurrence `occurrence` under the id `id`, which must be new.
    pub fn create_occurrence_with_id(&mut self, occurrence: Occurrence, id: String) -> (r: Result<String, FirefightError>)
        requires
            old(self).inv(),
        ensures
            final(self).inv(),
            match r {
                Ok(k) => k@ == id@ && !old(self)@.occurrences.contains_key(id@) && final(self)@ == (StoreView {
                    occurrences: old(self)@.occurrences.insert(id@, Occurrence { internal_id: id, ..occurrence }),
                    ..old(self)@
                }),
                Err(e) => e == FirefightError::ValidationError && old(self)@.occurrences.contains_key(id@)
                    && *final(self) == *old(self),
            },
    {
        if self.occurrences.find(&id).is_some() {
            return Err(FirefightError::ValidationError);
        }
        let r = id.clone();
        let mut occurrence = occurrence;
        occurrence.internal_id = id;
        self.occurrences.push_new(occurrence);
        Ok(r)
    }

    /// Adds staff member `staff` under the id `id`, which must be new. A new record cannot
    /// start out dispatched.
    pub fn create_staff_with_id(&mut self, staff: Staff, id: String) -> (r: Result<String, FirefightError>)
        requires
            old(self).inv(),
        ensures
            final(self).inv(),
            match r {
                Ok(k) => k@ == id@ && !old(self)@.staff.contains_key(id@) && staff.state != StaffState::Dispatched
                    && final(self)@ == (StoreView {
                    staff: old(self)@.staff.insert(id@, Staff { internal_id: id, ..staff }),
                    ..old(self)@
                }),
                Err(e) => e == FirefightError::ValidationError
                    && (old(self)@.staff.contains_key(id@) || staff.state == StaffState::Dispatched)
                    && *final(self) == *old(self),
            },
    {
        if self.staff.find(&id).is_some() || staff.state == StaffState::Dispatched {
            return Err(FirefightError::ValidationError);
        }
        let r = id.clone();
        let mut staff = staff;
        staff.internal_id = id;
        self.staff.push_new(staff);
        proof {
            let m = old(self)@;
            let n = self@;
            assert forall|k: Seq<char>|
                #[trigger] n.staff.contains_key(k) && n.staff[k].state == StaffState::Dispatched implies staff_referenced(n, k) by {
                assert(m.staff.contains_key(k));
            }
        }
        Ok(r)
    }

    /// Adds vehicle `vehicle` under the id `id`, which must be new. A new record cannot start
    /// out dispatched.
    pub fn create_vehicle_with_id(&mut self, vehicle: Vehicle, id: String) -> (r: Result<String, FirefightError>)
        requires
            old(self).inv(),
        ensures
            final(self).inv(),
            match r {
                Ok(k) => k@ == id@ && !old(self)@.vehicles.contains_key(id@) && vehicle.state != VehicleState::Dispatched
                    && final(self)@ == (StoreView {
                    vehicles: old(self)@.vehicles.insert(id@, Vehicle { internal_id: id, ..vehicle }),
                    ..old(self)@
                }),
                Err(e) => e == FirefightError::ValidationError
                    && (old(self)@.vehicles.contains_key(id@) || vehicle.state == VehicleState::Dispatched)
                    && *final(self) == *old(self),
            },
    {
        if self.vehicles.find(&id).is_some() || vehicle.state == VehicleState::Dispatched {
            return Err(FirefightError::ValidationError);
        }
        let r = id.clone();
        let mut vehicle = vehicle;
        vehicle.internal_id = id;
        self.vehicles.push_new(vehicle);
        proof {
            let m = old(self)@;
            let n = self@;
            assert forall|k: Seq<char>|
                #[trigger] n.vehicles.contains_key(k) && n.vehicles[k].state == VehicleState::Dispatched implies vehicle_referenced(n, k) by {
                assert(m.vehicles.contains_key(k));
            }
        }
        Ok(r)
    }

    /// Stores occurrence `occurrence` under `occurrence_id`, handing back the record it replaces.
    pub fn update_occurrence(&mut self, occurrence_id: &String, occurrence: Occurrence) -> (r: Result<Option<Occurrence>, FirefightError>)
        requires
            old(self).inv(),
        ensures
            final(self).inv(),
            final(self)@ == (StoreView {
                occurrences: old(self)@.occurrences.insert(
                    occurrence_id@,
                    Occurrence { internal_id: final(self)@.occurrences[occurrence_id@].internal_id, ..occurrence },
                ),
                ..old(self)@
            }),
            final(self)@.occurrences[occurrence_id@].internal_id@ == occurrence_id@,
            r == Ok::<Option<Occurrence>, FirefightError>(
                if old(self)@.occurrences.contains_key(occurrence_id@) {
                    Some(old(self)@.occurrences[occurrence_id@])
                } else {
                    None
                },
            ),
    {
        let mut occurrence = occurrence;
        occurrence.internal_id = occurrence_id.clone();
        match self.occurrences.find(occurrence_id) {
            Some(p) => {
                let prev = self.occurrences.replace_at(p, occurrence);
                Ok(Some(prev))
            },
            None => {
                self.occurrences.push_new(occurrence);
                Ok(None)
            },
        }
    }

    /// Stores staff member `staff` under `staff_id`, handing back the record it replaces. The
    /// dispatched state belongs to the assignment logic: the new record is dispatched exactly
    /// when the one it replaces is.
    pub fn update_staff(&mut self, staff_id: &String, staff: Staff) -> (r: Result<Option<Staff>, FirefightError>)
        requires
            old(self).inv(),
        ensures
            final(self).inv(),
            ({
                let was_dispatched = old(self)@.staff.contains_key(staff_id@)
                    && old(self)@.staff[staff_id@].state == StaffState::Dispatched;
                match r {
                    Ok(prev) => (staff.state == StaffState::Dispatched) == was_dispatched
                        && final(self)@ == (StoreView {
                            staff: old(self)@.staff.insert(
                                staff_id@,
                                Staff { internal_id: final(self)@.staff[staff_id@].internal_id, ..staff },
                            ),
                            ..old(self)@
                        })
                        && final(self)@.staff[staff_id@].internal_id@ == staff_id@
                        && prev == if old(self)@.staff.contains_key(staff_id@) {
                            Some(old(self)@.staff[staff_id@])
                        } else {
                            None
                        },
                    Err(e) => e == FirefightError::ValidationError
                        && (staff.state == StaffState::Dispatched) != was_dispatched
                        && *final(self) == *old(self),
                }
            }),
    {
        let was_dispatched = match self.staff.get(staff_id) {
            Some(s) => s.state == StaffState::Dispatched,
            None => false,
        };
        if (staff.state == StaffState::Dispatched) != was_dispatched {
            return Err(FirefightError::ValidationError);
        }
        let mut staff = staff;
        staff.internal_id = staff_id.clone();
        let r = match self.staff.find(staff_id) {
            Some(p) => Some(self.staff.replace_at(p, staff)),
            None => {
                self.staff.push_new(staff);
                None
            },
        };
        proof {
            let m = old(self)@;
            let n = self@;
            assert forall|k: Seq<char>|
                #[trigger] n.staff.contains_key(k) && n.staff[k].state == StaffState::Dispatched implies staff_referenced(n, k) by {
                assert(m.staff.contains_key(k) && m.staff[k].state == StaffState::Dispatched);
            }
        }
        Ok(r)
    }

    /// Stores vehicle `vehicle` under `vehicle_id`, handing back the record it replaces. The new
    /// record is dispatched exactly when the one it replaces is.
    pub fn update_vehicle(&mut self, vehicle_id: &String, vehicle: Vehicle) -> (r: Result<Option<Vehicle>, FirefightError>)
        requires
            old(self).inv(),
        ensures
            final(self).inv(),
            ({
                let was_dispatched = old(self)@.vehicles.contains_key(vehicle_id@)
                    && old(self)@.vehicles[vehicle_id@].state == VehicleState::Dispatched;
                match r {
                    Ok(prev) => (vehicle.state == VehicleState::Dispatched) == was_dispatched
                        && final(self)@ == (StoreView {
                            vehicles: old(self)@.vehicles.insert(
                                vehicle_id@,
                                Vehicle { internal_id: final(self)@.vehicles[vehicle_id@].internal_id, ..vehicle },
                            ),
                            ..old(self)@
                        })
                        && final(self)@.vehicles[vehicle_id@].internal_id@ == vehicle_id@
                        && prev == if old(self)@.vehicles.contains_key(vehicle_id@) {
                            Some(old(self)@.vehicles[vehicle_id@])
                        } else {
                            None
                        },
                    Err(e) => e == FirefightError::ValidationError
                        && (vehicle.state == VehicleState::Dispatched) != was_dispatched
                        && *final(self) == *old(self),
                }
            }),
    {
        let was_dispatched = match self.vehicles.get(vehicle_id) {
            Some(v) => v.state == VehicleState::Dispatched,
            None => false,
        };
        if (vehicle.state == VehicleState::Dispatched) != was_dispatched {
            return Err(FirefightError::ValidationError);
        }
        let mut vehicle = vehicle;
        vehicle.internal_id = vehicle_id.clone();
        let r = match self.vehicles.find(vehicle_id) {
            Some(p) => Some(self.vehicles.replace_at(p, vehicle)),
            None => {
                self.vehicles.push_new(vehicle);
                None
            },
        };
        proof {
            let m = old(self)@;
            let n = self@;
            assert forall|k: Seq<char>|
                #[trigger] n.vehicles.contains_key(k) && n.vehicles[k].state == VehicleState::Dispatched implies vehicle_referenced(n, k) by {
                assert(m.vehicles.contains_key(k) && m.vehicles[k].state == VehicleState::Dispatched);
            }
        }
        Ok(r)
    }

    /// Removes occurrence `occurrence_id`; active occurrences that name it keep the reference.
    pub fn delete_occurrence(&mut self, occurrence_id: &String) -> (r: Result<(), FirefightError>)
        requires
            old(self).inv(),
        ensures
            final(self).inv(),
            r.is_ok(),
            final(self)@ == (StoreView { occurrences: old(self)@.occurrences.remove(occurrence_id@), ..old(self)@ }),
    {
        let _ = self.occurrences.remove(occurrence_id);
        Ok(())
    }

    /// Removes staff member `staff_id`; a dispatched one also leaves its active occurrence and
    /// vehicle crew.
    pub fn delete_staff(&mut self, staff_id: &String) -> (r: Result<(), FirefightError>)
        requires
            old(self).inv(),
        ensures
            final(self).inv(),
            r.is_ok(),
            final(self)@ == after_delete_staff(old(self)@, staff_id@),
    {
        let removed = self.staff.remove(staff_id);
        match removed {
            Some(s) => {
                if s.state == StaffState::Dispatched {
                    let mut sd: Vec<String> = Vec::new();
                    sd.push(staff_id.clone());
                    let vd: Vec<String> = Vec::new();
                    drop_references_everywhere(&mut self.active_occurrences, &sd, &vd);
                    assert(ids_view(sd@) =~= seq![staff_id@]);
                    assert(ids_view(vd@) =~= Seq::<Seq<char>>::empty());
                }
            },
            None => {},
        }
        proof {
            lemma_delete_staff_consistent(old(self)@, staff_id@);
        }
        assert(self@.staff =~= after_delete_staff(old(self)@, staff_id@).staff);
        assert(self@.active =~= after_delete_staff(old(self)@, staff_id@).active);
        Ok(())
    }

    /// Removes vehicle `vehicle_id`; a dispatched one also leaves its active occurrence, with
    /// its crew entry.
    pub fn delete_vehicle(&mut self, vehicle_id: &String) -> (r: Result<(), FirefightError>)
        requires
            old(self).inv(),
        ensures
            final(self).inv(),
            r.is_ok(),
            final(self)@ == after_delete_vehicle(old(self)@, vehicle_id@),
    {
        let removed = self.vehicles.remove(vehicle_id);
        match removed {
            Some(v) => {
                if v.state == VehicleState::Dispatched {
                    let sd: Vec<String> = Vec::new();
                    let mut vd: Vec<String> = Vec::new();
                    vd.push(vehicle_id.clone());
                    drop_references_everywhere(&mut self.active_occurrences, &sd, &vd);
                    assert(ids_view(sd@) =~= Seq::<Seq<char>>::empty());
                    assert(ids_view(vd@) =~= seq![vehicle_id@]);
                }
            },
            None => {},
        }
        proof {
            lemma_delete_vehicle_consistent(old(self)@, vehicle_id@);
        }
        assert(self@.vehicles =~= after_delete_vehicle(old(self)@, vehicle_id@).vehicles);
        assert(self@.active =~= after_delete_vehicle(old(self)@, vehicle_id@).active);
        Ok(())
    }

    /// Starts a shift: staff that are available or unavailable become available when listed in
    /// `available_staff` and unavailable otherwise; staff in any other state are left alone.
    pub fn set_staff_shift(&mut self, available_staff: Vec<String>) -> (r: Result<(), FirefightError>)
        requires
            old(self).inv(),
        ensures
            final(self).inv(),
            r.is_ok(),
            final(self)@ == after_staff_shift(old(self)@, ids_view(available_staff@)),
    {
        let ghost s = self.staff.entries@;
        let ghost av = ids_view(available_staff@);
        let mut i: usize = 0;
        while i < self.staff.entries.len()
            invariant
                i <= s.len(),
                self.staff.entries@.len() == s.len(),
                av == ids_view(available_staff@),
                self.active_occurrences == old(self).active_occurrences,
                self.occurrences == old(self).occurrences,
                self.vehicles == old(self).vehicles,
                s == old(self).staff.entries@,
                forall|j: int| 0 <= j < i ==> #[trigger] self.staff.entries@[j] == shift_state(s[j], av),
                forall|j: int| i <= j < s.len() ==> #[trigger] self.staff.entries@[j] == s[j],
            decreases s.len() - i,
        {
            let st = self.staff.entries[i].state;
            if st == StaffState::Available || st == StaffState::Unavailable {
                let listed = contains_id(&available_staff, &self.staff.entries[i].internal_id);
                self.staff.entries[i].state = if listed {
                    StaffState::Available
                } else {
                    StaffState::Unavailable
                };
            }
            i = i + 1;
        }
        proof {
            lemma_key_map_pointwise(s, self.staff.entries@);
            lemma_staff_shift_consistent(old(self)@, av);
            assert forall|k: Seq<char>| #[trigger] self@.staff.contains_key(k) implies self@.staff[k] == shift_state(
                old(self)@.staff[k],
                av,
            ) by {
                let j = index_of(s, k);
            }
            assert(self@.staff =~= after_staff_shift(old(self)@, av).staff);
        }
        Ok(())
    }

    /// Adds `occurrence` under a freshly generated id, which it hands back.
    pub fn create_occurrence(&mut self, occurrence: Occurrence) -> (r: Result<String, FirefightError>)
        requires
            old(self).inv(),
        ensures
            final(self).inv(),
            match r {
                Ok(k) => !old(self)@.occurrences.contains_key(k@) && final(self)@.occurrences[k@].internal_id@ == k@
                    && final(self)@ == (StoreView {
                    occurrences: old(self)@.occurrences.insert(
                        k@,
                        Occurrence { internal_id: final(self)@.occurrences[k@].internal_id, ..occurrence },
                    ),
                    ..old(self)@
                }),
                Err(e) => e == FirefightError::ValidationError && *final(self) == *old(self),
            },
            (forall|k: Seq<char>| #[trigger] old(self)@.occurrences.contains_key(k) ==> k.len() != 36) ==> r is Ok,
    {
        let id = new_id();
        self.create_occurrence_with_id(occurrence, id)
    }

    /// Adds `staff` under a freshly generated id, which it hands back. A new record cannot start
    /// out dispatched.
    pub fn create_staff(&mut self, staff: Staff) -> (r: Result<String, FirefightError>)
        requires
            old(self).inv(),
        ensures
            final(self).inv(),
            match r {
                Ok(k) => !old(self)@.staff.contains_key(k@) && final(self)@.staff[k@].internal_id@ == k@
                    && final(self)@ == (StoreView {
                    staff: old(self)@.staff.insert(k@, Staff { internal_id: final(self)@.staff[k@].internal_id, ..staff }),
                    ..old(self)@
                }),
                Err(e) => e == FirefightError::ValidationError && *final(self) == *old(self),
            },
            staff.state == StaffState::Dispatched ==> r == Err::<String, FirefightError>(FirefightError::ValidationError),
            staff.state != StaffState::Dispatched && (forall|k: Seq<char>| #[trigger] old(self)@.staff.contains_key(k) ==> k.len() != 36) ==> r is Ok,
    {
        let id = new_id();
        self.create_staff_with_id(staff, id)
    }

    /// Adds `vehicle` under a freshly generated id, which it hands back. A new record cannot
    /// start out dispatched.
    pub fn create_vehicle(&mut self, vehicle: Vehicle) -> (r: Result<String, FirefightError>)
        requires
            old(self).inv(),
        ensures
            final(self).inv(),
            match r {
                Ok(k) => !old(self)@.vehicles.contains_key(k@) && final(self)@.vehicles[k@].internal_id@ == k@
                    && final(self)@ == (StoreView {
                    vehicles: old(self)@.vehicles.insert(
                        k@,
                        Vehicle { internal_id: final(self)@.vehicles[k@].internal_id, ..vehicle },
                    ),
                    ..old(self)@
                }),
                Err(e) => e == FirefightError::ValidationError && *final(self) == *old(self),
            },
            vehicle.state == VehicleState::Dispatched ==> r == Err::<String, FirefightError>(FirefightError::ValidationError),
            vehicle.state != VehicleState::Dispatched && (forall|k: Seq<char>| #[trigger] old(self)@.vehicles.contains_key(k) ==> k.len() != 36) ==> r is Ok,
    {
        let id = new_id();
        self.create_vehicle_with_id(vehicle, id)
    }
}

} // verus!
