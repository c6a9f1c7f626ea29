use vstd::prelude::*;

use crate::ids::{drop_assignments, drop_ids};
use crate::records::lemma_single_contains;
use crate::store::{
    after_create_active, after_delete_active, after_delete_staff, after_update_active, consistent, references_exist,
    StoreView,
};
use crate::types::{ActiveOccurrenceView, AssignmentView, StaffState, VehicleState};

verus! {

/// In a consistent store no staff member and no vehicle is listed by two different active
/// occurrences. Every operation of `DataStore` keeps the store consistent.
pub proof fn law_one_active_occurrence_per_entity(m: StoreView, a: Seq<char>, b: Seq<char>, k: Seq<char>)
    requires
        consistent(m),
        m.active.contains_key(a),
        m.active.contains_key(b),
        a != b,
    ensures
        !(m.active[a].staff_ids.contains(k) && m.active[b].staff_ids.contains(k)),
        !(m.active[a].vehicle_ids.contains(k) && m.active[b].vehicle_ids.contains(k)),
{
}

/// After an active occurrence is created, every staff member and vehicle it lists is
/// dispatched.
pub proof fn law_create_dispatches(m: StoreView, a: ActiveOccurrenceView, id: Seq<char>)
    requires
        references_exist(m, a),
    ensures
        forall|k: Seq<char>| #[trigger] a.staff_ids.contains(k) ==> {
            &&& after_create_active(m, a, id).staff.contains_key(k)
            &&& after_create_active(m, a, id).staff[k].state == StaffState::Dispatched
        },
        forall|k: Seq<char>| #[trigger] a.vehicle_ids.contains(k) ==> {
            &&& after_create_active(m, a, id).vehicles.contains_key(k)
            &&& after_create_active(m, a, id).vehicles[k].state == VehicleState::Dispatched
        },
{
}

/// After an active occurrence is removed, every staff member and vehicle it listed that is
/// still present is available.
pub proof fn law_delete_releases(m: StoreView, id: Seq<char>)
    requires
        m.active.contains_key(id),
    ensures
        forall|k: Seq<char>| #[trigger] m.active[id].staff_ids.contains(k) && m.staff.contains_key(k) ==> {
            &&& after_delete_active(m, id).staff.contains_key(k)
            &&& after_delete_active(m, id).staff[k].state == StaffState::Available
        },
        forall|k: Seq<char>| #[trigger] m.active[id].vehicle_ids.contains(k) && m.vehicles.contains_key(k) ==> {
            &&& after_delete_active(m, id).vehicles.contains_key(k)
            &&& after_delete_active(m, id).vehicles[k].state == VehicleState::Available
        },
{
}

/// Replacing an active occurrence twice with the same record leaves the staff and vehicles
/// in the states that one replacement gives.
pub proof fn law_update_idempotent(m: StoreView, id: Seq<char>, a: ActiveOccurrenceView)
    requires
        m.active.contains_key(id),
    ensures
        after_update_active(after_update_active(m, id, a), id, a).staff == after_update_active(m, id, a).staff,
        after_update_active(after_update_active(m, id, a), id, a).vehicles == after_update_active(m, id, a).vehicles,
{
    let once = after_update_active(m, id, a);
    let twice = after_update_active(once, id, a);
    assert(once.active[id].staff_ids == a.staff_ids);
    assert(once.active[id].vehicle_ids == a.vehicle_ids);
    assert(twice.staff =~= once.staff);
    assert(twice.vehicles =~= once.vehicles);
}

/// The ids without `id`, order kept.
pub open spec fn without(s: Seq<Seq<char>>, id: Seq<char>) -> Seq<Seq<char>> {
    s.filter(|x: Seq<char>| x != id)
}

/// The crew entries with `id` taken out of every crew, entries and order kept.
pub open spec fn crews_without(a: Seq<AssignmentView>, id: Seq<char>) -> Seq<AssignmentView> {
    a.map_values(|e: AssignmentView| (e.0, without(e.1, id)))
}

proof fn lemma_drop_single_is_filter(s: Seq<Seq<char>>, id: Seq<char>)
    ensures
        drop_ids(s, seq![id]) == without(s, id),
    decreases s.len(),
{
    reveal(Seq::filter);
    if s.len() > 0 {
        lemma_drop_single_is_filter(s.drop_last(), id);
        lemma_single_contains(id, s.last());
    }
}

proof fn lemma_drop_nothing(s: Seq<Seq<char>>)
    ensures
        drop_ids(s, Seq::empty()) == s,
    decreases s.len(),
{
    if s.len() > 0 {
        lemma_drop_nothing(s.drop_last());
        lemma_single_contains(s.last(), s.last());
        assert(s.drop_last().push(s.last()) =~= s);
    }
}

proof fn lemma_drop_crew_member(a: Seq<AssignmentView>, id: Seq<char>)
    ensures
        drop_assignments(a, seq![id], Seq::empty()) == crews_without(a, id),
    decreases a.len(),
{
    if a.len() > 0 {
        lemma_drop_crew_member(a.drop_last(), id);
        lemma_drop_single_is_filter(a.last().1, id);
        lemma_single_contains(id, a.last().0);
        assert(crews_without(a, id) =~= crews_without(a.drop_last(), id).push((a.last().0, without(a.last().1, id))));
    } else {
        assert(crews_without(a, id) =~= a);
    }
}

/// Removing a dispatched staff member takes its id out of the staff list and out of every crew
/// of each active occurrence, keeping the order of what remains; every other field, every other
/// record and every other collection stays as it was.
pub proof fn law_delete_staff_detaches(m: StoreView, id: Seq<char>)
    requires
        m.staff.contains_key(id),
        m.staff[id].state == StaffState::Dispatched,
    ensures
        after_delete_staff(m, id).staff == m.staff.remove(id),
        after_delete_staff(m, id).vehicles == m.vehicles,
        after_delete_staff(m, id).occurrences == m.occurrences,
        after_delete_staff(m, id).active.dom() == m.active.dom(),
        forall|a: Seq<char>| #[trigger] after_delete_staff(m, id).active.contains_key(a) ==> after_delete_staff(m, id).active[a] == (ActiveOccurrenceView {
            staff_ids: without(m.active[a].staff_ids, id),
            assignments: crews_without(m.active[a].assignments, id),
            ..m.active[a]
        }),
{
    let r = after_delete_staff(m, id);
    assert(r.active.dom() =~= m.active.dom());
    assert forall|a: Seq<char>| #[trigger] r.active.contains_key(a) implies r.active[a] == (ActiveOccurrenceView {
        staff_ids: without(m.active[a].staff_ids, id),
        assignments: crews_without(m.active[a].assignments, id),
        ..m.active[a]
    }) by {
        lemma_drop_single_is_filter(m.active[a].staff_ids, id);
        lemma_drop_nothing(m.active[a].vehicle_ids);
        lemma_drop_crew_member(m.active[a].assignments, id);
    }
}

} // verus!
