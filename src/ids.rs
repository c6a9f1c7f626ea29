use vstd::prelude::*;

use crate::types::{assignments_view, ids_view, ActiveOccurrence, ActiveOccurrenceView, AssignmentView, VehicleAssignment};

verus! {

/// `s` without the ids that `d` holds, order kept.
pub open spec fn drop_ids(s: Seq<Seq<char>>, d: Seq<Seq<char>>) -> Seq<Seq<char>>
    decreases s.len(),
{
    if s.len() == 0 {
        s
    } else {
        let r = drop_ids(s.drop_last(), d);
        if d.contains(s.last()) {
            r
        } else {
            r.push(s.last())
        }
    }
}

/// Assignment entries without the vehicles of `vd`, and without the staff of `sd` in the
/// entries that stay.
pub open spec fn drop_assignments(
    a: Seq<AssignmentView>,
    sd: Seq<Seq<char>>,
    vd: Seq<Seq<char>>,
) -> Seq<AssignmentView>
    decreases a.len(),
{
    if a.len() == 0 {
        a
    } else {
        let r = drop_assignments(a.drop_last(), sd, vd);
        if vd.contains(a.last().0) {
            r
        } else {
            r.push((a.last().0, drop_ids(a.last().1, sd)))
        }
    }
}

/// An active occurrence that no longer references the staff of `sd` nor the vehicles of `vd`;
/// every other field is kept.
pub open spec fn drop_references(
    a: ActiveOccurrenceView,
    sd: Seq<Seq<char>>,
    vd: Seq<Seq<char>>,
) -> ActiveOccurrenceView {
    ActiveOccurrenceView {
        staff_ids: drop_ids(a.staff_ids, sd),
        vehicle_ids: drop_ids(a.vehicle_ids, vd),
        assignments: drop_assignments(a.assignments, sd, vd),
        ..a
    }
}

pub proof fn lemma_push_contains(s: Seq<Seq<char>>, x: Seq<char>, k: Seq<char>)
    ensures
        s.push(x).contains(k) == (s.contains(k) || x == k),
{
    if s.contains(k) {
        let i = choose|i: int| 0 <= i < s.len() && s[i] == k;
        assert(s.push(x)[i] == k);
    }
    if x == k {
        assert(s.push(x)[s.len() as int] == k);
    }
    if s.push(x).contains(k) && x != k {
        let i = choose|i: int| 0 <= i < s.push(x).len() && s.push(x)[i] == k;
        assert(s[i] == k);
    }
}

pub proof fn lemma_drop_ids_contains(s: Seq<Seq<char>>, d: Seq<Seq<char>>, k: Seq<char>)
    ensures
        drop_ids(s, d).contains(k) == (s.contains(k) && !d.contains(k)),
    decreases s.len(),
{
    if s.len() > 0 {
        let p = s.drop_last();
        lemma_drop_ids_contains(p, d, k);
        assert(s =~= p.push(s.last()));
        lemma_push_contains(p, s.last(), k);
        let r = drop_ids(p, d);
        lemma_push_contains(r, s.last(), k);
    }
}

/// True when the list holds the id.
pub fn contains_id(ids: &Vec<String>, id: &String) -> (r: bool)
    ensures
        r == ids_view(ids@).contains(id@),
{
    let mut i: usize = 0;
    while i < ids.len()
        invariant
            i <= ids@.len(),
            forall|j: int| 0 <= j < i ==> #[trigger] ids@[j]@ != id@,
        decreases ids@.len() - i,
    {
        if ids[i].eq(id) {
            assert(ids_view(ids@)[i as int] == id@);
            return true;
        }
        i = i + 1;
    }
    proof {
        if ids_view(ids@).contains(id@) {
            let j = choose|j: int| 0 <= j < ids_view(ids@).len() && ids_view(ids@)[j] == id@;
            assert(ids@[j]@ == id@);
        }
    }
    false
}

/// The list without the ids of `drop`, order kept.
pub fn without_ids(ids: &Vec<String>, drop: &Vec<String>) -> (r: Vec<String>)
    ensures
        ids_view(r@) == drop_ids(ids_view(ids@), ids_view(drop@)),
{
    let ghost dv = ids_view(drop@);
    let mut out: Vec<String> = Vec::new();
    let mut i: usize = 0;
    while i < ids.len()
        invariant
            i <= ids@.len(),
            dv == ids_view(drop@),
            ids_view(out@) == drop_ids(ids_view(ids@).subrange(0, i as int), dv),
        decreases ids@.len() - i,
    {
        let ghost pre = ids_view(ids@).subrange(0, i as int);
        let ghost next = ids_view(ids@).subrange(0, i as int + 1);
        assert(next.drop_last() =~= pre);
        assert(next.last() == ids@[i as int]@);
        if !contains_id(drop, &ids[i]) {
            let ghost before = out@;
            out.push(ids[i].clone());
            assert(ids_view(out@) =~= ids_view(before).push(ids@[i as int]@));
        }
        i = i + 1;
    }
    assert(ids_view(ids@).subrange(0, ids@.len() as int) =~= ids_view(ids@));
    out
}

/// The assignment entries without the vehicles of `vd` and without the staff of `sd`.
pub fn without_assignments(
    a: &Vec<VehicleAssignment>,
    sd: &Vec<String>,
    vd: &Vec<String>,
) -> (r: Vec<VehicleAssignment>)
    ensures
        assignments_view(r@) == drop_assignments(assignments_view(a@), ids_view(sd@), ids_view(vd@)),
{
    let ghost sv = ids_view(sd@);
    let ghost vv = ids_view(vd@);
    let mut out: Vec<VehicleAssignment> = Vec::new();
    let mut i: usize = 0;
    while i < a.len()
        invariant
            i <= a@.len(),
            sv == ids_view(sd@),
            vv == ids_view(vd@),
            assignments_view(out@) == drop_assignments(assignments_view(a@).subrange(0, i as int), sv, vv),
        decreases a@.len() - i,
    {
        let ghost pre = assignments_view(a@).subrange(0, i as int);
        let ghost next = assignments_view(a@).subrange(0, i as int + 1);
        assert(next.drop_last() =~= pre);
        assert(next.last() == (a@[i as int].vehicle_id@, ids_view(a@[i as int].staff_ids@)));
        if !contains_id(vd, &a[i].vehicle_id) {
            let entry = VehicleAssignment {
                vehicle_id: a[i].vehicle_id.clone(),
                staff_ids: without_ids(&a[i].staff_ids, sd),
            };
            let ghost before = out@;
            out.push(entry);
            assert(assignments_view(out@) =~= assignments_view(before).push(
                (a@[i as int].vehicle_id@, drop_ids(ids_view(a@[i as int].staff_ids@), sv)),
            ));
        }
        i = i + 1;
    }
    assert(assignments_view(a@).subrange(0, a@.len() as int) =~= assignments_view(a@));
    out
}

/// Removes from the active occurrence every reference to the staff of `sd` and to the
/// vehicles of `vd`.
pub fn drop_references_from(ao: &mut ActiveOccurrence, sd: &Vec<String>, vd: &Vec<String>)
    ensures
        final(ao)@ == drop_references(old(ao)@, ids_view(sd@), ids_view(vd@)),
{
    ao.staff_ids = without_ids(&ao.staff_ids, sd);
    ao.vehicle_ids = without_ids(&ao.vehicle_ids, vd);
    ao.vehicle_assignment_map = without_assignments(&ao.vehicle_assignment_map, sd, vd);
}

} // verus!
