use vstd::prelude::*;

verus! {

/// A reusable kind of field event ("structure fire", "traffic accident").
#[derive(Clone, Debug)]
pub struct Occurrence {
    pub internal_id: String,
    pub image: String,
    pub name: String,
}

#[derive(Clone, Copy, Debug, PartialEq, Eq, Structural)]
pub enum StaffRank {
    Rank0,
    Rank1,
    Rank2,
    Rank3,
    Rank4,
    Rank5,
    Rank6,
    Rank7,
    Rank8,
    Unknown,
}

#[derive(Clone, Copy, Debug, PartialEq, Eq, Structural)]
pub enum StaffState {
    Available,
    Dispatched,
    Inactive,
    SickLeave,
    Unavailable,
}

#[derive(Clone, Copy, Debug, PartialEq, Eq, Structural)]
pub enum StaffPermission {
    All,
    Shift,
    Own,
    NoAccess,
}

/// Permission given to a staff record that does not name one.
pub fn default_permission() -> (r: StaffPermission)
    ensures
        r == StaffPermission::Own,
{
    StaffPermission::Own
}

/// Rank given to a staff record that does not name one.
pub fn default_rank() -> (r: StaffRank)
    ensures
        r == StaffRank::Unknown,
{
    StaffRank::Unknown
}

/// National id given to a staff record that does not name one: empty.
pub fn default_national_id() -> (r: String)
    ensures
        r@ == Seq::<char>::empty(),
{
    String::new()
}

#[derive(Clone, Debug)]
pub struct Staff {
    pub internal_id: String,
    pub image: String,
    pub label: String,
    pub name: String,
    pub national_id: String,
    pub permission: StaffPermission,
    pub rank: StaffRank,
    pub state: StaffState,
}

#[derive(Clone, Copy, Debug, PartialEq, Eq, Structural)]
pub enum VehicleState {
    Available,
    Dispatched,
    Unavailable,
}

#[derive(Clone, Copy, Debug, PartialEq, Eq, Structural)]
pub enum VehicleCategory {
    Ambulances,
    Command,
    FireFight,
    Support,
    Trailers,
    Vessels,
    Unknown,
}

/// Category given to a vehicle record that does not name one.
pub fn default_category() -> (r: VehicleCategory)
    ensures
        r == VehicleCategory::Unknown,
{
    VehicleCategory::Unknown
}

#[derive(Clone, Debug)]
pub struct Vehicle {
    pub internal_id: String,
    pub capacity: Option<u8>,
    pub category: VehicleCategory,
    pub image: String,
    pub label: String,
    pub license_plate: Option<String>,
    pub state: VehicleState,
}

/// The crew riding one vehicle of a dispatch, in announcement order.
#[derive(Clone, Debug)]
pub struct VehicleAssignment {
    pub vehicle_id: String,
    pub staff_ids: Vec<String>,
}

/// One in-progress dispatch: an occurrence with the staff and vehicles sent to it.
#[derive(Clone, Debug)]
pub struct ActiveOccurrence {
    pub address: Option<String>,
    pub codu_number: Option<String>,
    pub creation_time: Option<u128>,
    pub description: Option<String>,
    pub internal_id: String,
    pub location: Option<String>,
    pub occurrence_id: String,
    pub reference_point: Option<String>,
    pub staff_ids: Vec<String>,
    pub vehicle_assignment_map: Vec<VehicleAssignment>,
    pub vehicle_ids: Vec<String>,
    pub vmer_siv: Option<bool>,
}

/// The ids of a list, as character sequences.
pub open spec fn ids_view(v: Seq<String>) -> Seq<Seq<char>> {
    v.map_values(|s: String| s@)
}

/// What an assignment entry says: a vehicle id and the staff ids riding it.
pub type AssignmentView = (Seq<char>, Seq<Seq<char>>);

pub open spec fn assignments_view(v: Seq<VehicleAssignment>) -> Seq<AssignmentView> {
    v.map_values(|a: VehicleAssignment| (a.vehicle_id@, ids_view(a.staff_ids@)))
}

/// The abstract content of an active occurrence.
pub struct ActiveOccurrenceView {
    pub address: Option<String>,
    pub codu_number: Option<String>,
    pub creation_time: Option<u128>,
    pub description: Option<String>,
    pub internal_id: Seq<char>,
    pub location: Option<String>,
    pub occurrence_id: Seq<char>,
    pub reference_point: Option<String>,
    pub staff_ids: Seq<Seq<char>>,
    pub assignments: Seq<AssignmentView>,
    pub vehicle_ids: Seq<Seq<char>>,
    pub vmer_siv: Option<bool>,
}

impl View for ActiveOccurrence {
    type V = ActiveOccurrenceView;

    open spec fn view(&self) -> ActiveOccurrenceView {
        ActiveOccurrenceView {
            address: self.address,
            codu_number: self.codu_number,
            creation_time: self.creation_time,
            description: self.description,
            internal_id: self.internal_id@,
            location: self.location,
            occurrence_id: self.occurrence_id@,
            reference_point: self.reference_point,
            staff_ids: ids_view(self.staff_ids@),
            assignments: assignments_view(self.vehicle_assignment_map@),
            vehicle_ids: ids_view(self.vehicle_ids@),
            vmer_siv: self.vmer_siv,
        }
    }
}

/// The kinds of failure that the store and the announcement logic report.
#[derive(Clone, Copy, Debug, PartialEq, Eq, Structural)]
pub enum FirefightError {
    /// A referenced id is missing.
    NotFound,
    /// Persisting or loading a collection failed.
    StoreError,
    /// The speech provider failed.
    SynthesisError,
    /// Reading or writing the audio cache failed.
    CacheError,
    /// The request contradicts the store's rules.
    ValidationError,
}

impl FirefightError {
    /// A human-readable message for the error.
    pub fn message(&self) -> (r: &'static str) {
        match self {
            FirefightError::NotFound => "referenced id not found",
            FirefightError::StoreError => "store read or write failed",
            FirefightError::SynthesisError => "speech synthesis failed",
            FirefightError::CacheError => "audio cache access failed",
            FirefightError::ValidationError => "request rejected by validation",
        }
    }
}

} // verus!
