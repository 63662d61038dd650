//! What holds of the services over every input: the operations of
//! `Registry` state their effect as the transitions of `RegistryView` used
//! here.
use crate::records::{AuctionPayload, DoctorPayload, PatientPayload, RoomPayload};
use crate::service::RegistryView;
use vstd::prelude::*;

verus! {

/// Creating a record of any kind and then looking up the id it was given
/// finds the record that creation made.
pub proof fn law_create_then_get(
    g: RegistryView,
    patient: PatientPayload,
    doctor: DoctorPayload,
    room: RoomPayload,
    auction: AuctionPayload,
    now: u64,
)
    requires
        g.wf(),
    ensures
        patient.complete() ==> g.create_patient(patient, now).patients[g.fresh_id()]
            == patient.record(g.fresh_id(), now) && g.create_patient(
            patient,
            now,
        ).patients.contains_key(g.fresh_id()),
        doctor.complete() ==> g.create_doctor(doctor).doctors[g.fresh_id()] == doctor.record(
            g.fresh_id(),
        ) && g.create_doctor(doctor).doctors.contains_key(g.fresh_id()),
        room.complete() ==> g.create_room(room).rooms[g.fresh_id()] == room.record(g.fresh_id())
            && g.create_room(room).rooms.contains_key(g.fresh_id()),
        auction.complete() ==> g.create_auction(auction, now).auctions[g.fresh_id()]
            == auction.record(g.fresh_id(), now) && g.create_auction(
            auction,
            now,
        ).auctions.contains_key(g.fresh_id()),
{
}

/// No collection holds 0, nor an id that the counter has not handed out
/// yet.
pub proof fn law_unissued_ids_absent(g: RegistryView, id: u64)
    requires
        g.wf(),
        id == 0 || id > g.last_id,
    ensures
        !g.patients.contains_key(id),
        !g.doctors.contains_key(id),
        !g.rooms.contains_key(id),
        !g.auctions.contains_key(id),
{
}

/// Only creation brings an id into a collection, and only the id it hands
/// out: updates and deletions bring none.
pub proof fn law_only_creation_adds_ids(
    g: RegistryView,
    id: u64,
    k: u64,
    patient: PatientPayload,
    doctor: DoctorPayload,
    room: RoomPayload,
    now: u64,
)
    requires
        g.wf(),
    ensures
        g.create_patient(patient, now).patients.contains_key(k) ==> g.patients.contains_key(k)
            || k == g.fresh_id(),
        g.update_patient(id, patient).patients.contains_key(k) ==> g.patients.contains_key(k),
        g.delete_patient(id).patients.contains_key(k) ==> g.patients.contains_key(k),
        g.create_doctor(doctor).doctors.contains_key(k) ==> g.doctors.contains_key(k) || k
            == g.fresh_id(),
        g.update_doctor(id, doctor).doctors.contains_key(k) ==> g.doctors.contains_key(k),
        g.delete_doctor(id).doctors.contains_key(k) ==> g.doctors.contains_key(k),
        g.create_room(room).rooms.contains_key(k) ==> g.rooms.contains_key(k) || k
            == g.fresh_id(),
        g.update_room(id, room).rooms.contains_key(k) ==> g.rooms.contains_key(k),
        g.delete_room(id).rooms.contains_key(k) ==> g.rooms.contains_key(k),
{
}

/// The state after the counter has handed out `n` more ids.
pub open spec fn advance(g: RegistryView, n: nat) -> RegistryView
    decreases n,
{
    if n == 0 {
        g
    } else {
        advance(g, (n - 1) as nat).next_id()
    }
}

/// The ids that `n` successive calls of the counter hand out, in order.
pub open spec fn ids_handed_out(g: RegistryView, n: nat) -> Seq<u64>
    decreases n,
{
    if n == 0 {
        Seq::empty()
    } else {
        ids_handed_out(g, (n - 1) as nat).push(advance(g, (n - 1) as nat).fresh_id())
    }
}

proof fn lemma_ids_handed_out(g: RegistryView, n: nat)
    requires
        g.last_id + n <= u64::MAX,
    ensures
        advance(g, n).last_id == g.last_id + n,
        ids_handed_out(g, n).len() == n,
        forall|i: int| 0 <= i < n ==> #[trigger] ids_handed_out(g, n)[i] == g.last_id + 1 + i,
    decreases n,
{
    if n > 0 {
        lemma_ids_handed_out(g, (n - 1) as nat);
    }
}

/// `n` successive calls of the counter hand out `n` ids, each greater than
/// the one before, so no two alike.
pub proof fn law_ids_increase(g: RegistryView, n: nat)
    requires
        g.last_id + n <= u64::MAX,
    ensures
        ids_handed_out(g, n).len() == n,
        forall|i: int, j: int|
            0 <= i < j < n ==> #[trigger] ids_handed_out(g, n)[i] < #[trigger] ids_handed_out(
                g,
                n,
            )[j],
        forall|i: int, j: int|
            0 <= i < n && 0 <= j < n && i != j ==> #[trigger] ids_handed_out(g, n)[i]
                != #[trigger] ids_handed_out(g, n)[j],
{
    lemma_ids_handed_out(g, n);
}

/// Updating an id that a collection does not hold changes nothing, so the
/// collection keeps its size.
pub proof fn law_update_absent(
    g: RegistryView,
    id: u64,
    patient: PatientPayload,
    doctor: DoctorPayload,
    room: RoomPayload,
)
    requires
        g.wf(),
    ensures
        !g.patients.contains_key(id) ==> g.update_patient(id, patient) == g && g.update_patient(
            id,
            patient,
        ).patients.len() == g.patients.len(),
        !g.doctors.contains_key(id) ==> g.update_doctor(id, doctor) == g && g.update_doctor(
            id,
            doctor,
        ).doctors.len() == g.doctors.len(),
        !g.rooms.contains_key(id) ==> g.update_room(id, room) == g && g.update_room(
            id,
            room,
        ).rooms.len() == g.rooms.len(),
{
}

/// Updating a patient keeps its id and registration time and takes every
/// detail from the payload.
pub proof fn law_update_patient_present(g: RegistryView, id: u64, payload: PatientPayload)
    requires
        g.wf(),
        g.patients.contains_key(id),
        payload.complete(),
    ensures
        ({
            let p = g.update_patient(id, payload).patients[id];
            &&& p.id == id
            &&& p.registered_on == g.patients[id].registered_on
            &&& p.name == payload.name@
            &&& p.date_of_birth == payload.date_of_birth@
            &&& p.age == payload.age
            &&& p.gender == payload.gender@
            &&& p.ethncity == payload.ethncity@
            &&& p.address == payload.address@
            &&& p.phone_number == payload.phone_number@
            &&& p.email == payload.email@
            &&& p.next_of_kin == payload.next_of_kin@
            &&& p.kins_phone_number == payload.kins_phone_number@
        }),
        g.update_patient(id, payload).patients.dom() == g.patients.dom(),
{
    assert(g.update_patient(id, payload).patients.dom() =~= g.patients.dom());
}

/// Updating a doctor keeps its id and its current patient and takes every
/// detail from the payload.
pub proof fn law_update_doctor_present(g: RegistryView, id: u64, payload: DoctorPayload)
    requires
        g.wf(),
        g.doctors.contains_key(id),
        payload.complete(),
    ensures
        ({
            let d = g.update_doctor(id, payload).doctors[id];
            &&& d.id == id
            &&& d.current_patient == g.doctors[id].current_patient
            &&& d.name == payload.name@
            &&& d.email == payload.email@
            &&& d.phone_number == payload.phone_number@
            &&& d.speciality == payload.speciality@
        }),
        g.update_doctor(id, payload).doctors.dom() == g.doctors.dom(),
{
    assert(g.update_doctor(id, payload).doctors.dom() =~= g.doctors.dom());
}

/// Updating a room keeps its id and its equipment, which no payload
/// covers, and takes its name, location and doctor from the payload.
pub proof fn law_update_room_present(g: RegistryView, id: u64, payload: RoomPayload)
    requires
        g.wf(),
        g.rooms.contains_key(id),
        payload.complete(),
    ensures
        ({
            let r = g.update_room(id, payload).rooms[id];
            &&& r.id == id
            &&& r.equipment == g.rooms[id].equipment
            &&& r.name == payload.name@
            &&& r.location == payload.location@
            &&& r.current_doctor_id == payload.current_doctor_id
        }),
        g.update_room(id, payload).rooms.dom() == g.rooms.dom(),
{
    assert(g.update_room(id, payload).rooms.dom() =~= g.rooms.dom());
}

/// After a deletion the id is gone; deleting an id that is not there
/// changes nothing.
pub proof fn law_delete(g: RegistryView, id: u64)
    requires
        g.wf(),
    ensures
        !g.delete_patient(id).patients.contains_key(id),
        !g.delete_doctor(id).doctors.contains_key(id),
        !g.delete_room(id).rooms.contains_key(id),
        !g.patients.contains_key(id) ==> g.delete_patient(id) == g,
        !g.doctors.contains_key(id) ==> g.delete_doctor(id) == g,
        !g.rooms.contains_key(id) ==> g.delete_room(id) == g,
{
    assert(!g.patients.contains_key(id) ==> g.patients.remove(id) =~= g.patients);
    assert(!g.doctors.contains_key(id) ==> g.doctors.remove(id) =~= g.doctors);
    assert(!g.rooms.contains_key(id) ==> g.rooms.remove(id) =~= g.rooms);
}

/// Each kind of record has a collection of its own: storing a patient under
/// an id leaves the other collections as they were, and the id is not
/// visible in any of them.
pub proof fn law_collections_disjoint(g: RegistryView, patient: PatientPayload, now: u64)
    requires
        g.wf(),
    ensures
        g.create_patient(patient, now).doctors == g.doctors,
        g.create_patient(patient, now).rooms == g.rooms,
        g.create_patient(patient, now).auctions == g.auctions,
        g.last_id < u64::MAX ==> !g.create_patient(patient, now).doctors.contains_key(
            g.fresh_id(),
        ) && !g.create_patient(patient, now).rooms.contains_key(g.fresh_id())
            && !g.create_patient(patient, now).auctions.contains_key(g.fresh_id()),
{
}

/// The state after creating the patients of `ps` one after another, all at
/// time `now`.
pub open spec fn create_patients(g: RegistryView, ps: Seq<PatientPayload>, now: u64) -> RegistryView
    decreases ps.len(),
{
    if ps.len() == 0 {
        g
    } else {
        create_patients(g, ps.drop_last(), now).create_patient(ps.last(), now)
    }
}

/// The id that the creation of `ps[i]` hands out, after those before it.
pub open spec fn patient_id_given(g: RegistryView, ps: Seq<PatientPayload>, now: u64, i: int) -> u64 {
    create_patients(g, ps.take(i), now).fresh_id()
}

proof fn lemma_create_patients(g: RegistryView, ps: Seq<PatientPayload>, now: u64, i: int)
    requires
        0 <= i <= ps.len(),
        g.last_id + ps.len() <= u64::MAX,
        forall|k: int| 0 <= k < ps.len() ==> #[trigger] ps[k].complete(),
    ensures
        create_patients(g, ps.take(i), now).last_id == g.last_id + i,
    decreases i,
{
    if i > 0 {
        lemma_create_patients(g, ps, now, i - 1);
        assert(ps.take(i).drop_last() =~= ps.take(i - 1));
        assert(ps.take(i).last() == ps[i - 1]);
    } else {
        assert(ps.take(0) =~= Seq::<PatientPayload>::empty());
    }
}

/// Creating complete patients one after another hands out ids that
/// strictly increase, each one more than the one before, so no two alike.
pub proof fn law_creations_increase(g: RegistryView, ps: Seq<PatientPayload>, now: u64)
    requires
        g.last_id + ps.len() <= u64::MAX,
        forall|k: int| 0 <= k < ps.len() ==> #[trigger] ps[k].complete(),
    ensures
        forall|i: int|
            0 <= i < ps.len() ==> #[trigger] patient_id_given(g, ps, now, i) == g.last_id + 1 + i,
        forall|i: int, j: int|
            0 <= i < j < ps.len() ==> #[trigger] patient_id_given(g, ps, now, i)
                < #[trigger] patient_id_given(g, ps, now, j),
{
    assert forall|i: int| 0 <= i < ps.len() implies #[trigger] patient_id_given(g, ps, now, i)
        == g.last_id + 1 + i by {
        lemma_create_patients(g, ps, now, i);
    }
}

} // verus!
