//! The services: one registry owns the id counter and a collection per kind
//! of record, and validates, creates, reads, updates and deletes records.
use crate::codec::MAX_RECORD_SIZE;
use crate::records::{
    auction_bytes, doctor_bytes, patient_bytes, room_bytes, Auction, AuctionPayload, AuctionView,
    Doctor, DoctorPayload, DoctorView, Patient, PatientPayload, PatientView, Room, RoomPayload,
    RoomView, Stored,
};
use crate::store::{
    cell_value, load_counter, load_map, map_contents, map_partition, open_counter, open_map, IdCell,
    MemoryPool, RecordMap,
};
use vstd::prelude::*;
use vstd::string::StringExecFns;

verus! {

/// Why an operation did not go through.
#[derive(Debug, Clone, PartialEq, Eq)]
pub enum Error {
    /// No record of that kind has the id.
    NotFound { msg: String },
    /// A required field of the payload is empty, or a required number is 0.
    EmptyFields { msg: String },
}

/// The partitions of the durable memory, one for each collection.
pub const COUNTER_PARTITION: u8 = 0;

pub const PATIENT_PARTITION: u8 = 1;

pub const DOCTOR_PARTITION: u8 = 2;

pub const ROOM_PARTITION: u8 = 3;

pub const AUCTION_PARTITION: u8 = 4;

pub open spec fn digit_char(d: u64) -> char {
    ((48 + d) as u8) as char
}

/// The decimal digits of `n`, most significant first.
pub open spec fn decimal(n: u64) -> Seq<char>
    decreases n,
{
    if n < 10 {
        seq![digit_char(n)]
    } else {
        decimal(n / 10).push(digit_char(n % 10))
    }
}

/// Relies on `String::push`: the text grows by `c` at its end.
#[verifier::external_body]
fn append_char(s: &mut String, c: char)
    ensures
        final(s)@ == old(s)@.push(c),
{
    s.push(c)
}

fn push_decimal(s: &mut String, n: u64)
    ensures
        final(s)@ == old(s)@ + decimal(n),
    decreases n,
{
    if n >= 10 {
        push_decimal(s, n / 10);
    }
    let c = ((48 + n % 10) as u8) as char;
    append_char(s, c);
    assert(final(s)@ =~= old(s)@ + decimal(n));
}

/// The message of a `NotFound` from an update or a deletion:
/// "<kind> with ID <id> not found".
pub open spec fn not_found_text(kind: Seq<char>, id: u64) -> Seq<char> {
    kind + " with ID "@ + decimal(id) + " not found"@
}

/// The message of a `NotFound` from a lookup of a patient or a doctor:
/// "<kind> with ID <id> can not be found".
pub open spec fn lookup_failed_text(kind: Seq<char>, id: u64) -> Seq<char> {
    kind + " with ID "@ + decimal(id) + " can not be found"@
}

fn missing(kind: &str, id: u64, tail: &str) -> (e: Error)
    ensures
        e matches Error::NotFound { msg } && msg@ == kind@ + " with ID "@ + decimal(id) + tail@,
{
    let mut msg = String::new();
    msg.append(kind);
    msg.append(" with ID ");
    push_decimal(&mut msg, id);
    msg.append(tail);
    Error::NotFound { msg }
}

pub fn not_found(kind: &str, id: u64) -> (e: Error)
    ensures
        e matches Error::NotFound { msg } && msg@ == not_found_text(kind@, id),
{
    missing(kind, id, " not found")
}

pub fn lookup_failed(kind: &str, id: u64) -> (e: Error)
    ensures
        e matches Error::NotFound { msg } && msg@ == lookup_failed_text(kind@, id),
{
    missing(kind, id, " can not be found")
}

pub fn empty_fields(text: &str) -> (e: Error)
    ensures
        e matches Error::EmptyFields { msg } && msg@ == text@,
{
    let mut msg = String::new();
    msg.append(text);
    proof {
        assert(msg@ =~= text@);
    }
    Error::EmptyFields { msg }
}

/// Every key of `contents` is positive, no greater than `last`, and holds
/// the bytes of a record kept under that key.
pub open spec fn holds_records<T: Stored>(contents: Map<u64, Seq<u8>>, last: u64) -> bool {
    forall|k: u64| #[trigger]
        contents.contains_key(k) ==> 0 < k <= last && exists|v: T::V|
            T::stored_bytes(v) == contents[k] && T::stored_id(v) == k
}

/// Reads back every record of a collection, and checks that each one is
/// well formed and sits under its own id, which is positive and no greater
/// than `last`. On success, the collection holds the bytes of the records
/// of the map handed back.
fn load_model<T: Stored>(map: &RecordMap, last: u64) -> (r: Option<Ghost<Map<u64, T::V>>>)
    requires
        map_contents(*map).dom().finite(),
    ensures
        r matches Some(m) ==> {
            &&& map_contents(*map) == m@.map_values(|v: T::V| T::stored_bytes(v))
            &&& m@.dom().finite()
            &&& forall|k: u64| #[trigger]
                m@.contains_key(k) ==> T::stored_id(m@[k]) == k && 0 < k <= last
                    && T::stored_bytes(m@[k]).len() <= MAX_RECORD_SIZE
        },
        holds_records::<T>(map_contents(*map), last) ==> r is Some,
{
    let ghost good = holds_records::<T>(map_contents(*map), last);
    let ids = map.ids();
    let ghost mut model: Map<u64, T::V> = Map::empty();
    let mut i: usize = 0;
    while i < ids.len()
        invariant
            0 <= i <= ids@.len(),
            forall|k: u64| map_contents(*map).contains_key(k) <==> ids@.contains(k),
            good == holds_records::<T>(map_contents(*map), last),
            forall|k: u64| model.contains_key(k) <==> ids@.take(i as int).contains(k),
            forall|k: u64| #[trigger]
                model.contains_key(k) ==> map_contents(*map).contains_key(k)
                    && map_contents(*map)[k] == T::stored_bytes(model[k]) && T::stored_id(model[k])
                    == k && 0 < k <= last && T::stored_bytes(model[k]).len() <= MAX_RECORD_SIZE,
        decreases ids@.len() - i,
    {
        let id = ids[i];
        proof {
            assert(ids@.contains(id));
        }
        let bytes = map.get(id)?;
        proof {
            assert(good ==> exists|v: T::V|
                T::stored_bytes(v) == bytes@ && T::stored_id(v) == id && 0 < id <= last);
        }
        let record = T::parse_stored(bytes.as_slice())?;
        proof {
            assert(good ==> T::stored_id(record@) == id && 0 < id <= last) by {
                if good {
                    let v = choose|v: T::V| T::stored_bytes(v) == bytes@ && T::stored_id(v) == id;
                    T::lemma_same_id(record@, v);
                }
            }
        }
        if record.id_of() != id || id == 0 || id > last {
            return None;
        }
        proof {
            let next = ids@.take(i + 1);
            assert(next =~= ids@.take(i as int).push(id));
            assert forall|k: u64| model.insert(id, record@).contains_key(k) <==> next.contains(k) by {
                if k == id {
                    assert(next[i as int] == id);
                }
                if next.contains(k) && k != id {
                    let j = choose|j: int| 0 <= j < next.len() && next[j] == k;
                    assert(ids@.take(i as int)[j] == k);
                }
                if ids@.take(i as int).contains(k) {
                    let j = choose|j: int| 0 <= j < i && ids@.take(i as int)[j] == k;
                    assert(next[j] == k);
                }
            }
            model = model.insert(id, record@);
        }
        i = i + 1;
    }
    proof {
        assert(ids@.take(i as int) =~= ids@);
        assert(model.dom() =~= map_contents(*map).dom());
        assert(map_contents(*map) =~= model.map_values(|v: T::V| T::stored_bytes(v)));
    }
    Some(Ghost(model))
}

/// The state of a registry: the last id handed out and the records of each
/// kind, by id.
pub struct RegistryView {
    pub last_id: u64,
    pub patients: Map<u64, PatientView>,
    pub doctors: Map<u64, DoctorView>,
    pub rooms: Map<u64, RoomView>,
    pub auctions: Map<u64, AuctionView>,
}

/// The id counter and the three collections, each in a partition of its
/// own; ids come from the one counter whatever the kind of record.
pub struct Registry {
    counter: IdCell,
    patients: RecordMap,
    doctors: RecordMap,
    rooms: RecordMap,
    auctions: RecordMap,
    patient_model: Ghost<Map<u64, PatientView>>,
    doctor_model: Ghost<Map<u64, DoctorView>>,
    room_model: Ghost<Map<u64, RoomView>>,
    auction_model: Ghost<Map<u64, AuctionView>>,
}

impl View for Registry {
    type V = RegistryView;

    closed spec fn view(&self) -> RegistryView {
        RegistryView {
            last_id: cell_value(self.counter),
            patients: self.patient_model@,
            doctors: self.doctor_model@,
            rooms: self.room_model@,
            auctions: self.auction_model@,
        }
    }
}

impl RegistryView {
    /// Every stored record sits under its own id, which the counter has
    /// already handed out, and fits in a stored record.
    pub open spec fn wf(self) -> bool {
        &&& self.patients.dom().finite()
        &&& self.doctors.dom().finite()
        &&& self.rooms.dom().finite()
        &&& self.auctions.dom().finite()
        &&& forall|k: u64| #[trigger]
            self.patients.contains_key(k) ==> self.patients[k].id == k && 0 < k <= self.last_id
                && self.patients[k].fits()
        &&& forall|k: u64| #[trigger]
            self.doctors.contains_key(k) ==> self.doctors[k].id == k && 0 < k <= self.last_id
                && self.doctors[k].fits()
        &&& forall|k: u64| #[trigger]
            self.rooms.contains_key(k) ==> self.rooms[k].id == k && 0 < k <= self.last_id
                && self.rooms[k].fits()
        &&& forall|k: u64| #[trigger]
            self.auctions.contains_key(k) ==> self.auctions[k].id == k && 0 < k <= self.last_id
                && self.auctions[k].fits()
    }
}

impl RegistryView {
    /// The id that the next creation hands out.
    pub open spec fn fresh_id(self) -> u64 {
        (self.last_id + 1) as u64
    }

    /// The state once the counter has handed out one more id.
    pub open spec fn next_id(self) -> RegistryView {
        RegistryView { last_id: self.fresh_id(), ..self }
    }

    pub open spec fn create_patient(self, payload: PatientPayload, now: u64) -> RegistryView {
        if payload.complete() {
            RegistryView {
                last_id: self.fresh_id(),
                patients: self.patients.insert(self.fresh_id(), payload.record(self.fresh_id(), now)),
                ..self
            }
        } else {
            self
        }
    }

    pub open spec fn update_patient(self, id: u64, payload: PatientPayload) -> RegistryView {
        if payload.complete() && self.patients.contains_key(id) {
            RegistryView {
                patients: self.patients.insert(id, payload.apply(self.patients[id])),
                ..self
            }
        } else {
            self
        }
    }

    pub open spec fn delete_patient(self, id: u64) -> RegistryView {
        RegistryView { patients: self.patients.remove(id), ..self }
    }

    pub open spec fn create_doctor(self, payload: DoctorPayload) -> RegistryView {
        if payload.complete() {
            RegistryView {
                last_id: self.fresh_id(),
                doctors: self.doctors.insert(self.fresh_id(), payload.record(self.fresh_id())),
                ..self
            }
        } else {
            self
        }
    }

    pub open spec fn update_doctor(self, id: u64, payload: DoctorPayload) -> RegistryView {
        if payload.complete() && self.doctors.contains_key(id) {
            RegistryView {
                doctors: self.doctors.insert(id, payload.apply(self.doctors[id])),
                ..self
            }
        } else {
            self
        }
    }

    pub open spec fn delete_doctor(self, id: u64) -> RegistryView {
        RegistryView { doctors: self.doctors.remove(id), ..self }
    }

    pub open spec fn create_room(self, payload: RoomPayload) -> RegistryView {
        if payload.complete() {
            RegistryView {
                last_id: self.fresh_id(),
                rooms: self.rooms.insert(self.fresh_id(), payload.record(self.fresh_id())),
                ..self
            }
        } else {
            self
        }
    }

    pub open spec fn update_room(self, id: u64, payload: RoomPayload) -> RegistryView {
        if payload.complete() && self.rooms.contains_key(id) {
            RegistryView { rooms: self.rooms.insert(id, payload.apply(self.rooms[id])), ..self }
        } else {
            self
        }
    }

    pub open spec fn delete_room(self, id: u64) -> RegistryView {
        RegistryView { rooms: self.rooms.remove(id), ..self }
    }

    pub open spec fn create_auction(self, payload: AuctionPayload, now: u64) -> RegistryView {
        if payload.complete() {
            RegistryView {
                last_id: self.fresh_id(),
                auctions: self.auctions.insert(self.fresh_id(), payload.record(self.fresh_id(), now)),
                ..self
            }
        } else {
            self
        }
    }
}

impl Registry {
    /// The collections hold the bytes of the records of the view, each in
    /// its own partition.
    pub closed spec fn wf(&self) -> bool {
        &&& self@.wf()
        &&& map_contents(self.patients) == self.patient_model@.map_values(
            |v: PatientView| patient_bytes(v),
        )
        &&& map_contents(self.doctors) == self.doctor_model@.map_values(
            |v: DoctorView| doctor_bytes(v),
        )
        &&& map_contents(self.rooms) == self.room_model@.map_values(|v: RoomView| room_bytes(v))
        &&& map_partition(self.patients) == PATIENT_PARTITION
        &&& map_partition(self.doctors) == DOCTOR_PARTITION
        &&& map_contents(self.auctions) == self.auction_model@.map_values(
            |v: AuctionView| auction_bytes(v),
        )
        &&& map_partition(self.rooms) == ROOM_PARTITION
        &&& map_partition(self.auctions) == AUCTION_PARTITION
    }

    /// What a well-formed registry keeps of its records: each sits under its
    /// own id, which the counter has handed out.
    pub proof fn lemma_wf(&self)
        requires
            self.wf(),
        ensures
            self@.wf(),
    {
    }

    /// The partitions of the patients, the doctors, the rooms and the
    /// auctions.
    pub closed spec fn partitions(&self) -> (u8, u8, u8, u8) {
        (
            map_partition(self.patients),
            map_partition(self.doctors),
            map_partition(self.rooms),
            map_partition(self.auctions),
        )
    }

    /// The collections are in distinct partitions, none of them the
    /// counter's.
    pub proof fn lemma_partitions_disjoint(&self)
        requires
            self.wf(),
        ensures
            self.partitions().0 != self.partitions().1,
            self.partitions().0 != self.partitions().2,
            self.partitions().1 != self.partitions().2,
            self.partitions().0 != COUNTER_PARTITION,
            self.partitions().1 != COUNTER_PARTITION,
            self.partitions().2 != COUNTER_PARTITION,
            self.partitions().3 != self.partitions().0,
            self.partitions().3 != self.partitions().1,
            self.partitions().3 != self.partitions().2,
            self.partitions().3 != COUNTER_PARTITION,
    {
    }

    /// A registry whose partitions start afresh, dropping whatever they
    /// held: no records, and no id handed out. `None` when the memory cannot
    /// hold the counter. Every registry is built over the one durable
    /// memory, so a process keeps a single registry.
    pub fn new() -> (r: Option<Registry>)
        ensures
            r matches Some(g) ==> {
                &&& g.wf()
                &&& g@.last_id == 0
                &&& g@.patients.is_empty()
                &&& g@.doctors.is_empty()
                &&& g@.rooms.is_empty()
                &&& g@.auctions.is_empty()
            },
    {
        let pool = MemoryPool::new();
        let counter = match open_counter(&pool, COUNTER_PARTITION) {
            Some(c) => c,
            None => {
                return None;
            },
        };
        let patients = open_map(&pool, PATIENT_PARTITION);
        let doctors = open_map(&pool, DOCTOR_PARTITION);
        let rooms = open_map(&pool, ROOM_PARTITION);
        let auctions = open_map(&pool, AUCTION_PARTITION);
        let g = Registry {
            counter,
            patients,
            doctors,
            rooms,
            auctions,
            patient_model: Ghost(Map::empty()),
            doctor_model: Ghost(Map::empty()),
            room_model: Ghost(Map::empty()),
            auction_model: Ghost(Map::empty()),
        };
        proof {
            vstd::set_lib::lemma_set_empty_equivalency_len(map_contents(patients).dom());
            vstd::set_lib::lemma_set_empty_equivalency_len(map_contents(doctors).dom());
            vstd::set_lib::lemma_set_empty_equivalency_len(map_contents(rooms).dom());
            vstd::set_lib::lemma_set_empty_equivalency_len(map_contents(auctions).dom());
            assert(map_contents(auctions) =~= g.auction_model@.map_values(
                |v: AuctionView| auction_bytes(v),
            ));
            assert(map_contents(patients) =~= g.patient_model@.map_values(
                |v: PatientView| patient_bytes(v),
            ));
            assert(map_contents(doctors) =~= g.doctor_model@.map_values(
                |v: DoctorView| doctor_bytes(v),
            ));
            assert(map_contents(rooms) =~= g.room_model@.map_values(|v: RoomView| room_bytes(v)));
        }
        Some(g)
    }

    /// The registry that the durable memory holds: each partition is read
    /// back, or starts empty when it holds nothing. `None` when the counter
    /// cannot be read, or a stored record is not well formed, is not under
    /// its own id, or has an id that the counter has not handed out. Every
    /// registry is built over the one durable memory, so a process keeps a
    /// single registry.
    pub fn open() -> (r: Option<Registry>)
        ensures
            r matches Some(g) ==> g.wf(),
    {
        let pool = MemoryPool::new();
        let counter = load_counter(&pool, COUNTER_PARTITION)?;
        let last = counter.get();
        let patients = load_map(&pool, PATIENT_PARTITION);
        let patient_model = load_model::<Patient>(&patients, last)?;
        let doctors = load_map(&pool, DOCTOR_PARTITION);
        let doctor_model = load_model::<Doctor>(&doctors, last)?;
        let rooms = load_map(&pool, ROOM_PARTITION);
        let room_model = load_model::<Room>(&rooms, last)?;
        let auctions = load_map(&pool, AUCTION_PARTITION);
        let auction_model = load_model::<Auction>(&auctions, last)?;
        proof {
            assert(map_contents(patients) =~= patient_model@.map_values(
                |v: PatientView| patient_bytes(v),
            ));
            assert(map_contents(doctors) =~= doctor_model@.map_values(
                |v: DoctorView| doctor_bytes(v),
            ));
            assert(map_contents(rooms) =~= room_model@.map_values(|v: RoomView| room_bytes(v)));
            assert(map_contents(auctions) =~= auction_model@.map_values(
                |v: AuctionView| auction_bytes(v),
            ));
        }
        Some(Registry {
            counter,
            patients,
            doctors,
            rooms,
            auctions,
            patient_model,
            doctor_model,
            room_model,
            auction_model,
        })
    }

    /// The last id handed out.
    pub fn last_id(&self) -> (r: u64)
        requires
            self.wf(),
        ensures
            r == self@.last_id,
    {
        self.counter.get()
    }

    /// Hands out the id after the last one, and keeps it as the last one.
    pub fn next_id(&mut self) -> (r: u64)
        requires
            old(self).wf(),
            old(self)@.last_id < u64::MAX,
        ensures
            final(self).wf(),
            r == old(self)@.last_id + 1,
            final(self)@ == old(self)@.next_id(),
    {
        let current = self.counter.get();
        self.counter.set(current + 1);
        current + 1
    }

    /// Registers a patient under a fresh id, stamped with the time `now`.
    pub fn create_patient(&mut self, payload: PatientPayload, now: u64) -> (r: Result<
        Patient,
        Error,
    >)
        requires
            old(self).wf(),
            payload.complete() ==> old(self)@.last_id < u64::MAX,
            payload.complete() ==> payload.fits(),
        ensures
            final(self).wf(),
            final(self)@ == old(self)@.create_patient(payload, now),
            !payload.complete() ==> (r matches Err(Error::EmptyFields { msg }) && msg@
                == "Please fill in all the required fields to be able to submit"@),
            payload.complete() ==> (r matches Ok(p) && {
                let id = (old(self)@.last_id + 1) as u64;
                &&& p@ == payload.record(id, now)
            }),
    {
        if !payload.is_complete() {
            return Err(empty_fields("Please fill in all the required fields to be able to submit"));
        }
        let id = self.next_id();
        let patient = Patient {
            id,
            name: payload.name,
            date_of_birth: payload.date_of_birth,
            age: payload.age,
            gender: payload.gender,
            ethncity: payload.ethncity,
            address: payload.address,
            phone_number: payload.phone_number,
            email: payload.email,
            next_of_kin: payload.next_of_kin,
            kins_phone_number: payload.kins_phone_number,
            registered_on: now,
        };
        proof {
            payload.lemma_fits(id, now);
        }
        let bytes = patient.encode();
        self.patients.insert(id, bytes.as_slice());
        proof {
            self.patient_model@ = self.patient_model@.insert(id, patient@);
            assert(map_contents(self.patients) =~= self.patient_model@.map_values(
                |v: PatientView| patient_bytes(v),
            ));
        }
        Ok(patient)
    }

    /// The patient with the given id.
    pub fn get_patient(&self, id: u64) -> (r: Result<Patient, Error>)
        requires
            self.wf(),
        ensures
            self@.patients.contains_key(id) ==> (r matches Ok(p) && p@ == self@.patients[id]),
            !self@.patients.contains_key(id) ==> (r matches Err(Error::NotFound { msg }) && msg@
                == lookup_failed_text("Patient"@, id)),
    {
        match self.patients.get(id) {
            Some(bytes) => Ok(Patient::decode(bytes.as_slice(), Ghost(self.patient_model@[id]))),
            None => Err(lookup_failed("Patient", id)),
        }
    }

    /// Replaces the details of the patient with the given id by those of
    /// the payload; its id and registration time stay.
    pub fn update_patient(&mut self, id: u64, payload: PatientPayload) -> (r: Result<
        Patient,
        Error,
    >)
        requires
            old(self).wf(),
            payload.complete() && old(self)@.patients.contains_key(id) ==> payload.fits(),
        ensures
            final(self).wf(),
            r matches Ok(x) ==> x.id == id,
            final(self)@ == old(self)@.update_patient(id, payload),
            !payload.complete() ==> (r matches Err(Error::EmptyFields { msg }) && msg@
                == "You must fill all of the required fields"@),
            payload.complete() && !old(self)@.patients.contains_key(id) ==> (r matches Err(
                Error::NotFound { msg },
            ) && msg@ == not_found_text("Patient"@, id)),
            payload.complete() && old(self)@.patients.contains_key(id) ==> (r matches Ok(p) && {
                &&& p@ == payload.apply(old(self)@.patients[id])
            }),
    {
        if !payload.is_complete() {
            return Err(empty_fields("You must fill all of the required fields"));
        }
        let bytes = match self.patients.get(id) {
            Some(b) => b,
            None => {
                return Err(not_found("Patient", id));
            },
        };
        let mut patient = Patient::decode(bytes.as_slice(), Ghost(self.patient_model@[id]));
        patient.name = payload.name;
        patient.date_of_birth = payload.date_of_birth;
        patient.age = payload.age;
        patient.gender = payload.gender;
        patient.ethncity = payload.ethncity;
        patient.address = payload.address;
        patient.phone_number = payload.phone_number;
        patient.email = payload.email;
        patient.next_of_kin = payload.next_of_kin;
        patient.kins_phone_number = payload.kins_phone_number;
        proof {
            payload.lemma_fits(patient.id, patient.registered_on);
        }
        let bytes = patient.encode();
        self.patients.insert(id, bytes.as_slice());
        proof {
            self.patient_model@ = self.patient_model@.insert(id, patient@);
            assert(map_contents(self.patients) =~= self.patient_model@.map_values(
                |v: PatientView| patient_bytes(v),
            ));
        }
        Ok(patient)
    }

    /// Removes the patient with the given id.
    pub fn delete_patient(&mut self, id: u64) -> (r: Result<(), Error>)
        requires
            old(self).wf(),
        ensures
            final(self).wf(),
            final(self)@ == old(self)@.delete_patient(id),
            old(self)@.patients.contains_key(id) ==> r is Ok,
            !old(self)@.patients.contains_key(id) ==> (r matches Err(Error::NotFound { msg })
                && msg@ == not_found_text("Patient"@, id)),
    {
        match self.patients.remove(id) {
            Some(_) => {
                proof {
                    self.patient_model@ = self.patient_model@.remove(id);
                    assert(map_contents(self.patients) =~= self.patient_model@.map_values(
                        |v: PatientView| patient_bytes(v),
                    ));
                }
                Ok(())
            },
            None => {
                proof {
                    assert(map_contents(self.patients) =~= map_contents(old(self).patients));
                    assert(old(self)@.patients.remove(id) =~= old(self)@.patients);
                }
                Err(not_found("Patient", id))
            },
        }
    }

    /// Adds a doctor under a fresh id, in charge of no patient.
    pub fn create_doctor(&mut self, payload: DoctorPayload) -> (r: Result<Doctor, Error>)
        requires
            old(self).wf(),
            payload.complete() ==> old(self)@.last_id < u64::MAX,
            payload.complete() ==> payload.fits(),
        ensures
            final(self).wf(),
            final(self)@ == old(self)@.create_doctor(payload),
            !payload.complete() ==> (r matches Err(Error::EmptyFields { msg }) && msg@
                == "You must fill in all the required fields"@),
            payload.complete() ==> (r matches Ok(d) && {
                let id = (old(self)@.last_id + 1) as u64;
                &&& d@ == payload.record(id)
            }),
    {
        if !payload.is_complete() {
            return Err(empty_fields("You must fill in all the required fields"));
        }
        let id = self.next_id();
        let doctor = Doctor {
            id,
            name: payload.name,
            email: payload.email,
            phone_number: payload.phone_number,
            speciality: payload.speciality,
            current_patient: 0,
        };
        proof {
            payload.lemma_fits(doctor@);
        }
        let bytes = doctor.encode();
        self.doctors.insert(id, bytes.as_slice());
        proof {
            self.doctor_model@ = self.doctor_model@.insert(id, doctor@);
            assert(map_contents(self.doctors) =~= self.doctor_model@.map_values(
                |v: DoctorView| doctor_bytes(v),
            ));
        }
        Ok(doctor)
    }

    /// The doctor with the given id.
    pub fn get_doctor(&self, id: u64) -> (r: Result<Doctor, Error>)
        requires
            self.wf(),
        ensures
            self@.doctors.contains_key(id) ==> (r matches Ok(d) && d@ == self@.doctors[id]),
            !self@.doctors.contains_key(id) ==> (r matches Err(Error::NotFound { msg }) && msg@
                == lookup_failed_text("Doctor"@, id)),
    {
        match self.doctors.get(id) {
            Some(bytes) => Ok(Doctor::decode(bytes.as_slice(), Ghost(self.doctor_model@[id]))),
            None => Err(lookup_failed("Doctor", id)),
        }
    }

    /// Replaces the details of the doctor with the given id by those of the
    /// payload; its id and current patient stay.
    pub fn update_doctor(&mut self, id: u64, payload: DoctorPayload) -> (r: Result<Doctor, Error>)
        requires
            old(self).wf(),
            payload.complete() && old(self)@.doctors.contains_key(id) ==> payload.fits(),
        ensures
            final(self).wf(),
            r matches Ok(x) ==> x.id == id,
            final(self)@ == old(self)@.update_doctor(id, payload),
            !payload.complete() ==> (r matches Err(Error::EmptyFields { msg }) && msg@
                == "You must fill in all the required fields"@),
            payload.complete() && !old(self)@.doctors.contains_key(id) ==> (r matches Err(
                Error::NotFound { msg },
            ) && msg@ == not_found_text("Doctor"@, id)),
            payload.complete() && old(self)@.doctors.contains_key(id) ==> (r matches Ok(d) && {
                &&& d@ == payload.apply(old(self)@.doctors[id])
            }),
    {
        if !payload.is_complete() {
            return Err(empty_fields("You must fill in all the required fields"));
        }
        let bytes = match self.doctors.get(id) {
            Some(b) => b,
            None => {
                return Err(not_found("Doctor", id));
            },
        };
        let mut doctor = Doctor::decode(bytes.as_slice(), Ghost(self.doctor_model@[id]));
        doctor.name = payload.name;
        doctor.email = payload.email;
        doctor.phone_number = payload.phone_number;
        doctor.speciality = payload.speciality;
        proof {
            payload.lemma_fits(self.doctor_model@[id]);
        }
        let bytes = doctor.encode();
        self.doctors.insert(id, bytes.as_slice());
        proof {
            self.doctor_model@ = self.doctor_model@.insert(id, doctor@);
            assert(map_contents(self.doctors) =~= self.doctor_model@.map_values(
                |v: DoctorView| doctor_bytes(v),
            ));
        }
        Ok(doctor)
    }

    /// Removes the doctor with the given id.
    pub fn delete_doctor(&mut self, id: u64) -> (r: Result<(), Error>)
        requires
            old(self).wf(),
        ensures
            final(self).wf(),
            final(self)@ == old(self)@.delete_doctor(id),
            old(self)@.doctors.contains_key(id) ==> r is Ok,
            !old(self)@.doctors.contains_key(id) ==> (r matches Err(Error::NotFound { msg })
                && msg@ == not_found_text("Doctor"@, id)),
    {
        match self.doctors.remove(id) {
            Some(_) => {
                proof {
                    self.doctor_model@ = self.doctor_model@.remove(id);
                    assert(map_contents(self.doctors) =~= self.doctor_model@.map_values(
                        |v: DoctorView| doctor_bytes(v),
                    ));
                }
                Ok(())
            },
            None => {
                proof {
                    assert(map_contents(self.doctors) =~= map_contents(old(self).doctors));
                    assert(old(self)@.doctors.remove(id) =~= old(self)@.doctors);
                }
                Err(not_found("Doctor", id))
            },
        }
    }

    /// Adds a room under a fresh id, with no equipment.
    pub fn create_room(&mut self, payload: RoomPayload) -> (r: Result<Room, Error>)
        requires
            old(self).wf(),
            payload.complete() ==> old(self)@.last_id < u64::MAX,
            payload.complete() ==> payload.fits(),
        ensures
            final(self).wf(),
            final(self)@ == old(self)@.create_room(payload),
            !payload.complete() ==> (r matches Err(Error::EmptyFields { msg }) && msg@
                == "Please fill in all the required fields"@),
            payload.complete() ==> (r matches Ok(room) && {
                let id = (old(self)@.last_id + 1) as u64;
                &&& room@ == payload.record(id)
            }),
    {
        if !payload.is_complete() {
            return Err(empty_fields("Please fill in all the required fields"));
        }
        let id = self.next_id();
        let room = Room {
            id,
            name: payload.name,
            location: payload.location,
            current_doctor_id: payload.current_doctor_id,
            equipment: Vec::new(),
        };
        proof {
            payload.lemma_fits(id);
            assert(room@.equipment =~= Seq::<Seq<char>>::empty());
            assert(room@ == payload.record(id));
        }
        let bytes = room.encode();
        self.rooms.insert(id, bytes.as_slice());
        proof {
            self.room_model@ = self.room_model@.insert(id, room@);
            assert(map_contents(self.rooms) =~= self.room_model@.map_values(
                |v: RoomView| room_bytes(v),
            ));
        }
        Ok(room)
    }

    /// The room with the given id.
    pub fn get_room(&self, id: u64) -> (r: Result<Room, Error>)
        requires
            self.wf(),
        ensures
            self@.rooms.contains_key(id) ==> (r matches Ok(room) && room@ == self@.rooms[id]),
            !self@.rooms.contains_key(id) ==> (r matches Err(Error::NotFound { msg }) && msg@
                == not_found_text("Room"@, id)),
    {
        match self.rooms.get(id) {
            Some(bytes) => Ok(Room::decode(bytes.as_slice(), Ghost(self.room_model@[id]))),
            None => Err(not_found("Room", id)),
        }
    }

    /// The update of the room with the given id by the payload would fit
    /// in a stored record (true when there is no such room).
    pub open spec fn room_update_fits_spec(self, id: u64, payload: &RoomPayload) -> bool {
        self@.rooms.contains_key(id) ==> payload.apply(self@.rooms[id]).fits()
    }

    pub fn room_update_fits(&self, id: u64, payload: &RoomPayload) -> (r: bool)
        requires
            self.wf(),
        ensures
            r == self.room_update_fits_spec(id, payload),
    {
        match self.rooms.get(id) {
            Some(bytes) => {
                let room = Room::decode(bytes.as_slice(), Ghost(self.room_model@[id]));
                payload.fits_over(&room)
            },
            None => true,
        }
    }

    /// Replaces the name, location and doctor of the room with the given id
    /// by those of the payload; its id and its equipment stay.
    pub fn update_room(&mut self, id: u64, payload: RoomPayload) -> (r: Result<Room, Error>)
        requires
            old(self).wf(),
            payload.complete() ==> old(self).room_update_fits_spec(id, &payload),
        ensures
            final(self).wf(),
            r matches Ok(x) ==> x.id == id,
            final(self)@ == old(self)@.update_room(id, payload),
            !payload.complete() ==> (r matches Err(Error::EmptyFields { msg }) && msg@
                == "Please fill in all the required fields"@),
            payload.complete() && !old(self)@.rooms.contains_key(id) ==> (r matches Err(
                Error::NotFound { msg },
            ) && msg@ == not_found_text("Room"@, id)),
            payload.complete() && old(self)@.rooms.contains_key(id) ==> (r matches Ok(room) && {
                &&& room@ == payload.apply(old(self)@.rooms[id])
            }),
    {
        if !payload.is_complete() {
            return Err(empty_fields("Please fill in all the required fields"));
        }
        let bytes = match self.rooms.get(id) {
            Some(b) => b,
            None => {
                return Err(not_found("Room", id));
            },
        };
        let mut room = Room::decode(bytes.as_slice(), Ghost(self.room_model@[id]));
        room.name = payload.name;
        room.location = payload.location;
        room.current_doctor_id = payload.current_doctor_id;
        let bytes = room.encode();
        self.rooms.insert(id, bytes.as_slice());
        proof {
            self.room_model@ = self.room_model@.insert(id, room@);
            assert(map_contents(self.rooms) =~= self.room_model@.map_values(
                |v: RoomView| room_bytes(v),
            ));
        }
        Ok(room)
    }

    /// Removes the room with the given id.
    pub fn delete_room(&mut self, id: u64) -> (r: Result<(), Error>)
        requires
            old(self).wf(),
        ensures
            final(self).wf(),
            final(self)@ == old(self)@.delete_room(id),
            old(self)@.rooms.contains_key(id) ==> r is Ok,
            !old(self)@.rooms.contains_key(id) ==> (r matches Err(Error::NotFound { msg })
                && msg@ == not_found_text("Room"@, id)),
    {
        match self.rooms.remove(id) {
            Some(_) => {
                proof {
                    self.room_model@ = self.room_model@.remove(id);
                    assert(map_contents(self.rooms) =~= self.room_model@.map_values(
                        |v: RoomView| room_bytes(v),
                    ));
                }
                Ok(())
            },
            None => {
                proof {
                    assert(map_contents(self.rooms) =~= map_contents(old(self).rooms));
                    assert(old(self)@.rooms.remove(id) =~= old(self)@.rooms);
                }
                Err(not_found("Room", id))
            },
        }
    }

    /// Opens an auction under a fresh id at time `now`.
    pub fn create_auction(&mut self, payload: AuctionPayload, now: u64) -> (r: Result<
        Auction,
        Error,
    >)
        requires
            old(self).wf(),
            payload.complete() ==> old(self)@.last_id < u64::MAX,
            payload.complete() ==> now + payload.auction_duration <= u64::MAX,
            payload.complete() ==> payload.fits(),
        ensures
            final(self).wf(),
            final(self)@ == old(self)@.create_auction(payload, now),
            !payload.complete() ==> (r matches Err(Error::EmptyFields { msg }) && msg@
                == "Please fill in all the required fields"@),
            payload.complete() ==> (r matches Ok(a) && {
                let id = (old(self)@.last_id + 1) as u64;
                &&& a@ == payload.record(id, now)
            }),
    {
        if !payload.is_complete() {
            return Err(empty_fields("Please fill in all the required fields"));
        }
        let id = self.next_id();
        let auction = Auction {
            id,
            item_name: payload.item_name,
            description: payload.description,
            starting_bid: payload.starting_bid,
            current_bid: payload.starting_bid,
            auction_end_time: now + payload.auction_duration,
            winner: None,
        };
        proof {
            payload.lemma_fits(id, now);
        }
        let bytes = auction.encode();
        self.auctions.insert(id, bytes.as_slice());
        proof {
            self.auction_model@ = self.auction_model@.insert(id, auction@);
            assert(map_contents(self.auctions) =~= self.auction_model@.map_values(
                |v: AuctionView| auction_bytes(v),
            ));
        }
        Ok(auction)
    }

    /// The auction with the given id.
    pub fn get_auction(&self, id: u64) -> (r: Result<Auction, Error>)
        requires
            self.wf(),
        ensures
            self@.auctions.contains_key(id) ==> (r matches Ok(a) && a@ == self@.auctions[id]),
            !self@.auctions.contains_key(id) ==> (r matches Err(Error::NotFound { msg }) && msg@
                == not_found_text("Auction"@, id)),
    {
        match self.auctions.get(id) {
            Some(bytes) => Ok(Auction::decode(bytes.as_slice(), Ghost(self.auction_model@[id]))),
            None => Err(not_found("Auction", id)),
        }
    }

    /// The ids of the patients, in ascending order.
    pub fn patient_ids(&self) -> (r: Vec<u64>)
        requires
            self.wf(),
        ensures
            forall|i: int, j: int| 0 <= i < j < r@.len() ==> r@[i] < r@[j],
            forall|k: u64| self@.patients.contains_key(k) <==> r@.contains(k),
    {
        self.patients.ids()
    }

    /// The ids of the doctors, in ascending order.
    pub fn doctor_ids(&self) -> (r: Vec<u64>)
        requires
            self.wf(),
        ensures
            forall|i: int, j: int| 0 <= i < j < r@.len() ==> r@[i] < r@[j],
            forall|k: u64| self@.doctors.contains_key(k) <==> r@.contains(k),
    {
        self.doctors.ids()
    }

    /// The ids of the rooms, in ascending order.
    pub fn room_ids(&self) -> (r: Vec<u64>)
        requires
            self.wf(),
        ensures
            forall|i: int, j: int| 0 <= i < j < r@.len() ==> r@[i] < r@[j],
            forall|k: u64| self@.rooms.contains_key(k) <==> r@.contains(k),
    {
        self.rooms.ids()
    }

    /// The ids of the auctions, in ascending order.
    pub fn auction_ids(&self) -> (r: Vec<u64>)
        requires
            self.wf(),
        ensures
            forall|i: int, j: int| 0 <= i < j < r@.len() ==> r@[i] < r@[j],
            forall|k: u64| self@.auctions.contains_key(k) <==> r@.contains(k),
    {
        self.auctions.ids()
    }
}

} // verus!
