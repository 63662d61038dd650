//! The records kept by the services, the payloads that create and update
//! them, and how each record is laid out in bytes.
use crate::codec::{
    enc_text, enc_texts, enc_u32, enc_u64, has_at, lemma_has_at_split, lemma_int_sizes, push_text, push_texts,
    push_u32, push_u64, read_text, read_texts, read_u32, read_u64, add_text_size, enc_text_run, lemma_run_bounds, enc_opt_text, push_opt_text,
    read_opt_text, take_u64, take_u32, take_text, take_texts, take_opt_text, lemma_grow, lemma_u64_injective,
    MAX_RECORD_SIZE,
};
use vstd::prelude::*;
use vstd::utf8::*;

verus! {

broadcast use lemma_has_at_split;

/// A registered patient.
#[derive(Debug, Clone, PartialEq, Eq)]
pub struct Patient {
    pub id: u64,
    pub name: String,
    /// Written DD-MM-YYYY.
    pub date_of_birth: String,
    pub age: u32,
    pub gender: String,
    pub ethncity: String,
    pub address: String,
    pub phone_number: String,
    /// May be empty.
    pub email: String,
    pub next_of_kin: String,
    pub kins_phone_number: String,
    /// When the patient was registered, in nanoseconds since the epoch.
    pub registered_on: u64,
}

pub struct PatientView {
    pub id: u64,
    pub name: Seq<char>,
    pub date_of_birth: Seq<char>,
    pub age: u32,
    pub gender: Seq<char>,
    pub ethncity: Seq<char>,
    pub address: Seq<char>,
    pub phone_number: Seq<char>,
    pub email: Seq<char>,
    pub next_of_kin: Seq<char>,
    pub kins_phone_number: Seq<char>,
    pub registered_on: u64,
}

impl View for Patient {
    type V = PatientView;

    open spec fn view(&self) -> PatientView {
        PatientView {
            id: self.id,
            name: self.name@,
            date_of_birth: self.date_of_birth@,
            age: self.age,
            gender: self.gender@,
            ethncity: self.ethncity@,
            address: self.address@,
            phone_number: self.phone_number@,
            email: self.email@,
            next_of_kin: self.next_of_kin@,
            kins_phone_number: self.kins_phone_number@,
            registered_on: self.registered_on,
        }
    }
}

pub open spec fn patient_bytes(v: PatientView) -> Seq<u8> {
    enc_u64(v.id) + enc_text(v.name) + enc_text(v.date_of_birth) + enc_u32(v.age) + enc_text(
        v.gender,
    ) + enc_text(v.ethncity) + enc_text(v.address) + enc_text(v.phone_number) + enc_text(v.email)
        + enc_text(v.next_of_kin) + enc_text(v.kins_phone_number) + enc_u64(v.registered_on)
}

impl PatientView {
    pub open spec fn fits(self) -> bool {
        patient_bytes(self).len() <= MAX_RECORD_SIZE
    }
}

impl Patient {
    pub fn encode(&self) -> (r: Vec<u8>)
        requires
            self@.fits(),
        ensures
            r@ == patient_bytes(self@),
    {
        proof {
            lemma_int_sizes();
        }
        let mut b: Vec<u8> = Vec::new();
        push_u64(&mut b, self.id);
        push_text(&mut b, &self.name);
        push_text(&mut b, &self.date_of_birth);
        push_u32(&mut b, self.age);
        push_text(&mut b, &self.gender);
        push_text(&mut b, &self.ethncity);
        push_text(&mut b, &self.address);
        push_text(&mut b, &self.phone_number);
        push_text(&mut b, &self.email);
        push_text(&mut b, &self.next_of_kin);
        push_text(&mut b, &self.kins_phone_number);
        push_u64(&mut b, self.registered_on);
        assert(b@ =~= patient_bytes(self@));
        b
    }

    pub fn decode(b: &[u8], Ghost(v): Ghost<PatientView>) -> (r: Patient)
        requires
            b@ == patient_bytes(v),
            v.fits(),
        ensures
            r@ == v,
    {
        proof {
            lemma_int_sizes();
            assert(b@.subrange(0, b@.len() as int) =~= b@);
            assert(has_at(b@, 0, patient_bytes(v)));
        }
        let id = read_u64(b, 0, Ghost(v.id));
        let (name, p) = read_text(b, 8, Ghost(v.name));
        let (date_of_birth, p) = read_text(b, p, Ghost(v.date_of_birth));
        let age = read_u32(b, p, Ghost(v.age));
        let (gender, p) = read_text(b, p + 4, Ghost(v.gender));
        let (ethncity, p) = read_text(b, p, Ghost(v.ethncity));
        let (address, p) = read_text(b, p, Ghost(v.address));
        let (phone_number, p) = read_text(b, p, Ghost(v.phone_number));
        let (email, p) = read_text(b, p, Ghost(v.email));
        let (next_of_kin, p) = read_text(b, p, Ghost(v.next_of_kin));
        let (kins_phone_number, p) = read_text(b, p, Ghost(v.kins_phone_number));
        let registered_on = read_u64(b, p, Ghost(v.registered_on));
        Patient {
            id,
            name,
            date_of_birth,
            age,
            gender,
            ethncity,
            address,
            phone_number,
            email,
            next_of_kin,
            kins_phone_number,
            registered_on,
        }
    }

    /// The patient whose bytes are exactly `b`, if `b` is well formed. The
    /// bytes of every patient are well formed when their length fits in 32 bits.
    #[verifier::spinoff_prover]
    #[verifier::rlimit(80)]
    pub fn parse(b: &[u8]) -> (r: Option<Patient>)
        ensures
            r matches Some(x) ==> patient_bytes(x@) == b@,
            (exists|v: PatientView| patient_bytes(v) == b@) && b@.len() <= u32::MAX ==> r is Some,
    {
        let ghost v = choose|v: PatientView| patient_bytes(v) == b@;
        let ghost fits = patient_bytes(v) == b@ && b@.len() <= u32::MAX;
        proof {
            lemma_int_sizes();
            assert(fits ==> has_at(b@, 0, patient_bytes(v))) by {
                assert(b@.subrange(0, b@.len() as int) =~= b@);
            }
        }
        let (id, p) = take_u64(b, 0, Ghost(v.id))?;
        let ghost acc = enc_u64(id);
        let (name, q) = take_text(b, p, Ghost(v.name))?;
        proof {
            lemma_grow(b@, p as int, q as int, acc, enc_text(name@));
            acc = acc + enc_text(name@);
        }
        let (date_of_birth, p) = take_text(b, q, Ghost(v.date_of_birth))?;
        proof {
            lemma_grow(b@, q as int, p as int, acc, enc_text(date_of_birth@));
            acc = acc + enc_text(date_of_birth@);
        }
        let (age, q) = take_u32(b, p, Ghost(v.age))?;
        proof {
            lemma_grow(b@, p as int, q as int, acc, enc_u32(age));
            acc = acc + enc_u32(age);
        }
        let (gender, p) = take_text(b, q, Ghost(v.gender))?;
        proof {
            lemma_grow(b@, q as int, p as int, acc, enc_text(gender@));
            acc = acc + enc_text(gender@);
        }
        let (ethncity, q) = take_text(b, p, Ghost(v.ethncity))?;
        proof {
            lemma_grow(b@, p as int, q as int, acc, enc_text(ethncity@));
            acc = acc + enc_text(ethncity@);
        }
        let (address, p) = take_text(b, q, Ghost(v.address))?;
        proof {
            lemma_grow(b@, q as int, p as int, acc, enc_text(address@));
            acc = acc + enc_text(address@);
        }
        let (phone_number, q) = take_text(b, p, Ghost(v.phone_number))?;
        proof {
            lemma_grow(b@, p as int, q as int, acc, enc_text(phone_number@));
            acc = acc + enc_text(phone_number@);
        }
        let (email, p) = take_text(b, q, Ghost(v.email))?;
        proof {
            lemma_grow(b@, q as int, p as int, acc, enc_text(email@));
            acc = acc + enc_text(email@);
        }
        let (next_of_kin, q) = take_text(b, p, Ghost(v.next_of_kin))?;
        proof {
            lemma_grow(b@, p as int, q as int, acc, enc_text(next_of_kin@));
            acc = acc + enc_text(next_of_kin@);
        }
        let (kins_phone_number, p) = take_text(b, q, Ghost(v.kins_phone_number))?;
        proof {
            lemma_grow(b@, q as int, p as int, acc, enc_text(kins_phone_number@));
            acc = acc + enc_text(kins_phone_number@);
        }
        let (registered_on, q) = take_u64(b, p, Ghost(v.registered_on))?;
        proof {
            lemma_grow(b@, p as int, q as int, acc, enc_u64(registered_on));
            acc = acc + enc_u64(registered_on);
        }
        if q != b.len() {
            return None;
        }
        proof {
            assert(b@.subrange(0, q as int) =~= b@);
        }
        Some(Patient {
            id,
            name,
            date_of_birth,
            age,
            gender,
            ethncity,
            address,
            phone_number,
            email,
            next_of_kin,
            kins_phone_number,
            registered_on,
        })
    }
}

/// What a caller supplies to register a patient or to replace a patient's
/// details.
#[derive(Debug, Clone, PartialEq, Eq)]
pub struct PatientPayload {
    pub name: String,
    pub date_of_birth: String,
    pub age: u32,
    pub gender: String,
    pub ethncity: String,
    pub address: String,
    pub phone_number: String,
    pub email: String,
    pub next_of_kin: String,
    pub kins_phone_number: String,
}

impl PatientPayload {
    /// Every required text is non-empty and the age is positive; the email
    /// may be empty.
    pub open spec fn complete(&self) -> bool {
        &&& self.name@.len() > 0
        &&& self.date_of_birth@.len() > 0
        &&& self.gender@.len() > 0
        &&& self.ethncity@.len() > 0
        &&& self.address@.len() > 0
        &&& self.phone_number@.len() > 0
        &&& self.next_of_kin@.len() > 0
        &&& self.kins_phone_number@.len() > 0
        &&& self.age != 0
    }

    /// The patient that this payload registers under `id` at time `now`.
    pub open spec fn record(&self, id: u64, now: u64) -> PatientView {
        PatientView {
            id,
            name: self.name@,
            date_of_birth: self.date_of_birth@,
            age: self.age,
            gender: self.gender@,
            ethncity: self.ethncity@,
            address: self.address@,
            phone_number: self.phone_number@,
            email: self.email@,
            next_of_kin: self.next_of_kin@,
            kins_phone_number: self.kins_phone_number@,
            registered_on: now,
        }
    }

    /// `p` with every detail replaced by this payload's; its id and
    /// registration time stay.
    pub open spec fn apply(&self, p: PatientView) -> PatientView {
        self.record(p.id, p.registered_on)
    }

    /// The patient that this payload describes fits in a stored record.
    pub open spec fn fits(&self) -> bool {
        self.record(0, 0).fits()
    }

    pub fn is_complete(&self) -> (r: bool)
        ensures
            r == self.complete(),
    {
        !(self.name.as_str().is_empty() || self.date_of_birth.as_str().is_empty()
            || self.gender.as_str().is_empty() || self.ethncity.as_str().is_empty()
            || self.address.as_str().is_empty() || self.phone_number.as_str().is_empty()
            || self.next_of_kin.as_str().is_empty() || self.kins_phone_number.as_str().is_empty()
            || self.age == 0)
    }

    pub fn fits_record(&self) -> (r: bool)
        ensures
            r == self.fits(),
    {
        proof {
            lemma_int_sizes();
        }
        let mut acc: usize = 20;
        acc = add_text_size(acc, &self.name);
        acc = add_text_size(acc, &self.date_of_birth);
        acc = add_text_size(acc, &self.gender);
        acc = add_text_size(acc, &self.ethncity);
        acc = add_text_size(acc, &self.address);
        acc = add_text_size(acc, &self.phone_number);
        acc = add_text_size(acc, &self.email);
        acc = add_text_size(acc, &self.next_of_kin);
        acc = add_text_size(acc, &self.kins_phone_number);
        acc <= MAX_RECORD_SIZE
    }

    /// The size of a patient depends on its texts alone.
    pub proof fn lemma_fits(&self, id: u64, now: u64)
        ensures
            self.record(id, now).fits() == self.fits(),
    {
        lemma_int_sizes();
    }
}

impl Default for PatientPayload {
    fn default() -> (r: Self)
        ensures
            r.name@.len() == 0 && r.date_of_birth@.len() == 0 && r.age == 0 && r.gender@.len() == 0
                && r.ethncity@.len() == 0 && r.address@.len() == 0 && r.phone_number@.len() == 0
                && r.email@.len() == 0 && r.next_of_kin@.len() == 0 && r.kins_phone_number@.len()
                == 0,
    {
        PatientPayload {
            name: String::new(),
            date_of_birth: String::new(),
            age: 0,
            gender: String::new(),
            ethncity: String::new(),
            address: String::new(),
            phone_number: String::new(),
            email: String::new(),
            next_of_kin: String::new(),
            kins_phone_number: String::new(),
        }
    }
}

/// A doctor on the staff.
#[derive(Debug, Clone, PartialEq, Eq)]
pub struct Doctor {
    pub id: u64,
    pub name: String,
    pub email: String,
    pub phone_number: String,
    pub speciality: String,
    /// The id of the patient in the doctor's care; 0 when there is none.
    pub current_patient: u64,
}

pub struct DoctorView {
    pub id: u64,
    pub name: Seq<char>,
    pub email: Seq<char>,
    pub phone_number: Seq<char>,
    pub speciality: Seq<char>,
    pub current_patient: u64,
}

impl View for Doctor {
    type V = DoctorView;

    open spec fn view(&self) -> DoctorView {
        DoctorView {
            id: self.id,
            name: self.name@,
            email: self.email@,
            phone_number: self.phone_number@,
            speciality: self.speciality@,
            current_patient: self.current_patient,
        }
    }
}

pub open spec fn doctor_bytes(v: DoctorView) -> Seq<u8> {
    enc_u64(v.id) + enc_text(v.name) + enc_text(v.email) + enc_text(v.phone_number) + enc_text(
        v.speciality,
    ) + enc_u64(v.current_patient)
}

impl DoctorView {
    pub open spec fn fits(self) -> bool {
        doctor_bytes(self).len() <= MAX_RECORD_SIZE
    }
}

impl Doctor {
    pub fn encode(&self) -> (r: Vec<u8>)
        requires
            self@.fits(),
        ensures
            r@ == doctor_bytes(self@),
    {
        proof {
            lemma_int_sizes();
        }
        let mut b: Vec<u8> = Vec::new();
        push_u64(&mut b, self.id);
        push_text(&mut b, &self.name);
        push_text(&mut b, &self.email);
        push_text(&mut b, &self.phone_number);
        push_text(&mut b, &self.speciality);
        push_u64(&mut b, self.current_patient);
        assert(b@ =~= doctor_bytes(self@));
        b
    }

    pub fn decode(b: &[u8], Ghost(v): Ghost<DoctorView>) -> (r: Doctor)
        requires
            b@ == doctor_bytes(v),
            v.fits(),
        ensures
            r@ == v,
    {
        proof {
            lemma_int_sizes();
            assert(b@.subrange(0, b@.len() as int) =~= b@);
            assert(has_at(b@, 0, doctor_bytes(v)));
        }
        let id = read_u64(b, 0, Ghost(v.id));
        let (name, p) = read_text(b, 8, Ghost(v.name));
        let (email, p) = read_text(b, p, Ghost(v.email));
        let (phone_number, p) = read_text(b, p, Ghost(v.phone_number));
        let (speciality, p) = read_text(b, p, Ghost(v.speciality));
        let current_patient = read_u64(b, p, Ghost(v.current_patient));
        Doctor { id, name, email, phone_number, speciality, current_patient }
    }

    /// The doctor whose bytes are exactly `b`, if `b` is well formed. The
    /// bytes of every doctor are well formed when their length fits in 32 bits.
    pub fn parse(b: &[u8]) -> (r: Option<Doctor>)
        ensures
            r matches Some(x) ==> doctor_bytes(x@) == b@,
            (exists|v: DoctorView| doctor_bytes(v) == b@) && b@.len() <= u32::MAX ==> r is Some,
    {
        let ghost v = choose|v: DoctorView| doctor_bytes(v) == b@;
        let ghost fits = doctor_bytes(v) == b@ && b@.len() <= u32::MAX;
        proof {
            lemma_int_sizes();
            assert(fits ==> has_at(b@, 0, doctor_bytes(v))) by {
                assert(b@.subrange(0, b@.len() as int) =~= b@);
            }
        }
        let (id, p) = take_u64(b, 0, Ghost(v.id))?;
        let ghost acc = enc_u64(id);
        let (name, q) = take_text(b, p, Ghost(v.name))?;
        proof {
            lemma_grow(b@, p as int, q as int, acc, enc_text(name@));
            acc = acc + enc_text(name@);
        }
        let (email, p) = take_text(b, q, Ghost(v.email))?;
        proof {
            lemma_grow(b@, q as int, p as int, acc, enc_text(email@));
            acc = acc + enc_text(email@);
        }
        let (phone_number, q) = take_text(b, p, Ghost(v.phone_number))?;
        proof {
            lemma_grow(b@, p as int, q as int, acc, enc_text(phone_number@));
            acc = acc + enc_text(phone_number@);
        }
        let (speciality, p) = take_text(b, q, Ghost(v.speciality))?;
        proof {
            lemma_grow(b@, q as int, p as int, acc, enc_text(speciality@));
            acc = acc + enc_text(speciality@);
        }
        let (current_patient, q) = take_u64(b, p, Ghost(v.current_patient))?;
        proof {
            lemma_grow(b@, p as int, q as int, acc, enc_u64(current_patient));
            acc = acc + enc_u64(current_patient);
        }
        if q != b.len() {
            return None;
        }
        proof {
            assert(b@.subrange(0, q as int) =~= b@);
        }
        Some(Doctor { id, name, email, phone_number, speciality, current_patient })
    }
}

/// What a caller supplies to add a doctor or to replace a doctor's details.
#[derive(Debug, Clone, PartialEq, Eq)]
pub struct DoctorPayload {
    pub name: String,
    pub email: String,
    pub phone_number: String,
    pub speciality: String,
}

impl DoctorPayload {
    /// Every text is non-empty.
    pub open spec fn complete(&self) -> bool {
        &&& self.name@.len() > 0
        &&& self.email@.len() > 0
        &&& self.phone_number@.len() > 0
        &&& self.speciality@.len() > 0
    }

    /// The doctor that this payload adds under `id`, in charge of no patient.
    pub open spec fn record(&self, id: u64) -> DoctorView {
        DoctorView {
            id,
            name: self.name@,
            email: self.email@,
            phone_number: self.phone_number@,
            speciality: self.speciality@,
            current_patient: 0,
        }
    }

    /// `d` with its details replaced by this payload's; its id and current
    /// patient stay.
    pub open spec fn apply(&self, d: DoctorView) -> DoctorView {
        DoctorView { current_patient: d.current_patient, ..self.record(d.id) }
    }

    pub open spec fn fits(&self) -> bool {
        self.record(0).fits()
    }

    pub fn is_complete(&self) -> (r: bool)
        ensures
            r == self.complete(),
    {
        !(self.name.as_str().is_empty() || self.email.as_str().is_empty()
            || self.phone_number.as_str().is_empty() || self.speciality.as_str().is_empty())
    }

    pub fn fits_record(&self) -> (r: bool)
        ensures
            r == self.fits(),
    {
        proof {
            lemma_int_sizes();
        }
        let mut acc: usize = 16;
        acc = add_text_size(acc, &self.name);
        acc = add_text_size(acc, &self.email);
        acc = add_text_size(acc, &self.phone_number);
        acc = add_text_size(acc, &self.speciality);
        acc <= MAX_RECORD_SIZE
    }

    /// The size of a doctor depends on its texts alone.
    pub proof fn lemma_fits(&self, d: DoctorView)
        ensures
            self.record(d.id).fits() == self.fits(),
            self.apply(d).fits() == self.fits(),
    {
        lemma_int_sizes();
    }
}

impl Default for DoctorPayload {
    fn default() -> (r: Self)
        ensures
            r.name@.len() == 0 && r.email@.len() == 0 && r.phone_number@.len() == 0
                && r.speciality@.len() == 0,
    {
        DoctorPayload {
            name: String::new(),
            email: String::new(),
            phone_number: String::new(),
            speciality: String::new(),
        }
    }
}

/// A room of the facility.
#[derive(Debug, Clone, PartialEq, Eq)]
pub struct Room {
    pub id: u64,
    pub name: String,
    pub location: String,
    /// The id of the doctor in charge of the room.
    pub current_doctor_id: u64,
    /// The equipment in the room, in order; empty when the room is added.
    pub equipment: Vec<String>,
}

pub struct RoomView {
    pub id: u64,
    pub name: Seq<char>,
    pub location: Seq<char>,
    pub current_doctor_id: u64,
    pub equipment: Seq<Seq<char>>,
}

impl View for Room {
    type V = RoomView;

    open spec fn view(&self) -> RoomView {
        RoomView {
            id: self.id,
            name: self.name@,
            location: self.location@,
            current_doctor_id: self.current_doctor_id,
            equipment: self.equipment@.map_values(|s: String| s@),
        }
    }
}

pub open spec fn room_bytes(v: RoomView) -> Seq<u8> {
    enc_u64(v.id) + enc_text(v.name) + enc_text(v.location) + enc_u64(v.current_doctor_id)
        + enc_texts(v.equipment)
}

impl RoomView {
    pub open spec fn fits(self) -> bool {
        room_bytes(self).len() <= MAX_RECORD_SIZE
    }
}

impl Room {
    pub fn encode(&self) -> (r: Vec<u8>)
        requires
            self@.fits(),
        ensures
            r@ == room_bytes(self@),
    {
        proof {
            lemma_int_sizes();
            lemma_run_bounds(self@.equipment);
            assert forall|k: int| 0 <= k < self.equipment@.len() implies encode_utf8(
                #[trigger] self.equipment@[k]@,
            ).len() <= u32::MAX by {
                assert(self@.equipment[k] == self.equipment@[k]@);
            }
        }
        let mut b: Vec<u8> = Vec::new();
        push_u64(&mut b, self.id);
        push_text(&mut b, &self.name);
        push_text(&mut b, &self.location);
        push_u64(&mut b, self.current_doctor_id);
        push_texts(&mut b, &self.equipment);
        assert(b@ =~= room_bytes(self@));
        b
    }

    pub fn decode(b: &[u8], Ghost(v): Ghost<RoomView>) -> (r: Room)
        requires
            b@ == room_bytes(v),
            v.fits(),
        ensures
            r@ == v,
    {
        proof {
            lemma_int_sizes();
            lemma_run_bounds(v.equipment);
            assert(b@.subrange(0, b@.len() as int) =~= b@);
            assert(has_at(b@, 0, room_bytes(v)));
        }
        let id = read_u64(b, 0, Ghost(v.id));
        let (name, p) = read_text(b, 8, Ghost(v.name));
        let (location, p) = read_text(b, p, Ghost(v.location));
        let current_doctor_id = read_u64(b, p, Ghost(v.current_doctor_id));
        let (equipment, p) = read_texts(b, p + 8, Ghost(v.equipment));
        Room { id, name, location, current_doctor_id, equipment }
    }

    /// The room whose bytes are exactly `b`, if `b` is well formed. The
    /// bytes of every room are well formed when their length fits in 32 bits.
    pub fn parse(b: &[u8]) -> (r: Option<Room>)
        ensures
            r matches Some(x) ==> room_bytes(x@) == b@,
            (exists|v: RoomView| room_bytes(v) == b@) && b@.len() <= u32::MAX ==> r is Some,
    {
        let ghost v = choose|v: RoomView| room_bytes(v) == b@;
        let ghost fits = room_bytes(v) == b@ && b@.len() <= u32::MAX;
        proof {
            lemma_int_sizes();
            assert(fits ==> has_at(b@, 0, room_bytes(v))) by {
                assert(b@.subrange(0, b@.len() as int) =~= b@);
            }
        }
        let (id, p) = take_u64(b, 0, Ghost(v.id))?;
        let ghost acc = enc_u64(id);
        let (name, q) = take_text(b, p, Ghost(v.name))?;
        proof {
            lemma_grow(b@, p as int, q as int, acc, enc_text(name@));
            acc = acc + enc_text(name@);
        }
        let (location, p) = take_text(b, q, Ghost(v.location))?;
        proof {
            lemma_grow(b@, q as int, p as int, acc, enc_text(location@));
            acc = acc + enc_text(location@);
        }
        let (current_doctor_id, q) = take_u64(b, p, Ghost(v.current_doctor_id))?;
        proof {
            lemma_grow(b@, p as int, q as int, acc, enc_u64(current_doctor_id));
            acc = acc + enc_u64(current_doctor_id);
        }
        let (equipment, p) = take_texts(b, q, Ghost(v.equipment))?;
        proof {
            lemma_grow(b@, q as int, p as int, acc, enc_texts(equipment@.map_values(|s: String| s@)));
            acc = acc + enc_texts(equipment@.map_values(|s: String| s@));
        }
        if p != b.len() {
            return None;
        }
        proof {
            assert(b@.subrange(0, p as int) =~= b@);
        }
        Some(Room { id, name, location, current_doctor_id, equipment })
    }
}

/// What a caller supplies to add a room or to replace a room's details.
#[derive(Debug, Clone, PartialEq, Eq)]
pub struct RoomPayload {
    pub name: String,
    pub location: String,
    pub current_doctor_id: u64,
}

impl RoomPayload {
    /// The name and the location are non-empty.
    pub open spec fn complete(&self) -> bool {
        self.name@.len() > 0 && self.location@.len() > 0
    }

    /// The room that this payload adds under `id`, with no equipment.
    pub open spec fn record(&self, id: u64) -> RoomView {
        RoomView {
            id,
            name: self.name@,
            location: self.location@,
            current_doctor_id: self.current_doctor_id,
            equipment: Seq::empty(),
        }
    }

    /// `r` with its details replaced by this payload's; its id and its
    /// equipment stay.
    pub open spec fn apply(&self, r: RoomView) -> RoomView {
        RoomView { equipment: r.equipment, ..self.record(r.id) }
    }

    pub open spec fn fits(&self) -> bool {
        self.record(0).fits()
    }

    pub fn is_complete(&self) -> (r: bool)
        ensures
            r == self.complete(),
    {
        !(self.name.as_str().is_empty() || self.location.as_str().is_empty())
    }

    /// The room `r` would fit in a stored record once this payload is
    /// applied to it.
    pub fn fits_over(&self, r: &Room) -> (b: bool)
        ensures
            b == self.apply(r@).fits(),
    {
        proof {
            lemma_int_sizes();
            lemma_run_bounds(r@.equipment);
        }
        let mut acc: usize = 20;
        acc = add_text_size(acc, &self.name);
        acc = add_text_size(acc, &self.location);
        let ghost eq = r@.equipment;
        let mut i: usize = 0;
        while i < r.equipment.len()
            invariant
                0 <= i <= r.equipment@.len(),
                eq == r@.equipment,
                acc <= MAX_RECORD_SIZE + 1,
                acc <= MAX_RECORD_SIZE <==> 20 + enc_text(self.name@).len() + enc_text(
                    self.location@,
                ).len() + enc_text_run(eq.take(i as int)).len() <= MAX_RECORD_SIZE,
                acc <= MAX_RECORD_SIZE ==> acc == 20 + enc_text(self.name@).len() + enc_text(
                    self.location@,
                ).len() + enc_text_run(eq.take(i as int)).len(),
            decreases r.equipment@.len() - i,
        {
            acc = add_text_size(acc, &r.equipment[i]);
            proof {
                assert(eq.take(i + 1).drop_last() =~= eq.take(i as int));
                assert(eq[i as int] == r.equipment@[i as int]@);
            }
            i = i + 1;
        }
        assert(eq.take(i as int) =~= eq);
        acc <= MAX_RECORD_SIZE
    }

    /// The size of a room depends on its texts alone.
    pub proof fn lemma_fits(&self, id: u64)
        ensures
            self.record(id).fits() == self.fits(),
    {
        lemma_int_sizes();
    }

    pub fn fits_record(&self) -> (r: bool)
        ensures
            r == self.fits(),
    {
        proof {
            lemma_int_sizes();
            assert(enc_text_run(Seq::<Seq<char>>::empty()) =~= Seq::<u8>::empty());
        }
        let mut acc: usize = 20;
        acc = add_text_size(acc, &self.name);
        acc = add_text_size(acc, &self.location);
        acc <= MAX_RECORD_SIZE
    }
}

impl Default for RoomPayload {
    fn default() -> (r: Self)
        ensures
            r.name@.len() == 0 && r.location@.len() == 0 && r.current_doctor_id == 0,
    {
        RoomPayload { name: String::new(), location: String::new(), current_doctor_id: 0 }
    }
}

/// An item put up for auction.
#[derive(Debug, Clone, PartialEq, Eq)]
pub struct Auction {
    pub id: u64,
    pub item_name: String,
    pub description: String,
    pub starting_bid: u64,
    pub current_bid: u64,
    /// When bidding closes, in nanoseconds since the epoch; nothing enforces
    /// it.
    pub auction_end_time: u64,
    /// The principal that won, in its text form; none until one does.
    pub winner: Option<String>,
}

/// The view of an optional text.
pub open spec fn text_opt(o: &Option<String>) -> Option<Seq<char>> {
    match o {
        Some(s) => Some(s@),
        None => None,
    }
}

pub struct AuctionView {
    pub id: u64,
    pub item_name: Seq<char>,
    pub description: Seq<char>,
    pub starting_bid: u64,
    pub current_bid: u64,
    pub auction_end_time: u64,
    pub winner: Option<Seq<char>>,
}

impl View for Auction {
    type V = AuctionView;

    open spec fn view(&self) -> AuctionView {
        AuctionView {
            id: self.id,
            item_name: self.item_name@,
            description: self.description@,
            starting_bid: self.starting_bid,
            current_bid: self.current_bid,
            auction_end_time: self.auction_end_time,
            winner: text_opt(&self.winner),
        }
    }
}

pub open spec fn auction_bytes(v: AuctionView) -> Seq<u8> {
    enc_u64(v.id) + enc_text(v.item_name) + enc_text(v.description) + enc_u64(v.starting_bid)
        + enc_u64(v.current_bid) + enc_u64(v.auction_end_time) + enc_opt_text(v.winner)
}

impl AuctionView {
    pub open spec fn fits(self) -> bool {
        auction_bytes(self).len() <= MAX_RECORD_SIZE
    }
}

impl Auction {
    pub fn encode(&self) -> (r: Vec<u8>)
        requires
            self@.fits(),
        ensures
            r@ == auction_bytes(self@),
    {
        proof {
            lemma_int_sizes();
        }
        let mut b: Vec<u8> = Vec::new();
        push_u64(&mut b, self.id);
        push_text(&mut b, &self.item_name);
        push_text(&mut b, &self.description);
        push_u64(&mut b, self.starting_bid);
        push_u64(&mut b, self.current_bid);
        push_u64(&mut b, self.auction_end_time);
        push_opt_text(&mut b, &self.winner);
        assert(b@ =~= auction_bytes(self@));
        b
    }

    pub fn decode(b: &[u8], Ghost(v): Ghost<AuctionView>) -> (r: Auction)
        requires
            b@ == auction_bytes(v),
            v.fits(),
        ensures
            r@ == v,
    {
        proof {
            lemma_int_sizes();
            assert(b@.subrange(0, b@.len() as int) =~= b@);
            assert(has_at(b@, 0, auction_bytes(v)));
        }
        let id = read_u64(b, 0, Ghost(v.id));
        let (item_name, p) = read_text(b, 8, Ghost(v.item_name));
        let (description, p) = read_text(b, p, Ghost(v.description));
        let starting_bid = read_u64(b, p, Ghost(v.starting_bid));
        let current_bid = read_u64(b, p + 8, Ghost(v.current_bid));
        let auction_end_time = read_u64(b, p + 16, Ghost(v.auction_end_time));
        proof {
            if v.winner is Some {
                assert(enc_opt_text(v.winner).len() <= b@.len());
            }
        }
        let (winner, p) = read_opt_text(b, p + 24, Ghost(v.winner));
        Auction { id, item_name, description, starting_bid, current_bid, auction_end_time, winner }
    }

    /// The auction whose bytes are exactly `b`, if `b` is well formed. The
    /// bytes of every auction are well formed when their length fits in 32 bits.
    pub fn parse(b: &[u8]) -> (r: Option<Auction>)
        ensures
            r matches Some(x) ==> auction_bytes(x@) == b@,
            (exists|v: AuctionView| auction_bytes(v) == b@) && b@.len() <= u32::MAX ==> r is Some,
    {
        let ghost v = choose|v: AuctionView| auction_bytes(v) == b@;
        let ghost fits = auction_bytes(v) == b@ && b@.len() <= u32::MAX;
        proof {
            lemma_int_sizes();
            assert(fits ==> has_at(b@, 0, auction_bytes(v))) by {
                assert(b@.subrange(0, b@.len() as int) =~= b@);
            }
        }
        let (id, p) = take_u64(b, 0, Ghost(v.id))?;
        let ghost acc = enc_u64(id);
        let (item_name, q) = take_text(b, p, Ghost(v.item_name))?;
        proof {
            lemma_grow(b@, p as int, q as int, acc, enc_text(item_name@));
            acc = acc + enc_text(item_name@);
        }
        let (description, p) = take_text(b, q, Ghost(v.description))?;
        proof {
            lemma_grow(b@, q as int, p as int, acc, enc_text(description@));
            acc = acc + enc_text(description@);
        }
        let (starting_bid, q) = take_u64(b, p, Ghost(v.starting_bid))?;
        proof {
            lemma_grow(b@, p as int, q as int, acc, enc_u64(starting_bid));
            acc = acc + enc_u64(starting_bid);
        }
        let (current_bid, p) = take_u64(b, q, Ghost(v.current_bid))?;
        proof {
            lemma_grow(b@, q as int, p as int, acc, enc_u64(current_bid));
            acc = acc + enc_u64(current_bid);
        }
        let (auction_end_time, q) = take_u64(b, p, Ghost(v.auction_end_time))?;
        proof {
            lemma_grow(b@, p as int, q as int, acc, enc_u64(auction_end_time));
            acc = acc + enc_u64(auction_end_time);
        }
        let (winner, p) = take_opt_text(b, q, Ghost(v.winner))?;
        proof {
            lemma_grow(b@, q as int, p as int, acc, enc_opt_text(text_opt(&winner)));
            acc = acc + enc_opt_text(text_opt(&winner));
        }
        if p != b.len() {
            return None;
        }
        proof {
            assert(b@.subrange(0, p as int) =~= b@);
        }
        Some(Auction { id, item_name, description, starting_bid, current_bid, auction_end_time, winner })
    }
}

/// What a caller supplies to put an item up for auction.
#[derive(Debug, Clone, PartialEq, Eq)]
pub struct AuctionPayload {
    pub item_name: String,
    pub description: String,
    pub starting_bid: u64,
    /// How long bidding stays open, in nanoseconds.
    pub auction_duration: u64,
}

impl AuctionPayload {
    /// The item's name and description are non-empty.
    pub open spec fn complete(&self) -> bool {
        self.item_name@.len() > 0 && self.description@.len() > 0
    }

    /// The auction that this payload opens under `id` at time `now`: the
    /// current bid is the starting bid, bidding closes `auction_duration`
    /// after `now`, and there is no winner.
    pub open spec fn record(&self, id: u64, now: u64) -> AuctionView {
        AuctionView {
            id,
            item_name: self.item_name@,
            description: self.description@,
            starting_bid: self.starting_bid,
            current_bid: self.starting_bid,
            auction_end_time: (now + self.auction_duration) as u64,
            winner: None,
        }
    }

    pub open spec fn fits(&self) -> bool {
        self.record(0, 0).fits()
    }

    pub fn is_complete(&self) -> (r: bool)
        ensures
            r == self.complete(),
    {
        !(self.item_name.as_str().is_empty() || self.description.as_str().is_empty())
    }

    pub fn fits_record(&self) -> (r: bool)
        ensures
            r == self.fits(),
    {
        proof {
            lemma_int_sizes();
        }
        let mut acc: usize = 33;
        acc = add_text_size(acc, &self.item_name);
        acc = add_text_size(acc, &self.description);
        acc <= MAX_RECORD_SIZE
    }

    /// The size of an auction depends on its texts alone.
    pub proof fn lemma_fits(&self, id: u64, now: u64)
        ensures
            self.record(id, now).fits() == self.fits(),
    {
        lemma_int_sizes();
    }
}

/// A kind of record kept in a collection: how its bytes look, and the id
/// it is kept under.
pub trait Stored: View + Sized {
    spec fn stored_bytes(v: Self::V) -> Seq<u8>;

    spec fn stored_id(v: Self::V) -> u64;

    /// The record whose bytes are exactly `b`, if `b` is well formed; the
    /// bytes of every record are, when their length fits in 32 bits.
    fn parse_stored(b: &[u8]) -> (r: Option<Self>)
        ensures
            r matches Some(x) ==> Self::stored_bytes(x@) == b@,
            (exists|v: Self::V| Self::stored_bytes(v) == b@) && b@.len() <= u32::MAX ==> r is Some,
    ;

    /// Records with the same bytes have the same id.
    proof fn lemma_same_id(v: Self::V, w: Self::V)
        requires
            Self::stored_bytes(v) == Self::stored_bytes(w),
        ensures
            Self::stored_id(v) == Self::stored_id(w),
    ;

    fn id_of(&self) -> (r: u64)
        ensures
            r == Self::stored_id(self@),
    ;
}

impl Stored for Patient {
    open spec fn stored_bytes(v: PatientView) -> Seq<u8> {
        patient_bytes(v)
    }

    open spec fn stored_id(v: PatientView) -> u64 {
        v.id
    }

    fn parse_stored(b: &[u8]) -> (r: Option<Patient>) {
        Patient::parse(b)
    }

    proof fn lemma_same_id(v: PatientView, w: PatientView) {
        lemma_int_sizes();
        let b = patient_bytes(v);
        assert(b.subrange(0, b.len() as int) =~= b);
        assert(has_at(b, 0, patient_bytes(v)));
        assert(has_at(b, 0, patient_bytes(w)));
        lemma_u64_injective(v.id, w.id);
    }

    fn id_of(&self) -> (r: u64) {
        self.id
    }
}

impl Stored for Doctor {
    open spec fn stored_bytes(v: DoctorView) -> Seq<u8> {
        doctor_bytes(v)
    }

    open spec fn stored_id(v: DoctorView) -> u64 {
        v.id
    }

    fn parse_stored(b: &[u8]) -> (r: Option<Doctor>) {
        Doctor::parse(b)
    }

    proof fn lemma_same_id(v: DoctorView, w: DoctorView) {
        lemma_int_sizes();
        let b = doctor_bytes(v);
        assert(b.subrange(0, b.len() as int) =~= b);
        assert(has_at(b, 0, doctor_bytes(v)));
        assert(has_at(b, 0, doctor_bytes(w)));
        lemma_u64_injective(v.id, w.id);
    }

    fn id_of(&self) -> (r: u64) {
        self.id
    }
}

impl Stored for Room {
    open spec fn stored_bytes(v: RoomView) -> Seq<u8> {
        room_bytes(v)
    }

    open spec fn stored_id(v: RoomView) -> u64 {
        v.id
    }

    fn parse_stored(b: &[u8]) -> (r: Option<Room>) {
        Room::parse(b)
    }

    proof fn lemma_same_id(v: RoomView, w: RoomView) {
        lemma_int_sizes();
        let b = room_bytes(v);
        assert(b.subrange(0, b.len() as int) =~= b);
        assert(has_at(b, 0, room_bytes(v)));
        assert(has_at(b, 0, room_bytes(w)));
        lemma_u64_injective(v.id, w.id);
    }

    fn id_of(&self) -> (r: u64) {
        self.id
    }
}

impl Stored for Auction {
    open spec fn stored_bytes(v: AuctionView) -> Seq<u8> {
        auction_bytes(v)
    }

    open spec fn stored_id(v: AuctionView) -> u64 {
        v.id
    }

    fn parse_stored(b: &[u8]) -> (r: Option<Auction>) {
        Auction::parse(b)
    }

    proof fn lemma_same_id(v: AuctionView, w: AuctionView) {
        lemma_int_sizes();
        let b = auction_bytes(v);
        assert(b.subrange(0, b.len() as int) =~= b);
        assert(has_at(b, 0, auction_bytes(v)));
        assert(has_at(b, 0, auction_bytes(w)));
        lemma_u64_injective(v.id, w.id);
    }

    fn id_of(&self) -> (r: u64) {
        self.id
    }
}

} // verus!
