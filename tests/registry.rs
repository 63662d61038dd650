use health_management::records::{
    AuctionPayload, DoctorPayload, PatientPayload, RoomPayload,
};
use health_management::service::{Error, Registry};

fn registry() -> Registry {
    Registry::new().expect("a fresh memory holds the counter")
}

fn amy() -> PatientPayload {
    PatientPayload {
        name: "Amy".to_string(),
        date_of_birth: "01-01-1990".to_string(),
        age: 36,
        gender: "F".to_string(),
        ethncity: "X".to_string(),
        address: "Y".to_string(),
        phone_number: "123".to_string(),
        email: "".to_string(),
        next_of_kin: "Bob".to_string(),
        kins_phone_number: "456".to_string(),
    }
}

fn house() -> DoctorPayload {
    DoctorPayload {
        name: "House".to_string(),
        email: "house@example.org".to_string(),
        phone_number: "555".to_string(),
        speciality: "Diagnostics".to_string(),
    }
}

fn ward() -> RoomPayload {
    RoomPayload { name: "Ward A".to_string(), location: "Floor 2".to_string(), current_doctor_id: 7 }
}

fn is_not_found(e: &Error) -> bool {
    matches!(e, Error::NotFound { .. })
}

fn is_empty_fields(e: &Error) -> bool {
    matches!(e, Error::EmptyFields { .. })
}

#[test]
fn create_patient_scenario() {
    let mut g = registry();
    let now = 1_700_000_000_000_000_000;
    let p = g.create_patient(amy(), now).unwrap();
    assert_eq!(p.id, 1);
    assert_eq!(p.registered_on, now);
    assert_eq!(p.name, "Amy");
    assert_eq!(p.date_of_birth, "01-01-1990");
    assert_eq!(p.email, "");
    assert_eq!(p.kins_phone_number, "456");
    let mut nameless = amy();
    nameless.name = String::new();
    let e = g.create_patient(nameless, now).unwrap_err();
    assert!(is_empty_fields(&e));
    assert_eq!(g.last_id(), 1);
}

#[test]
fn create_patient_with_zero_age_is_refused() {
    let mut g = registry();
    let mut p = amy();
    p.age = 0;
    assert!(is_empty_fields(&g.create_patient(p, 5).unwrap_err()));
    assert_eq!(g.last_id(), 0);
}

#[test]
fn create_auction_scenario() {
    let mut g = registry();
    let now = 1_000_000;
    let a = g
        .create_auction(
            AuctionPayload {
                item_name: "Vase".to_string(),
                description: "Ming".to_string(),
                starting_bid: 100,
                auction_duration: 3600,
            },
            now,
        )
        .unwrap();
    assert_eq!(a.current_bid, 100);
    assert_eq!(a.starting_bid, 100);
    assert_eq!(a.auction_end_time, now + 3600);
    assert_eq!(a.winner, None);
    assert_eq!(g.get_auction(a.id).unwrap(), a);
    let e = g
        .create_auction(
            AuctionPayload {
                item_name: "".to_string(),
                description: "Ming".to_string(),
                starting_bid: 1,
                auction_duration: 1,
            },
            now,
        )
        .unwrap_err();
    assert!(is_empty_fields(&e));
}

#[test]
fn create_then_get_round_trips() {
    let mut g = registry();
    let p = g.create_patient(amy(), 42).unwrap();
    assert_eq!(g.get_patient(p.id).unwrap(), p);
    let d = g.create_doctor(house()).unwrap();
    assert_eq!(d.current_patient, 0);
    assert_eq!(g.get_doctor(d.id).unwrap(), d);
    let r = g.create_room(ward()).unwrap();
    assert!(r.equipment.is_empty());
    assert_eq!(r.current_doctor_id, 7);
    assert_eq!(g.get_room(r.id).unwrap(), r);
}

#[test]
fn texts_beyond_ascii_round_trip() {
    let mut g = registry();
    let mut p = amy();
    p.name = "Zoë Ångström 李".to_string();
    let created = g.create_patient(p, u64::MAX).unwrap();
    let got = g.get_patient(created.id).unwrap();
    assert_eq!(got.name, "Zoë Ångström 李");
    assert_eq!(got.registered_on, u64::MAX);
}

#[test]
fn unknown_ids_are_not_found() {
    let mut g = registry();
    g.create_patient(amy(), 1).unwrap();
    match g.get_patient(42) {
        Err(Error::NotFound { msg }) => assert_eq!(msg, "Patient with ID 42 can not be found"),
        _ => panic!("expected NotFound"),
    }
    match g.get_doctor(0) {
        Err(Error::NotFound { msg }) => assert_eq!(msg, "Doctor with ID 0 can not be found"),
        _ => panic!("expected NotFound"),
    }
    match g.get_room(1234567890) {
        Err(Error::NotFound { msg }) => assert_eq!(msg, "Room with ID 1234567890 not found"),
        _ => panic!("expected NotFound"),
    }
    assert!(is_not_found(&g.get_auction(1).unwrap_err()));
}

#[test]
fn next_id_strictly_increases() {
    let mut g = registry();
    let mut ids = Vec::new();
    for _ in 0..5 {
        ids.push(g.next_id());
    }
    assert_eq!(ids, vec![1, 2, 3, 4, 5]);
    for i in 1..ids.len() {
        assert!(ids[i - 1] < ids[i]);
    }
}

#[test]
fn ids_are_shared_across_kinds() {
    let mut g = registry();
    let p = g.create_patient(amy(), 1).unwrap();
    let d = g.create_doctor(house()).unwrap();
    let r = g.create_room(ward()).unwrap();
    assert_eq!((p.id, d.id, r.id), (1, 2, 3));
}

#[test]
fn update_absent_id_is_not_found() {
    let mut g = registry();
    let p = g.create_patient(amy(), 1).unwrap();
    assert!(is_not_found(&g.update_patient(99, amy()).unwrap_err()));
    assert!(is_not_found(&g.update_doctor(99, house()).unwrap_err()));
    assert!(is_not_found(&g.update_room(99, ward()).unwrap_err()));
    assert_eq!(g.get_patient(p.id).unwrap(), p);
    assert!(is_not_found(&g.get_patient(99).unwrap_err()));
}

#[test]
fn update_with_incomplete_payload_is_refused() {
    let mut g = registry();
    let p = g.create_patient(amy(), 1).unwrap();
    let mut bad = amy();
    bad.address = String::new();
    assert!(is_empty_fields(&g.update_patient(p.id, bad).unwrap_err()));
    let mut bad_doctor = house();
    bad_doctor.speciality = String::new();
    assert!(is_empty_fields(&g.update_doctor(p.id, bad_doctor).unwrap_err()));
    let mut bad_room = ward();
    bad_room.location = String::new();
    assert!(is_empty_fields(&g.update_room(p.id, bad_room).unwrap_err()));
    assert_eq!(g.get_patient(p.id).unwrap(), p);
}

#[test]
fn update_present_keeps_id_and_registration() {
    let mut g = registry();
    let p = g.create_patient(amy(), 77).unwrap();
    let mut changed = amy();
    changed.name = "Amelia".to_string();
    changed.age = 37;
    changed.email = "amelia@example.org".to_string();
    let u = g.update_patient(p.id, changed).unwrap();
    assert_eq!(u.id, p.id);
    assert_eq!(u.registered_on, 77);
    assert_eq!(u.name, "Amelia");
    assert_eq!(u.age, 37);
    assert_eq!(u.email, "amelia@example.org");
    assert_eq!(g.get_patient(p.id).unwrap(), u);
}

#[test]
fn update_doctor_keeps_current_patient() {
    let mut g = registry();
    let d = g.create_doctor(house()).unwrap();
    let mut changed = house();
    changed.speciality = "Nephrology".to_string();
    let u = g.update_doctor(d.id, changed).unwrap();
    assert_eq!(u.id, d.id);
    assert_eq!(u.current_patient, 0);
    assert_eq!(u.speciality, "Nephrology");
    assert_eq!(g.get_doctor(d.id).unwrap(), u);
}

#[test]
fn update_room_keeps_equipment() {
    let mut g = registry();
    let r = g.create_room(ward()).unwrap();
    let payload = RoomPayload {
        name: "Ward B".to_string(),
        location: "Floor 3".to_string(),
        current_doctor_id: 9,
    };
    assert!(g.room_update_fits(r.id, &payload));
    let u = g.update_room(r.id, payload).unwrap();
    assert_eq!(u.id, r.id);
    assert_eq!(u.equipment, r.equipment);
    assert_eq!(u.name, "Ward B");
    assert_eq!(u.current_doctor_id, 9);
    assert_eq!(g.get_room(r.id).unwrap(), u);
}

#[test]
fn delete_removes_and_absent_delete_is_not_found() {
    let mut g = registry();
    let p = g.create_patient(amy(), 1).unwrap();
    let d = g.create_doctor(house()).unwrap();
    let r = g.create_room(ward()).unwrap();
    assert!(g.delete_patient(p.id).is_ok());
    assert!(is_not_found(&g.get_patient(p.id).unwrap_err()));
    assert!(is_not_found(&g.delete_patient(p.id).unwrap_err()));
    assert!(g.delete_doctor(d.id).is_ok());
    assert!(is_not_found(&g.get_doctor(d.id).unwrap_err()));
    assert!(is_not_found(&g.delete_doctor(d.id).unwrap_err()));
    assert!(g.delete_room(r.id).is_ok());
    assert!(is_not_found(&g.get_room(r.id).unwrap_err()));
    match g.delete_room(r.id) {
        Err(Error::NotFound { msg }) => assert_eq!(msg, "Room with ID 3 not found"),
        _ => panic!("expected NotFound"),
    }
    assert_eq!(g.last_id(), 3);
}

#[test]
fn collections_are_disjoint() {
    let mut g = registry();
    let p = g.create_patient(amy(), 1).unwrap();
    assert_eq!(p.id, 1);
    assert!(is_not_found(&g.get_doctor(1).unwrap_err()));
    assert!(is_not_found(&g.get_room(1).unwrap_err()));
    assert!(is_not_found(&g.get_auction(1).unwrap_err()));
    assert!(g.get_patient(1).is_ok());
    let partitions = [
        health_management::service::COUNTER_PARTITION,
        health_management::service::PATIENT_PARTITION,
        health_management::service::DOCTOR_PARTITION,
        health_management::service::ROOM_PARTITION,
        health_management::service::AUCTION_PARTITION,
    ];
    for i in 0..partitions.len() {
        for j in 0..i {
            assert_ne!(partitions[i], partitions[j]);
        }
    }
}

#[test]
fn payload_size_bound() {
    let mut p = amy();
    assert!(p.fits_record());
    p.address = "x".repeat(3000);
    assert!(!p.fits_record());
    let mut d = house();
    assert!(d.fits_record());
    d.name = "é".repeat(1100);
    assert!(!d.fits_record());
    let mut r = ward();
    assert!(r.fits_record());
    r.location = "y".repeat(2030);
    assert!(!r.fits_record());
    let a = AuctionPayload {
        item_name: "z".repeat(2000),
        description: "w".repeat(100),
        starting_bid: 0,
        auction_duration: 0,
    };
    assert!(!a.fits_record());
}

#[test]
fn payload_validation() {
    assert!(amy().is_complete());
    assert!(!PatientPayload::default().is_complete());
    assert!(house().is_complete());
    assert!(!DoctorPayload::default().is_complete());
    assert!(ward().is_complete());
    assert!(!RoomPayload::default().is_complete());
    let mut p = amy();
    p.email = String::new();
    assert!(p.is_complete());
}

#[test]
fn payload_defaults_are_empty() {
    let p = PatientPayload::default();
    assert_eq!(p.name, "");
    assert_eq!(p.age, 0);
    let d = DoctorPayload::default();
    assert_eq!(d.speciality, "");
    let r = RoomPayload::default();
    assert_eq!(r.current_doctor_id, 0);
    assert_eq!(r.location, "");
}

#[test]
fn ids_are_listed_in_ascending_order() {
    let mut g = registry();
    let a = g.create_patient(amy(), 1).unwrap();
    g.create_doctor(house()).unwrap();
    let b = g.create_patient(amy(), 2).unwrap();
    let c = g.create_patient(amy(), 3).unwrap();
    g.delete_patient(b.id).unwrap();
    assert_eq!(g.patient_ids(), vec![a.id, c.id]);
    assert_eq!(g.doctor_ids(), vec![2]);
    assert!(g.room_ids().is_empty());
    assert!(g.auction_ids().is_empty());
}

#[test]
fn open_on_fresh_memory_is_empty() {
    let mut g = Registry::open().expect("a fresh memory opens");
    assert_eq!(g.last_id(), 0);
    assert!(is_not_found(&g.get_patient(1).unwrap_err()));
    let p = g.create_patient(amy(), 3).unwrap();
    assert_eq!(p.id, 1);
    assert_eq!(g.get_patient(1).unwrap(), p);
}

#[test]
fn replaced_and_removed_records_leave_no_trace() {
    let mut g = registry();
    let first = g.create_room(ward()).unwrap();
    let second = g.create_room(ward()).unwrap();
    let renamed = RoomPayload { name: "Ward C".to_string(), location: "Floor 1".to_string(), current_doctor_id: 0 };
    g.update_room(first.id, renamed).unwrap();
    assert_eq!(g.get_room(first.id).unwrap().name, "Ward C");
    assert_eq!(g.get_room(second.id).unwrap(), second);
    g.delete_room(first.id).unwrap();
    assert_eq!(g.room_ids(), vec![second.id]);
}

fn empty_fields_msg(e: Error) -> String {
    match e {
        Error::EmptyFields { msg } => msg,
        _ => panic!("expected EmptyFields"),
    }
}

#[test]
fn empty_fields_messages_follow_each_operation() {
    let mut g = registry();
    let p = g.create_patient(amy(), 1).unwrap();
    let d = g.create_doctor(house()).unwrap();
    let r = g.create_room(ward()).unwrap();
    assert_eq!(
        empty_fields_msg(g.create_patient(PatientPayload::default(), 1).unwrap_err()),
        "Please fill in all the required fields to be able to submit"
    );
    assert_eq!(
        empty_fields_msg(g.update_patient(p.id, PatientPayload::default()).unwrap_err()),
        "You must fill all of the required fields"
    );
    assert_eq!(
        empty_fields_msg(g.create_doctor(DoctorPayload::default()).unwrap_err()),
        "You must fill in all the required fields"
    );
    assert_eq!(
        empty_fields_msg(g.update_doctor(d.id, DoctorPayload::default()).unwrap_err()),
        "You must fill in all the required fields"
    );
    assert_eq!(
        empty_fields_msg(g.create_room(RoomPayload::default()).unwrap_err()),
        "Please fill in all the required fields"
    );
    assert_eq!(
        empty_fields_msg(g.update_room(r.id, RoomPayload::default()).unwrap_err()),
        "Please fill in all the required fields"
    );
}

#[test]
fn oversized_payloads_still_get_typed_errors() {
    let mut g = registry();
    let mut big = amy();
    big.address = "x".repeat(5000);
    let mut incomplete = big.clone();
    incomplete.name = String::new();
    assert!(!incomplete.fits_record());
    assert!(is_empty_fields(&g.create_patient(incomplete.clone(), 1).unwrap_err()));
    assert!(is_empty_fields(&g.update_patient(1, incomplete).unwrap_err()));
    assert!(is_not_found(&g.update_patient(1, big).unwrap_err()));
    let mut big_doctor = house();
    big_doctor.email = "y".repeat(5000);
    assert!(is_not_found(&g.update_doctor(7, big_doctor).unwrap_err()));
    let big_room = RoomPayload { name: "z".repeat(5000), location: String::new(), current_doctor_id: 0 };
    assert!(is_empty_fields(&g.create_room(big_room).unwrap_err()));
    assert_eq!(g.last_id(), 0);
}
