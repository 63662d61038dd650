use health_management::codec::{push_text, push_u32, push_u64};
use health_management::records::{Auction, Doctor, Patient, Room};

#[test]
fn integers_are_little_endian() {
    let mut b = Vec::new();
    push_u64(&mut b, 0x0102030405060708);
    push_u32(&mut b, 0x0a0b0c0d);
    assert_eq!(b, vec![8, 7, 6, 5, 4, 3, 2, 1, 0x0d, 0x0c, 0x0b, 0x0a]);
}

#[test]
fn texts_carry_their_byte_count() {
    let mut b = Vec::new();
    push_text(&mut b, &"hé".to_string());
    assert_eq!(b, vec![3, 0, 0, 0, b'h', 0xc3, 0xa9]);
}

#[test]
fn patient_layout() {
    let p = Patient {
        id: 1,
        name: "A".to_string(),
        date_of_birth: "B".to_string(),
        age: 2,
        gender: "".to_string(),
        ethncity: "".to_string(),
        address: "".to_string(),
        phone_number: "".to_string(),
        email: "".to_string(),
        next_of_kin: "".to_string(),
        kins_phone_number: "".to_string(),
        registered_on: 3,
    };
    let b = p.encode();
    assert_eq!(b.len(), 8 + 5 + 5 + 4 + 7 * 4 + 8);
    assert_eq!(&b[0..8], &[1, 0, 0, 0, 0, 0, 0, 0]);
    assert_eq!(&b[8..13], &[1, 0, 0, 0, b'A']);
    assert_eq!(&b[b.len() - 8..], &[3, 0, 0, 0, 0, 0, 0, 0]);
}

#[test]
fn room_equipment_is_counted() {
    let r = Room {
        id: 5,
        name: "".to_string(),
        location: "".to_string(),
        current_doctor_id: 0,
        equipment: vec!["bed".to_string(), "ecg".to_string()],
    };
    let b = r.encode();
    assert_eq!(b.len(), 8 + 4 + 4 + 8 + 4 + 2 * 7);
    assert_eq!(&b[24..28], &[2, 0, 0, 0]);
    assert_eq!(&b[28..35], &[3, 0, 0, 0, b'b', b'e', b'd']);
    assert_eq!(&b[35..42], &[3, 0, 0, 0, b'e', b'c', b'g']);
}

fn sample_patient() -> Patient {
    Patient {
        id: 12,
        name: "Nnamdi".to_string(),
        date_of_birth: "02-03-1984".to_string(),
        age: 40,
        gender: "M".to_string(),
        ethncity: "Igbo".to_string(),
        address: "Lagos".to_string(),
        phone_number: "0803".to_string(),
        email: "n@example.org".to_string(),
        next_of_kin: "Ada".to_string(),
        kins_phone_number: "0805".to_string(),
        registered_on: 99,
    }
}

#[test]
fn parse_reads_back_what_encode_wrote() {
    let p = sample_patient();
    assert_eq!(Patient::parse(&p.encode()), Some(p));
    let r = Room {
        id: 3,
        name: "Lab".to_string(),
        location: "Annex".to_string(),
        current_doctor_id: 2,
        equipment: vec!["microscope".to_string(), "centrifuge".to_string()],
    };
    assert_eq!(Room::parse(&r.encode()), Some(r));
    let a = Auction {
        id: 4,
        item_name: "Vase".to_string(),
        description: "Ming".to_string(),
        starting_bid: 100,
        current_bid: 150,
        auction_end_time: 3700,
        winner: Some("aaaaa-aa".to_string()),
    };
    assert_eq!(Auction::parse(&a.encode()), Some(a));
}

#[test]
fn parse_refuses_malformed_bytes() {
    let b = sample_patient().encode();
    assert_eq!(Patient::parse(&b[..b.len() - 1]), None);
    let mut longer = b.clone();
    longer.push(0);
    assert_eq!(Patient::parse(&longer), None);
    let mut bad_utf8 = b.clone();
    bad_utf8[12] = 0xff;
    assert_eq!(Patient::parse(&bad_utf8), None);
    assert_eq!(Doctor::parse(&[]), None);
    let mut bad_tag = Auction {
        id: 1,
        item_name: "a".to_string(),
        description: "b".to_string(),
        starting_bid: 0,
        current_bid: 0,
        auction_end_time: 0,
        winner: None,
    }
    .encode();
    let last = bad_tag.len() - 1;
    bad_tag[last] = 2;
    assert_eq!(Auction::parse(&bad_tag), None);
}
