use sortflow::error::ApiError;
use sortflow::ids::{good_id_from_payload, good_id_text, parse_good_id};

const GOOD: u128 = 0x67e5504410b1426f9247bb680e5fe0c8;
const TEXT: &str = "67e55044-10b1-426f-9247-bb680e5fe0c8";

#[test]
fn identifier_text_is_hyphenated_lower_case() {
    assert_eq!(good_id_text(GOOD), TEXT);
    assert_eq!(good_id_text(0), "00000000-0000-0000-0000-000000000000");
    assert_eq!(good_id_text(u128::MAX), "ffffffff-ffff-ffff-ffff-ffffffffffff");
}

#[test]
fn identifier_text_reads_back() {
    for id in [0u128, 1, GOOD, u128::MAX, 0x0123456789abcdef0123456789abcdef] {
        let text = good_id_text(id);
        assert_eq!(parse_good_id(Some(&text)), Ok(id));
    }
}

#[test]
fn parse_good_id_cases() {
    assert_eq!(parse_good_id(None), Err(ApiError::EmptyUuid));
    assert_eq!(parse_good_id(Some("")), Err(ApiError::InvalidUuid));
    assert_eq!(parse_good_id(Some("not a uuid")), Err(ApiError::InvalidUuid));
    assert_eq!(parse_good_id(Some("67E55044-10B1-426F-9247-BB680E5FE0C8")), Ok(GOOD));
    assert_eq!(parse_good_id(Some("67e5504410b1426f9247bb680e5fe0c8")), Ok(GOOD));
}

#[test]
fn payload_good_id() {
    let ok: serde_json::Value = serde_json::from_str(&format!("{{\"good_id\": \"{}\"}}", TEXT)).unwrap();
    assert_eq!(good_id_from_payload(&ok), Ok(GOOD));
    let missing: serde_json::Value = serde_json::from_str("{\"other\": 1}").unwrap();
    assert_eq!(good_id_from_payload(&missing), Err(ApiError::EmptyUuid));
    let number: serde_json::Value = serde_json::from_str("{\"good_id\": 5}").unwrap();
    assert_eq!(good_id_from_payload(&number), Err(ApiError::EmptyUuid));
    let not_object: serde_json::Value = serde_json::from_str("[1, 2]").unwrap();
    assert_eq!(good_id_from_payload(&not_object), Err(ApiError::EmptyUuid));
    let bad: serde_json::Value = serde_json::from_str("{\"good_id\": \"zz\"}").unwrap();
    assert_eq!(good_id_from_payload(&bad), Err(ApiError::InvalidUuid));
}

#[test]
fn generated_ids_are_version7_and_increasing() {
    let mut ids = sortflow::ids::IdGenerator::new();
    let mut last = ids.next();
    assert_eq!((last >> 76) & 0xf, 7);
    assert_eq!((last >> 62) & 0x3, 2);
    for _ in 0..1000 {
        let id = ids.next();
        assert!(last < id);
        last = id;
    }
}

#[test]
fn payload_member_name_matters() {
    let other: serde_json::Value =
        serde_json::from_str(&format!("{{\"id\": \"{}\"}}", TEXT)).unwrap();
    assert_eq!(good_id_from_payload(&other), Err(ApiError::EmptyUuid));
}
