use gd_physics::decode::{load_gd_level_string, LevelError};
use gd_physics::encode::encode_gd_level_string;
use gd_physics::fx::FX_SCALE;
use gd_physics::hitbox::HitboxTable;

fn units(v: i64) -> i64 {
    v * FX_SCALE
}

/// A table mapping the block id, the spike id and a half-slab to local boxes
/// (the vertical offset is given in source convention and inverted on load).
fn table() -> HitboxTable {
    let mut t = HitboxTable::new();
    t.insert(1, -units(15), -units(15), units(30), units(30));
    t.insert(8, -units(8), -units(8), units(16), units(16));
    t.insert(40, -units(15), -units(15), units(30), units(15));
    t
}

fn decode(s: &str) -> Result<(Vec<gd_physics::object::Object>, Vec<(i64, i64)>), LevelError> {
    load_gd_level_string(&s.as_bytes().to_vec(), &table())
}

#[test]
fn header_only_payload_decodes_empty() {
    let (objects, checkpoints) = decode("kA13,0,kA4,0").unwrap();
    assert!(objects.is_empty());
    assert_eq!(checkpoints, vec![(-units(60), units(15))]);
}

#[test]
fn mapped_record_becomes_an_object() {
    let (objects, checkpoints) = decode("h;1,1,2,30,3,15").unwrap();
    assert_eq!(objects.len(), 1);
    assert_eq!(objects[0].id, 1);
    assert_eq!(objects[0].x, units(30));
    assert_eq!(objects[0].y, units(15));
    assert_eq!(objects[0].bounding_box.x, -units(15));
    assert_eq!(objects[0].bounding_box.y, units(15));
    assert_eq!(objects[0].bounding_box.width, units(30));
    assert_eq!(objects[0].bounding_box.height, units(30));
    assert!(!objects[0].death);
    assert!(objects[0].solid);
    assert_eq!(checkpoints.len(), 1);
}

#[test]
fn death_id_marks_the_object_deadly() {
    let (objects, _) = decode("h;1,8,2,90,3,15").unwrap();
    assert_eq!(objects.len(), 1);
    assert!(objects[0].death);
}

#[test]
fn unmapped_record_is_dropped() {
    let (objects, _) = decode("h;1,999,2,30,3,15").unwrap();
    assert!(objects.is_empty());
}

#[test]
fn checkpoint_marker_contributes_position_but_no_object() {
    let (objects, checkpoints) = decode("h;1,31,2,100,3,50").unwrap();
    assert!(objects.is_empty());
    assert_eq!(checkpoints.len(), 2);
    assert_eq!(checkpoints[1], (units(100), units(50)));
}

#[test]
fn reserved_trigger_range_contributes_nothing() {
    // Id 30 sits in the reserved range; mapping it changes nothing.
    let mut t = table();
    t.insert(30, -units(15), -units(15), units(30), units(30));
    let (objects, checkpoints) =
        load_gd_level_string(&b"h;1,30,2,100,3,50".to_vec(), &t).unwrap();
    assert!(objects.is_empty());
    assert_eq!(checkpoints.len(), 1);
}

#[test]
fn unknown_keys_are_ignored() {
    let (objects, _) = decode("h;1,1,57,abc,2,30").unwrap();
    assert_eq!(objects.len(), 1);
    assert_eq!(objects[0].x, units(30));
}

#[test]
fn positions_parse_signs_and_fractions() {
    let (objects, _) = decode("h;1,1,2,-7.5,3,0.0000001").unwrap();
    assert_eq!(objects[0].x, -75_000_000);
    assert_eq!(objects[0].y, 1);
}

#[test]
fn later_pairs_override_earlier_ones() {
    let (objects, _) = decode("h;1,1,2,10,2,20").unwrap();
    assert_eq!(objects[0].x, units(20));
}

#[test]
fn empty_records_are_tolerated() {
    let (objects, _) = decode("h;1,1,2,30;;").unwrap();
    assert_eq!(objects.len(), 1);
}

#[test]
fn malformed_id_is_fatal() {
    assert_eq!(decode("h;1,abc"), Err(LevelError::GrammarParse));
}

#[test]
fn id_overflow_is_fatal() {
    assert_eq!(decode("h;1,2147483648"), Err(LevelError::GrammarParse));
    let (objects, _) = decode("h;1,2147483647").unwrap();
    assert!(objects.is_empty());
}

#[test]
fn exponent_notation_is_fatal() {
    assert_eq!(decode("h;1,1,2,1e5"), Err(LevelError::GrammarParse));
}

#[test]
fn missing_value_for_a_recognized_key_is_ignored_when_unpaired() {
    // A trailing lone token has no value and is skipped by the pairing.
    let (objects, _) = decode("h;1,1,2").unwrap();
    assert_eq!(objects.len(), 1);
    assert_eq!(objects[0].x, 0);
}

#[test]
fn coordinates_beyond_world_range_are_fatal() {
    assert_eq!(decode("h;1,1,2,999999999999"), Err(LevelError::GrammarParse));
}

#[test]
fn round_trip_re_encoding_preserves_objects() {
    let (objects, _) =
        decode("h;1,1,2,30,3,15;1,8,2,60.5,3,-15;1,31,2,90,3,0;1,40,2,120.0000001,3,7.25")
            .unwrap();
    assert_eq!(objects.len(), 3);
    let encoded = encode_gd_level_string(&objects);
    let (objects2, checkpoints2) = load_gd_level_string(&encoded, &table()).unwrap();
    assert_eq!(objects2, objects);
    assert_eq!(checkpoints2.len(), 1);
    // And a second round trip is identical again.
    let encoded2 = encode_gd_level_string(&objects2);
    assert_eq!(encoded2, encoded);
}
