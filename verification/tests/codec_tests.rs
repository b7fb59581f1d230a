use std::io::Write;

use base64::Engine;
use gd_physics::decode::LevelError;
use gd_physics::fx::FX_SCALE;
use gd_physics::hitbox::HitboxTable;
use gd_physics::level::Level;

fn units(v: i64) -> i64 {
    v * FX_SCALE
}

fn table() -> HitboxTable {
    let mut t = HitboxTable::new();
    t.insert(1, -units(15), -units(15), units(30), units(30));
    t
}

fn package(payload: &str) -> Vec<u8> {
    let mut gz =
        flate2::write::GzEncoder::new(Vec::new(), flate2::Compression::default());
    gz.write_all(payload.as_bytes()).unwrap();
    let compressed = gz.finish().unwrap();
    let encoded = base64::engine::general_purpose::URL_SAFE_NO_PAD.encode(&compressed);
    format!("<d><k>kCEK</k><i>4</i><k>k4</k><s>  {}==  </s><k>k2</k></d>", encoded).into_bytes()
}

#[test]
fn from_gmd_unwraps_and_decodes() {
    let data = package("header;1,1,2,30,3,15;1,31,2,90,3,45");
    let level = Level::from_gmd(&data, &table()).unwrap();
    assert_eq!(level.objects.len(), 1);
    assert_eq!(level.objects[0].x, units(30));
    assert_eq!(level.objects[0].y, units(15));
    assert_eq!(level.start_positions.len(), 2);
    assert_eq!(level.start_positions[1], (units(90), units(45)));
    assert_eq!(level.start_pos_index, 0);
}

#[test]
fn missing_marker_is_a_container_error() {
    let data = b"<d><k>k2</k></d>".to_vec();
    assert!(matches!(
        Level::from_gmd(&data, &table()),
        Err(LevelError::ContainerUnwrap)
    ));
}

#[test]
fn missing_closing_tag_is_a_container_error() {
    let data = b"<k>k4</k><s>abcd".to_vec();
    assert!(matches!(
        Level::from_gmd(&data, &table()),
        Err(LevelError::ContainerUnwrap)
    ));
}

#[test]
fn invalid_base64_is_reported_as_such() {
    let data = b"<k>k4</k><s>!!!!</s>".to_vec();
    assert!(matches!(
        Level::from_gmd(&data, &table()),
        Err(LevelError::Base64Invalid)
    ));
}

#[test]
fn corrupt_stream_is_a_decompression_error() {
    let garbage = base64::engine::general_purpose::URL_SAFE_NO_PAD.encode(b"not gzip at all");
    let data = format!("<k>k4</k><s>{}</s>", garbage).into_bytes();
    assert!(matches!(
        Level::from_gmd(&data, &table()),
        Err(LevelError::Decompression)
    ));
}

#[test]
fn malformed_payload_is_a_grammar_error() {
    let data = package("header;1,notanumber");
    assert!(matches!(
        Level::from_gmd(&data, &table()),
        Err(LevelError::GrammarParse)
    ));
}
