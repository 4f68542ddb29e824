use ssb64_utils::collision::args::parse_str_to_u32;
use ssb64_utils::collision::buffer::generate_buffer;
use ssb64_utils::collision::cursor::ByteCursor;
use ssb64_utils::collision::export::{export_collision, ExportConfig};
use ssb64_utils::collision::formatted::{FormattedCollision, CollisionSet, Plane};
use ssb64_utils::collision::import::{import_collision, import_collision_checked, ImportConfig};
use ssb64_utils::collision::kinds::{Floor, SpawnType};
use ssb64_utils::collision::parts::{ColDetection, PlaneInfo};
use ssb64_utils::collision::point::{ColProp, CollisionPoint};
use ssb64_utils::collision::pointers::ColPtrs;
use ssb64_utils::collision::spawn::Spawn;
use ssb64_utils::collision::ColError;

fn point(x: i16, y: i16, bits: u8, floor: Floor) -> CollisionPoint {
    CollisionPoint { x, y, prop_flag: ColProp::from_bits(bits).unwrap(), floor_type: floor }
}

fn sample_parts() -> (Vec<CollisionPoint>, Vec<Spawn>, Vec<PlaneInfo>, Vec<u16>, Vec<ColDetection>) {
    let points = vec![
        point(-100, 0, 0x80, Floor::Normal),
        point(100, 0, 0x00, Floor::Normal),
        point(100, -50, 0x40, Floor::Acid),
    ];
    let spawns = vec![
        Spawn { stype: SpawnType::P1SpawnVs, x: -10, y: 100 },
        Spawn { stype: SpawnType::ItemSpawn, x: 20, y: 30 },
    ];
    let planes = vec![PlaneInfo::new(0, 2), PlaneInfo::new(2, 2)];
    let connections = vec![0u16, 1, 1, 2];
    let detections = vec![ColDetection::from_raw(&[1, 0, 1, 1, 0, 1, 1, 2, 0])];
    (points, spawns, planes, connections, detections)
}

#[test]
fn col_prop_names() {
    assert_eq!(ColProp::from_bits(0x40).unwrap().name(), "fall-thru");
    assert_eq!(ColProp::from_bits(0x80).unwrap().name(), "ledge-grab");
    assert_eq!(ColProp::from_bits(0xC0).unwrap().name(), "ledge-grab | fall-thru");
    assert_eq!(ColProp::from_bits(0x00).unwrap().name(), "normal");
    assert!(ColProp::from_bits(0x01).is_none());
}

#[test]
fn col_prop_name_roundtrip() {
    for bits in [0x00u8, 0x40, 0x80, 0xC0] {
        let p = ColProp::from_bits(bits).unwrap();
        assert_eq!(ColProp::from_name(&p.name()).unwrap().bits(), bits);
    }
}

#[test]
fn col_prop_from_names() {
    assert_eq!(ColProp::from_name("fall_thru | ledge_grab").unwrap().bits(), 0xC0);
    assert_eq!(ColProp::from_name("LEDGE_GRAB").unwrap().bits(), 0x80);
    assert_eq!(ColProp::from_name("ledge-grab | fall-thru").unwrap().bits(), 0xC0);
    assert_eq!(ColProp::from_name("fall-thru").unwrap().bits(), 0x40);
    assert_eq!(ColProp::from_name("NORMAL").unwrap().bits(), 0x00);
    assert_eq!(ColProp::from_name("Ledge-Grab").map(|p| p.bits()), None);
    assert_eq!(ColProp::from_name("normal").unwrap().bits(), 0x00);
    assert_eq!(ColProp::from_name("normal ledge_grab").unwrap().bits(), 0x80);
    assert!(ColProp::from_name("solid").is_none());
}

#[test]
fn parse_numbers_from_the_command_line() {
    assert_eq!(parse_str_to_u32("0x1C"), Some(0x1C));
    assert_eq!(parse_str_to_u32("0X80"), Some(0x80));
    assert_eq!(parse_str_to_u32("1234"), Some(1234));
    assert_eq!(parse_str_to_u32("+7"), Some(7));
    assert_eq!(parse_str_to_u32("0x"), None);
    assert_eq!(parse_str_to_u32("12a"), None);
    assert_eq!(parse_str_to_u32("-1"), None);
    assert_eq!(parse_str_to_u32("4294967296"), None);
    assert_eq!(parse_str_to_u32("0xFFFFFFFF"), Some(0xFFFF_FFFF));
}

#[test]
fn parts_roundtrip_through_formatted() {
    let (points, spawns, planes, connections, detections) = sample_parts();
    let fc = FormattedCollision::from_parts(points.clone(), spawns.clone(), &planes, &connections, &detections);
    assert_eq!(fc.collision.len(), 1);
    assert_eq!(fc.collision[0].top.len(), 1);
    assert_eq!(fc.collision[0].top[0].0, vec![0u16, 1]);
    assert_eq!(fc.collision[0].right[0].0, vec![1u16, 2]);
    let (p2, s2, pl2, c2, d2) = fc.to_parts();
    assert_eq!(p2, points);
    assert_eq!(s2.to_vec(), spawns);
    assert_eq!(pl2, planes);
    assert_eq!(c2, connections);
    assert_eq!(d2, detections);
}

#[test]
fn export_reads_back_an_import() {
    let (points, spawns, planes, connections, detections) = sample_parts();
    let fc = FormattedCollision::from_parts(points.clone(), spawns.clone(), &planes, &connections, &detections);
    // a resource file whose pointer chain ends at its first link
    let file = vec![0xFFu8, 0xFF, 0, 0, 0, 0, 0, 0, 0, 0, 0, 0];
    let imported = import_collision(ImportConfig::new(fc, file, false, Some(0), None)).unwrap();
    assert_eq!(imported.ptrs_ptr as usize + 28, imported.file.len());
    let exported = export_collision(ExportConfig::new(imported.file, imported.ptrs_ptr, false)).unwrap();
    assert_eq!(exported.detection, detections);
    assert_eq!(exported.planes, planes);
    assert_eq!(exported.connections, connections);
    assert_eq!(exported.points, points);
    assert_eq!(exported.spawns, spawns);
    assert_eq!(exported.ptrs.col_count, 1);
    assert_eq!(exported.ptrs.spawn_count, 2);
}

#[test]
fn import_without_chain_appends_buffer_and_pointers() {
    let (points, spawns, planes, connections, detections) = sample_parts();
    let fc = FormattedCollision::from_parts(points, spawns, &planes, &connections, &detections);
    let file = vec![1u8, 2, 3];
    let imported = import_collision(ImportConfig::new(fc, file, false, None, None)).unwrap();
    assert_eq!(imported.message, "Import not fully implemented yet");
    // the buffer starts at the end of the file rounded up to eight bytes
    assert_eq!(&imported.file[..3], &[1u8, 2, 3]);
    assert_eq!(imported.file.len(), 8 + imported.buffer.len());
    assert_eq!(imported.ptrs_ptr as usize + 28, imported.file.len());
    assert_eq!(imported.ptrs.points, 8);
    assert_eq!(&imported.file[imported.ptrs_ptr as usize..], &imported.ptrs.to_bytes()[..]);
}

#[test]
fn import_reports_an_endless_chain() {
    let (points, spawns, planes, connections, detections) = sample_parts();
    let fc = FormattedCollision::from_parts(points, spawns, &planes, &connections, &detections);
    // the link at word 0 points back to itself
    let file = vec![0u8, 0, 0, 0];
    let r = import_collision(ImportConfig::new(fc, file, false, Some(0), None));
    assert_eq!(r.err(), Some(ColError::EndlessChain));
}

fn be32(v: &mut Vec<u8>, x: u32) {
    v.extend_from_slice(&x.to_be_bytes());
}

#[test]
fn export_errors() {
    // too short for the pointers
    let r = export_collision(ExportConfig::new(vec![0u8; 10], 0, false));
    assert_eq!(r.err(), Some(ColError::OutOfRange(0)));
    // zero collision count
    let r = export_collision(ExportConfig::new(vec![0u8; 28], 0, false));
    assert_eq!(r.err(), Some(ColError::ZeroCollisionCount));
    // a detection array past the end of the file
    let mut f = Vec::new();
    be32(&mut f, 0x0001_0000);
    for _ in 0..3 { be32(&mut f, 0); }
    be32(&mut f, 0x0000_0040); // detections at byte 0x100
    be32(&mut f, 0);
    be32(&mut f, 0);
    let r = export_collision(ExportConfig::new(f, 0, false));
    assert_eq!(r.err(), Some(ColError::OutOfRange(0x100)));
    // a detection that needs no plane
    let mut f = Vec::new();
    be32(&mut f, 0x0001_0000);
    for _ in 0..3 { be32(&mut f, 0); }
    be32(&mut f, 0x0000_0008); // detections at byte 0x20
    be32(&mut f, 0);
    be32(&mut f, 0);
    f.extend_from_slice(&[0u8; 4]);
    f.extend_from_slice(&[0u8; 18]);
    let r = export_collision(ExportConfig::new(f, 0, false));
    assert_eq!(r.err(), Some(ColError::NoPlanes));
}

#[test]
fn export_reports_unknown_floor() {
    let (points, spawns, planes, connections, detections) = sample_parts();
    let fc = FormattedCollision::from_parts(points, spawns, &planes, &connections, &detections);
    let file = vec![0xFFu8, 0xFF, 0, 0];
    let imported = import_collision(ImportConfig::new(fc, file, false, Some(0), None)).unwrap();
    let mut f = imported.file;
    // the points are the first part of the buffer, which starts at byte 8;
    // the floor byte of the first point is its sixth byte
    f[8 + 5] = 0x30;
    let r = export_collision(ExportConfig::new(f, imported.ptrs_ptr, false));
    assert_eq!(r.err(), Some(ColError::UnknownFloor(0x30)));
}

#[test]
fn col_ptrs_from_raw() {
    let raw = [0x0003_0000u32, 0x0001_0010, 0x800A_0000, 0x0002_0020, 0x0003_0030, 0x0004_1234, 0xFFFF_0040];
    let p = ColPtrs::from_raw(&raw).unwrap();
    assert_eq!(p.col_count, 3);
    assert_eq!(p.points, 0x40);
    assert_eq!(p.connections, 0x800A_0000);
    assert_eq!(p.planes, 0x80);
    assert_eq!(p.col_direct, 0xC0);
    assert_eq!(p.spawn_count, 4);
    assert_eq!(p.spawns, 0x100);
    assert!(ColPtrs::from_raw(&[0u32; 7]).is_err());
}

#[test]
fn kinds_numbers_roundtrip() {
    for n in 0u8..=0xFF {
        if let Ok(f) = Floor::from_bits(n) {
            assert_eq!(f.bits(), n);
        } else {
            assert!(n > 0x0F);
        }
    }
    for n in 0u16..0x40 {
        if let Ok(s) = SpawnType::from_bits(n) {
            assert_eq!(s.bits(), n);
        }
    }
    assert_eq!(SpawnType::from_bits(0x05), Err(0x05));
}

#[test]
fn point_and_spawn_errors() {
    assert_eq!(CollisionPoint::from_raw(&[1, 2]).err(), Some(ColError::PointSliceTooSmall));
    assert_eq!(CollisionPoint::from_raw(&[1, 2, 0x2000]).err(), Some(ColError::UnknownProperty(0x20)));
    assert_eq!(CollisionPoint::from_raw(&[1, 2, 0x8010]).err(), Some(ColError::UnknownFloor(0x10)));
    let p = CollisionPoint::from_raw(&[0xFFFF, 2, 0xC00A]).unwrap();
    assert_eq!(p.x, -1);
    assert_eq!(p.prop_flag.bits(), 0xC0);
    assert_eq!(p.floor_type, Floor::Spikes);
    assert_eq!(Spawn::from_raw(&[0, 1]).err(), Some(ColError::SpawnSliceTooSmall));
    assert_eq!(Spawn::from_raw(&[0x05, 1, 2]).err(), Some(ColError::UnknownSpawnType(0x05)));
    let s = Spawn::from_raw(&[0x13, 0xFFFE, 3]).unwrap();
    assert_eq!(s, Spawn { stype: SpawnType::BumperSpawn, x: -2, y: 3 });
}

/// A file with collision pointers at 0 and the given detection at 0x20,
/// planes at 0x40 and connections at 0x60.
fn file_with(detection: [u16; 9], planes: &[u32], connections: &[u16]) -> Vec<u8> {
    let mut f = Vec::new();
    be32(&mut f, 0x0001_0000);
    be32(&mut f, 0x0000_0020); // points at 0x80
    be32(&mut f, 0x0000_0018); // connections at 0x60
    be32(&mut f, 0x0000_0010); // planes at 0x40
    be32(&mut f, 0x0000_0008); // detections at 0x20
    be32(&mut f, 0);
    be32(&mut f, 0);
    f.resize(0x20, 0);
    for w in detection.iter() {
        f.extend_from_slice(&w.to_be_bytes());
    }
    f.resize(0x40, 0);
    for p in planes {
        be32(&mut f, *p);
    }
    f.resize(0x60, 0);
    for c in connections {
        f.extend_from_slice(&c.to_be_bytes());
    }
    f.resize(0xA0, 0);
    f
}

#[test]
fn export_length_errors() {
    // a detection run that ends past 0xFFFF
    let f = file_with([0, 0xFFFF, 2, 0, 0, 0, 0, 0, 0], &[], &[]);
    assert_eq!(export_collision(ExportConfig::new(f, 0, false)).err(), Some(ColError::LengthOverflow));
    // one plane with no connections
    let f = file_with([0, 0, 1, 1, 0, 1, 0, 1, 0], &[0x0000_0000], &[]);
    assert_eq!(export_collision(ExportConfig::new(f, 0, false)).err(), Some(ColError::NoConnections));
    // a plane that ends past 0xFFFF
    let f = file_with([0, 0, 1, 1, 0, 1, 0, 1, 0], &[0xFFFF_0002], &[]);
    assert_eq!(export_collision(ExportConfig::new(f, 0, false)).err(), Some(ColError::LengthOverflow));
    // a plane of two points: the points are read and the export succeeds
    let f = file_with([7, 0, 1, 1, 0, 1, 0, 1, 0], &[0x0000_0002], &[0, 1]);
    let e = export_collision(ExportConfig::new(f, 0, false)).unwrap();
    assert_eq!(e.detection[0].id, 7);
    assert_eq!(e.planes, vec![PlaneInfo::new(0, 2)]);
    assert_eq!(e.connections, vec![0u16, 1]);
    assert_eq!(e.points.len(), 2);
    assert!(e.spawns.is_empty());
}

#[test]
fn generate_buffer_ends_with_the_last_part_written() {
    let (points, spawns, planes, connections, detections) = sample_parts();
    let with_spawns = FormattedCollision::from_parts(points.clone(), spawns, &planes, &connections, &detections);
    let (buf, ptrs, end) = generate_buffer(&with_spawns, 0x100);
    assert_eq!(buf.len(), 68);
    assert_eq!(end, 0x100 + 68);
    assert_eq!(ptrs.connections, 0x100 + 20);
    assert_eq!(ptrs.planes, 0x100 + 28);
    assert_eq!(ptrs.col_direct, 0x100 + 36);
    assert_eq!(ptrs.spawns, 0x100 + 56);
    // without spawns nothing pads the detections to four bytes
    let no_spawns = FormattedCollision::from_parts(points, Vec::new(), &planes, &connections, &detections);
    let (buf, ptrs, end) = generate_buffer(&no_spawns, 0x100);
    assert_eq!(buf.len(), 54);
    assert_eq!(end, 0x100 + 56);
    assert_eq!(ptrs.spawns, 0x100 + 56);
    assert_eq!(ptrs.spawn_count, 0);
}

#[test]
fn cursor_writes_nothing_for_no_data() {
    let mut c = ByteCursor::new(vec![1u8, 2]);
    c.pos = 6;
    c.write_all(&[]);
    assert_eq!(c.buf, vec![1u8, 2]);
    assert_eq!(c.pos, 6);
    c.write_all(&[9]);
    assert_eq!(c.buf, vec![1u8, 2, 0, 0, 0, 0, 9]);
    assert_eq!(c.pos, 7);
}

#[test]
fn checked_import_refuses_too_many_planes() {
    let (points, spawns, planes, connections, detections) = sample_parts();
    let mut fc = FormattedCollision::from_parts(points, spawns, &planes, &connections, &detections);
    let extra = fc.collision[0].top[0].clone();
    for _ in 0..0x10000 {
        fc.collision[0].top.push(extra.clone());
    }
    let r = import_collision_checked(ImportConfig::new(fc, vec![1u8, 2, 3], false, None, None));
    assert_eq!(r.err(), Some(ColError::TooLarge));
}

#[test]
fn checked_import_imports_what_fits() {
    let (points, spawns, planes, connections, detections) = sample_parts();
    let fc = FormattedCollision::from_parts(points.clone(), spawns.clone(), &planes, &connections, &detections);
    let plain = import_collision(ImportConfig::new(fc, vec![1u8, 2, 3], false, None, None)).unwrap();
    let fc = FormattedCollision::from_parts(points, spawns, &planes, &connections, &detections);
    let checked = import_collision_checked(ImportConfig::new(fc, vec![1u8, 2, 3], false, None, None)).unwrap();
    assert_eq!(checked.file, plain.file);
    assert_eq!(checked.buffer, plain.buffer);
    assert_eq!(checked.ptrs_ptr, plain.ptrs_ptr);
}
