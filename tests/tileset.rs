use navmesh::geom::Vec3;
use navmesh::import::{ImportAction, ImportPhase, Importer};
use navmesh::tileset::{parse_tile_set, ImportError, TileRecord};

fn push_i32(buf: &mut Vec<u8>, v: i32) {
    buf.extend_from_slice(&v.to_le_bytes());
}

fn push_f32(buf: &mut Vec<u8>, v: f32) {
    buf.extend_from_slice(&v.to_le_bytes());
}

fn header(magic: i32, version: i32, num_tiles: i32) -> Vec<u8> {
    let mut buf = Vec::new();
    push_i32(&mut buf, magic);
    push_i32(&mut buf, version);
    push_i32(&mut buf, num_tiles);
    push_f32(&mut buf, 1.5);
    push_f32(&mut buf, -2.0);
    push_f32(&mut buf, 0.25);
    push_f32(&mut buf, 32.0);
    push_f32(&mut buf, 48.0);
    push_i32(&mut buf, 128);
    push_i32(&mut buf, 4096);
    buf
}

const MAGIC: i32 = ('M' as i32) << 24 | ('S' as i32) << 16 | ('E' as i32) << 8 | ('T' as i32);

fn push_tile(buf: &mut Vec<u8>, tile_ref: u32, payload: &[u8]) {
    buf.extend_from_slice(&tile_ref.to_le_bytes());
    push_i32(buf, payload.len() as i32);
    buf.extend_from_slice(payload);
}

#[test]
fn magic_spells_mset() {
    assert_eq!(MAGIC as u32, navmesh::tileset::TILE_SET_MAGIC);
}

#[test]
fn parses_params_and_all_declared_tiles() {
    let mut buf = header(MAGIC, 1, 3);
    push_tile(&mut buf, 7, &[1, 2, 3]);
    push_tile(&mut buf, 8, &[4, 5]);
    push_tile(&mut buf, 9, &[6, 7, 8, 9]);
    let set = parse_tile_set(&buf).unwrap();
    assert_eq!(set.declared_tiles, 3);
    assert_eq!(set.tiles.len(), 3);
    assert_eq!(set.params.origin, Vec3::new(1.5f32.to_bits(), (-2.0f32).to_bits(), 0.25f32.to_bits()));
    assert_eq!(set.params.tile_width, 32.0f32.to_bits());
    assert_eq!(set.params.tile_height, 48.0f32.to_bits());
    assert_eq!(set.params.max_tiles, 128);
    assert_eq!(set.params.max_polys, 4096);
    assert_eq!(set.tiles[0], TileRecord { tile_ref: 7, offset: 48, size: 3 });
    assert_eq!(set.tiles[1], TileRecord { tile_ref: 8, offset: 59, size: 2 });
    assert_eq!(set.tiles[2], TileRecord { tile_ref: 9, offset: 69, size: 4 });
    let t = set.tiles[2];
    assert_eq!(&buf[t.offset..t.offset + t.size], &[6, 7, 8, 9]);
}

#[test]
fn import_of_n_records_registers_n_tiles() {
    let mut buf = header(MAGIC, 1, 2);
    push_tile(&mut buf, 1, &[10; 16]);
    push_tile(&mut buf, 2, &[20; 16]);
    let set = parse_tile_set(&buf).unwrap();
    let params = set.params;
    let mut imp = Importer::new(set);
    assert_eq!(imp.next_action(), ImportAction::InitMesh(params));
    imp.on_mesh_created(navmesh::geom::STATUS_SUCCESS);
    let mut added = 0;
    while let ImportAction::AddTile(rec) = imp.next_action() {
        assert_eq!(rec.tile_ref, added + 1);
        imp.on_tile_added(true, navmesh::geom::STATUS_SUCCESS);
        added += 1;
    }
    assert_eq!(imp.next_action(), ImportAction::Complete(2));
    assert_eq!(imp.phase, ImportPhase::Finished);
}

#[test]
fn import_failures_are_classified() {
    let mut buf = header(MAGIC, 1, 2);
    push_tile(&mut buf, 1, &[10; 4]);
    push_tile(&mut buf, 2, &[20; 4]);
    let mut imp = Importer::new(parse_tile_set(&buf).unwrap());
    imp.on_mesh_created(0x8000_0000);
    assert_eq!(imp.next_action(), ImportAction::Abort(ImportError::InitializationError));

    let mut imp = Importer::new(parse_tile_set(&buf).unwrap());
    imp.on_mesh_created(navmesh::geom::STATUS_SUCCESS);
    imp.on_tile_added(false, navmesh::geom::STATUS_SUCCESS);
    assert_eq!(imp.next_action(), ImportAction::Abort(ImportError::AllocationError));

    let mut imp = Importer::new(parse_tile_set(&buf).unwrap());
    imp.on_mesh_created(navmesh::geom::STATUS_SUCCESS);
    imp.on_tile_added(true, navmesh::geom::STATUS_SUCCESS);
    imp.on_tile_added(true, 0x8000_0000);
    assert_eq!(imp.next_action(), ImportAction::Abort(ImportError::TileRegistrationError));
    assert_eq!(imp.registered, 1);
}

#[test]
fn empty_tile_set_completes_at_once() {
    let buf = header(MAGIC, 1, 0);
    let mut imp = Importer::new(parse_tile_set(&buf).unwrap());
    imp.on_mesh_created(navmesh::geom::STATUS_SUCCESS);
    assert_eq!(imp.next_action(), ImportAction::Complete(0));
}

#[test]
fn wrong_magic_is_format_error() {
    let buf = header(0x1234_5678, 1, 0);
    assert_eq!(parse_tile_set(&buf).unwrap_err(), ImportError::FormatError);
}

#[test]
fn wrong_version_is_version_error() {
    let buf = header(MAGIC, 2, 0);
    assert_eq!(parse_tile_set(&buf).unwrap_err(), ImportError::VersionError);
}

#[test]
fn truncated_header_is_truncated_error() {
    let buf = header(MAGIC, 1, 0);
    assert_eq!(parse_tile_set(&buf[..11]).unwrap_err(), ImportError::TruncatedInputError);
    assert_eq!(parse_tile_set(&[]).unwrap_err(), ImportError::TruncatedInputError);
}

#[test]
fn truncated_params_is_truncated_error() {
    let buf = header(MAGIC, 1, 0);
    assert_eq!(parse_tile_set(&buf[..39]).unwrap_err(), ImportError::TruncatedInputError);
    assert!(parse_tile_set(&buf[..40]).is_ok());
}

#[test]
fn truncated_payload_is_truncated_error() {
    let mut buf = header(MAGIC, 1, 1);
    push_tile(&mut buf, 5, &[1, 2, 3, 4, 5, 6]);
    let cut = buf.len() - 1;
    assert_eq!(parse_tile_set(&buf[..cut]).unwrap_err(), ImportError::TruncatedInputError);
    assert_eq!(parse_tile_set(&buf[..44]).unwrap_err(), ImportError::TruncatedInputError);
    assert!(parse_tile_set(&buf).is_ok());
}

#[test]
fn missing_tile_record_is_truncated_error() {
    let mut buf = header(MAGIC, 1, 2);
    push_tile(&mut buf, 5, &[1, 2]);
    assert_eq!(parse_tile_set(&buf).unwrap_err(), ImportError::TruncatedInputError);
}

#[test]
fn negative_payload_size_is_truncated_error() {
    let mut buf = header(MAGIC, 1, 1);
    buf.extend_from_slice(&3u32.to_le_bytes());
    push_i32(&mut buf, -4);
    buf.extend_from_slice(&[0; 8]);
    assert_eq!(parse_tile_set(&buf).unwrap_err(), ImportError::TruncatedInputError);
}

#[test]
fn zero_size_record_ends_the_list_early() {
    let mut buf = header(MAGIC, 1, 4);
    push_tile(&mut buf, 1, &[1, 1]);
    push_tile(&mut buf, 2, &[]);
    push_tile(&mut buf, 3, &[3, 3]);
    let set = parse_tile_set(&buf).unwrap();
    assert_eq!(set.declared_tiles, 4);
    assert_eq!(set.tiles.len(), 1);
    assert_eq!(set.tiles[0].tile_ref, 1);
}

#[test]
fn zero_tile_ref_ends_the_list_early() {
    let mut buf = header(MAGIC, 1, 3);
    push_tile(&mut buf, 4, &[1]);
    push_tile(&mut buf, 0, &[2, 2]);
    let set = parse_tile_set(&buf).unwrap();
    assert_eq!(set.tiles.len(), 1);
}

#[test]
fn negative_tile_count_reads_no_records() {
    let mut buf = header(MAGIC, 1, -3);
    push_tile(&mut buf, 4, &[1]);
    let set = parse_tile_set(&buf).unwrap();
    assert_eq!(set.declared_tiles, -3);
    assert!(set.tiles.is_empty());
}

#[test]
fn records_past_the_declared_count_are_ignored() {
    let mut buf = header(MAGIC, 1, 1);
    push_tile(&mut buf, 4, &[1]);
    push_tile(&mut buf, 5, &[2]);
    let set = parse_tile_set(&buf).unwrap();
    assert_eq!(set.tiles.len(), 1);
}

#[test]
fn short_buffer_with_wrong_magic_is_format_error() {
    assert_eq!(parse_tile_set(&[0, 0, 0, 0]).unwrap_err(), ImportError::FormatError);
    let buf = header(0x1234_5678, 1, 0);
    assert_eq!(parse_tile_set(&buf[..7]).unwrap_err(), ImportError::FormatError);
    assert_eq!(parse_tile_set(&buf[..3]).unwrap_err(), ImportError::TruncatedInputError);
}

#[test]
fn short_buffer_with_wrong_version_is_version_error() {
    let buf = header(MAGIC, 3, 0);
    assert_eq!(parse_tile_set(&buf[..8]).unwrap_err(), ImportError::VersionError);
    assert_eq!(parse_tile_set(&buf[..11]).unwrap_err(), ImportError::VersionError);
    let good = header(MAGIC, 1, 0);
    assert_eq!(parse_tile_set(&good[..6]).unwrap_err(), ImportError::TruncatedInputError);
    assert_eq!(parse_tile_set(&good[..8]).unwrap_err(), ImportError::TruncatedInputError);
}
