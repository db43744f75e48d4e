use minecrust::atom::Interner;
use minecrust::chunk::{ChunkData, ChunkError};
use minecrust::coords::{IVec3, UVec3};
use minecrust::palette::Palette;

fn text(out: &mut Vec<u8>, s: &str) {
    out.extend_from_slice(&(s.len() as u64).to_le_bytes());
    out.extend_from_slice(s.as_bytes());
}

fn palette_stream(names: &[&str]) -> Vec<u8> {
    let mut out = (names.len() as u64).to_le_bytes().to_vec();
    for n in names {
        text(&mut out, n);
    }
    out
}

fn sample_chunk(interner: &mut Interner) -> ChunkData {
    let grass = interner.intern("core::grass");
    let stone = interner.intern("core::stone");
    let mut c = ChunkData::new(IVec3::new(-3, 7, 2_000_000));
    c.set_block(UVec3 { x: 0, y: 0, z: 0 }, &grass).unwrap();
    c.set_block(UVec3 { x: 33, y: 33, z: 33 }, &stone).unwrap();
    c.set_block(UVec3 { x: 10, y: 1, z: 30 }, &grass).unwrap();
    c
}

#[test]
fn palette_round_trip() {
    let mut interner = Interner::new();
    let mut p = Palette::default();
    for name in ["core::grass", "core::stone", "mod::ü-block"] {
        let a = interner.intern(name);
        p.voxel_block(&a).unwrap();
    }
    let bytes = p.encode();
    assert_eq!(bytes, palette_stream(&["core::air", "core::grass", "core::stone", "mod::ü-block"]));
    let q = Palette::decode(&bytes, &mut interner).unwrap();
    assert_eq!(q.len(), 4);
    for i in 0..4u16 {
        assert!(q.block_id(i).unwrap() == p.block_id(i).unwrap());
    }
}

#[test]
fn palette_with_duplicate_id_is_rejected() {
    let mut interner = Interner::new();
    let bytes = palette_stream(&["core::air", "core::grass", "core::grass"]);
    assert_eq!(Palette::decode(&bytes, &mut interner).err(), Some(ChunkError::DuplicateBlockId));
}

#[test]
fn palette_errors() {
    let mut interner = Interner::new();
    let no_air = palette_stream(&["core::grass"]);
    assert_eq!(Palette::decode(&no_air, &mut interner).err(), Some(ChunkError::MissingAir));
    let empty = palette_stream(&[]);
    assert_eq!(Palette::decode(&empty, &mut interner).err(), Some(ChunkError::MissingAir));
    let mut truncated = palette_stream(&["core::air", "core::grass"]);
    truncated.pop();
    assert_eq!(Palette::decode(&truncated, &mut interner).err(), Some(ChunkError::Truncated));
    let mut trailing = palette_stream(&["core::air"]);
    trailing.push(0);
    assert_eq!(Palette::decode(&trailing, &mut interner).err(), Some(ChunkError::TrailingBytes));
    let mut bad_text = 2u64.to_le_bytes().to_vec();
    text(&mut bad_text, "core::air");
    bad_text.extend_from_slice(&2u64.to_le_bytes());
    bad_text.extend_from_slice(&[0xff, 0xfe]);
    assert_eq!(Palette::decode(&bad_text, &mut interner).err(), Some(ChunkError::InvalidText));
    let too_long = 65537u64.to_le_bytes().to_vec();
    assert_eq!(Palette::decode(&too_long, &mut interner).err(), Some(ChunkError::PaletteFull));
}

#[test]
fn chunk_codec_round_trip() {
    let mut interner = Interner::new();
    let c = sample_chunk(&mut interner);
    let bytes = c.encode().unwrap();
    assert_eq!(&bytes[..8], &c.hash.to_le_bytes());
    assert_eq!(ChunkData::read_header(&bytes), Ok(c.hash));
    let d = ChunkData::decode(&bytes, &mut interner).unwrap();
    assert_eq!(d.pos, c.pos);
    assert_eq!(d.voxels, c.voxels);
    assert_eq!(d.palette.len(), c.palette.len());
    for i in 0..c.palette.len() as u16 {
        assert!(d.palette.block_id(i).unwrap() == c.palette.block_id(i).unwrap());
    }
    assert_eq!(d.hash, c.hash);
    assert_eq!(d.solid_count, 3);
}

#[test]
fn chunk_decode_errors() {
    let mut interner = Interner::new();
    assert_eq!(ChunkData::read_header(&[1, 2, 3]), Err(ChunkError::HeaderTooShort));
    assert_eq!(ChunkData::decode(&[1, 2, 3], &mut interner).err(), Some(ChunkError::HeaderTooShort));
    let garbage = [0u8, 0, 0, 0, 0, 0, 0, 0, 1, 2, 3, 4, 5];
    assert_eq!(ChunkData::decode(&garbage, &mut interner).err(), Some(ChunkError::Compression));
    let mut short_body = vec![0u8; 8];
    short_body.extend_from_slice(&zstd::encode_all(&[1u8, 2, 3][..], 0).unwrap());
    assert_eq!(ChunkData::decode(&short_body, &mut interner).err(), Some(ChunkError::Truncated));
}

#[test]
fn chunk_with_bad_cell_is_refused() {
    let mut body = Vec::new();
    for v in [0i32, 0, 0] {
        body.extend_from_slice(&v.to_le_bytes());
    }
    body.extend_from_slice(&palette_stream(&["core::air"]));
    body.extend_from_slice(&(39304u64).to_le_bytes());
    for i in 0..39304u32 {
        let cell: u16 = if i == 5 { 1 } else { 0 };
        body.extend_from_slice(&cell.to_le_bytes());
    }
    let mut record = vec![0u8; 8];
    record.extend_from_slice(&zstd::encode_all(&body[..], 0).unwrap());
    let mut interner = Interner::new();
    assert_eq!(ChunkData::decode(&record, &mut interner).err(), Some(ChunkError::InvalidCell));
}

#[test]
fn record_body_is_bincode_fixed_int_layout() {
    let mut interner = Interner::new();
    let c = sample_chunk(&mut interner);
    let bytes = c.encode().unwrap();
    let body = zstd::decode_all(&bytes[8..]).unwrap();
    let config = bincode::config::legacy();
    let names: Vec<String> = (0..c.palette.len() as u16)
        .map(|i| c.palette.block_id(i).unwrap().as_str().to_string())
        .collect();
    let cells: Vec<u16> = c.voxels.iter().map(|v| v.merge_value()).collect();
    let mut expected = bincode::encode_to_vec((c.pos.x, c.pos.y, c.pos.z), config).unwrap();
    expected.extend(bincode::encode_to_vec(&names, config).unwrap());
    expected.extend(bincode::encode_to_vec(&cells, config).unwrap());
    assert_eq!(body, expected);
    assert_eq!(c.palette.encode(), bincode::encode_to_vec(&names, config).unwrap());
}
