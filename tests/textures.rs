use minecrust::registry::BlockTextures;
use minecrust::textures::{default_texture_index_mapper, face_from_normal, Face, TextureBlock, TextureIndex};

#[test]
fn test_texture_index() {
    let mut idx = TextureIndex::new(114514, 15);
    assert_eq!((idx.idx(), idx.offset()), (114514, 15));
    idx.set_idx(10086);
    assert_eq!((idx.idx(), idx.offset()), (10086, 15));
    idx.set_offset(8);
    assert_eq!((idx.idx(), idx.offset()), (10086, 8));
}

#[test]
fn texture_index_packing() {
    let idx = TextureIndex::new(3, 2);
    assert_eq!(idx.raw(), 0x32);
    assert_eq!(TextureIndex::from_raw(0x32), idx);
    assert_eq!(TextureIndex::zero().raw(), 0);
    let wide = TextureIndex::new(0x1000_0001, 1);
    assert_eq!(wide.idx(), 1);
}

#[test]
fn texture_block_faces() {
    let block = TextureBlock::full(7).with_top(1).with_bottom(2).with_side(3);
    assert_eq!(block.faces_offset, [1, 2, 3, 3, 3, 3]);
    assert_eq!(block.to_texture_index(Face::Top).offset(), 1);
    assert_eq!(block.to_texture_index(Face::Back).idx(), 7);
    let block = block.with_left(5).with_right(6).with_front(4).with_back(9);
    assert_eq!(block.faces_offset, [1, 2, 6, 5, 4, 9]);
    assert_eq!(default_texture_index_mapper(12).texture_index, 12);
    assert_eq!(default_texture_index_mapper(12).faces_offset, [0; 6]);
}

#[test]
fn block_textures_fall_back() {
    let t = BlockTextures {
        top: "grass_top".to_string(),
        bottom: Some("dirt".to_string()),
        side: Some("grass_side".to_string()),
        front: None,
        back: Some("grass_back".to_string()),
        left: None,
        right: None,
    };
    assert_eq!(t.face(Face::Top), "grass_top");
    assert_eq!(t.face(Face::Bottom), "dirt");
    assert_eq!(t.face(Face::Front), "grass_side");
    assert_eq!(t.face(Face::Back), "grass_back");
    assert_eq!(t.face(Face::Left), "grass_side");
    let plain = BlockTextures {
        top: "stone".to_string(),
        bottom: None,
        side: None,
        front: None,
        back: None,
        left: None,
        right: None,
    };
    assert_eq!(plain.bottom(), "stone");
    assert_eq!(plain.right(), "stone");
}

#[test]
fn face_of_normal() {
    assert_eq!(face_from_normal(1, 0, 0), Some(Face::Right));
    assert_eq!(face_from_normal(-1, 0, 0), Some(Face::Left));
    assert_eq!(face_from_normal(0, 0, 1), Some(Face::Front));
    assert_eq!(face_from_normal(0, 0, -1), Some(Face::Back));
    assert_eq!(face_from_normal(0, 1, 0), Some(Face::Top));
    assert_eq!(face_from_normal(0, -1, 0), Some(Face::Bottom));
    assert_eq!(face_from_normal(0, 0, 0), None);
}
