use bevy::image::Image;
use manufactory::atlas::{
    create_texture_atlas, AtlasSources, PackingError, Raster, RasterSlot, SamplingMode,
};
use manufactory::layout::{Padding, Rect};

fn raster(width: u32, height: u32) -> Raster {
    Raster::new(width, height, vec![255u8; (width * height * 4) as usize])
}

fn apart(a: &Rect, b: &Rect, pad: Padding) -> bool {
    a.max_x + pad.x <= b.min_x
        || b.max_x + pad.x <= a.min_x
        || a.max_y + pad.y <= b.min_y
        || b.max_y + pad.y <= a.min_y
}

fn assert_sound(rects: &[Rect], width: u32, height: u32, pad: Padding) {
    for r in rects {
        assert!(r.min_x <= r.max_x && r.max_x + pad.x <= width);
        assert!(r.min_y <= r.max_y && r.max_y + pad.y <= height);
    }
    for i in 0..rects.len() {
        for j in 0..rects.len() {
            if i != j {
                assert!(apart(&rects[i], &rects[j], pad));
            }
        }
    }
}

#[test]
fn mixed_sizes_pack_without_overlap() {
    let slots = vec![
        RasterSlot::new(1, Some(raster(16, 16))),
        RasterSlot::new(2, Some(raster(32, 8))),
        RasterSlot::new(3, Some(raster(5, 40))),
        RasterSlot::new(4, Some(raster(16, 16))),
    ];
    let atlas = create_texture_atlas(&slots, None, None).ok().unwrap();
    assert_eq!(atlas.source_data.ids(), &vec![1, 2, 3, 4]);
    assert_eq!(atlas.atlas_layout.textures.len(), 4);
    assert!(atlas.atlas_layout.width > 0 && atlas.atlas_layout.height > 0);
    let sizes = [(16, 16), (32, 8), (5, 40), (16, 16)];
    for (r, (w, h)) in atlas.atlas_layout.textures.iter().zip(sizes.iter()) {
        assert_eq!((r.max_x - r.min_x, r.max_y - r.min_y), (*w, *h));
    }
    assert_sound(&atlas.atlas_layout.textures, atlas.atlas_layout.width, atlas.atlas_layout.height, Padding::new(0, 0));
    assert_eq!(atlas.atlas_texture.width(), atlas.atlas_layout.width);
}

#[test]
fn padding_is_kept_between_rects() {
    let pad = Padding::new(3, 2);
    let slots = vec![
        RasterSlot::new(1, Some(raster(10, 10))),
        RasterSlot::new(2, Some(raster(10, 10))),
        RasterSlot::new(3, Some(raster(7, 12))),
    ];
    let atlas = create_texture_atlas(&slots, Some(pad), Some(SamplingMode::Nearest)).ok().unwrap();
    assert_sound(&atlas.atlas_layout.textures, atlas.atlas_layout.width, atlas.atlas_layout.height, pad);
}

#[test]
fn empty_set_is_empty_error() {
    let slots: Vec<RasterSlot> = vec![];
    assert!(matches!(create_texture_atlas(&slots, None, None), Err(PackingError::Empty)));
}

#[test]
fn unresolved_only_is_empty_error() {
    let slots = vec![RasterSlot::new(1, None), RasterSlot::new(2, None)];
    assert!(matches!(create_texture_atlas(&slots, None, None), Err(PackingError::Empty)));
}

#[test]
fn too_large_raster_fails_to_build() {
    let slots = vec![RasterSlot::new(1, Some(raster(4096, 1)))];
    assert!(matches!(create_texture_atlas(&slots, None, None), Err(PackingError::BuildFailed)));
}

#[test]
fn filtered_out_raster_is_not_found() {
    let slots = vec![
        RasterSlot::new(1, Some(raster(8, 8))),
        RasterSlot::new(2, None),
        RasterSlot::new(3, Some(raster(4, 4))),
    ];
    let atlas = create_texture_atlas(&slots, None, Some(SamplingMode::Linear)).ok().unwrap();
    assert_eq!(atlas.source_data.ids(), &vec![1, 3]);
    assert_eq!(atlas.lookup(2), None);
    assert_eq!(atlas.lookup(99), None);
    let r3 = atlas.lookup(3).unwrap();
    assert_eq!(r3, atlas.atlas_layout.textures[1]);
    assert_eq!((r3.max_x - r3.min_x, r3.max_y - r3.min_y), (4, 4));
}

#[test]
fn index_of_finds_first_position() {
    let sources = AtlasSources::new(vec![4, 7, 4]);
    assert_eq!(sources.index_of(4), Some(0));
    assert_eq!(sources.index_of(7), Some(1));
    assert_eq!(sources.index_of(5), None);
}

#[test]
fn slot_constructor_keeps_fields() {
    let slot = RasterSlot::new(9, None);
    assert_eq!(slot.id, 9);
    assert!(slot.raster.is_none());
}

#[test]
fn finish_accepts_a_sound_packing() {
    let rects = vec![Rect::new(0, 0, 4, 4), Rect::new(5, 0, 7, 2)];
    let atlas = manufactory::atlas::finish_atlas(
        Some((rects.clone(), 8, 8, Image::transparent())),
        vec![10, 11],
        Padding::new(1, 1),
        None,
    )
    .ok()
    .unwrap();
    assert_eq!(atlas.atlas_layout.textures, rects);
    assert_eq!((atlas.atlas_layout.width, atlas.atlas_layout.height), (8, 8));
    assert_eq!(atlas.source_data.ids(), &vec![10, 11]);
    assert_eq!(atlas.lookup(11), Some(Rect::new(5, 0, 7, 2)));
}

#[test]
fn finish_rejects_bad_packings() {
    let overlapping = vec![Rect::new(0, 0, 4, 4), Rect::new(2, 2, 6, 6)];
    let r = manufactory::atlas::finish_atlas(
        Some((overlapping, 8, 8, Image::transparent())),
        vec![1, 2],
        Padding::new(0, 0),
        None,
    );
    assert!(matches!(r, Err(PackingError::BuildFailed)));
    let short = vec![Rect::new(0, 0, 4, 4)];
    let r = manufactory::atlas::finish_atlas(
        Some((short, 8, 8, Image::transparent())),
        vec![1, 2],
        Padding::new(0, 0),
        None,
    );
    assert!(matches!(r, Err(PackingError::BuildFailed)));
    let r = manufactory::atlas::finish_atlas(None, vec![1], Padding::new(0, 0), None);
    assert!(matches!(r, Err(PackingError::BuildFailed)));
}

#[test]
fn malformed_raster_is_skipped() {
    let short = Raster::new(4, 4, vec![0u8; 10]);
    let slots = vec![
        RasterSlot::new(1, Some(short)),
        RasterSlot::new(2, Some(raster(3, 5))),
    ];
    let atlas = create_texture_atlas(&slots, None, None).ok().unwrap();
    assert_eq!(atlas.source_data.ids(), &vec![2]);
    assert_eq!(atlas.lookup(1), None);
    let only_short = vec![RasterSlot::new(1, Some(Raster::new(2, 2, vec![0u8; 3])))];
    assert!(matches!(create_texture_atlas(&only_short, None, None), Err(PackingError::Empty)));
}

#[test]
fn sampling_mode_is_recorded() {
    let slots = vec![RasterSlot::new(1, Some(raster(2, 2)))];
    let atlas = create_texture_atlas(&slots, None, Some(SamplingMode::Linear)).ok().unwrap();
    assert_eq!(atlas.sampling, Some(SamplingMode::Linear));
    let atlas = create_texture_atlas(&slots, None, None).ok().unwrap();
    assert_eq!(atlas.sampling, None);
}

#[test]
fn equal_inputs_give_equal_layouts() {
    let make = || {
        vec![
            RasterSlot::new(1, Some(raster(9, 3))),
            RasterSlot::new(2, Some(raster(4, 4))),
            RasterSlot::new(3, Some(raster(6, 11))),
        ]
    };
    let a = create_texture_atlas(&make(), Some(Padding::new(1, 1)), None).ok().unwrap();
    let b = create_texture_atlas(&make(), Some(Padding::new(1, 1)), None).ok().unwrap();
    assert_eq!(a.atlas_layout.textures, b.atlas_layout.textures);
    assert_eq!((a.atlas_layout.width, a.atlas_layout.height), (b.atlas_layout.width, b.atlas_layout.height));
    assert_eq!(a.atlas_texture.data, b.atlas_texture.data);
}
