use manufactory::atlas::{Raster, RasterSlot, SamplingMode};
use manufactory::layout::Padding;
use manufactory::plugin::{assemble_texture_atlases, AtlasOptions, TextureAtlasPlugin};

fn raster(width: u32, height: u32) -> Raster {
    Raster::new(width, height, vec![255u8; (width * height * 4) as usize])
}

fn options(path: &str) -> AtlasOptions {
    AtlasOptions::new(path.to_string(), None, Some(SamplingMode::Nearest))
}

#[test]
fn unreadable_folder_leaves_its_index_empty() {
    let valid = vec![
        RasterSlot::new(1, Some(raster(8, 8))),
        RasterSlot::new(2, Some(raster(16, 4))),
        RasterSlot::new(3, Some(raster(4, 12))),
    ];
    let unreadable = vec![RasterSlot::new(4, None), RasterSlot::new(5, None)];
    let folders = vec![Some(valid), Some(unreadable)];
    let registry = assemble_texture_atlases(&folders, &vec![options("a"), options("b")]);
    assert_eq!(registry.0.len(), 2);
    assert_eq!(registry.atlas_count(), 1);
    assert!(registry.has_atlas(0));
    assert!(!registry.has_atlas(1));
    assert!(registry.lookup(0, 2).is_some());
    assert_eq!(registry.lookup(1, 4), None);
    assert_eq!(registry.lookup(0, 4), None);
}

#[test]
fn missing_folder_and_extra_requests() {
    let folders = vec![None, Some(vec![RasterSlot::new(1, Some(raster(2, 2)))])];
    let requests = vec![options("a"), options("b"), options("c")];
    let registry = assemble_texture_atlases(&folders, &requests);
    assert_eq!(registry.0.len(), 2);
    assert!(!registry.has_atlas(0));
    assert!(registry.has_atlas(1));
    assert!(!registry.has_atlas(2));
    assert_eq!(registry.lookup(5, 1), None);
}

#[test]
fn options_and_plugin_keep_configuration() {
    let o = AtlasOptions::new("sprites/ui".to_string(), Some(Padding::new(1, 2)), None);
    assert_eq!(o.folder_path, "sprites/ui");
    assert_eq!(o.padding, Some(Padding::new(1, 2)));
    assert_eq!(o.sampler, None);
    let plugin = TextureAtlasPlugin::new(vec![o.clone(), options("sprites/environment")]);
    assert_eq!(plugin.atlas_options().len(), 2);
    assert_eq!(plugin.atlas_options()[1].folder_path, "sprites/environment");
}

#[test]
fn valid_folder_second_keeps_its_index() {
    let valid = vec![
        RasterSlot::new(1, Some(raster(8, 8))),
        RasterSlot::new(2, Some(raster(16, 4))),
        RasterSlot::new(3, Some(raster(4, 12))),
    ];
    let unreadable = vec![RasterSlot::new(4, None)];
    let folders = vec![Some(unreadable), Some(valid)];
    let registry = assemble_texture_atlases(&folders, &vec![options("a"), options("b")]);
    assert_eq!(registry.atlas_count(), 1);
    assert!(!registry.has_atlas(0));
    let entry = registry.0[1].as_ref().unwrap();
    assert_eq!(entry.source_data.ids(), &vec![1, 2, 3]);
    assert_eq!(entry.atlas_layout.textures.len(), 3);
    assert_eq!(entry.sampling, Some(SamplingMode::Nearest));
}
