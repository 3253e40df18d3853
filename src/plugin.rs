use vstd::prelude::*;

use crate::atlas::{
    atlas_outcome, built_from, create_texture_atlas, lookup_spec, padding_of, RasterSlot, SamplingMode, TextureAtlasData,
};
use crate::layout::{Padding, Rect};

verus! {

/// What to pack for one folder: where it lies, the spacing between packed
/// rasters, and the filtering of the composite.
#[derive(Clone)]
pub struct AtlasOptions {
    pub folder_path: String,
    pub padding: Option<Padding>,
    pub sampler: Option<SamplingMode>,
}

impl AtlasOptions {
    pub fn new(folder_path: String, padding: Option<Padding>, sampler: Option<SamplingMode>) -> (r:
        AtlasOptions)
        ensures
            r.folder_path@ == folder_path@,
            r.padding == padding,
            r.sampler == sampler,
    {
        AtlasOptions { folder_path, padding, sampler }
    }
}

/// The configured atlas requests, in order.
pub struct TextureAtlasPlugin {
    atlas_options: Vec<AtlasOptions>,
}

impl TextureAtlasPlugin {
    pub closed spec fn options(&self) -> Seq<AtlasOptions> {
        self.atlas_options@
    }

    pub fn new(atlas_options: Vec<AtlasOptions>) -> (r: Self)
        ensures
            r.options() == atlas_options@,
    {
        Self { atlas_options }
    }

    pub fn atlas_options(&self) -> (r: &Vec<AtlasOptions>)
        ensures
            r@ == self.options(),
    {
        &self.atlas_options
    }
}

/// The published atlases, index-aligned with the requests: an entry is
/// `None` where that request's folder produced no atlas.
pub struct TextureAtlases(pub Vec<Option<TextureAtlasData>>);

/// The registry entry for one request: present exactly when its folder is
/// available and packing it with the request's padding succeeds, and then
/// that packing, with the request's filtering.
pub open spec fn entry_fits(
    entry: Option<TextureAtlasData>,
    folder: Option<Vec<RasterSlot>>,
    options: AtlasOptions,
) -> bool {
    match folder {
        None => entry is None,
        Some(slots) => {
            &&& (entry is Some <==> atlas_outcome(slots@, padding_of(options.padding)) is Some)
            &&& (entry matches Some(a) ==> built_from(a, slots@, padding_of(options.padding))
                && a.sampling == options.sampler)
        },
    }
}

/// Rectangle of raster `id` in the atlas of request `atlas_index`, if any.
pub open spec fn registry_lookup(entries: Seq<Option<TextureAtlasData>>, atlas_index: int, id: u64) -> Option<Rect> {
    if 0 <= atlas_index < entries.len() {
        match entries[atlas_index] {
            Some(a) => lookup_spec(a.source_data.ids_view(), a.atlas_layout.textures@, id),
            None => None,
        }
    } else {
        None
    }
}

impl TextureAtlases {
    /// The rectangle of raster `id` within the atlas of request
    /// `atlas_index`; `None` when there is no such atlas or raster.
    pub fn lookup(&self, atlas_index: usize, id: u64) -> (r: Option<Rect>)
        ensures
            r == registry_lookup(self.0@, atlas_index as int, id),
    {
        if atlas_index < self.0.len() {
            match &self.0[atlas_index] {
                Some(a) => a.lookup(id),
                None => None,
            }
        } else {
            None
        }
    }

    /// Whether request `atlas_index` has an atlas.
    pub fn has_atlas(&self, atlas_index: usize) -> (r: bool)
        ensures
            r == (atlas_index < self.0@.len() && self.0@[atlas_index as int] is Some),
    {
        atlas_index < self.0.len() && self.0[atlas_index].is_some()
    }

    /// How many requests produced an atlas.
    pub fn atlas_count(&self) -> (r: usize)
        ensures
            r == self.0@.filter(|e: Option<TextureAtlasData>| e is Some).len(),
    {
        let mut count: usize = 0;
        let mut i: usize = 0;
        while i < self.0.len()
            invariant
                i <= self.0@.len(),
                count == self.0@.take(i as int).filter(|e: Option<TextureAtlasData>| e is Some).len(),
                count <= i,
            decreases self.0@.len() - i,
        {
            proof {
                assert(self.0@.take(i as int + 1).drop_last() =~= self.0@.take(i as int));
                reveal(Seq::filter);
            }
            if self.0[i].is_some() {
                count = count + 1;
            }
            i = i + 1;
        }
        assert(self.0@.take(self.0@.len() as int) =~= self.0@);
        count
    }
}

/// Packs each loaded folder with the options of its request, in request
/// order. `None` stands for a folder whose contents are unavailable. A folder
/// that yields no atlas leaves `None` at its index.
pub fn assemble_texture_atlases(
    loaded_folders: &Vec<Option<Vec<RasterSlot>>>,
    atlas_options: &Vec<AtlasOptions>,
) -> (r: TextureAtlases)
    ensures
        r.0@.len() == if loaded_folders@.len() < atlas_options@.len() {
            loaded_folders@.len()
        } else {
            atlas_options@.len()
        },
        forall|i: int|
            0 <= i < r.0@.len() ==> entry_fits(
                #[trigger] r.0@[i],
                loaded_folders@[i],
                atlas_options@[i],
            ),
{
    let n = if loaded_folders.len() < atlas_options.len() {
        loaded_folders.len()
    } else {
        atlas_options.len()
    };
    let mut atlases: Vec<Option<TextureAtlasData>> = Vec::new();
    let mut i: usize = 0;
    while i < n
        invariant
            i <= n,
            n <= loaded_folders@.len(),
            n <= atlas_options@.len(),
            atlases@.len() == i,
            forall|k: int|
                0 <= k < i ==> entry_fits(#[trigger] atlases@[k], loaded_folders@[k], atlas_options@[k]),
        decreases n - i,
    {
        let options = &atlas_options[i];
        let entry = match &loaded_folders[i] {
            Some(folder) => match create_texture_atlas(folder, options.padding, options.sampler) {
                Ok(a) => Some(a),
                Err(_) => None,
            },
            None => None,
        };
        atlases.push(entry);
        i = i + 1;
    }
    TextureAtlases(atlases)
}

/// Each registry entry depends only on its own request and folder: where
/// two registries hold the same folder under the same options, the entries
/// agree on presence, identities, layout and filtering, whatever the other
/// folders did.
pub proof fn lemma_entry_depends_on_its_folder_only(
    e1: Option<TextureAtlasData>,
    e2: Option<TextureAtlasData>,
    folder: Option<Vec<RasterSlot>>,
    options: AtlasOptions,
)
    requires
        entry_fits(e1, folder, options),
        entry_fits(e2, folder, options),
    ensures
        e1 is Some <==> e2 is Some,
        e1 matches Some(a1) ==> e2 matches Some(a2) && a1.source_data.ids_view()
            == a2.source_data.ids_view() && a1.atlas_layout.textures@ == a2.atlas_layout.textures@
            && a1.atlas_layout.width == a2.atlas_layout.width && a1.atlas_layout.height
            == a2.atlas_layout.height && a1.sampling == a2.sampling,
{
}

} // verus!
