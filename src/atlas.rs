use bevy::image::{Image, ImageSampler};
use bevy::math::UVec2;
use bevy::render::render_resource::{Extent3d, TextureDimension, TextureFormat};
use bevy::sprite::{TextureAtlasBuilder, TextureAtlasBuilderError};
use std::collections::HashMap;
use vstd::prelude::*;

use crate::layout::{check_layout, layout_ok, Padding, Rect};

verus! {

broadcast use vstd::std_specs::hash::group_hash_axioms;

#[verifier::external_type_specification]
#[verifier::external_body]
pub struct ExImage(Image);

#[verifier::external_type_specification]
#[verifier::external_body]
pub struct ExTextureAtlasBuilderError(TextureAtlasBuilderError);

/// Texture filtering applied to a finished composite.
#[derive(Debug, Clone, Copy, PartialEq, Eq, Hash, Structural)]
pub enum SamplingMode {
    Nearest,
    Linear,
}

/// Why a folder produced no atlas.
#[derive(Debug, Clone, Copy, PartialEq, Eq, Hash, Structural)]
pub enum PackingError {
    /// No raster of the folder could be resolved.
    Empty,
    /// The packer could not place every raster.
    BuildFailed,
}

/// A decoded raster: its size and its pixels, four bytes (RGBA, sRGB) per
/// pixel, row by row.
pub struct Raster {
    pub width: u32,
    pub height: u32,
    pub pixels: Vec<u8>,
}

impl Raster {
    pub fn new(width: u32, height: u32, pixels: Vec<u8>) -> (r: Raster)
        ensures
            r.width == width,
            r.height == height,
            r.pixels@ == pixels@,
    {
        Raster { width, height, pixels }
    }

    fn duplicate(&self) -> (r: Raster)
        ensures
            r.width == self.width,
            r.height == self.height,
            r.pixels@.len() == self.pixels@.len(),
    {
        Raster { width: self.width, height: self.height, pixels: self.pixels.clone() }
    }
}

/// The pixel buffer holds exactly one four-byte pixel per position.
pub open spec fn raster_ok(r: Raster) -> bool {
    r.pixels@.len() == r.width * r.height * 4
}

fn raster_ok_exec(r: &Raster) -> (b: bool)
    ensures
        b == raster_ok(*r),
{
    let w = r.width as u128;
    let h = r.height as u128;
    assert(w * h <= 0xffff_ffff * 0xffff_ffff) by (nonlinear_arith)
        requires
            w <= 0xffff_ffff,
            h <= 0xffff_ffff,
    ;
    w * h * 4 == r.pixels.len() as u128
}

/// One entry of a loaded folder: a raster identity and, when it decoded,
/// the raster itself.
pub struct RasterSlot {
    pub id: u64,
    pub raster: Option<Raster>,
}

impl RasterSlot {
    pub fn new(id: u64, raster: Option<Raster>) -> (r: RasterSlot)
        ensures
            r.id == id,
            r.raster == raster,
    {
        RasterSlot { id, raster }
    }
}

/// A slot takes part in packing when it holds a well-formed raster.
pub open spec fn usable(s: RasterSlot) -> bool {
    s.raster matches Some(r) && raster_ok(r)
}

/// The identities of the usable rasters, in folder order.
pub open spec fn resolved_ids(slots: Seq<RasterSlot>) -> Seq<u64>
    decreases slots.len(),
{
    if slots.len() == 0 {
        Seq::empty()
    } else {
        let rest = resolved_ids(slots.drop_last());
        if usable(slots.last()) {
            rest.push(slots.last().id)
        } else {
            rest
        }
    }
}

/// The sizes of the usable rasters, in folder order.
pub open spec fn resolved_sizes(slots: Seq<RasterSlot>) -> Seq<(u32, u32)>
    decreases slots.len(),
{
    if slots.len() == 0 {
        Seq::empty()
    } else {
        let rest = resolved_sizes(slots.drop_last());
        if usable(slots.last()) {
            let r = slots.last().raster->Some_0;
            rest.push((r.width, r.height))
        } else {
            rest
        }
    }
}

/// The sizes of a list of rasters.
pub open spec fn sizes_of(rasters: Seq<Raster>) -> Seq<(u32, u32)> {
    rasters.map_values(|r: Raster| (r.width, r.height))
}

/// Each size, widened by the padding, still fits in `u32`.
pub open spec fn sizes_fit(sizes: Seq<(u32, u32)>, pad: Padding) -> bool {
    forall|i: int|
        0 <= i < sizes.len() ==> (#[trigger] sizes[i]).0 + pad.x <= u32::MAX && sizes[i].1 + pad.y
            <= u32::MAX
}

/// The rectangles, composite width and composite height that the engine's
/// atlas packer gives for rasters of these sizes, in this order, with this
/// padding; `None` when it cannot place them all.
pub uninterp spec fn packing_of(sizes: Seq<(u32, u32)>, pad_x: u32, pad_y: u32) -> Option<
    (Seq<Rect>, u32, u32),
>;

/// The padding an optional setting stands for: none means no spacing.
pub open spec fn padding_of(p: Option<Padding>) -> Padding {
    match p {
        Some(v) => v,
        None => Padding { x: 0, y: 0 },
    }
}

/// The layout that packing a folder yields: the packer's placement of the
/// usable rasters, when there is at least one, their padded sizes fit in
/// `u32`, and the placement is one sound rectangle per raster.
pub open spec fn atlas_outcome(slots: Seq<RasterSlot>, pad: Padding) -> Option<
    (Seq<Rect>, u32, u32),
> {
    let sizes = resolved_sizes(slots);
    if sizes.len() == 0 || !sizes_fit(sizes, pad) {
        None
    } else {
        match packing_of(sizes, pad.x, pad.y) {
            Some((rects, w, h)) => if rects.len() == sizes.len() && layout_ok(rects, w, h, pad) {
                Some((rects, w, h))
            } else {
                None
            },
            None => None,
        }
    }
}

/// Each rectangle has the width and height of the raster it holds.
pub open spec fn sizes_match(rects: Seq<Rect>, sizes: Seq<(u32, u32)>) -> bool {
    &&& rects.len() == sizes.len()
    &&& forall|i: int|
        0 <= i < rects.len() ==> (#[trigger] rects[i]).max_x == rects[i].min_x + sizes[i].0
            && rects[i].max_y == rects[i].min_y + sizes[i].1
}

/// Placement of each packed raster within the composite.
pub struct AtlasLayout {
    pub width: u32,
    pub height: u32,
    pub textures: Vec<Rect>,
}

/// The identity of the raster behind each rectangle of a layout, by index,
/// with a hash index from each identity to its first position.
pub struct AtlasSources {
    ids: Vec<u64>,
    index: HashMap<u64, usize>,
}

/// `i` is the first position at which `id` stands in `ids`.
pub open spec fn first_at(ids: Seq<u64>, id: u64, i: int) -> bool {
    &&& 0 <= i < ids.len()
    &&& ids[i] == id
    &&& forall|j: int| 0 <= j < i ==> ids[j] != id
}

impl AtlasSources {
    /// The identities, by rectangle index.
    pub closed spec fn ids_view(&self) -> Seq<u64> {
        self.ids@
    }

    #[verifier::type_invariant]
    closed spec fn index_matches(&self) -> bool {
        &&& forall|id: u64| #[trigger] self.index@.contains_key(id) <==> self.ids@.contains(id)
        &&& forall|id: u64|
            #[trigger] self.index@.contains_key(id) ==> first_at(self.ids@, id, self.index@[id] as int)
    }

    pub fn new(ids: Vec<u64>) -> (r: AtlasSources)
        ensures
            r.ids_view() == ids@,
    {
        let mut index: HashMap<u64, usize> = HashMap::new();
        let n = ids.len();
        let mut i: usize = 0;
        while i < n
            invariant
                i <= n,
                n == ids@.len(),
                forall|id: u64| #[trigger] index@.contains_key(id) <==> exists|j: int|
                    0 <= j < i && ids@[j] == id,
                forall|id: u64|
                    #[trigger] index@.contains_key(id) ==> first_at(ids@, id, index@[id] as int),
            decreases n - i,
        {
            let id = ids[i];
            if !index.contains_key(&id) {
                index.insert(id, i);
            }
            i = i + 1;
        }
        proof {
            assert forall|id: u64| #[trigger] index@.contains_key(id) <==> ids@.contains(id) by {
                if ids@.contains(id) {
                    let j = choose|j: int| 0 <= j < ids@.len() && ids@[j] == id;
                }
            }
        }
        AtlasSources { ids, index }
    }

    pub fn ids(&self) -> (r: &Vec<u64>)
        ensures
            r@ == self.ids_view(),
    {
        &self.ids
    }

    /// The first position at which `id` stands, if it stands anywhere, found
    /// through the hash index.
    pub fn index_of(&self, id: u64) -> (r: Option<usize>)
        ensures
            r is None <==> !self.ids_view().contains(id),
            r matches Some(i) ==> first_at(self.ids_view(), id, i as int),
    {
        proof {
            use_type_invariant(self);
        }
        match self.index.get(&id) {
            Some(i) => Some(*i),
            None => None,
        }
    }
}

/// Relies on bevy's `Image::new` and `TextureAtlasBuilder::build`. The
/// packing depends on the rasters' sizes and the padding alone; on success
/// there is one rectangle per raster, in the order given, each of the
/// raster's size. `Image::new` wants a buffer of the raster's size, and the
/// builder adds the padding to each size in `u32`.
#[verifier::external_body]
fn pack_textures(rasters: Vec<Raster>, padding: Padding) -> (r: Result<
    (Vec<Rect>, u32, u32, Image),
    TextureAtlasBuilderError,
>)
    requires
        forall|i: int| 0 <= i < rasters@.len() ==> raster_ok(#[trigger] rasters@[i]),
        sizes_fit(sizes_of(rasters@), padding),
    ensures
        r is Ok <==> packing_of(sizes_of(rasters@), padding.x, padding.y) is Some,
        r matches Ok((rects, w, h, _)) ==> packing_of(sizes_of(rasters@), padding.x, padding.y)
            == Some((rects@, w, h)) && sizes_match(rects@, sizes_of(rasters@)),
{
    let images: Vec<Image> = rasters.into_iter().map(|r| Image::new(
        Extent3d { width: r.width, height: r.height, depth_or_array_layers: 1 },
        TextureDimension::D2,
        r.pixels,
        TextureFormat::Rgba8UnormSrgb,
        Default::default(),
    )).collect();
    let mut builder = TextureAtlasBuilder::default();
    builder.padding(UVec2::new(padding.x, padding.y));
    for image in &images { builder.add_texture(None, image); }
    builder.build().map(|(layout, _, image)| {
        let rects = layout.textures.iter().map(|u| Rect::new(u.min.x, u.min.y, u.max.x, u.max.y));
        (rects.collect(), layout.size.x, layout.size.y, image)
    })
}

/// Relies on bevy's `ImageSampler::nearest` and `ImageSampler::linear`:
/// sets the filtering of the image; no mode keeps the engine default.
#[verifier::external_body]
fn apply_sampling(image: &mut Image, mode: Option<SamplingMode>) {
    image.sampler = match mode {
        Some(SamplingMode::Nearest) => ImageSampler::nearest(),
        Some(SamplingMode::Linear) => ImageSampler::linear(),
        None => ImageSampler::Default,
    };
}

/// A packed folder: where each raster went, the composite image with its
/// filtering, and which raster each rectangle holds.
pub struct TextureAtlasData {
    pub atlas_layout: AtlasLayout,
    pub atlas_texture: Image,
    pub sampling: Option<SamplingMode>,
    pub source_data: AtlasSources,
}

/// The rectangle of the first raster with identity `id`, if the atlas holds it.
pub open spec fn lookup_spec(ids: Seq<u64>, rects: Seq<Rect>, id: u64) -> Option<Rect> {
    if exists|i: int| 0 <= i < ids.len() && ids[i] == id && i < rects.len() && forall|j: int|
        0 <= j < i ==> ids[j] != id {
        let i = choose|i: int|
            0 <= i < ids.len() && ids[i] == id && i < rects.len() && forall|j: int|
                0 <= j < i ==> ids[j] != id;
        Some(rects[i])
    } else {
        None
    }
}

impl TextureAtlasData {
    /// The rectangle that the raster with identity `id` occupies, or `None`
    /// when that raster is not part of this atlas.
    pub fn lookup(&self, id: u64) -> (r: Option<Rect>)
        ensures
            r == lookup_spec(self.source_data.ids_view(), self.atlas_layout.textures@, id),
    {
        let ghost ids = self.source_data.ids_view();
        let ghost rects = self.atlas_layout.textures@;
        match self.source_data.index_of(id) {
            Some(i) => {
                if i < self.atlas_layout.textures.len() {
                    let rect = self.atlas_layout.textures[i];
                    proof {
                        let k = choose|k: int|
                            0 <= k < ids.len() && ids[k] == id && k < rects.len() && forall|j: int|
                                0 <= j < k ==> ids[j] != id;
                        assert(k == i as int) by {
                            if k < i as int {
                                assert(ids[k] != id);
                            } else if k > i as int {
                                assert(ids[i as int] != id);
                            }
                        }
                    }
                    Some(rect)
                } else {
                    proof {
                        assert forall|k: int|
                            !(0 <= k < ids.len() && ids[k] == id && k < rects.len() && forall|j: int|
                                0 <= j < k ==> ids[j] != id) by {
                            if 0 <= k < ids.len() && ids[k] == id && k < rects.len() && k != i {
                                if k < i {
                                } else {
                                    assert(!(forall|j: int| 0 <= j < k ==> ids[j] != id)) by {
                                        assert(ids[i as int] == id);
                                    }
                                }
                            }
                        }
                    }
                    None
                }
            },
            None => {
                proof {
                    assert forall|k: int| !(0 <= k < ids.len() && ids[k] == id) by {
                        if 0 <= k < ids.len() && ids[k] == id {
                            assert(ids.contains(id));
                        }
                    }
                }
                None
            },
        }
    }
}

/// The atlas is the packing of the usable rasters of `slots`.
pub open spec fn built_from(a: TextureAtlasData, slots: Seq<RasterSlot>, pad: Padding) -> bool {
    &&& a.source_data.ids_view() == resolved_ids(slots)
    &&& atlas_outcome(slots, pad) == Some(
        (a.atlas_layout.textures@, a.atlas_layout.width, a.atlas_layout.height),
    )
    &&& layout_ok(a.atlas_layout.textures@, a.atlas_layout.width, a.atlas_layout.height, pad)
    &&& sizes_match(a.atlas_layout.textures@, resolved_sizes(slots))
}

proof fn lemma_resolved_step(slots: Seq<RasterSlot>, i: int)
    requires
        0 <= i < slots.len(),
    ensures
        resolved_ids(slots.take(i + 1)) == if usable(slots[i]) {
            resolved_ids(slots.take(i)).push(slots[i].id)
        } else {
            resolved_ids(slots.take(i))
        },
        resolved_sizes(slots.take(i + 1)) == if usable(slots[i]) {
            resolved_sizes(slots.take(i)).push(
                (slots[i].raster->Some_0.width, slots[i].raster->Some_0.height),
            )
        } else {
            resolved_sizes(slots.take(i))
        },
{
    assert(slots.take(i + 1).drop_last() =~= slots.take(i));
}

/// Packs the usable rasters of one folder into a single composite. Slots
/// without a well-formed raster are skipped; with none left the result is
/// `Empty`. Otherwise the result is the engine's packing when it places
/// every raster soundly, and `BuildFailed` when it does not.
pub fn create_texture_atlas(
    rasters: &Vec<RasterSlot>,
    padding: Option<Padding>,
    sampler: Option<SamplingMode>,
) -> (r: Result<TextureAtlasData, PackingError>)
    ensures
        r == Err::<TextureAtlasData, PackingError>(PackingError::Empty) <==> resolved_ids(
            rasters@,
        ).len() == 0,
        r is Ok <==> atlas_outcome(rasters@, padding_of(padding)) is Some,
        r matches Ok(a) ==> built_from(a, rasters@, padding_of(padding)) && a.sampling == sampler,
{
    let pad = match padding {
        Some(p) => p,
        None => Padding::new(0, 0),
    };
    let mut usable_rasters: Vec<Raster> = Vec::new();
    let mut ids: Vec<u64> = Vec::new();
    let mut fits = true;
    let mut i: usize = 0;
    while i < rasters.len()
        invariant
            i <= rasters@.len(),
            ids@ == resolved_ids(rasters@.take(i as int)),
            ids@.len() == usable_rasters@.len(),
            sizes_of(usable_rasters@) == resolved_sizes(rasters@.take(i as int)),
            forall|k: int| 0 <= k < usable_rasters@.len() ==> raster_ok(#[trigger] usable_rasters@[k]),
            fits == sizes_fit(sizes_of(usable_rasters@), pad),
        decreases rasters@.len() - i,
    {
        proof {
            lemma_resolved_step(rasters@, i as int);
        }
        match &rasters[i].raster {
            Some(raster) => {
                if raster_ok_exec(raster) {
                    let copy = raster.duplicate();
                    if copy.width as u64 + pad.x as u64 > u32::MAX as u64 || copy.height as u64
                        + pad.y as u64 > u32::MAX as u64 {
                        fits = false;
                    }
                    let ghost before = usable_rasters@;
                    usable_rasters.push(copy);
                    ids.push(rasters[i].id);
                    proof {
                        assert(sizes_of(usable_rasters@) =~= sizes_of(before).push(
                            (copy.width, copy.height),
                        ));
                        let s = sizes_of(usable_rasters@);
                        if fits {
                            assert forall|k: int| 0 <= k < s.len() implies (#[trigger] s[k]).0
                                + pad.x <= u32::MAX && s[k].1 + pad.y <= u32::MAX by {
                                if k < s.len() - 1 {
                                    assert(s[k] == sizes_of(before)[k]);
                                }
                            }
                        } else {
                            let last = s.len() - 1;
                            if sizes_fit(sizes_of(before), pad) {
                                assert(s[last] == (copy.width, copy.height));
                            } else {
                                let k = choose|k: int| 0 <= k < sizes_of(before).len() && !((
                                    #[trigger] sizes_of(before)[k]).0 + pad.x <= u32::MAX
                                    && sizes_of(before)[k].1 + pad.y <= u32::MAX);
                                assert(s[k] == sizes_of(before)[k]);
                            }
                        }
                    }
                }
            },
            None => {},
        }
        i = i + 1;
    }
    assert(rasters@.take(rasters@.len() as int) =~= rasters@);
    if ids.len() == 0 {
        return Err(PackingError::Empty);
    }
    if !fits {
        return Err(PackingError::BuildFailed);
    }
    let ghost sizes = resolved_sizes(rasters@);
    let ghost count = usable_rasters@.len();
    assert(sizes_of(usable_rasters@) == sizes);
    let packed = match pack_textures(usable_rasters, pad) {
        Ok(p) => Some(p),
        Err(_) => None,
    };
    let ghost packed_view = packed;
    let r = finish_atlas(packed, ids, pad, sampler);
    proof {
        assert(sizes.len() == count);
        if let Some((rects, w, h, _)) = packed_view {
            assert(packing_of(sizes, pad.x, pad.y) == Some((rects@, w, h)));
        }
    }
    r
}

/// Turns what the packer returned into an atlas: it is accepted only when
/// it places one rectangle per identity and keeps the padding; otherwise, or
/// when packing failed, the result is `BuildFailed`.
pub fn finish_atlas(
    packed: Option<(Vec<Rect>, u32, u32, Image)>,
    ids: Vec<u64>,
    pad: Padding,
    sampler: Option<SamplingMode>,
) -> (r: Result<TextureAtlasData, PackingError>)
    ensures
        r is Ok <==> (packed matches Some((rects, width, height, _)) && rects@.len() == ids@.len()
            && layout_ok(rects@, width, height, pad)),
        r is Err ==> r == Err::<TextureAtlasData, PackingError>(PackingError::BuildFailed),
        r matches Ok(a) ==> packed matches Some((rects, width, height, _)) && a.source_data.ids_view()
            == ids@ && a.atlas_layout.textures@ == rects@ && a.atlas_layout.width == width
            && a.atlas_layout.height == height && a.sampling == sampler,
{
    match packed {
        Some((rects, width, height, texture)) => {
            if rects.len() != ids.len() || !check_layout(&rects, width, height, pad) {
                return Err(PackingError::BuildFailed);
            }
            let mut texture = texture;
            apply_sampling(&mut texture, sampler);
            Ok(
                TextureAtlasData {
                    atlas_layout: AtlasLayout { width, height, textures: rects },
                    atlas_texture: texture,
                    sampling: sampler,
                    source_data: AtlasSources::new(ids),
                },
            )
        },
        None => Err(PackingError::BuildFailed),
    }
}

proof fn lemma_resolved_ids_from_usable(slots: Seq<RasterSlot>, id: u64)
    requires
        resolved_ids(slots).contains(id),
    ensures
        exists|j: int| 0 <= j < slots.len() && slots[j].id == id && usable(slots[j]),
    decreases slots.len(),
{
    let rest = slots.drop_last();
    if usable(slots.last()) && slots.last().id == id {
        assert(slots[slots.len() - 1] == slots.last());
    } else {
        let k = choose|k: int| 0 <= k < resolved_ids(slots).len() && resolved_ids(slots)[k] == id;
        assert(resolved_ids(rest)[k] == id);
        lemma_resolved_ids_from_usable(rest, id);
        let j = choose|j: int| 0 <= j < rest.len() && rest[j].id == id && usable(rest[j]);
        assert(slots[j] == rest[j]);
    }
}

/// A raster that was filtered out while packing (no slot with its identity
/// holds a well-formed raster) is not found in the resulting atlas.
pub proof fn lemma_filtered_out_not_found(
    atlas: TextureAtlasData,
    slots: Seq<RasterSlot>,
    pad: Padding,
    id: u64,
)
    requires
        built_from(atlas, slots, pad),
        forall|j: int| 0 <= j < slots.len() && (#[trigger] slots[j]).id == id ==> !usable(slots[j]),
    ensures
        lookup_spec(atlas.source_data.ids_view(), atlas.atlas_layout.textures@, id) is None,
{
    let ids = atlas.source_data.ids_view();
    if exists|i: int| 0 <= i < ids.len() && ids[i] == id {
        let i = choose|i: int| 0 <= i < ids.len() && ids[i] == id;
        assert(ids.contains(id));
        lemma_resolved_ids_from_usable(slots, id);
    }
}

/// Packing is deterministic: two folders whose usable rasters have the same
/// sizes, in the same order, packed with the same padding, get the same
/// layout.
pub proof fn lemma_packing_deterministic(
    a1: TextureAtlasData,
    s1: Seq<RasterSlot>,
    a2: TextureAtlasData,
    s2: Seq<RasterSlot>,
    pad: Padding,
)
    requires
        built_from(a1, s1, pad),
        built_from(a2, s2, pad),
        resolved_sizes(s1) == resolved_sizes(s2),
    ensures
        a1.atlas_layout.textures@ == a2.atlas_layout.textures@,
        a1.atlas_layout.width == a2.atlas_layout.width,
        a1.atlas_layout.height == a2.atlas_layout.height,
{
}

} // verus!
