//! Image atlas: one square RGBA texture that every image is packed into.
//!
//! An upload mints an [`ImageHandle`] and keeps a copy of the pixels. When
//! the atlas is full, [`ImageAtlas::rebuild_keeping`] drops the images that
//! are no longer in use and packs the rest anew from those copies; a handle
//! that survives keeps its value, and only its place on the texture changes.
//!
//! The atlas decides where pixels go. The texels to be written are queued as
//! [`TextureWrite`]s for whoever owns the texture.
use std::collections::{HashMap, HashSet};

use vstd::prelude::*;

use crate::gpu::packer::{
    packed_regions_are_apart, regions_are_at_most_the_texels, Packer, Region, MAX_SIDE,
};
use crate::gpu::picture::{decode_picture, png_frame, rgba_bytes};
use crate::num::{computes_exactly, fractions_are_exact, Num};

verus! {

broadcast use vstd::std_specs::hash::group_hash_axioms;

/// An uploaded image. It stays valid when the atlas is packed anew.
#[derive(Copy, Clone, Debug, PartialEq, Eq, PartialOrd, Ord, Hash, Structural)]
pub struct ImageHandle(pub u32);

/// A set of image handles.
#[derive(Debug)]
pub struct HandleSet {
    handles: HashSet<u32>,
}

impl View for HandleSet {
    type V = Set<u32>;

    closed spec fn view(&self) -> Set<u32> {
        self.handles@
    }
}

impl HandleSet {
    pub fn new() -> (r: Self)
        ensures
            r@ == Set::<u32>::empty(),
    {
        HandleSet { handles: HashSet::new() }
    }

    pub fn insert(&mut self, handle: ImageHandle)
        ensures
            final(self)@ == old(self)@.insert(handle.0),
    {
        self.handles.insert(handle.0);
    }

    pub fn contains(&self, handle: &ImageHandle) -> (r: bool)
        ensures
            r == self@.contains(handle.0),
    {
        self.handles.contains(&handle.0)
    }

    pub fn len(&self) -> (r: usize)
        ensures
            r == self@.len(),
    {
        self.handles.len()
    }

    pub fn is_empty(&self) -> (r: bool)
        ensures
            r == (self@.len() == 0),
    {
        self.handles.len() == 0
    }
}

/// Where an image is on the texture, and how large it is.
#[derive(Copy, Clone, Debug)]
pub struct ImageEntry<N> {
    /// `[u0, v0, u1, v1]`, as fractions of the atlas side.
    pub uv: [N; 4],
    pub width: u32,
    pub height: u32,
}

/// Texels to be written: the pixels of `handle`, with their top left at
/// `(x, y)`.
#[derive(Copy, Clone, Debug, PartialEq, Eq, Structural)]
pub struct TextureWrite {
    pub handle: ImageHandle,
    pub x: u32,
    pub y: u32,
    pub width: u32,
    pub height: u32,
}

/// An image on the texture: its entry and the texel it starts at.
#[derive(Copy, Clone, Debug)]
pub struct Placed<N> {
    pub entry: ImageEntry<N>,
    pub x: u32,
    pub y: u32,
}

/// The pixels of an upload, kept so that it can be packed again.
#[derive(Debug)]
pub struct ImageSource {
    pub handle: ImageHandle,
    pub width: u32,
    pub height: u32,
    pub rgba: Vec<u8>,
}

/// Transparent border around each image, so that linear filtering does not
/// reach a neighbour.
pub const PADDING: i32 = 1;

/// The texture coordinates of a box of texels.
pub open spec fn uv_of<N: Num>(x: u32, y: u32, w: u32, h: u32, side: u32) -> Seq<N> {
    let inv = N::fraction(1, 1).quotient(N::natural(side as u64));
    seq![
        N::natural(x as u64).product(inv),
        N::natural(y as u64).product(inv),
        N::natural((x + w) as u64).product(inv),
        N::natural((y + h) as u64).product(inv),
    ]
}

pub(crate) fn texture_rect<N: Num>(x: u32, y: u32, w: u32, h: u32, side: u32) -> (r: [N; 4])
    requires
        x + w <= u32::MAX,
        y + h <= u32::MAX,
    ensures
        r@ == uv_of::<N>(x, y, w, h, side),
{
    let inv = N::of_ratio(1, 1).over(N::of_u64(side as u64));
    let r = [
        N::of_u64(x as u64).times(inv),
        N::of_u64(y as u64).times(inv),
        N::of_u64((x + w) as u64).times(inv),
        N::of_u64((y + h) as u64).times(inv),
    ];
    assert(r@ =~= uv_of::<N>(x, y, w, h, side));
    r
}

/// `len` bytes are the RGBA pixels of a non-empty `w` by `h` image that fits
/// an atlas of side `side` with its border.
pub open spec fn drawable(w: u32, h: u32, len: int, side: u32) -> bool {
    &&& w > 0 && h > 0
    &&& len == w * h * 4
    &&& w + 2 * PADDING <= side
    &&& h + 2 * PADDING <= side
}

/// The box of texels that an image covers.
pub open spec fn texels<N>(p: Placed<N>) -> Region {
    Region {
        min_x: p.x as i32,
        min_y: p.y as i32,
        max_x: (p.x + p.entry.width) as i32,
        max_y: (p.y + p.entry.height) as i32,
    }
}

/// The box with its border lies in the region.
pub open spec fn framed<N>(p: Placed<N>, g: Region) -> bool {
    &&& g.min_x + PADDING <= p.x
    &&& g.min_y + PADDING <= p.y
    &&& p.x + p.entry.width + PADDING <= g.max_x
    &&& p.y + p.entry.height + PADDING <= g.max_y
}

pub open spec fn framed_by_some<N>(p: Placed<N>, regions: Seq<Region>) -> bool {
    exists|i: int| 0 <= i < regions.len() && framed(p, #[trigger] regions[i])
}

/// The sources without the one under `handle`, if there is one.
pub open spec fn without(sources: Seq<ImageSource>, handle: u32) -> Seq<ImageSource> {
    if has_source(sources, handle) {
        sources.remove(
            choose|i: int| 0 <= i < sources.len() && (#[trigger] sources[i]).handle.0 == handle,
        )
    } else {
        sources
    }
}

pub open spec fn has_source(sources: Seq<ImageSource>, handle: u32) -> bool {
    exists|i: int| 0 <= i < sources.len() && (#[trigger] sources[i]).handle.0 == handle
}

/// The number of bytes in all sources.
pub open spec fn bytes_in(sources: Seq<ImageSource>) -> int
    decreases sources.len(),
{
    if sources.len() == 0 {
        0
    } else {
        bytes_in(sources.drop_last()) + sources.last().rgba@.len()
    }
}

/// What the kept source `s` says of the image placed under its handle.
pub open spec fn source_ok<N>(side: u32, images: Map<u32, Placed<N>>, s: ImageSource) -> bool {
    &&& drawable(s.width, s.height, s.rgba@.len() as int, side)
    &&& images.contains_key(s.handle.0)
    &&& images[s.handle.0].entry.width == s.width
    &&& images[s.handle.0].entry.height == s.height
}

/// What holds of an image on the texture.
pub open spec fn image_ok<N: Num>(
    side: u32,
    regions: Seq<Region>,
    p: Placed<N>,
) -> bool {
    &&& framed_by_some(p, regions)
    &&& p.entry.uv@ == uv_of::<N>(p.x, p.y, p.entry.width, p.entry.height, side)
}

/// No two sources have the same handle.
pub open spec fn distinct(kept: Seq<ImageSource>) -> bool {
    forall|i: int, j: int|
        0 <= i < j < kept.len() ==> (#[trigger] kept[i]).handle.0 != (
        #[trigger] kept[j]).handle.0
}

/// No two images share a texel.
pub open spec fn images_apart<N>(images: Map<u32, Placed<N>>) -> bool {
    forall|a: u32, b: u32|
        a != b && #[trigger] images.contains_key(a) && #[trigger] images.contains_key(b)
            ==> texels(images[a]).apart(texels(images[b]))
}

/// The images, their regions and their sources agree.
pub open spec fn sound<N: Num>(
    side: u32,
    regions: Seq<Region>,
    images: Map<u32, Placed<N>>,
    kept: Seq<ImageSource>,
) -> bool {
    &&& kept.len() <= regions.len()
    &&& forall|i: int| 0 <= i < kept.len() ==> source_ok(side, images, #[trigger] kept[i])
    &&& distinct(kept)
    &&& forall|a: u32| #[trigger]
        images.contains_key(a) ==> image_ok(side, regions, images[a]) && has_source(kept, a)
    &&& images_apart(images)
}

/// `kept` without what is under `handle`, in some order of its own.
spec fn others_kept(kept: Seq<ImageSource>, others: Seq<ImageSource>, handle: u32) -> bool {
    &&& others.len() <= kept.len()
    &&& distinct(others)
    &&& forall|i: int|
        0 <= i < others.len() ==> (#[trigger] others[i]).handle.0 != handle && kept.contains(
            others[i],
        )
    &&& forall|a: u32|
        a != handle && #[trigger] has_source(kept, a) ==> has_source(others, a)
}

proof fn without_keeps_others(kept: Seq<ImageSource>, handle: u32)
    requires
        distinct(kept),
    ensures
        others_kept(kept, without(kept, handle), handle),
{
    let others = without(kept, handle);
    if has_source(kept, handle) {
        let k = choose|i: int| 0 <= i < kept.len() && (#[trigger] kept[i]).handle.0 == handle;
        assert forall|i: int| 0 <= i < others.len() implies (#[trigger] others[i]).handle.0
            != handle && kept.contains(others[i]) by {
            let j = if i < k {
                i
            } else {
                i + 1
            };
            assert(others[i] == kept[j]);
        }
        assert forall|i: int, j: int| 0 <= i < j < others.len() implies (
        #[trigger] others[i]).handle.0 != (#[trigger] others[j]).handle.0 by {
            assert(others[i] == kept[if i < k {
                i
            } else {
                i + 1
            }]);
            assert(others[j] == kept[if j < k {
                j
            } else {
                j + 1
            }]);
        }
        assert forall|a: u32| a != handle && #[trigger] has_source(kept, a) implies has_source(
            others,
            a,
        ) by {
            let i = choose|i: int| 0 <= i < kept.len() && (#[trigger] kept[i]).handle.0 == a;
            let j = if i < k {
                i
            } else {
                i - 1
            };
            assert(others[j] == kept[i]);
        }
    }
}

/// A new image in a region of its own keeps the atlas sound.
proof fn placing_keeps_sound<N: Num>(
    side: u32,
    packer: Packer,
    before: Seq<Region>,
    images: Map<u32, Placed<N>>,
    kept: Seq<ImageSource>,
    others: Seq<ImageSource>,
    p: Placed<N>,
    s: ImageSource,
)
    requires
        packer.wf(),
        packer.side() == side,
        side <= MAX_SIDE,
        packer@.len() == before.len() + 1,
        packer@ == before.push(packer@.last()),
        sound(side, before, images, kept),
        others_kept(kept, others, s.handle.0),
        framed(p, packer@.last()),
        p.entry.width == s.width,
        p.entry.height == s.height,
        p.entry.uv@ == uv_of::<N>(p.x, p.y, p.entry.width, p.entry.height, side),
        drawable(s.width, s.height, s.rgba@.len() as int, side),
    ensures
        sound(side, packer@, images.insert(s.handle.0, p), others.push(s)),
{
    let h = s.handle.0;
    let regions = packer@;
    let n = before.len() as int;
    let images1 = images.insert(h, p);
    let kept1 = others.push(s);
    assert forall|i: int| 0 <= i < kept1.len() implies source_ok(
        side,
        images1,
        #[trigger] kept1[i],
    ) by {
        if i < others.len() {
            let o = others[i];
            assert(kept.contains(o));
            let j = choose|j: int| 0 <= j < kept.len() && kept[j] == o;
            assert(source_ok(side, images, kept[j]));
        }
    }
    assert(distinct(kept1));
    assert forall|a: u32| #[trigger] images1.contains_key(a) implies image_ok(
        side,
        regions,
        images1[a],
    ) && has_source(kept1, a) by {
        if a == h {
            assert(framed(p, regions[n]));
            assert(kept1[others.len() as int].handle.0 == h);
        } else {
            assert(images.contains_key(a));
            let i = choose|i: int| 0 <= i < before.len() && framed(images[a], #[trigger] before[i]);
            assert(framed(images1[a], regions[i]));
            assert(has_source(others, a));
            let j = choose|j: int| 0 <= j < others.len() && (#[trigger] others[j]).handle.0 == a;
            assert(kept1[j].handle.0 == a);
        }
    }
    assert forall|a: u32| a != h && #[trigger] images.contains_key(a) implies texels(
        images[a],
    ).apart(texels(p)) by {
        let i = choose|i: int| 0 <= i < before.len() && framed(images[a], #[trigger] before[i]);
        packed_regions_are_apart(packer, i, n);
        assert(regions[i] == before[i]);
    }
    assert(images_apart(images1));
}

/// The images on one texture.
pub struct ImageAtlas<N> {
    size: u32,
    packer: Packer,
    placed: HashMap<u32, Placed<N>>,
    next_handle: u32,
    sources: Vec<ImageSource>,
    writes: Vec<TextureWrite>,
}

impl<N: Num> ImageAtlas<N> {
    pub closed spec fn side(self) -> u32 {
        self.size
    }

    /// The regions that have been packed, in order.
    pub closed spec fn regions(self) -> Seq<Region> {
        self.packer@
    }

    /// The images that are on the texture, by handle.
    pub closed spec fn images(self) -> Map<u32, Placed<N>> {
        self.placed@
    }

    /// The handle that the next upload mints.
    pub closed spec fn next(self) -> u32 {
        self.next_handle
    }

    /// The kept pixels, in the order they were packed.
    pub closed spec fn kept(self) -> Seq<ImageSource> {
        self.sources@
    }

    /// The texels to be written, in order.
    pub closed spec fn queued(self) -> Seq<TextureWrite> {
        self.writes@
    }

    /// Every image on the texture has its pixels kept and its own texels.
    pub closed spec fn wf(self) -> bool {
        &&& self.packer.wf()
        &&& self.packer.side() == self.size
        &&& 0 < self.size <= MAX_SIDE
        &&& sound(self.side(), self.regions(), self.images(), self.kept())
    }

    /// There is room for a `w` by `h` image and its border.
    pub closed spec fn room_for(self, w: u32, h: u32) -> bool {
        self.packer.place_for(w + 2 * PADDING, h + 2 * PADDING) is Some
    }

    /// A `w` by `h` image went to a new region under `handle`, and its texels
    /// are queued. Its pixels and the next handle are not spoken of.
    pub open spec fn packed_image(self, pre: Self, w: u32, h: u32, handle: ImageHandle) -> bool {
        let p = self.images()[handle.0];
        let g = self.regions().last();
        &&& self.side() == pre.side()
        &&& self.regions() == pre.regions().push(g)
        &&& self.images() == pre.images().insert(handle.0, p)
        &&& p.x == g.min_x + PADDING
        &&& p.y == g.min_y + PADDING
        &&& p.entry.width == w
        &&& p.entry.height == h
        &&& p.entry.uv@ == uv_of::<N>(p.x, p.y, w, h, pre.side())
        &&& self.queued() == pre.queued().push(
            TextureWrite { handle, x: p.x, y: p.y, width: w, height: h },
        )
    }

    /// The outcome `r` of uploading `rgba` as a `w` by `h` image took `pre`
    /// to `self`.
    ///
    /// An image goes through if it is [`drawable`] and there is room for it,
    /// as there is on an empty atlas; otherwise nothing changes. An upload
    /// that goes through takes the next handle.
    pub open spec fn uploaded(
        self,
        pre: Self,
        w: u32,
        h: u32,
        rgba: Seq<u8>,
        r: Option<ImageHandle>,
    ) -> bool {
        &&& r is Some <==> drawable(w, h, rgba.len() as int, pre.side()) && pre.room_for(w, h)
        &&& drawable(w, h, rgba.len() as int, pre.side()) && pre.regions().len() == 0 ==> r is Some
        &&& match r {
            None => self == pre,
            Some(handle) => {
                let s = self.kept().last();
                &&& handle.0 == pre.next()
                &&& self.next() == (if pre.next() == u32::MAX {
                    0
                } else {
                    (pre.next() + 1) as u32
                })
                &&& self.packed_image(pre, w, h, handle)
                &&& self.kept() == without(pre.kept(), handle.0).push(s)
                &&& s.handle == handle
                &&& s.width == w
                &&& s.height == h
                &&& s.rgba@ == rgba
            },
        }
    }

    /// `pre` without its images; what was queued stays queued.
    pub open spec fn emptied(self, pre: Self) -> bool {
        &&& self.side() == pre.side()
        &&& self.regions() == Seq::<Region>::empty()
        &&& self.images() == Map::<u32, Placed<N>>::empty()
        &&& self.next() == pre.next()
        &&& self.kept() == Seq::<ImageSource>::empty()
        &&& self.queued() == pre.queued()
    }

    /// An image goes onto the atlas `pre` under its old handle, if it is in
    /// use and there is room for it.
    pub open spec fn taken_over(self, pre: Self, s: ImageSource, live: Set<u32>) -> bool {
        if live.contains(s.handle.0) && pre.room_for(s.width, s.height) {
            &&& self.packed_image(pre, s.width, s.height, s.handle)
            &&& self.kept() == pre.kept().push(s)
            &&& self.next() == pre.next()
        } else {
            self == pre
        }
    }

    /// Packing anew with the handles in `live` took `pre` to `self`: the
    /// images in use go onto an empty atlas one after the other, and those for
    /// which there is no room are dropped.
    ///
    /// What is left are images of `pre` that are in `live`, under their old
    /// handles and with their old pixels. Each is alone in a region and is
    /// queued once. The first always finds room.
    pub open spec fn rebuilt(self, pre: Self, live: Set<u32>) -> bool {
        &&& exists|states: Seq<Self>|
            {
                &&& #[trigger] repacked(states, pre.kept(), live)
                &&& states.len() == pre.kept().len() + 1
                &&& states[0].emptied(pre)
                &&& states.last() == self
            }
        &&& self.side() == pre.side()
        &&& self.next() == pre.next()
        &&& self.regions().len() == self.kept().len()
        &&& forall|i: int|
            0 <= i < self.kept().len() ==> live.contains((#[trigger] self.kept()[i]).handle.0)
                && pre.kept().contains(self.kept()[i])
        &&& (exists|i: int|
            0 <= i < pre.kept().len() && live.contains((#[trigger] pre.kept()[i]).handle.0))
            ==> self.kept().len() > 0
        &&& self.queued().len() == pre.queued().len() + self.kept().len()
        &&& self.queued().take(pre.queued().len() as int) == pre.queued()
        &&& forall|i: int|
            0 <= i < self.kept().len() ==> queued_write(
                self.queued()[pre.queued().len() + i],
                #[trigger] self.kept()[i],
                self.images(),
            )
    }

    /// An empty atlas.
    pub fn new(size: u32) -> (r: Self)
        requires
            0 < size <= MAX_SIDE,
        ensures
            r.wf(),
            r.side() == size,
            r.regions() == Seq::<Region>::empty(),
            r.images() == Map::<u32, Placed<N>>::empty(),
            r.next() == 0,
            r.kept() == Seq::<ImageSource>::empty(),
            r.queued() == Seq::<TextureWrite>::empty(),
    {
        ImageAtlas {
            size,
            packer: Packer::new(size),
            placed: HashMap::new(),
            next_handle: 0,
            sources: Vec::new(),
            writes: Vec::new(),
        }
    }

    pub fn size(&self) -> (r: u32)
        ensures
            r == self.side(),
    {
        self.size
    }

    pub fn get(&self, handle: ImageHandle) -> (r: Option<ImageEntry<N>>)
        ensures
            r == (if self.images().contains_key(handle.0) {
                Some(self.images()[handle.0].entry)
            } else {
                None
            }),
    {
        match self.placed.get(&handle.0) {
            Some(p) => Some(p.entry),
            None => None,
        }
    }

    /// Takes the queued writes.
    pub fn take_writes(&mut self) -> (r: Vec<TextureWrite>)
        requires
            old(self).wf(),
        ensures
            final(self).wf(),
            r@ == old(self).queued(),
            final(self).queued() == Seq::<TextureWrite>::empty(),
            final(self).side() == old(self).side(),
            final(self).regions() == old(self).regions(),
            final(self).images() == old(self).images(),
            final(self).next() == old(self).next(),
            final(self).kept() == old(self).kept(),
    {
        let mut taken: Vec<TextureWrite> = Vec::new();
        std::mem::swap(&mut taken, &mut self.writes);
        taken
    }

    /// Whether an image can be on this atlas at all.
    fn takes(&self, w: u32, h: u32, len: usize) -> (r: bool)
        requires
            self.size <= MAX_SIDE,
        ensures
            r == drawable(w, h, len as int, self.side()),
    {
        assert(w * h <= u32::MAX * u32::MAX) by (nonlinear_arith)
            requires
                0 <= w <= u32::MAX,
                0 <= h <= u32::MAX,
        ;
        if w == 0 || h == 0 || len as u128 != w as u128 * h as u128 * 4 {
            return false;
        }
        if w > self.size || h > self.size {
            return false;
        }
        w as i32 + 2 * PADDING <= self.size as i32 && h as i32 + 2 * PADDING <= self.size as i32
    }

    /// Finds a region for a `w` by `h` image of `len` bytes and places it
    /// there under `handle`. The caller answers for the source.
    fn place(&mut self, w: u32, h: u32, len: usize, handle: ImageHandle) -> (r: bool)
        requires
            old(self).packer.wf(),
            old(self).packer.side() == old(self).size,
            0 < old(self).size <= MAX_SIDE,
        ensures
            final(self).packer.wf(),
            final(self).packer.side() == final(self).size,
            final(self).next() == old(self).next(),
            final(self).kept() == old(self).kept(),
            r == (drawable(w, h, len as int, old(self).side()) && old(self).room_for(w, h)),
            drawable(w, h, len as int, old(self).side()) && old(self).regions().len() == 0 ==> r,
            !r ==> *final(self) == *old(self),
            r ==> {
                &&& final(self).packed_image(*old(self), w, h, handle)
                &&& framed(final(self).images()[handle.0], final(self).regions().last())
                &&& final(self).regions().last().on_page(final(self).size as int)
            },
    {
        if !self.takes(w, h, len) {
            return false;
        }
        let padded_w: i32 = w as i32 + 2 * PADDING;
        let padded_h: i32 = h as i32 + 2 * PADDING;
        match self.packer.reserve(padded_w, padded_h) {
            None => false,
            Some(g) => {
                let x: u32 = (g.min_x + PADDING) as u32;
                let y: u32 = (g.min_y + PADDING) as u32;
                let uv = texture_rect::<N>(x, y, w, h, self.size);
                let entry = ImageEntry { uv, width: w, height: h };
                self.placed.insert(handle.0, Placed { entry, x, y });
                self.writes.push(TextureWrite { handle, x, y, width: w, height: h });
                true
            },
        }
    }

    /// The position of the source under `handle`.
    fn source_index(&self, handle: ImageHandle) -> (r: Option<usize>)
        ensures
            match r {
                Some(i) => i < self.kept().len() && self.kept()[i as int].handle == handle,
                None => !has_source(self.kept(), handle.0),
            },
    {
        let mut i: usize = 0;
        while i < self.sources.len()
            invariant
                i <= self.sources@.len(),
                forall|j: int| 0 <= j < i ==> (#[trigger] self.sources@[j]).handle.0 != handle.0,
            decreases self.sources.len() - i,
        {
            if self.sources[i].handle.0 == handle.0 {
                return Some(i);
            }
            i = i + 1;
        }
        None
    }

    /// Uploads `w` by `h` RGBA pixels, row by row from the top left.
    pub fn upload_rgba(&mut self, w: u32, h: u32, rgba: &[u8]) -> (r: Option<ImageHandle>)
        requires
            old(self).wf(),
        ensures
            final(self).wf(),
            final(self).uploaded(*old(self), w, h, rgba@, r),
    {
        let handle = ImageHandle(self.next_handle);
        if !self.place(w, h, rgba.len(), handle) {
            return None;
        }
        self.next_handle = self.next_handle.wrapping_add(1);
        proof {
            without_keeps_others(old(self).kept(), handle.0);
        }
        if let Some(i) = self.source_index(handle) {
            proof {
                let k = choose|k: int|
                    0 <= k < old(self).kept().len() && (#[trigger] old(self).kept()[k]).handle.0
                        == handle.0;
                assert(old(self).kept()[i as int].handle.0 == handle.0);
                assert(k == i);
            }
            self.sources.remove(i);
        }
        assert(self.sources@ == without(old(self).kept(), handle.0));
        self.sources.push(
            ImageSource { handle, width: w, height: h, rgba: vstd::slice::slice_to_vec(rgba) },
        );
        proof {
            placing_keeps_sound(
                self.size,
                self.packer,
                old(self).regions(),
                old(self).images(),
                old(self).kept(),
                without(old(self).kept(), handle.0),
                self.images()[handle.0],
                self.kept().last(),
            );
        }
        Some(handle)
    }

    /// Decodes a PNG file and uploads it. A file that is malformed, or whose
    /// samples are not 8 bits of gray, gray and alpha, RGB or RGBA, is refused.
    pub fn upload_png(&mut self, bytes: &[u8]) -> (r: Option<ImageHandle>)
        requires
            old(self).wf(),
        ensures
            final(self).wf(),
            match png_frame(bytes@, isize::MAX as int) {
                None => r is None && *final(self) == *old(self),
                Some(f) => match rgba_bytes(f) {
                    None => r is None && *final(self) == *old(self),
                    Some(px) => final(self).uploaded(*old(self), f.width, f.height, px, r),
                },
            },
    {
        match decode_picture(bytes) {
            None => None,
            Some(p) => self.upload_rgba(p.width, p.height, p.rgba.as_slice()),
        }
    }

    /// Drops every image that is not in `live` and packs the others anew.
    pub fn rebuild_keeping(&mut self, live: &HandleSet)
        requires
            old(self).wf(),
        ensures
            final(self).wf(),
            final(self).rebuilt(*old(self), live@),
    {
        let mut rest: Vec<ImageSource> = Vec::new();
        std::mem::swap(&mut rest, &mut self.sources);
        self.placed = HashMap::new();
        self.packer = Packer::new(self.size);
        let ghost olds = old(self).kept();
        let ghost q = old(self).queued().len() as int;
        let ghost mut k: int = 0;
        let ghost mut states: Seq<Self> = seq![*self];
        assert(self.emptied(*old(self)));
        assert(rest@ =~= olds.skip(0));
        assert(self.queued().take(q) =~= old(self).queued());
        while rest.len() > 0
            invariant
                0 <= k <= olds.len(),
                rest@ == olds.skip(k),
                olds == old(self).kept(),
                states.len() == k + 1,
                states[0].emptied(*old(self)),
                states.last() == *self,
                repacked(states, olds, live@),
                q == old(self).queued().len(),
                old(self).wf(),
                self.wf(),
                self.side() == old(self).side(),
                self.next() == old(self).next(),
                self.regions().len() == self.kept().len(),
                forall|i: int|
                    0 <= i < self.kept().len() ==> live@.contains(
                        (#[trigger] self.kept()[i]).handle.0,
                    ) && exists|j: int| 0 <= j < k && self.kept()[i] == #[trigger] olds[j],
                (exists|j: int| 0 <= j < k && live@.contains((#[trigger] olds[j]).handle.0))
                    ==> self.kept().len() > 0,
                self.queued().len() == q + self.kept().len(),
                self.queued().take(q) == old(self).queued(),
                forall|i: int|
                    0 <= i < self.kept().len() ==> queued_write(
                        self.queued()[q + i],
                        #[trigger] self.kept()[i],
                        self.images(),
                    ),
            decreases rest.len(),
        {
            let ghost pre = *self;
            let s = rest.remove(0);
            proof {
                assert(s == olds[k]);
                k = k + 1;
                assert(rest@ =~= olds.skip(k));
                assert(source_ok(old(self).side(), old(self).images(), s));
            }
            if live.contains(&s.handle) {
                if self.place(s.width, s.height, s.rgba.len(), s.handle) {
                    let ghost added = s;
                    assert(others_kept(pre.kept(), pre.kept(), added.handle.0));
                    self.sources.push(s);
                    proof {
                        placing_keeps_sound(
                            self.size,
                            self.packer,
                            pre.regions(),
                            pre.images(),
                            pre.kept(),
                            pre.kept(),
                            self.images()[added.handle.0],
                            added,
                        );
                        assert(self.queued().take(q) =~= pre.queued().take(q));
                        assert(self.kept()[self.kept().len() - 1] == olds[k - 1]);
                        assert forall|i: int| 0 <= i < self.kept().len() implies queued_write(
                            self.queued()[q + i],
                            #[trigger] self.kept()[i],
                            self.images(),
                        ) by {
                            if i < pre.kept().len() {
                                assert(self.kept()[i] == pre.kept()[i]);
                            }
                        }
                    }
                }
            }
            proof {
                let longer = states.push(*self);
                assert(self.taken_over(pre, olds[k - 1], live@));
                assert forall|i: int| 0 <= i < longer.len() - 1 implies #[trigger] took_over(
                    longer,
                    olds,
                    live@,
                    i,
                ) by {
                    if i < k - 1 {
                        assert(took_over(states, olds, live@, i));
                    }
                }
                states = longer;
            }
        }
        proof {
            assert forall|i: int| 0 <= i < self.kept().len() implies old(self).kept().contains(
                #[trigger] self.kept()[i],
            ) by {
                let j = choose|j: int| 0 <= j < k && self.kept()[i] == #[trigger] olds[j];
                assert(olds[j] == self.kept()[i]);
            }
            assert(k == olds.len());
            assert(repacked(states, old(self).kept(), live@));
        }
    }

    /// Whether an image can be on this atlas at all, with room or without.
    pub(crate) fn can_take(&self, w: u32, h: u32, len: usize) -> (r: bool)
        requires
            self.wf(),
        ensures
            r == drawable(w, h, len as int, self.side()),
    {
        self.takes(w, h, len)
    }

    /// Uploads as [`Self::upload_rgba`] does; if there is no room, packs anew
    /// with `live` and tries once more. An image that no atlas of this size
    /// takes is refused with nothing changed.
    pub fn upload_rgba_or_evict(
        &mut self,
        w: u32,
        h: u32,
        rgba: &[u8],
        live: &HandleSet,
    ) -> (r: Option<ImageHandle>)
        requires
            old(self).wf(),
        ensures
            final(self).wf(),
            if drawable(w, h, rgba@.len() as int, old(self).side()) && old(self).room_for(w, h) {
                final(self).uploaded(*old(self), w, h, rgba@, r)
            } else if drawable(w, h, rgba@.len() as int, old(self).side()) {
                exists|mid: Self| #[trigger]
                    mid.rebuilt(*old(self), live@) && final(self).uploaded(mid, w, h, rgba@, r)
            } else {
                r is None && *final(self) == *old(self)
            },
            drawable(w, h, rgba@.len() as int, old(self).side()) && live@ == Set::<u32>::empty()
                ==> r is Some,
    {
        if let Some(handle) = self.upload_rgba(w, h, rgba) {
            return Some(handle);
        }
        if !self.takes(w, h, rgba.len()) {
            return None;
        }
        self.rebuild_keeping(live);
        let ghost mid = *self;
        let r = self.upload_rgba(w, h, rgba);
        proof {
            assert(mid.rebuilt(*old(self), live@));
            if live@ == Set::<u32>::empty() {
                assert(mid.kept().len() == 0) by {
                    if mid.kept().len() > 0 {
                        assert(live@.contains(mid.kept()[0].handle.0));
                    }
                }
            }
        }
        r
    }

    /// The handles of all images on the texture.
    pub fn live_handles(&self) -> (r: Vec<ImageHandle>)
        requires
            self.wf(),
        ensures
            r@.len() == self.kept().len(),
            forall|i: int| 0 <= i < r@.len() ==> r@[i] == (#[trigger] self.kept()[i]).handle,
            r@.no_duplicates(),
            forall|a: u32| #[trigger]
                self.images().contains_key(a) <==> r@.contains(ImageHandle(a)),
    {
        let mut r: Vec<ImageHandle> = Vec::new();
        let mut i: usize = 0;
        while i < self.sources.len()
            invariant
                i <= self.sources@.len(),
                r@.len() == i,
                forall|j: int| 0 <= j < i ==> r@[j] == (#[trigger] self.sources@[j]).handle,
            decreases self.sources.len() - i,
        {
            r.push(self.sources[i].handle);
            i = i + 1;
        }
        proof {
            assert forall|x: int, y: int| 0 <= x < y < r@.len() implies r@[x] != r@[y] by {
                assert(self.kept()[x].handle.0 != self.kept()[y].handle.0);
            }
            assert forall|a: u32| #[trigger] self.images().contains_key(a) implies r@.contains(
                ImageHandle(a),
            ) by {
                let j = choose|j: int|
                    0 <= j < self.kept().len() && (#[trigger] self.kept()[j]).handle.0 == a;
                assert(r@[j] == ImageHandle(a));
            }
            assert forall|a: u32| r@.contains(ImageHandle(a)) implies #[trigger]
                self.images().contains_key(a) by {
                let j = choose|j: int| 0 <= j < r@.len() && r@[j] == ImageHandle(a);
                assert(source_ok(self.side(), self.images(), self.kept()[j]));
            }
        }
        r
    }

    /// Bytes of the kept pixels.
    pub fn source_bytes(&self) -> (r: u64)
        requires
            self.wf(),
        ensures
            r == bytes_in(self.kept()),
    {
        let mut total: u64 = 0;
        let mut i: usize = 0;
        proof {
            regions_are_at_most_the_texels(self.packer);
            let side = self.size as int;
            assert(side * side <= 46340 * 46340) by (nonlinear_arith)
                requires
                    0 <= side <= 46340,
            ;
        }
        while i < self.sources.len()
            invariant
                self.wf(),
                i <= self.sources@.len(),
                self.sources@.len() <= 46340 * 46340,
                total == bytes_in(self.kept().take(i as int)),
                total <= i * 8_589_582_400,
            decreases self.sources.len() - i,
        {
            proof {
                let s = self.kept()[i as int];
                assert(source_ok(self.side(), self.images(), s));
                let w = s.width as int;
                let h = s.height as int;
                assert(w * h <= 46340 * 46340) by (nonlinear_arith)
                    requires
                        0 <= w <= 46340,
                        0 <= h <= 46340,
                ;
                let upto = self.kept().take(i + 1);
                assert(upto.drop_last() =~= self.kept().take(i as int));
                assert(upto.last() == s);
            }
            total = total + self.sources[i].rgba.len() as u64;
            i = i + 1;
        }
        assert(self.kept().take(i as int) =~= self.kept());
        total
    }

    /// Bytes of the texture.
    pub fn memory_bytes(&self) -> (r: u64)
        requires
            self.wf(),
        ensures
            r == self.side() * self.side() * 4,
    {
        let n: u64 = self.size as u64;
        assert(n * n <= 46340 * 46340) by (nonlinear_arith)
            requires
                0 <= n <= 46340,
        ;
        n * n * 4
    }

    /// The size of the kept pixels of `handle`.
    pub fn source_size(&self, handle: ImageHandle) -> (r: Option<(u32, u32)>)
        requires
            self.wf(),
        ensures
            r is Some <==> self.images().contains_key(handle.0),
            r matches Some(wh) ==> wh.0 == self.images()[handle.0].entry.width && wh.1
                == self.images()[handle.0].entry.height,
    {
        match self.source_index(handle) {
            Some(i) => {
                assert(source_ok(self.side(), self.images(), self.kept()[i as int]));
                Some((self.sources[i].width, self.sources[i].height))
            },
            None => None,
        }
    }

    /// The pixels to be written for `handle`.
    pub fn pixels(&self, handle: ImageHandle) -> (r: Option<&Vec<u8>>)
        requires
            self.wf(),
        ensures
            r is Some <==> self.images().contains_key(handle.0),
            r matches Some(px) ==> exists|i: int|
                0 <= i < self.kept().len() && (#[trigger] self.kept()[i]).handle == handle
                    && self.kept()[i].rgba@ == px@,
    {
        match self.source_index(handle) {
            Some(i) => {
                assert(source_ok(self.side(), self.images(), self.kept()[i as int]));
                Some(&self.sources[i].rgba)
            },
            None => None,
        }
    }
}

/// Step `i` of packing anew took state `i` to the next.
pub open spec fn took_over<N: Num>(
    states: Seq<ImageAtlas<N>>,
    sources: Seq<ImageSource>,
    live: Set<u32>,
    i: int,
) -> bool {
    states[i + 1].taken_over(states[i], sources[i], live)
}

/// The sources went onto the atlas one after the other, as far as `states`
/// reaches.
pub open spec fn repacked<N: Num>(
    states: Seq<ImageAtlas<N>>,
    sources: Seq<ImageSource>,
    live: Set<u32>,
) -> bool {
    forall|i: int| 0 <= i < states.len() - 1 ==> #[trigger] took_over(states, sources, live, i)
}

/// The write queued for a source: its pixels go where its image is.
pub open spec fn queued_write<N>(
    w: TextureWrite,
    s: ImageSource,
    images: Map<u32, Placed<N>>,
) -> bool {
    &&& w.handle == s.handle
    &&& w.width == s.width
    &&& w.height == s.height
    &&& images.contains_key(s.handle.0)
    &&& w.x == images[s.handle.0].x
    &&& w.y == images[s.handle.0].y
}

/// No two images on the texture share a texel.
pub proof fn images_never_overlap<N: Num>(atlas: ImageAtlas<N>, a: ImageHandle, b: ImageHandle)
    requires
        atlas.wf(),
        a != b,
        atlas.images().contains_key(a.0),
        atlas.images().contains_key(b.0),
    ensures
        texels(atlas.images()[a.0]).apart(texels(atlas.images()[b.0])),
{
}

/// Packing anew mints no handle: what is on the texture afterwards was there
/// before under the same handle and with the same size, and was in use.
pub proof fn handles_survive_rebuild<N: Num>(
    pre: ImageAtlas<N>,
    post: ImageAtlas<N>,
    live: Set<u32>,
    handle: ImageHandle,
)
    requires
        pre.wf(),
        post.wf(),
        post.rebuilt(pre, live),
        post.images().contains_key(handle.0),
    ensures
        live.contains(handle.0),
        pre.images().contains_key(handle.0),
        post.images()[handle.0].entry.width == pre.images()[handle.0].entry.width,
        post.images()[handle.0].entry.height == pre.images()[handle.0].entry.height,
{
    let i = choose|i: int|
        0 <= i < post.kept().len() && (#[trigger] post.kept()[i]).handle.0 == handle.0;
    assert(has_source(post.kept(), handle.0));
    assert(source_ok(post.side(), post.images(), post.kept()[i]));
    let j = choose|j: int| 0 <= j < pre.kept().len() && pre.kept()[j] == post.kept()[i];
    assert(source_ok(pre.side(), pre.images(), pre.kept()[j]));
}

/// With nothing in use, packing anew empties the atlas.
pub proof fn rebuild_keeping_nothing_empties<N: Num>(pre: ImageAtlas<N>, post: ImageAtlas<N>)
    requires
        pre.wf(),
        post.wf(),
        post.rebuilt(pre, Set::empty()),
    ensures
        post.images() == Map::<u32, Placed<N>>::empty(),
        post.kept() == Seq::<ImageSource>::empty(),
        post.regions() == Seq::<Region>::empty(),
        bytes_in(post.kept()) == 0,
{
    if post.kept().len() > 0 {
        assert(Set::<u32>::empty().contains(post.kept()[0].handle.0));
    }
    assert(post.kept() =~= Seq::empty());
    assert(post.regions() =~= Seq::empty());
    assert(post.images() =~= Map::empty()) by {
        assert forall|a: u32| !post.images().contains_key(a) by {
            if post.images().contains_key(a) {
                assert(has_source(post.kept(), a));
            }
        }
    }
}

/// What was uploaded can be read back: the pixels kept under the new handle
/// are those that were uploaded.
pub proof fn uploads_are_read_back<N: Num>(
    pre: ImageAtlas<N>,
    post: ImageAtlas<N>,
    w: u32,
    h: u32,
    rgba: Seq<u8>,
    handle: ImageHandle,
    i: int,
)
    requires
        post.wf(),
        post.uploaded(pre, w, h, rgba, Some(handle)),
        0 <= i < post.kept().len(),
        post.kept()[i].handle == handle,
    ensures
        post.kept()[i].rgba@ == rgba,
        post.images().contains_key(handle.0),
        post.images()[handle.0].entry.width == w,
        post.images()[handle.0].entry.height == h,
{
    let last = post.kept().len() - 1;
    if i < last {
        assert(post.kept()[i].handle.0 != post.kept()[last].handle.0);
    }
}

/// In exact numbers, texture coordinates count the texels in units of the side:
/// left, top, right and bottom of the box.
pub proof fn texture_coordinates_count_texels<N: Num>(
    value: spec_fn(N) -> real,
    x: u32,
    y: u32,
    w: u32,
    h: u32,
    side: u32,
)
    requires
        computes_exactly(value),
        side > 0,
        x + w <= u32::MAX,
        y + h <= u32::MAX,
    ensures
        ({
            let uv = uv_of::<N>(x, y, w, h, side);
            &&& uv.len() == 4
            &&& value(uv[0]) * (side as real) == x as real
            &&& value(uv[1]) * (side as real) == y as real
            &&& value(uv[2]) * (side as real) == (x as real) + (w as real)
            &&& value(uv[3]) * (side as real) == (y as real) + (h as real)
        }),
{
    fractions_are_exact(value);
    let inv = N::fraction(1, 1).quotient(N::natural(side as u64));
    let (i, s) = (value(inv), side as real);
    assert(value(N::natural(side as u64)) == s);
    assert(s != 0real);
    assert(i * s == 1real);
    assert((x as real) * i * s == x as real) by (nonlinear_arith)
        requires
            i * s == 1real,
    ;
    assert((y as real) * i * s == y as real) by (nonlinear_arith)
        requires
            i * s == 1real,
    ;
    let (r, b) = ((x + w) as u64, (y + h) as u64);
    assert((r as real) * i * s == r as real) by (nonlinear_arith)
        requires
            i * s == 1real,
    ;
    assert((b as real) * i * s == b as real) by (nonlinear_arith)
        requires
            i * s == 1real,
    ;
}

/// Uploads that go through have handles of their own, one after the other, and
/// leave the images before them as they were.
pub proof fn uploads_have_their_own_handles<N: Num>(
    a: ImageAtlas<N>,
    b: ImageAtlas<N>,
    c: ImageAtlas<N>,
    w: u32,
    h: u32,
    rgba: Seq<u8>,
    x: u32,
    y: u32,
    pixels: Seq<u8>,
    first: ImageHandle,
    second: ImageHandle,
)
    requires
        b.uploaded(a, w, h, rgba, Some(first)),
        c.uploaded(b, x, y, pixels, Some(second)),
        a.next() < u32::MAX,
    ensures
        first.0 == a.next(),
        second.0 == first.0 + 1,
        c.images().contains_key(first.0),
        c.images()[first.0] == b.images()[first.0],
        rgba.len() == 4 * w * h,
        w > 0 && h > 0,
        w + 2 <= a.side() && h + 2 <= a.side(),
{
    assert(4 * w * h == w * h * 4) by (nonlinear_arith);
}

/// Every image has a texel of its own region around it.
pub proof fn images_have_a_border<N: Num>(atlas: ImageAtlas<N>, handle: ImageHandle)
    requires
        atlas.wf(),
        atlas.images().contains_key(handle.0),
    ensures
        ({
            let p = atlas.images()[handle.0];
            exists|i: int|
                0 <= i < atlas.regions().len() && {
                    let g = #[trigger] atlas.regions()[i];
                    &&& g.min_x < p.x && p.x + p.entry.width < g.max_x
                    &&& g.min_y < p.y && p.y + p.entry.height < g.max_y
                }
        }),
{
    let p = atlas.images()[handle.0];
    assert(image_ok(atlas.side(), atlas.regions(), p));
    let i = choose|i: int|
        0 <= i < atlas.regions().len() && framed(p, #[trigger] atlas.regions()[i]);
    let g = atlas.regions()[i];
    assert(g.min_x < p.x && p.x + p.entry.width < g.max_x);
}

} // verus!
