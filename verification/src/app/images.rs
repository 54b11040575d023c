//! Pictures: those that wait for the atlas, and those that come later.
use vstd::prelude::*;

use crate::app::layers::collect_live_image_handles;
use crate::gpu::image_atlas::{drawable, ImageAtlas, ImageHandle};
use crate::gpu::picture::{png_frame, rgba_bytes};
use crate::node::dirty;
use crate::node::tree::NodeTree;
use crate::num::Num;

verus! {

/// A picture that waits for the atlas.
#[derive(Clone, Debug)]
pub enum StagedImage {
    Png(Vec<u8>),
    Rgba { w: u32, h: u32, bytes: Vec<u8> },
}

/// The pictures that wait, in order.
#[derive(Debug)]
pub struct Staging {
    images: Vec<StagedImage>,
}

impl View for Staging {
    type V = Seq<StagedImage>;

    closed spec fn view(&self) -> Seq<StagedImage> {
        self.images@
    }
}

impl Staging {
    pub fn new() -> (r: Self)
        ensures
            r@ == Seq::<StagedImage>::empty(),
    {
        Staging { images: Vec::new() }
    }

    /// Adds a picture. The result is the handle that it will have: the atlas
    /// hands them out in order.
    pub fn stage(&mut self, image: StagedImage) -> (r: ImageHandle)
        requires
            old(self)@.len() <= u32::MAX,
        ensures
            r.0 == old(self)@.len(),
            final(self)@ == old(self)@.push(image),
    {
        let handle = ImageHandle(self.images.len() as u32);
        self.images.push(image);
        handle
    }

    /// Uploads all pictures that wait. The result says which went through.
    pub fn upload_all<N: Num>(&mut self, atlas: &mut ImageAtlas<N>) -> (r: Vec<Option<ImageHandle>>)
        requires
            old(atlas).wf(),
        ensures
            final(atlas).wf(),
            final(self)@ == Seq::<StagedImage>::empty(),
            r@.len() == old(self)@.len(),
            exists|states: Seq<ImageAtlas<N>>|
                {
                    &&& #[trigger] states.len() == r@.len() + 1
                    &&& states[0] == *old(atlas)
                    &&& states.last() == *final(atlas)
                    &&& forall|i: int|
                        0 <= i < r@.len() ==> #[trigger] staged_upload(
                            states[i],
                            states[i + 1],
                            old(self)@[i],
                            r@[i],
                        )
                },
    {
        let ghost all = self.images@;
        let ghost mut states: Seq<ImageAtlas<N>> = seq![*atlas];
        let mut done: Vec<Option<ImageHandle>> = Vec::new();
        let mut i: usize = 0;
        while i < self.images.len()
            invariant
                i <= self.images@.len(),
                self.images@ == all,
                atlas.wf(),
                done@.len() == i,
                states.len() == i + 1,
                states[0] == *old(atlas),
                states.last() == *atlas,
                forall|j: int|
                    0 <= j < i ==> #[trigger] staged_upload(
                        states[j],
                        states[j + 1],
                        all[j],
                        done@[j],
                    ),
            decreases self.images.len() - i,
        {
            let ghost before = *atlas;
            let ghost old_states = states;
            let ghost old_done = done@;
            let handle: Option<ImageHandle> = match &self.images[i] {
                StagedImage::Png(bytes) => atlas.upload_png(bytes.as_slice()),
                StagedImage::Rgba { w, h, bytes } => atlas.upload_rgba(*w, *h, bytes.as_slice()),
            };
            done.push(handle);
            proof {
                states = states.push(*atlas);
                assert forall|j: int| 0 <= j < i + 1 implies #[trigger] staged_upload(
                    states[j],
                    states[j + 1],
                    all[j],
                    done@[j],
                ) by {
                    if j < i {
                        assert(staged_upload(
                            old_states[j],
                            old_states[j + 1],
                            all[j],
                            old_done[j],
                        ));
                    } else {
                        assert(states[j] == before);
                    }
                }
            }
            i = i + 1;
        }
        self.images = Vec::new();
        proof {
            assert(states.len() == done@.len() + 1);
        }
        done
    }
}

/// The outcome of uploading a picture that waited.
pub open spec fn staged_upload<N: Num>(
    before: ImageAtlas<N>,
    after: ImageAtlas<N>,
    image: StagedImage,
    r: Option<ImageHandle>,
) -> bool {
    match image {
        StagedImage::Rgba { w, h, bytes } => after.uploaded(before, w, h, bytes@, r),
        StagedImage::Png(bytes) => match png_frame(bytes@, isize::MAX as int) {
            None => r is None && after == before,
            Some(f) => match rgba_bytes(f) {
                None => r is None && after == before,
                Some(px) => after.uploaded(before, f.width, f.height, px, r),
            },
        },
    }
}

/// If the first pictures all went through, each has the handle that it was
/// promised.
pub proof fn staged_handles_are_kept<N: Num>(
    states: Seq<ImageAtlas<N>>,
    images: Seq<StagedImage>,
    r: Seq<Option<ImageHandle>>,
    k: nat,
)
    requires
        states.len() == r.len() + 1,
        images.len() == r.len(),
        states[0].next() == 0,
        k <= r.len() <= u32::MAX,
        forall|i: int|
            0 <= i < r.len() ==> #[trigger] staged_upload(
                states[i],
                states[i + 1],
                images[i],
                r[i],
            ),
        forall|i: int| 0 <= i < k ==> (#[trigger] r[i]) is Some,
    ensures
        states[k as int].next() == k,
        forall|i: int| 0 <= i < k ==> #[trigger] r[i] == Some(ImageHandle(i as u32)),
    decreases k,
{
    if k > 0 {
        staged_handles_are_kept(states, images, r, (k - 1) as nat);
        let i = k - 1;
        assert(staged_upload(states[i], states[i + 1], images[i], r[i]));
        assert(r[i] is Some);
    }
}

/// Uploads a picture. Where the atlas is full, the pictures that the tree no
/// longer shows are dropped and the others packed anew; everything is then
/// drawn again, since pictures have moved. A picture that is malformed or
/// larger than the atlas is refused with nothing changed.
pub fn upload_image_rgba<N: Num>(
    atlas: &mut ImageAtlas<N>,
    tree: &mut NodeTree<N>,
    w: u32,
    h: u32,
    rgba: &[u8],
) -> (r: Option<ImageHandle>)
    requires
        old(atlas).wf(),
        old(tree).wf(),
    ensures
        final(atlas).wf(),
        final(tree).wf(),
        final(tree).nodes() == old(tree).nodes(),
        final(tree).root_ids() == old(tree).root_ids(),
        if drawable(w, h, rgba@.len() as int, old(atlas).side()) && old(atlas).room_for(w, h) {
            &&& final(atlas).uploaded(*old(atlas), w, h, rgba@, r)
            &&& final(tree).dirty_mask() == old(tree).dirty_mask()
        } else if !drawable(w, h, rgba@.len() as int, old(atlas).side()) {
            &&& r is None
            &&& *final(atlas) == *old(atlas)
            &&& final(tree).dirty_mask() == old(tree).dirty_mask()
        } else {
            &&& final(tree).dirty_mask() == dirty::VISUAL | dirty::TREE | dirty::BACKDROP
                | dirty::TRANSFORM | dirty::SCROLL
            &&& exists|live: Set<u32>, mid: ImageAtlas<N>|
                {
                    &&& #[trigger] mid.rebuilt(*old(atlas), live)
                    &&& final(atlas).uploaded(mid, w, h, rgba@, r)
                    &&& forall|x: u32| #[trigger]
                        live.contains(x) <==> crate::app::layers::has_image(
                            old(tree).nodes(),
                            old(tree).nodes().len() as int,
                            x,
                        )
                }
        },
{
    if let Some(handle) = atlas.upload_rgba(w, h, rgba) {
        return Some(handle);
    }
    if !atlas.can_take(w, h, rgba.len()) {
        return None;
    }
    let live = collect_live_image_handles(tree);
    atlas.rebuild_keeping(&live);
    let ghost mid = *atlas;
    let r = atlas.upload_rgba(w, h, rgba);
    tree.mark_all_dirty();
    assert(mid.rebuilt(*old(atlas), live@));
    r
}

} // verus!
