use frostify_gfx::app::images::{upload_image_rgba, StagedImage, Staging};
use frostify_gfx::gpu::glyph_atlas::{GlyphAtlas, GlyphBitmap, GlyphKey, GlyphWrite};
use frostify_gfx::gpu::image_atlas::{HandleSet, ImageAtlas, ImageHandle};
use frostify_gfx::gpu::packer::Packer;
use frostify_gfx::gpu::picture::decode_picture;
use frostify_gfx::node::{dirty, Node, NodeTree};
use frostify_gfx::num::Num;

/// Numbers as the shell uses them.
#[derive(Clone, Copy, Debug, PartialEq, PartialOrd)]
struct F(f32);

impl Num for F {
    fn of_ratio(num: i32, den: i32) -> F {
        F(num as f32 / den as f32)
    }
    fn of_u64(n: u64) -> F {
        F(n as f32)
    }
    fn of_nanos(ns: u64) -> F {
        F(std::time::Duration::from_nanos(ns).as_secs_f32())
    }
    fn lowest_value() -> F {
        F(f32::NEG_INFINITY)
    }
    fn greatest_value() -> F {
        F(f32::MAX)
    }
    fn far_value() -> F {
        F(1.0e30)
    }
    fn plus(self, other: F) -> F {
        F(self.0 + other.0)
    }
    fn minus(self, other: F) -> F {
        F(self.0 - other.0)
    }
    fn times(self, other: F) -> F {
        F(self.0 * other.0)
    }
    fn over(self, other: F) -> F {
        F(self.0 / other.0)
    }
    fn negated(self) -> F {
        F(-self.0)
    }
    fn abs(self) -> F {
        F(self.0.abs())
    }
    fn max(self, other: F) -> F {
        F(self.0.max(other.0))
    }
    fn min(self, other: F) -> F {
        F(self.0.min(other.0))
    }
    fn floor(self) -> F {
        F(self.0.floor())
    }
    fn ceil(self) -> F {
        F(self.0.ceil())
    }
    fn round(self) -> F {
        F(self.0.round())
    }
    fn to_u32(self) -> u32 {
        self.0 as u32
    }
    fn lt(self, other: F) -> bool {
        self.0 < other.0
    }
    fn le(self, other: F) -> bool {
        self.0 <= other.0
    }
    fn eq(self, other: F) -> bool {
        self.0 == other.0
    }
}

fn solid_rgba(w: u32, h: u32, c: [u8; 4]) -> Vec<u8> {
    (0..(w * h)).flat_map(|_| c.iter().copied()).collect()
}

fn only(h: ImageHandle) -> HandleSet {
    let mut s = HandleSet::new();
    s.insert(h);
    s
}

#[test]
fn upload_rgba_caches_source_bytes() {
    let mut atlas: ImageAtlas<F> = ImageAtlas::new(64);
    let bytes = solid_rgba(8, 8, [255, 0, 0, 255]);
    let h = atlas.upload_rgba(8, 8, &bytes).expect("upload");
    assert_eq!(atlas.source_size(h), Some((8, 8)));
    assert_eq!(atlas.source_bytes(), (8 * 8 * 4) as u64);
}

#[test]
fn rebuild_keeping_empty_drops_everything() {
    let mut atlas: ImageAtlas<F> = ImageAtlas::new(64);
    let a = atlas.upload_rgba(8, 8, &solid_rgba(8, 8, [1; 4])).unwrap();
    let b = atlas.upload_rgba(8, 8, &solid_rgba(8, 8, [2; 4])).unwrap();
    atlas.rebuild_keeping(&HandleSet::new());
    assert!(atlas.get(a).is_none(), "a should be evicted");
    assert!(atlas.get(b).is_none(), "b should be evicted");
    assert_eq!(atlas.source_bytes(), 0, "source cache must be empty");
    assert_eq!(atlas.live_handles().len(), 0);
}

#[test]
fn rebuild_keeping_preserves_live_handles() {
    let mut atlas: ImageAtlas<F> = ImageAtlas::new(64);
    let live = atlas.upload_rgba(8, 8, &solid_rgba(8, 8, [1; 4])).unwrap();
    let _dead = atlas.upload_rgba(8, 8, &solid_rgba(8, 8, [2; 4])).unwrap();
    let keep = only(live);
    atlas.rebuild_keeping(&keep);
    let post = atlas.get(live).expect("live handle survives");
    assert_eq!(post.width, 8);
    assert_eq!(post.height, 8);
    assert_eq!(atlas.live_handles().len(), 1);
    assert!(atlas.source_size(live).is_some());
}

#[test]
fn upload_rgba_or_evict_succeeds_after_rebuild() {
    // The first picture fills the atlas; the second goes in once the first
    // is no longer in use.
    let mut atlas: ImageAtlas<F> = ImageAtlas::new(32);
    let bytes_a = solid_rgba(30, 30, [1; 4]);
    let bytes_b = solid_rgba(30, 30, [2; 4]);
    let a = atlas.upload_rgba(30, 30, &bytes_a).expect("first fits");
    assert!(
        atlas.upload_rgba(30, 30, &bytes_b).is_none(),
        "second upload must fail without eviction (atlas full)"
    );
    let live = HandleSet::new();
    let b = atlas
        .upload_rgba_or_evict(30, 30, &bytes_b, &live)
        .expect("retry after eviction");
    assert!(atlas.get(a).is_none(), "a should have been evicted");
    assert!(atlas.get(b).is_some());
}

#[test]
fn a_picture_that_cannot_be_drawn_evicts_nothing() {
    let mut atlas: ImageAtlas<F> = ImageAtlas::new(32);
    let bytes = solid_rgba(8, 8, [1; 4]);
    let a = atlas.upload_rgba(8, 8, &bytes).expect("fits");
    let uv = atlas.get(a).unwrap().uv;
    let large = solid_rgba(40, 8, [2; 4]);
    let live = HandleSet::new();
    assert!(atlas.upload_rgba_or_evict(0, 8, &[], &live).is_none());
    assert!(atlas.upload_rgba_or_evict(8, 8, &bytes[..9], &live).is_none());
    assert!(atlas.upload_rgba_or_evict(40, 8, &large, &live).is_none());
    let mut tree = NodeTree::<F>::new();
    assert!(upload_image_rgba(&mut atlas, &mut tree, 40, 8, &large).is_none());
    assert!(upload_image_rgba(&mut atlas, &mut tree, 8, 0, &[]).is_none());
    assert_eq!(tree.take_dirty(), dirty::NONE);
    assert_eq!(atlas.get(a).unwrap().uv, uv);
    assert_eq!(atlas.source_bytes(), 8 * 8 * 4);
}

#[test]
fn handle_value_is_stable_across_rebuild() {
    let mut atlas: ImageAtlas<F> = ImageAtlas::new(64);
    let live = atlas.upload_rgba(8, 8, &solid_rgba(8, 8, [1; 4])).unwrap();
    let keep = only(live);
    atlas.rebuild_keeping(&keep);
    assert!(atlas.get(live).is_some());
    assert_eq!(atlas.live_handles().first().copied(), Some(live));
}

#[test]
fn rebuild_compacts_so_new_uploads_fit_after_clearing() {
    let mut atlas: ImageAtlas<F> = ImageAtlas::new(32);
    let h1 = atlas.upload_rgba(14, 14, &solid_rgba(14, 14, [1; 4])).unwrap();
    let h2 = atlas.upload_rgba(14, 14, &solid_rgba(14, 14, [2; 4])).unwrap();
    atlas.rebuild_keeping(&HandleSet::new());
    assert!(atlas.get(h1).is_none());
    assert!(atlas.get(h2).is_none());
    let h3 = atlas.upload_rgba(14, 14, &solid_rgba(14, 14, [3; 4]));
    assert!(h3.is_some(), "post-rebuild upload should succeed");
}

#[test]
fn uploads_that_cannot_be_drawn_are_refused() {
    let mut atlas: ImageAtlas<F> = ImageAtlas::new(32);
    assert!(atlas.upload_rgba(0, 4, &[]).is_none());
    assert!(atlas.upload_rgba(4, 0, &[]).is_none());
    assert!(atlas.upload_rgba(2, 2, &[0; 15]).is_none());
    assert!(atlas.upload_rgba(31, 4, &solid_rgba(31, 4, [0; 4])).is_none());
    assert!(atlas.upload_rgba(u32::MAX, u32::MAX, &[0; 4]).is_none());
    assert_eq!(atlas.live_handles().len(), 0);
}

#[test]
fn a_picture_lies_within_its_border() {
    let mut atlas: ImageAtlas<F> = ImageAtlas::new(64);
    let h = atlas.upload_rgba(8, 4, &solid_rgba(8, 4, [9; 4])).unwrap();
    let writes = atlas.take_writes();
    assert_eq!(writes.len(), 1);
    let w = writes[0];
    assert_eq!((w.handle, w.width, w.height), (h, 8, 4));
    // The first region starts in the corner, with one texel of border.
    assert_eq!((w.x, w.y), (1, 1));
    let e = atlas.get(h).unwrap();
    assert_eq!(e.uv, [F(1.0 / 64.0), F(1.0 / 64.0), F(9.0 / 64.0), F(5.0 / 64.0)]);
    assert!(atlas.take_writes().is_empty());
    assert_eq!(atlas.memory_bytes(), 64 * 64 * 4);
    assert_eq!(atlas.size(), 64);
    assert_eq!(atlas.pixels(h).unwrap().len(), 8 * 4 * 4);
}

#[test]
fn pictures_do_not_overlap() {
    let mut atlas: ImageAtlas<F> = ImageAtlas::new(64);
    let mut boxes: Vec<(u32, u32, u32, u32)> = Vec::new();
    for i in 0..6u32 {
        let (w, h) = (5 + i, 9 - i);
        atlas.upload_rgba(w, h, &solid_rgba(w, h, [1; 4])).unwrap();
    }
    for w in atlas.take_writes() {
        boxes.push((w.x, w.y, w.x + w.width, w.y + w.height));
    }
    for i in 0..boxes.len() {
        for j in 0..i {
            let (a, b) = (boxes[i], boxes[j]);
            assert!(a.2 <= b.0 || b.2 <= a.0 || a.3 <= b.1 || b.3 <= a.1);
        }
    }
}

#[test]
fn a_packer_hands_out_what_was_asked_for() {
    let mut p = Packer::new(32);
    let a = p.reserve(10, 12).unwrap();
    assert!(a.max_x - a.min_x >= 10 && a.max_y - a.min_y >= 12);
    assert!(a.min_x >= 0 && a.max_x <= 32 && a.min_y >= 0 && a.max_y <= 32);
    assert!(p.reserve(33, 1).is_none());
    assert!(p.reserve(0, 1).is_none());
    // The whole page is free again after clearing.
    p.clear();
    assert!(p.reserve(32, 32).is_some());
    assert!(p.reserve(1, 1).is_none());
}

fn encode(w: u32, h: u32, color: png::ColorType, depth: png::BitDepth, data: &[u8]) -> Vec<u8> {
    let mut out = Vec::new();
    let mut e = png::Encoder::new(&mut out, w, h);
    e.set_color(color);
    e.set_depth(depth);
    let mut writer = e.write_header().unwrap();
    writer.write_image_data(data).unwrap();
    writer.finish().unwrap();
    out
}

#[test]
fn png_samples_become_rgba() {
    let rgba = encode(2, 1, png::ColorType::Rgba, png::BitDepth::Eight, &[1, 2, 3, 4, 5, 6, 7, 8]);
    let p = decode_picture(&rgba).unwrap();
    assert_eq!((p.width, p.height), (2, 1));
    assert_eq!(p.rgba, vec![1, 2, 3, 4, 5, 6, 7, 8]);
    let rgb = encode(2, 1, png::ColorType::Rgb, png::BitDepth::Eight, &[1, 2, 3, 4, 5, 6]);
    assert_eq!(decode_picture(&rgb).unwrap().rgba, vec![1, 2, 3, 255, 4, 5, 6, 255]);
    let gray = encode(1, 2, png::ColorType::Grayscale, png::BitDepth::Eight, &[7, 9]);
    assert_eq!(decode_picture(&gray).unwrap().rgba, vec![7, 7, 7, 255, 9, 9, 9, 255]);
    let ga = encode(1, 1, png::ColorType::GrayscaleAlpha, png::BitDepth::Eight, &[7, 9]);
    assert_eq!(decode_picture(&ga).unwrap().rgba, vec![7, 7, 7, 9]);
}

#[test]
fn other_pngs_are_refused() {
    let deep = encode(1, 1, png::ColorType::Grayscale, png::BitDepth::Sixteen, &[7, 9]);
    assert!(decode_picture(&deep).is_none());
    assert!(decode_picture(b"not a picture").is_none());
    assert!(decode_picture(&[]).is_none());
}

#[test]
fn a_png_is_uploaded_with_its_pixels() {
    let mut atlas: ImageAtlas<F> = ImageAtlas::new(64);
    let rgb = encode(2, 1, png::ColorType::Rgb, png::BitDepth::Eight, &[1, 2, 3, 4, 5, 6]);
    let h = atlas.upload_png(&rgb).unwrap();
    assert_eq!(atlas.source_size(h), Some((2, 1)));
    assert_eq!(atlas.pixels(h).unwrap(), &vec![1, 2, 3, 255, 4, 5, 6, 255]);
    assert!(atlas.upload_png(b"nothing").is_none());
    assert_eq!(atlas.live_handles(), vec![h]);
}

#[test]
fn staged_pictures_get_the_handles_they_were_promised() {
    let mut staging = Staging::new();
    let rgb = encode(1, 1, png::ColorType::Rgb, png::BitDepth::Eight, &[1, 2, 3]);
    let a = staging.stage(StagedImage::Png(rgb));
    let b = staging.stage(StagedImage::Rgba { w: 2, h: 2, bytes: solid_rgba(2, 2, [5; 4]) });
    let mut atlas: ImageAtlas<F> = ImageAtlas::new(64);
    let done = staging.upload_all(&mut atlas);
    assert_eq!(done, vec![Some(a), Some(b)]);
    assert_eq!(atlas.source_size(a), Some((1, 1)));
    assert_eq!(atlas.source_size(b), Some((2, 2)));
    assert!(staging.upload_all(&mut atlas).is_empty());
}

#[test]
fn a_full_atlas_makes_room_for_what_the_tree_shows() {
    let mut atlas: ImageAtlas<F> = ImageAtlas::new(32);
    let mut tree: NodeTree<F> = NodeTree::new();
    let a = upload_image_rgba(&mut atlas, &mut tree, 30, 30, &solid_rgba(30, 30, [1; 4])).unwrap();
    tree.take_dirty();
    let b = upload_image_rgba(&mut atlas, &mut tree, 30, 30, &solid_rgba(30, 30, [2; 4])).unwrap();
    assert!(atlas.get(a).is_none());
    assert!(atlas.get(b).is_some());
    // Pictures have moved: everything is drawn again.
    assert_ne!(tree.take_dirty() & dirty::VISUAL, 0);
    tree.add_root(Node::image(b));
    tree.take_dirty();
    // What the tree shows is not dropped.
    assert!(upload_image_rgba(&mut atlas, &mut tree, 30, 30, &solid_rgba(30, 30, [3; 4])).is_none());
    assert!(atlas.get(b).is_some());
}

fn bitmap(w: u32, h: u32) -> Option<GlyphBitmap> {
    Some(GlyphBitmap { width: w, height: h, left: 1, top: 7 })
}

#[test]
fn a_glyph_is_cached_after_its_first_use() {
    let mut atlas: GlyphAtlas<F> = GlyphAtlas::new(64);
    let k = GlyphKey(5);
    assert!(atlas.get(k).is_none());
    let e = atlas.get_or_insert(k, bitmap(6, 8)).unwrap();
    assert_eq!((e.width, e.height, e.left, e.top), (6, 8, 1, 7));
    assert_eq!(e.uv, [F(1.0 / 64.0), F(1.0 / 64.0), F(7.0 / 64.0), F(9.0 / 64.0)]);
    assert_eq!(
        atlas.take_writes(),
        vec![GlyphWrite::Bitmap { key: k, x: 1, y: 1, width: 6, height: 8 }]
    );
    // No bitmap is needed the second time.
    assert_eq!(atlas.get_or_insert(k, None).unwrap().uv, e.uv);
    assert!(atlas.take_writes().is_empty());
    assert_eq!(atlas.memory_bytes(), 64 * 64);
    assert_eq!(atlas.size(), 64);
}

#[test]
fn glyphs_without_a_bitmap_are_skipped_or_cached_blank() {
    let mut atlas: GlyphAtlas<F> = GlyphAtlas::new(32);
    assert!(atlas.get_or_insert(GlyphKey(1), None).is_none());
    let blank = atlas.get_or_insert(GlyphKey(2), bitmap(0, 5)).unwrap();
    assert_eq!((blank.width, blank.height), (0, 0));
    assert_eq!(blank.uv, [F(0.0); 4]);
    assert!(atlas.get(GlyphKey(2)).is_some());
    // Larger than the atlas with its border.
    assert!(atlas.get_or_insert(GlyphKey(3), bitmap(31, 5)).is_none());
    assert_eq!(atlas.generation(), 0);
}

#[test]
fn a_full_glyph_atlas_starts_over() {
    let mut atlas: GlyphAtlas<F> = GlyphAtlas::new(32);
    atlas.get_or_insert(GlyphKey(1), bitmap(30, 30)).unwrap();
    atlas.take_writes();
    atlas.get_or_insert(GlyphKey(2), bitmap(30, 30)).unwrap();
    assert_eq!(atlas.generation(), 1);
    assert!(atlas.get(GlyphKey(1)).is_none());
    assert_eq!(atlas.take_writes()[0], GlyphWrite::Clear);
    atlas.reset();
    assert_eq!(atlas.generation(), 2);
    assert!(atlas.get(GlyphKey(2)).is_none());
}

#[test]
fn a_page_is_filled_until_its_bookkeeping_is_exhausted() {
    let mut p = Packer::new(1024);
    let mut seen = std::collections::HashSet::new();
    while let Some(g) = p.reserve(1, 8) {
        assert!(g.max_x <= 1024 && g.max_y <= 1024);
        assert!(seen.insert((g.min_x, g.min_y)), "handed out twice");
    }
    assert_eq!(seen.len(), 65_535);
    p.clear();
    assert!(p.reserve(1024, 1024).is_some());
    assert!(p.reserve(1, 1).is_none());
}
