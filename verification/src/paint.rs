//! What to paint of a flattened scene: rectangles, bitmaps and texts.

use vstd::prelude::*;

use crate::coord::Coord;
use crate::flat::{flat_models, FlatModel, FlatNode, FlatNodeKind, KindModel};
use crate::scene::ImageSource;

verus! {

/// A corner of a triangle, in pixels.
#[derive(Debug, PartialEq)]
pub struct PaintVertex<C> {
    /// Horizontal position.
    pub x: C,
    /// Vertical position.
    pub y: C,
    /// RGBA colour.
    pub color: [C; 4],
}

/// The two triangles of the rectangle at `(x, y)`.
pub open spec fn quad<C: Coord>(x: C, y: C, width: C, height: C, color: [C; 4]) -> Seq<
    PaintVertex<C>,
> {
    let (right, bottom) = (x.spec_plus(width), y.spec_plus(height));
    seq![
        PaintVertex { x, y, color },
        PaintVertex { x: right, y, color },
        PaintVertex { x, y: bottom, color },
        PaintVertex { x, y: bottom, color },
        PaintVertex { x: right, y, color },
        PaintVertex { x: right, y: bottom, color },
    ]
}

/// The triangles of a node: two for a frame, none for anything else.
pub open spec fn node_quads<C: Coord>(n: FlatModel<C>) -> Seq<PaintVertex<C>> {
    match n.kind {
        KindModel::Frame { background_color } => quad(
            n.abs_x,
            n.abs_y,
            n.width,
            n.height,
            background_color,
        ),
        _ => Seq::empty(),
    }
}

/// The triangles of all nodes, in drawing order.
pub open spec fn scene_quads<C: Coord>(fs: Seq<FlatModel<C>>) -> Seq<PaintVertex<C>>
    decreases fs.len(),
{
    if fs.len() == 0 {
        Seq::empty()
    } else {
        scene_quads(fs.drop_last()) + node_quads(fs.last())
    }
}

/// The triangles of the frames of a scene.
pub fn frame_vertices<C: Coord>(flat: &[FlatNode<C>]) -> (r: Vec<PaintVertex<C>>)
    ensures
        r@ == scene_quads(flat_models(flat@)),
{
    let ghost fs = flat_models(flat@);
    let mut out: Vec<PaintVertex<C>> = Vec::new();
    let mut i: usize = 0;
    assert(fs.take(0) =~= Seq::empty());
    while i < flat.len()
        invariant
            fs == flat_models(flat@),
            i <= flat@.len(),
            out@ == scene_quads(fs.take(i as int)),
        decreases flat@.len() - i,
    {
        let ghost before = out@;
        proof {
            assert(fs.take(i + 1).drop_last() =~= fs.take(i as int));
            assert(fs.take(i + 1).last() == flat@[i as int]@);
        }
        match &flat[i].kind {
            FlatNodeKind::Frame { background_color } => {
                let color = *background_color;
                let (x, y) = (flat[i].abs_x, flat[i].abs_y);
                let right = x.plus(flat[i].width);
                let bottom = y.plus(flat[i].height);
                out.push(PaintVertex { x, y, color });
                out.push(PaintVertex { x: right, y, color });
                out.push(PaintVertex { x, y: bottom, color });
                out.push(PaintVertex { x, y: bottom, color });
                out.push(PaintVertex { x: right, y, color });
                out.push(PaintVertex { x: right, y: bottom, color });
            },
            _ => {},
        }
        i = i + 1;
        assert(out@ =~= before + node_quads(fs[i - 1]));
    }
    assert(fs.take(i as int) =~= fs);
    out
}

/// A text to paint, with the box that clips it in whole pixels.
#[derive(Debug, PartialEq)]
pub struct PaintText<C> {
    /// The text.
    pub content: String,
    /// Font size.
    pub font_size: C,
    /// RGBA colour.
    pub color: [C; 4],
    /// Left edge.
    pub left: C,
    /// Top edge.
    pub top: C,
    /// Width of the box.
    pub width: C,
    /// Height of the box.
    pub height: C,
    /// Left edge of the clip, in whole pixels.
    pub clip_left: i32,
    /// Top edge of the clip.
    pub clip_top: i32,
    /// Right edge of the clip.
    pub clip_right: i32,
    /// Bottom edge of the clip.
    pub clip_bottom: i32,
}

/// Whether `p` is the text to paint for the text node `n`.
pub open spec fn paints<C: Coord>(p: PaintText<C>, n: FlatModel<C>) -> bool {
    n.kind matches KindModel::Text { content, font_size, color } && {
        &&& p.content@ == content
        &&& p.font_size == font_size
        &&& p.color == color
        &&& p.left == n.abs_x
        &&& p.top == n.abs_y
        &&& p.width == n.width
        &&& p.height == n.height
        &&& p.clip_left == n.abs_x.spec_whole()
        &&& p.clip_top == n.abs_y.spec_whole()
        &&& p.clip_right == n.abs_x.spec_plus(n.width).spec_whole()
        &&& p.clip_bottom == n.abs_y.spec_plus(n.height).spec_whole()
    }
}

/// The text nodes of a list, in drawing order.
pub open spec fn text_nodes<C>(fs: Seq<FlatModel<C>>) -> Seq<FlatModel<C>>
    decreases fs.len(),
{
    if fs.len() == 0 {
        Seq::empty()
    } else if fs.last().kind is Text {
        text_nodes(fs.drop_last()).push(fs.last())
    } else {
        text_nodes(fs.drop_last())
    }
}

/// The texts to paint of a scene.
pub fn paint_texts<C: Coord>(flat: &[FlatNode<C>]) -> (r: Vec<PaintText<C>>)
    ensures
        r@.len() == text_nodes(flat_models(flat@)).len(),
        forall|i: int|
            0 <= i < r@.len() ==> paints(#[trigger] r@[i], text_nodes(flat_models(flat@))[i]),
{
    let ghost fs = flat_models(flat@);
    let mut out: Vec<PaintText<C>> = Vec::new();
    let mut i: usize = 0;
    assert(fs.take(0) =~= Seq::empty());
    while i < flat.len()
        invariant
            fs == flat_models(flat@),
            i <= flat@.len(),
            out@.len() == text_nodes(fs.take(i as int)).len(),
            forall|j: int|
                0 <= j < out@.len() ==> paints(
                    #[trigger] out@[j],
                    text_nodes(fs.take(i as int))[j],
                ),
        decreases flat@.len() - i,
    {
        let ghost before = text_nodes(fs.take(i as int));
        proof {
            assert(fs.take(i + 1).drop_last() =~= fs.take(i as int));
            assert(fs.take(i + 1).last() == flat@[i as int]@);
        }
        let n = &flat[i];
        match &n.kind {
            FlatNodeKind::Text { content, font_size, color } => {
                out.push(
                    PaintText {
                        content: content.clone(),
                        font_size: *font_size,
                        color: *color,
                        left: n.abs_x,
                        top: n.abs_y,
                        width: n.width,
                        height: n.height,
                        clip_left: n.abs_x.whole(),
                        clip_top: n.abs_y.whole(),
                        clip_right: n.abs_x.plus(n.width).whole(),
                        clip_bottom: n.abs_y.plus(n.height).whole(),
                    },
                );
                assert(text_nodes(fs.take(i + 1)) == before.push(n@));
            },
            _ => {
                assert(text_nodes(fs.take(i + 1)) == before);
            },
        }
        i = i + 1;
    }
    assert(fs.take(i as int) =~= fs);
    out
}

/// A bitmap to paint, with the rectangle that it fills, in pixels.
#[derive(Debug, PartialEq)]
pub struct PaintImage<C> {
    /// Where the bitmap comes from.
    pub source: ImageSource,
    /// Left edge.
    pub left: C,
    /// Top edge.
    pub top: C,
    /// Right edge.
    pub right: C,
    /// Bottom edge.
    pub bottom: C,
}

/// Whether `p` is the bitmap to paint for the image node `n`.
pub open spec fn paints_image<C: Coord>(p: PaintImage<C>, n: FlatModel<C>) -> bool {
    n.kind matches KindModel::Image { source, alt } && {
        &&& p.source@ == source
        &&& p.left == n.abs_x
        &&& p.top == n.abs_y
        &&& p.right == n.abs_x.spec_plus(n.width)
        &&& p.bottom == n.abs_y.spec_plus(n.height)
    }
}

/// The image nodes of a list, in drawing order.
pub open spec fn image_nodes<C>(fs: Seq<FlatModel<C>>) -> Seq<FlatModel<C>>
    decreases fs.len(),
{
    if fs.len() == 0 {
        Seq::empty()
    } else if fs.last().kind is Image {
        image_nodes(fs.drop_last()).push(fs.last())
    } else {
        image_nodes(fs.drop_last())
    }
}

/// The bitmaps to paint of a scene.
pub fn paint_images<C: Coord>(flat: &[FlatNode<C>]) -> (r: Vec<PaintImage<C>>)
    ensures
        r@.len() == image_nodes(flat_models(flat@)).len(),
        forall|i: int|
            0 <= i < r@.len() ==> paints_image(#[trigger] r@[i], image_nodes(flat_models(flat@))[i]),
{
    let ghost fs = flat_models(flat@);
    let mut out: Vec<PaintImage<C>> = Vec::new();
    let mut i: usize = 0;
    assert(fs.take(0) =~= Seq::empty());
    while i < flat.len()
        invariant
            fs == flat_models(flat@),
            i <= flat@.len(),
            out@.len() == image_nodes(fs.take(i as int)).len(),
            forall|j: int|
                0 <= j < out@.len() ==> paints_image(
                    #[trigger] out@[j],
                    image_nodes(fs.take(i as int))[j],
                ),
        decreases flat@.len() - i,
    {
        let ghost before = image_nodes(fs.take(i as int));
        proof {
            assert(fs.take(i + 1).drop_last() =~= fs.take(i as int));
            assert(fs.take(i + 1).last() == flat@[i as int]@);
        }
        let n = &flat[i];
        match &n.kind {
            FlatNodeKind::Image { source, .. } => {
                out.push(
                    PaintImage {
                        source: source.clone(),
                        left: n.abs_x,
                        top: n.abs_y,
                        right: n.abs_x.plus(n.width),
                        bottom: n.abs_y.plus(n.height),
                    },
                );
                assert(image_nodes(fs.take(i + 1)) == before.push(n@));
            },
            _ => {
                assert(image_nodes(fs.take(i + 1)) == before);
            },
        }
        i = i + 1;
    }
    assert(fs.take(i as int) =~= fs);
    out
}

/// The triangles of lists of nodes come list after list, so those of a node that
/// stands before another in the list are drawn before those of the other.
pub proof fn law_triangles_stand_in_list_order<C: Coord>(
    a: Seq<FlatModel<C>>,
    b: Seq<FlatModel<C>>,
)
    ensures
        scene_quads(a + b) == scene_quads(a) + scene_quads(b),
        scene_quads(Seq::<FlatModel<C>>::empty()).len() == 0,
        forall|n: FlatModel<C>| n.kind !is Frame ==> #[trigger] scene_quads(seq![n]).len() == 0,
    decreases b.len(),
{
    if b.len() == 0 {
        assert(a + b =~= a);
        assert(scene_quads(a) + scene_quads(b) =~= scene_quads(a));
    } else {
        assert((a + b).drop_last() =~= a + b.drop_last());
        assert((a + b).last() == b.last());
        law_triangles_stand_in_list_order(a, b.drop_last());
        assert(scene_quads(a + b) =~= scene_quads(a) + scene_quads(b));
    }
    assert forall|n: FlatModel<C>| n.kind !is Frame implies #[trigger] scene_quads(seq![n]).len()
        == 0 by {
        assert(seq![n].drop_last() =~= Seq::empty());
        assert(scene_quads(seq![n].drop_last()).len() == 0);
    }
}

/// Every frame has six corners of triangles, and nothing else has any: the
/// corners of the frame at `i` stand behind those of the frames before it. Its
/// two triangles share the edge between its top right and its bottom left corner
/// and fill the rectangle from its absolute position on, in its colour.
pub proof fn law_frames_are_two_triangles_each<C: Coord>(fs: Seq<FlatModel<C>>, i: int)
    requires
        0 <= i < fs.len(),
    ensures
        scene_quads(fs).len() == 6 * fs.filter(|n: FlatModel<C>| n.kind is Frame).len(),
        fs[i].kind matches KindModel::Frame { background_color } ==> {
            let k: int = 6 * fs.take(i).filter(|n: FlatModel<C>| n.kind is Frame).len() as int;
            let (left, top) = (fs[i].abs_x, fs[i].abs_y);
            let right = left.spec_plus(fs[i].width);
            let bottom = top.spec_plus(fs[i].height);
            let color = background_color;
            &&& k + 6 <= scene_quads(fs).len()
            &&& scene_quads(fs)[k] == PaintVertex { x: left, y: top, color }
            &&& scene_quads(fs)[k + 1] == PaintVertex { x: right, y: top, color }
            &&& scene_quads(fs)[k + 2] == PaintVertex { x: left, y: bottom, color }
            &&& scene_quads(fs)[k + 3] == PaintVertex { x: left, y: bottom, color }
            &&& scene_quads(fs)[k + 4] == PaintVertex { x: right, y: top, color }
            &&& scene_quads(fs)[k + 5] == PaintVertex { x: right, y: bottom, color }
        },
{
    lemma_six_each(fs);
    lemma_six_each(fs.take(i));
    let here = seq![fs[i]];
    assert(here.drop_last() =~= Seq::empty());
    assert(scene_quads(here.drop_last()).len() == 0);
    assert(scene_quads(here) =~= node_quads(fs[i]));
    assert(fs =~= fs.take(i) + here + fs.skip(i + 1));
    law_triangles_stand_in_list_order(fs.take(i), here);
    law_triangles_stand_in_list_order(fs.take(i) + here, fs.skip(i + 1));
}

proof fn lemma_six_each<C: Coord>(fs: Seq<FlatModel<C>>)
    ensures
        scene_quads(fs).len() == 6 * fs.filter(|n: FlatModel<C>| n.kind is Frame).len(),
    decreases fs.len(),
{
    reveal(Seq::filter);
    if fs.len() > 0 {
        lemma_six_each(fs.drop_last());
    }
}

/// The texts and the bitmaps to paint are those of all text nodes and of all
/// image nodes, in list order.
pub proof fn law_texts_and_images_stand_in_list_order<C>(fs: Seq<FlatModel<C>>)
    ensures
        text_nodes(fs) == fs.filter(|n: FlatModel<C>| n.kind is Text),
        image_nodes(fs) == fs.filter(|n: FlatModel<C>| n.kind is Image),
    decreases fs.len(),
{
    reveal(Seq::filter);
    if fs.len() > 0 {
        law_texts_and_images_stand_in_list_order(fs.drop_last());
    } else {
        assert(text_nodes(fs) =~= fs.filter(|n: FlatModel<C>| n.kind is Text));
        assert(image_nodes(fs) =~= fs.filter(|n: FlatModel<C>| n.kind is Image));
    }
}

/// A text is painted at the absolute position of its node, in its size and
/// colour, and clipped to the whole pixels of its box.
pub proof fn law_texts_are_painted_in_their_box<C: Coord>(p: PaintText<C>, n: FlatModel<C>)
    requires
        paints(p, n),
    ensures
        n.kind == (KindModel::Text { content: p.content@, font_size: p.font_size, color: p.color }),
        p.left == n.abs_x,
        p.top == n.abs_y,
        p.width == n.width,
        p.height == n.height,
        p.clip_left == p.left.spec_whole(),
        p.clip_top == p.top.spec_whole(),
        p.clip_right == p.left.spec_plus(p.width).spec_whole(),
        p.clip_bottom == p.top.spec_plus(p.height).spec_whole(),
{
}

/// A bitmap fills the rectangle of its node.
pub proof fn law_images_fill_their_box<C: Coord>(p: PaintImage<C>, n: FlatModel<C>)
    requires
        paints_image(p, n),
    ensures
        n.kind matches KindModel::Image { source, .. } && source == p.source@,
        p.left == n.abs_x,
        p.top == n.abs_y,
        p.right == n.abs_x.spec_plus(n.width),
        p.bottom == n.abs_y.spec_plus(n.height),
{
}

} // verus!
