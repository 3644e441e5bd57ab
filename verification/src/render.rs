//! The rendering pipeline: maps a mesh's vertices from model space into
//! pixel space, walks every triangle's three edges with the rasterizer, and
//! writes one fixed foreground color into a framebuffer.
//!
//! Model-space coordinates are fixed-point values expected in `[-1, 1]`
//! (that is, `[-SCALE, SCALE]`); a vertex outside that square, and a face
//! index outside the vertex list, are rejected with a named error rather
//! than left undefined.  Overlapping edge pixels are simply overwritten
//! with the same color.

use vstd::prelude::*;

use crate::cg::bresenham;
use crate::cg::line_pixels;
use crate::cg::lemma_line_in_box;
use crate::cg::pix_ints;
use crate::la::SCALE;
use crate::obj::Obj;
use crate::obj::ObjModel;
use crate::tga::paint_pixel;
use crate::tga::TGAColor;
use crate::tga::TGAImage;

verus! {

/// Errors of the rendering pipeline.
#[derive(Clone, Copy, Debug, PartialEq, Eq, Structural)]
pub enum RenderError {
    /// The requested framebuffer has a zero side.
    ZeroSize,
    /// A vertex lies outside the model-space square `[-1, 1]`.
    VertexOutOfRange,
    /// A face refers to a position index outside the vertex list.
    BadFaceIndex,
}

/// One model-space coordinate mapped to pixel space:
/// `(n/SCALE + 1) * (extent - 1) / 2`, truncated to an integer.
pub open spec fn screen_c(n: int, extent: int) -> int {
    (n + SCALE) * (extent - 1) / (2 * SCALE)
}

/// A vertex row mapped to its pixel coordinates (the third coordinate is
/// ignored).
pub open spec fn screen_pt(v: Seq<int>, w: int, h: int) -> (int, int) {
    (screen_c(v[0], w), screen_c(v[1], h))
}

/// Every vertex of the mesh lies in the model-space square `[-1, 1]`.
pub open spec fn coords_in_range(m: ObjModel) -> bool {
    forall|i: int|
        0 <= i < m.vs.len() ==> -SCALE <= (#[trigger] m.vs[i])[0] <= SCALE && -SCALE <= m.vs[i][1]
            <= SCALE
}

/// Every face's three position indices point into the vertex list
/// (1-based).
pub open spec fn faces_valid(m: ObjModel) -> bool {
    forall|k: int|
        0 <= k < m.fs.len() ==> 1 <= (#[trigger] m.fs[k])[0].0 <= m.vs.len() && 1 <= m.fs[k][1].0
            <= m.vs.len() && 1 <= m.fs[k][2].0 <= m.vs.len()
}

/// The pixels of one face's three edges, in drawing order.
pub open spec fn face_pixels(m: ObjModel, f: Seq<(int, int, int)>, w: int, h: int) -> Seq<
    (int, int),
> {
    let p0 = screen_pt(m.vs[f[0].0 - 1], w, h);
    let p1 = screen_pt(m.vs[f[1].0 - 1], w, h);
    let p2 = screen_pt(m.vs[f[2].0 - 1], w, h);
    line_pixels(p0, p1) + line_pixels(p1, p2) + line_pixels(p2, p0)
}

/// The pixels of the first `k` faces, in drawing order.
pub open spec fn wire_pixels_upto(m: ObjModel, w: int, h: int, k: int) -> Seq<(int, int)>
    decreases k,
{
    if k <= 0 {
        seq![]
    } else {
        wire_pixels_upto(m, w, h, k - 1) + face_pixels(m, m.fs[k - 1], w, h)
    }
}

/// The pixels of every mesh edge, in drawing order.
pub open spec fn wire_pixels(m: ObjModel, w: int, h: int) -> Seq<(int, int)> {
    wire_pixels_upto(m, w, h, m.fs.len() as int)
}

/// The pixel bytes of a fresh all-zero framebuffer.
pub open spec fn zero_data(w: int, h: int) -> Seq<u8> {
    Seq::new((w * h * 4) as nat, |i: int| 0u8)
}

/// The framebuffer bytes after writing `c` at every pixel of `pixels` in
/// order.
pub open spec fn paint_seq(bytes: Seq<u8>, pixels: Seq<(int, int)>, w: int, c: TGAColor) -> Seq<
    u8,
>
    decreases pixels.len(),
{
    if pixels.len() == 0 {
        bytes
    } else {
        paint_seq(paint_pixel(bytes, pixels[0].0, pixels[0].1, w, c), pixels.skip(1), w, c)
    }
}

/// Painting a concatenation paints the first part, then the second.
pub proof fn lemma_paint_append(
    bytes: Seq<u8>,
    s1: Seq<(int, int)>,
    s2: Seq<(int, int)>,
    w: int,
    c: TGAColor,
)
    ensures
        paint_seq(bytes, s1 + s2, w, c) == paint_seq(paint_seq(bytes, s1, w, c), s2, w, c),
    decreases s1.len(),
{
    if s1.len() == 0 {
        assert(s1 + s2 =~= s2);
    } else {
        assert((s1 + s2).skip(1) =~= s1.skip(1) + s2);
        assert((s1 + s2)[0] == s1[0]);
        lemma_paint_append(paint_pixel(bytes, s1[0].0, s1[0].1, w, c), s1.skip(1), s2, w, c);
    }
}

/// A mapped coordinate lands inside the pixel extent.
proof fn lemma_screen_bound(n: int, extent: int)
    requires
        1 <= extent <= 65535,
        -SCALE <= n <= SCALE,
    ensures
        0 <= screen_c(n, extent) <= extent - 1,
{
    let p = (n + SCALE) * (extent - 1);
    assert(0 <= p <= 2 * SCALE * (extent - 1)) by (nonlinear_arith)
        requires
            p == (n + SCALE) * (extent - 1),
            -SCALE <= n <= SCALE,
            extent >= 1,
            SCALE == 1_000_000,
    ;
    vstd::arithmetic::div_mod::lemma_div_pos_is_pos(p, 2 * SCALE);
    vstd::arithmetic::div_mod::lemma_div_is_ordered(p, 2 * SCALE * (extent - 1), 2 * SCALE);
    vstd::arithmetic::div_mod::lemma_div_multiples_vanish(extent - 1, 2 * SCALE);
    assert(2 * SCALE * (extent - 1) == (2 * SCALE) * (extent - 1)) by (nonlinear_arith);
}

/// Maps one fixed-point model coordinate into pixel space.
fn screen_coord(n: i64, extent: u16) -> (r: i32)
    requires
        1 <= extent,
        -SCALE <= n <= SCALE,
    ensures
        r == screen_c(n as int, extent as int),
        0 <= r <= extent - 1,
{
    proof {
        lemma_screen_bound(n as int, extent as int);
    }
    let num: u64 = (n + SCALE) as u64 * (extent - 1) as u64;
    let q: u64 = num / 2_000_000;
    proof {
        assert(num == (n + SCALE) * (extent - 1)) by (nonlinear_arith)
            requires
                0 <= n + SCALE <= 2 * SCALE,
                0 <= extent - 1,
                num == (n + SCALE) as u64 * (extent - 1) as u64,
                (n + SCALE) as u64 == n + SCALE,
                (extent - 1) as u64 == extent - 1,
            ;
    }
    q as i32
}

/// Renders the mesh's edges as a wireframe into a fresh framebuffer of the
/// given size, writing `color` at every edge pixel: each vertex is mapped
/// to pixel space, and every face's three edges are rasterized in order.
#[verifier::rlimit(100)]
pub fn render_wireframe(obj: &Obj, width: u16, height: u16, color: TGAColor) -> (r: Result<
    TGAImage,
    RenderError,
>)
    requires
        obj.wf(),
        width * height * 4 <= usize::MAX,
    ensures
        match r {
            Ok(img) => {
                &&& width >= 1 && height >= 1
                &&& coords_in_range(obj.model())
                &&& faces_valid(obj.model())
                &&& img.wf()
                &&& img.header_spec() == TGAImage::fresh_header(width, height)
                &&& img.data() == paint_seq(
                    zero_data(width as int, height as int),
                    wire_pixels(obj.model(), width as int, height as int),
                    width as int,
                    color,
                )
            },
            Err(RenderError::ZeroSize) => width == 0 || height == 0,
            Err(RenderError::VertexOutOfRange) => width >= 1 && height >= 1 && !coords_in_range(
                obj.model(),
            ),
            Err(RenderError::BadFaceIndex) => width >= 1 && height >= 1 && coords_in_range(
                obj.model(),
            ) && !faces_valid(obj.model()),
        },
{
    if width == 0 || height == 0 {
        return Err(RenderError::ZeroSize);
    }
    let ghost m = obj.model();
    let nv = obj.vs.len();
    let mut pts: Vec<(i32, i32)> = Vec::new();
    let mut i: usize = 0;
    while i < nv
        invariant
            obj.wf(),
            m == obj.model(),
            1 <= width && 1 <= height,
            i <= nv,
            nv == obj.vs@.len(),
            pts@.len() == i,
            forall|k: int|
                0 <= k < i ==> -SCALE <= (#[trigger] m.vs[k])[0] <= SCALE && -SCALE <= m.vs[k][1]
                    <= SCALE,
            forall|k: int|
                0 <= k < i ==> ((#[trigger] pts@[k]).0 as int, pts@[k].1 as int) == screen_pt(
                    m.vs[k],
                    width as int,
                    height as int,
                ),
            forall|k: int|
                0 <= k < i ==> 0 <= (#[trigger] pts@[k]).0 <= width - 1 && 0 <= pts@[k].1 <= height
                    - 1,
        decreases nv - i,
    {
        let x = obj.vs[i].get(0, 0);
        let y = obj.vs[i].get(0, 1);
        proof {
            assert(m.vs[i as int] == obj.vs@[i as int]@[0]);
        }
        if x < -SCALE || x > SCALE || y < -SCALE || y > SCALE {
            return Err(RenderError::VertexOutOfRange);
        }
        let px = screen_coord(x, width);
        let py = screen_coord(y, height);
        pts.push((px, py));
        i += 1;
    }
    proof {
        assert(m.vs.len() == nv);
        assert(coords_in_range(m));
    }
    let nf = obj.fs.len();
    let mut k: usize = 0;
    while k < nf
        invariant
            obj.wf(),
            m == obj.model(),
            1 <= width && 1 <= height,
            k <= nf,
            nf == obj.fs@.len(),
            nv == obj.vs@.len(),
            m.vs.len() == nv,
            m.fs.len() == nf,
            coords_in_range(m),
            forall|j: int|
                0 <= j < k ==> 1 <= (#[trigger] m.fs[j])[0].0 <= m.vs.len() && 1 <= m.fs[j][1].0
                    <= m.vs.len() && 1 <= m.fs[j][2].0 <= m.vs.len(),
        decreases nf - k,
    {
        let t = &obj.fs[k];
        let a = t.vs[0].vi;
        let b = t.vs[1].vi;
        let c = t.vs[2].vi;
        proof {
            assert(m.fs[k as int] == obj.fs@[k as int].vs@.map_values(
                |v: crate::obj::Vertex| (v.vi as int, v.vti as int, v.vni as int),
            ));
        }
        if a < 1 || a > nv || b < 1 || b > nv || c < 1 || c > nv {
            proof {
                assert(m.fs[k as int][0].0 == a as int && m.fs[k as int][1].0 == b as int
                    && m.fs[k as int][2].0 == c as int);
                assert(!faces_valid(m));
            }
            return Err(RenderError::BadFaceIndex);
        }
        k += 1;
    }
    proof {
        assert(m.fs.len() == nf);
        assert(faces_valid(m));
    }
    let mut img = TGAImage::new(width, height);
    let mut f: usize = 0;
    while f < nf
        invariant
            obj.wf(),
            m == obj.model(),
            1 <= width && 1 <= height,
            f <= nf,
            nf == obj.fs@.len(),
            nv == obj.vs@.len(),
            pts@.len() == nv,
            coords_in_range(m),
            faces_valid(m),
            forall|j: int|
                0 <= j < nv ==> ((#[trigger] pts@[j]).0 as int, pts@[j].1 as int) == screen_pt(
                    m.vs[j],
                    width as int,
                    height as int,
                ),
            forall|j: int|
                0 <= j < nv ==> 0 <= (#[trigger] pts@[j]).0 <= width - 1 && 0 <= pts@[j].1
                    <= height - 1,
            img.wf(),
            img.header_spec() == TGAImage::fresh_header(width, height),
            img.data() == paint_seq(
                zero_data(width as int, height as int),
                wire_pixels_upto(m, width as int, height as int, f as int),
                width as int,
                color,
            ),
        decreases nf - f,
    {
        let t = &obj.fs[f];
        proof {
            assert(m.fs[f as int] == obj.fs@[f as int].vs@.map_values(
                |v: crate::obj::Vertex| (v.vi as int, v.vti as int, v.vni as int),
            ));
            assert(m.fs[f as int][0].0 == obj.fs@[f as int].vs@[0].vi as int);
            assert(1 <= m.fs[f as int][0].0 <= m.vs.len());
            assert(1 <= m.fs[f as int][1].0 <= m.vs.len());
            assert(1 <= m.fs[f as int][2].0 <= m.vs.len());
        }
        let a = t.vs[0].vi - 1;
        let b = t.vs[1].vi - 1;
        let c = t.vs[2].vi - 1;
        let p0 = pts[a];
        let p1 = pts[b];
        let p2 = pts[c];
        draw_edge(&mut img, p0, p1, width, height, color);
        draw_edge(&mut img, p1, p2, width, height, color);
        draw_edge(&mut img, p2, p0, width, height, color);
        proof {
            let gw = width as int;
            let gh = height as int;
            let gp0 = (p0.0 as int, p0.1 as int);
            let gp1 = (p1.0 as int, p1.1 as int);
            let gp2 = (p2.0 as int, p2.1 as int);
            let base = paint_seq(
                zero_data(gw, gh),
                wire_pixels_upto(m, gw, gh, f as int),
                gw,
                color,
            );
            lemma_paint_append(base, line_pixels(gp0, gp1), line_pixels(gp1, gp2), gw, color);
            lemma_paint_append(
                base,
                line_pixels(gp0, gp1) + line_pixels(gp1, gp2),
                line_pixels(gp2, gp0),
                gw,
                color,
            );
            lemma_paint_append(
                paint_seq(zero_data(gw, gh), wire_pixels_upto(m, gw, gh, f as int), gw, color),
                face_pixels(m, m.fs[f as int], gw, gh),
                seq![],
                gw,
                color,
            );
            assert(face_pixels(m, m.fs[f as int], gw, gh) == (line_pixels(gp0, gp1) + line_pixels(
                gp1,
                gp2,
            )) + line_pixels(gp2, gp0));
            lemma_paint_append(
                zero_data(gw, gh),
                wire_pixels_upto(m, gw, gh, f as int),
                face_pixels(m, m.fs[f as int], gw, gh),
                gw,
                color,
            );
            assert(wire_pixels_upto(m, gw, gh, f + 1) == wire_pixels_upto(m, gw, gh, f as int)
                + face_pixels(m, m.fs[f as int], gw, gh));
        }
        f += 1;
    }
    Ok(img)
}

/// Rasterizes one edge into the framebuffer, writing `color` at each of its
/// pixels in traversal order.
fn draw_edge(img: &mut TGAImage, p0: (i32, i32), p1: (i32, i32), width: u16, height: u16, color: TGAColor)
    requires
        old(img).wf(),
        old(img).header_spec() == TGAImage::fresh_header(width, height),
        1 <= width && 1 <= height,
        0 <= p0.0 <= width - 1 && 0 <= p0.1 <= height - 1,
        0 <= p1.0 <= width - 1 && 0 <= p1.1 <= height - 1,
    ensures
        final(img).wf(),
        final(img).header_spec() == old(img).header_spec(),
        final(img).data() == paint_seq(
            old(img).data(),
            line_pixels((p0.0 as int, p0.1 as int), (p1.0 as int, p1.1 as int)),
            width as int,
            color,
        ),
{
    let ghost gp0 = (p0.0 as int, p0.1 as int);
    let ghost gp1 = (p1.0 as int, p1.1 as int);
    let pixels = bresenham(p0, p1);
    proof {
        lemma_line_in_box(gp0, gp1);
        assert forall|i: int|
            0 <= i < pixels@.len() implies 0 <= (#[trigger] pixels@[i]).0 <= width - 1 && 0
            <= pixels@[i].1 <= height - 1 by {
            assert(pix_ints(pixels@)[i] == (pixels@[i].0 as int, pixels@[i].1 as int));
            assert(line_pixels(gp0, gp1)[i] == pix_ints(pixels@)[i]);
        }
    }
    let n = pixels.len();
    let mut j: usize = 0;
    while j < n
        invariant
            img.wf(),
            img.header_spec() == TGAImage::fresh_header(width, height),
            1 <= width && 1 <= height,
            j <= n,
            n == pixels@.len(),
            pix_ints(pixels@) == line_pixels(gp0, gp1),
            forall|i: int|
                0 <= i < n ==> 0 <= (#[trigger] pixels@[i]).0 <= width - 1 && 0 <= pixels@[i].1
                    <= height - 1,
            img.data() == paint_seq(
                old(img).data(),
                pix_ints(pixels@).take(j as int),
                width as int,
                color,
            ),
        decreases n - j,
    {
        let p = pixels[j];
        img.set_color((p.0 as u16, p.1 as u16), color);
        proof {
            reveal_with_fuel(paint_seq, 3);
            let s = pix_ints(pixels@);
            assert(s[j as int] == (p.0 as int, p.1 as int));
            assert(s.take(j + 1) =~= s.take(j as int) + seq![s[j as int]]);
            lemma_paint_append(old(img).data(), s.take(j as int), seq![s[j as int]], width as int, color);
            assert(seq![s[j as int]].skip(1) =~= Seq::<(int, int)>::empty());
        }
        j += 1;
    }
    proof {
        assert(pix_ints(pixels@).take(n as int) =~= pix_ints(pixels@));
    }
}

} // verus!
