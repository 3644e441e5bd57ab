use std::collections::BTreeSet;

use tinyrenderer::cg::bresenham;
use tinyrenderer::la::SCALE;
use tinyrenderer::obj::Obj;
use tinyrenderer::render::render_wireframe;
use tinyrenderer::render::RenderError;
use tinyrenderer::tga::WHITE;

/// The pipeline's model-space to pixel-space mapping, recomputed
/// independently: `(n/SCALE + 1) * (extent - 1) / 2`, truncated.
fn screen(n: i64, extent: u16) -> i32 {
    (((n + SCALE) as u64 * (extent as u64 - 1)) / (2 * SCALE as u64)) as i32
}

#[test]
fn triangle_mesh_renders_exactly_its_three_edges() {
    // A right triangle rendered into a small framebuffer colors exactly the
    // pixels of its three rasterized edges, with no fill.
    let text = "v 0 0 0\nv 1 0 0\nv 0 1 0\nf 1/1/1 2/1/1 3/1/1";
    let obj = Obj::parse(&text.as_bytes().to_vec()).unwrap();
    let (w, h): (u16, u16) = (16, 12);
    let img = render_wireframe(&obj, w, h, WHITE).unwrap();

    let p0 = (screen(0, w), screen(0, h));
    let p1 = (screen(SCALE, w), screen(0, h));
    let p2 = (screen(0, w), screen(SCALE, h));
    let mut expected: BTreeSet<(i32, i32)> = BTreeSet::new();
    expected.extend(bresenham(p0, p1));
    expected.extend(bresenham(p1, p2));
    expected.extend(bresenham(p2, p0));

    let stream = img.image_to_bytes();
    let pixels = &stream[18..];
    assert_eq!(pixels.len(), w as usize * h as usize * 4);
    for y in 0..h as i32 {
        for x in 0..w as i32 {
            let base = ((x + y * w as i32) * 4) as usize;
            let bgra = (
                pixels[base],
                pixels[base + 1],
                pixels[base + 2],
                pixels[base + 3],
            );
            if expected.contains(&(x, y)) {
                assert_eq!(bgra, (255, 255, 255, 255), "pixel ({}, {})", x, y);
            } else {
                assert_eq!(bgra, (0, 0, 0, 0), "pixel ({}, {})", x, y);
            }
        }
    }
}

#[test]
fn overlapping_edges_are_overwritten_idempotently() {
    // Two faces sharing an edge color the shared pixels once over.
    let text = "v -1 -1 0\nv 1 -1 0\nv 1 1 0\nv -1 1 0\nf 1/1/1 2/1/1 3/1/1\nf 1/1/1 3/1/1 4/1/1";
    let obj = Obj::parse(&text.as_bytes().to_vec()).unwrap();
    let img = render_wireframe(&obj, 8, 8, (10, 20, 30, 40)).unwrap();
    let stream = img.image_to_bytes();
    // The shared diagonal's start pixel holds the color exactly once.
    let base = 18;
    assert_eq!(stream[base], 30);
    assert_eq!(stream[base + 1], 20);
    assert_eq!(stream[base + 2], 10);
    assert_eq!(stream[base + 3], 40);
}

#[test]
fn zero_size_framebuffer_is_refused() {
    let obj = Obj::parse(&"v 0 0 0".as_bytes().to_vec()).unwrap();
    assert_eq!(
        render_wireframe(&obj, 0, 10, WHITE).unwrap_err(),
        RenderError::ZeroSize
    );
    assert_eq!(
        render_wireframe(&obj, 10, 0, WHITE).unwrap_err(),
        RenderError::ZeroSize
    );
}

#[test]
fn vertex_outside_the_unit_square_is_refused() {
    let obj = Obj::parse(&"v 2 0 0".as_bytes().to_vec()).unwrap();
    assert_eq!(
        render_wireframe(&obj, 10, 10, WHITE).unwrap_err(),
        RenderError::VertexOutOfRange
    );
}

#[test]
fn face_index_outside_the_vertex_list_is_refused() {
    let text = "v 0 0 0\nv 1 0 0\nv 0 1 0\nf 1/1/1 2/1/1 4/1/1";
    let obj = Obj::parse(&text.as_bytes().to_vec()).unwrap();
    assert_eq!(
        render_wireframe(&obj, 10, 10, WHITE).unwrap_err(),
        RenderError::BadFaceIndex
    );
    let zero = "v 0 0 0\nv 1 0 0\nv 0 1 0\nf 0/1/1 2/1/1 3/1/1";
    let obj0 = Obj::parse(&zero.as_bytes().to_vec()).unwrap();
    assert_eq!(
        render_wireframe(&obj0, 10, 10, WHITE).unwrap_err(),
        RenderError::BadFaceIndex
    );
}

#[test]
fn mesh_without_faces_renders_an_empty_framebuffer() {
    let obj = Obj::parse(&"v 0 0 0\nv 1 0 0".as_bytes().to_vec()).unwrap();
    let img = render_wireframe(&obj, 4, 4, WHITE).unwrap();
    let stream = img.image_to_bytes();
    assert!(stream[18..].iter().all(|b| *b == 0));
}
