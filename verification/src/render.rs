use vstd::prelude::*;

use crate::point::Point;

verus! {

/// A 6x6 canvas backed by the image crate's RGB pixel buffer.
#[verifier::external_body]
pub struct Canvas {
    img: image::RgbImage,
}

/// The pixel contents of a canvas: each in-bounds coordinate mapped to its
/// red, green and blue samples.
pub uninterp spec fn canvas_pixels(c: Canvas) -> Map<(u32, u32), (u8, u8, u8)>;

/// All coordinates of a `w` by `h` grid.
pub open spec fn grid_coords(w: u32, h: u32) -> Set<(u32, u32)> {
    Set::new(|xy: (u32, u32)| xy.0 < w && xy.1 < h)
}

/// Relies on image::ImageBuffer::new: a fresh buffer of the given size with
/// every sample zeroed, i.e. every pixel black.
#[verifier::external_body]
fn new_image(w: u32, h: u32) -> (c: Canvas)
    requires
        3 * (w as nat) * (h as nat) <= usize::MAX as nat,
    ensures
        canvas_pixels(c).dom() == grid_coords(w, h),
        forall|xy: (u32, u32)|
            canvas_pixels(c).dom().contains(xy) ==> canvas_pixels(c)[xy] == (0u8, 0u8, 0u8),
{
    Canvas { img: image::RgbImage::new(w, h) }
}

/// Relies on image::ImageBuffer::put_pixel: overwrites the pixel at an
/// in-bounds coordinate and changes nothing else.
#[verifier::external_body]
fn put_image_pixel(c: &mut Canvas, x: u32, y: u32, rgb: (u8, u8, u8))
    requires
        canvas_pixels(*old(c)).dom().contains((x, y)),
    ensures
        canvas_pixels(*final(c)) == canvas_pixels(*old(c)).insert((x, y), rgb),
{
    c.img.put_pixel(x, y, image::Rgb([rgb.0, rgb.1, rgb.2]))
}

/// Relies on image::ImageBuffer::get_pixel: the three samples at (x, y).
#[verifier::external_body]
fn pixel_at(c: &Canvas, x: u32, y: u32) -> (r: (u8, u8, u8))
    requires
        canvas_pixels(*c).dom().contains((x, y)),
    ensures
        r == canvas_pixels(*c)[(x, y)],
{
    let p = c.img.get_pixel(x, y);
    (p.0[0], p.0[1], p.0[2])
}

/// The blank 6x6 canvas: every cell black.
pub open spec fn blank_canvas() -> Map<(u32, u32), (u8, u8, u8)> {
    Map::new(|xy: (u32, u32)| xy.0 < 6 && xy.1 < 6, |xy: (u32, u32)| (0u8, 0u8, 0u8))
}

/// The canvas after painting the points in order onto the blank 6x6 grid:
/// each point's color at its position, later points overwriting earlier ones.
pub open spec fn canvas_spec(pts: Seq<Point>) -> Map<(u32, u32), (u8, u8, u8)>
    decreases pts.len(),
{
    if pts.len() == 0 {
        blank_canvas()
    } else {
        canvas_spec(pts.drop_last()).insert(pts.last().pos_spec(), pts.last().rgb_spec())
    }
}

/// Painting keeps the canvas domain: exactly the 6x6 grid cells.
pub proof fn lemma_canvas_dom(pts: Seq<Point>)
    requires
        forall|k: int| 0 <= k < pts.len() ==> pts[k].wf(),
    ensures
        canvas_spec(pts).dom() == grid_coords(6, 6),
    decreases pts.len(),
{
    if pts.len() == 0 {
        assert(blank_canvas().dom() =~= grid_coords(6, 6));
    } else {
        lemma_canvas_dom(pts.drop_last());
        assert(pts.last().wf());
        assert(grid_coords(6, 6).contains(pts.last().pos_spec()));
        assert(canvas_spec(pts).dom() =~= grid_coords(6, 6));
    }
}

/// Last write wins: when the point at index `j` is the last to paint its
/// cell, the finished canvas holds that point's color there.
pub proof fn lemma_last_write_wins(pts: Seq<Point>, j: int)
    requires
        0 <= j < pts.len(),
        forall|k: int| j < k < pts.len() ==> pts[k].pos_spec() != pts[j].pos_spec(),
    ensures
        canvas_spec(pts)[pts[j].pos_spec()] == pts[j].rgb_spec(),
    decreases pts.len(),
{
    if j < pts.len() - 1 {
        lemma_last_write_wins(pts.drop_last(), j);
    }
}

/// The bytes of one canvas cell stand at their row-major place in `r`.
pub open spec fn cell_ok(r: Seq<u8>, m: Map<(u32, u32), (u8, u8, u8)>, x: u32, y: u32) -> bool {
    let base = 3 * (6 * (y as int) + (x as int));
    &&& r.len() >= base + 3
    &&& r[base] == m[(x, y)].0
    &&& r[base + 1] == m[(x, y)].1
    &&& r[base + 2] == m[(x, y)].2
}

impl Canvas {
    /// A canvas is well-formed when it holds exactly the 6x6 grid cells.
    pub open spec fn wf(self) -> bool {
        canvas_pixels(self).dom() == grid_coords(6, 6)
    }

    /// The raw samples of the canvas, row by row: for each cell its red,
    /// green and blue bytes in order.
    pub fn to_raw(&self) -> (r: Vec<u8>)
        requires
            self.wf(),
        ensures
            r@.len() == 108,
            forall|x: u32, y: u32|
                x < 6 && y < 6 ==> cell_ok(r@, canvas_pixels(*self), x, y),
    {
        let mut r: Vec<u8> = Vec::new();
        let mut y: u32 = 0;
        while y < 6
            invariant
                self.wf(),
                y <= 6,
                r@.len() == 18 * y,
                forall|xx: u32, yy: u32|
                    yy < y && xx < 6 ==> cell_ok(r@, canvas_pixels(*self), xx, yy),
            decreases 6 - y,
        {
            let mut x: u32 = 0;
            while x < 6
                invariant
                    self.wf(),
                    y < 6,
                    x <= 6,
                    r@.len() == 18 * y + 3 * x,
                    forall|xx: u32, yy: u32|
                        (yy < y && xx < 6) || (yy == y && xx < x) ==> cell_ok(
                            r@,
                            canvas_pixels(*self),
                            xx,
                            yy,
                        ),
                decreases 6 - x,
            {
                let ghost old_r = r@;
                let c = pixel_at(self, x, y);
                r.push(c.0);
                r.push(c.1);
                r.push(c.2);
                proof {
                    let m = canvas_pixels(*self);
                    let base = 3 * (6 * (y as int) + (x as int));
                    assert(forall|i: int| 0 <= i < old_r.len() ==> r@[i] == old_r[i]);
                    assert(r@[base] == c.0 && r@[base + 1] == c.1 && r@[base + 2] == c.2);
                    assert(cell_ok(r@, m, x, y));
                    assert forall|xx: u32, yy: u32|
                        (yy < y && xx < 6) || (yy == y && xx < x + 1) implies cell_ok(
                        r@,
                        m,
                        xx,
                        yy,
                    ) by {
                        if !(yy == y && xx == x) {
                            let b2 = 3 * (6 * (yy as int) + (xx as int));
                            assert(cell_ok(old_r, m, xx, yy));
                            assert(b2 + 3 <= old_r.len());
                            assert(r@[b2] == old_r[b2]);
                            assert(r@[b2 + 1] == old_r[b2 + 1]);
                            assert(r@[b2 + 2] == old_r[b2 + 2]);
                        }
                    }
                }
                x += 1;
            }
            y += 1;
        }
        r
    }
}

/// Paint each point's color at its grid cell on a fresh 6x6 canvas, in
/// order: at a shared cell the later point wins.
pub fn render_points(points: &Vec<Point>) -> (c: Canvas)
    requires
        forall|k: int| 0 <= k < points@.len() ==> points@[k].wf(),
    ensures
        c.wf(),
        canvas_pixels(c) == canvas_spec(points@),
{
    let mut c = new_image(6, 6);
    proof {
        assert(canvas_pixels(c) =~= blank_canvas());
        assert(points@.take(0) =~= Seq::<Point>::empty());
    }
    let mut k: usize = 0;
    while k < points.len()
        invariant
            k <= points.len(),
            forall|m: int| 0 <= m < points@.len() ==> points@[m].wf(),
            canvas_pixels(c) == canvas_spec(points@.take(k as int)),
        decreases points.len() - k,
    {
        let p = points[k];
        let (x, y) = p.get_pos();
        let rgb = p.get_rgb();
        proof {
            lemma_canvas_dom(points@.take(k as int));
            assert(canvas_pixels(c).dom().contains((x, y)));
        }
        put_image_pixel(&mut c, x, y, rgb);
        proof {
            assert(points@.take(k + 1).drop_last() =~= points@.take(k as int));
            assert(points@.take(k + 1).last() == points@[k as int]);
        }
        k += 1;
    }
    proof {
        assert(points@.take(points@.len() as int) =~= points@);
        lemma_canvas_dom(points@);
    }
    c
}

/// Collect, for one slot index, that slot's point from every day-group, in
/// day order.
pub fn slot_points(groups: &Vec<Vec<Point>>, i: usize) -> (r: Vec<Point>)
    requires
        forall|g: int| 0 <= g < groups@.len() ==> i < groups@[g]@.len(),
    ensures
        r@.len() == groups@.len(),
        forall|g: int| 0 <= g < groups@.len() ==> r@[g] == groups@[g]@[i as int],
{
    let mut r: Vec<Point> = Vec::new();
    let mut g: usize = 0;
    while g < groups.len()
        invariant
            g <= groups.len(),
            forall|m: int| 0 <= m < groups@.len() ==> i < groups@[m]@.len(),
            r@.len() == g,
            forall|m: int| 0 <= m < g ==> r@[m] == groups@[m]@[i as int],
        decreases groups.len() - g,
    {
        r.push(groups[g][i]);
        g += 1;
    }
    r
}

} // verus!
