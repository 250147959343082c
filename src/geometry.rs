use vstd::prelude::*;

verus! {

/// Sign-based classification of a position; zero counts as non-negative.
#[derive(Clone, Copy, Debug, PartialEq, Eq, Structural)]
pub enum Quadrant {
    /// x >= 0 and y >= 0
    First,
    /// x < 0 and y >= 0
    Second,
    /// x >= 0 and y < 0
    Third,
    /// x < 0 and y < 0
    Fourth,
}

pub open spec fn quadrant_of(x: int, y: int) -> Quadrant {
    if y >= 0 {
        if x >= 0 { Quadrant::First } else { Quadrant::Second }
    } else {
        if x >= 0 { Quadrant::Third } else { Quadrant::Fourth }
    }
}

/// Horizontal sign (+1 right, -1 left) of a quadrant.
pub open spec fn quadrant_sx(q: Quadrant) -> int {
    match q {
        Quadrant::First => 1,
        Quadrant::Second => -1,
        Quadrant::Third => 1,
        Quadrant::Fourth => -1,
    }
}

/// Vertical sign (+1 up, -1 down) of a quadrant.
pub open spec fn quadrant_sy(q: Quadrant) -> int {
    match q {
        Quadrant::First => 1,
        Quadrant::Second => 1,
        Quadrant::Third => -1,
        Quadrant::Fourth => -1,
    }
}

pub open spec fn abs(a: int) -> int {
    if a < 0 { -a } else { a }
}

pub open spec fn fits_i32(a: int) -> bool {
    i32::MIN <= a <= i32::MAX
}

proof fn lemma_square_bound(a: int, b: int)
    requires
        -b <= a <= b,
    ensures
        0 <= a * a <= b * b,
{
    assert(0 <= a * a <= b * b) by (nonlinear_arith)
        requires -b <= a <= b;
}

proof fn lemma_product_bound(a: int, c: int, b: int)
    requires
        -b <= a <= b,
        -b <= c <= b,
    ensures
        -(b * b) <= a * c <= b * b,
{
    assert(-(b * b) <= a * c <= b * b) by (nonlinear_arith)
        requires -b <= a <= b, -b <= c <= b;
}

/// A position in the plane.
#[derive(Clone, Copy, Debug)]
pub struct Pos {
    pub x: i32,
    pub y: i32,
}

impl Pos {
    pub open spec fn norm_sq(self) -> int {
        self.x * self.x + self.y * self.y
    }

    /// Euclidean norm from the origin, rounded down.
    pub fn magn(&self) -> (r: u64)
        ensures
            r * r <= self.norm_sq() < (r + 1) * (r + 1),
    {
        let x = self.x as i128;
        let y = self.y as i128;
        proof {
            lemma_square_bound(x as int, 0x8000_0000);
            lemma_square_bound(y as int, 0x8000_0000);
        }
        let m: u64 = (x * x + y * y) as u64;
        // binary search for the largest r with r * r <= m
        let mut lo: u64 = 0;
        let mut hi: u64 = 0x1_0000_0000u64;
        assert(m < 0x1_0000_0000u64 * 0x1_0000_0000u64) by (nonlinear_arith)
            requires
                m == self.x * self.x + self.y * self.y,
                i32::MIN <= self.x <= i32::MAX,
                i32::MIN <= self.y <= i32::MAX,
        ;
        while lo + 1 < hi
            invariant
                lo < hi <= 0x1_0000_0000u64,
                lo * lo <= m,
                m < hi * hi,
                m == self.norm_sq(),
            decreases hi - lo,
        {
            let mid: u64 = lo + (hi - lo) / 2;
            proof {
                lemma_square_bound(mid as int, 0xffff_ffff);
            }
            if mid * mid <= m {
                lo = mid;
            } else {
                hi = mid;
            }
        }
        lo
    }

    /// The quadrant this position lies in.
    pub fn quadrant(&self) -> (r: Quadrant)
        ensures
            r == quadrant_of(self.x as int, self.y as int),
    {
        let top = self.y >= 0;
        let right = self.x >= 0;
        if top {
            if right { Quadrant::First } else { Quadrant::Second }
        } else {
            if right { Quadrant::Third } else { Quadrant::Fourth }
        }
    }

    pub fn add_x(self, x: i32) -> (r: Pos)
        requires
            fits_i32(self.x + x),
        ensures
            r.x == self.x + x,
            r.y == self.y,
    {
        Pos { x: self.x + x, y: self.y }
    }

    pub fn add_y(self, y: i32) -> (r: Pos)
        requires
            fits_i32(self.y + y),
        ensures
            r.x == self.x,
            r.y == self.y + y,
    {
        Pos { x: self.x, y: self.y + y }
    }

    /// Vector sum, or `None` where a coordinate leaves the range of `i32`.
    pub fn checked_add(&self, dx: i32, dy: i32) -> (r: Option<Pos>)
        ensures
            r is Some <==> fits_i32(self.x + dx) && fits_i32(self.y + dy),
            r is Some ==> r->0.x == self.x + dx && r->0.y == self.y + dy,
    {
        let x = self.x as i64 + dx as i64;
        let y = self.y as i64 + dy as i64;
        if x < i32::MIN as i64 || x > i32::MAX as i64 || y < i32::MIN as i64 || y > i32::MAX as i64 {
            None
        } else {
            Some(Pos { x: x as i32, y: y as i32 })
        }
    }

    /// Vector difference `self - other`, or `None` where a coordinate leaves
    /// the range of `i32`.
    pub fn checked_sub(&self, other: &Pos) -> (r: Option<Pos>)
        ensures
            r is Some <==> fits_i32(self.x - other.x) && fits_i32(self.y - other.y),
            r is Some ==> r->0.x == self.x - other.x && r->0.y == self.y - other.y,
    {
        let x = self.x as i64 - other.x as i64;
        let y = self.y as i64 - other.y as i64;
        if x < i32::MIN as i64 || x > i32::MAX as i64 || y < i32::MIN as i64 || y > i32::MAX as i64 {
            None
        } else {
            Some(Pos { x: x as i32, y: y as i32 })
        }
    }
}

/// `a / b` rounded towards zero.
pub open spec fn quot_toward_zero(a: int, b: int) -> int {
    let q = abs(a) / abs(b);
    if (a < 0) != (b < 0) { -q } else { q }
}

/// Value density: area per unit of value, rounded towards zero; `None` for a
/// value of zero, where no density is defined.
pub open spec fn density_of(area: int, value: int) -> Option<i64> {
    if value == 0 {
        None
    } else {
        Some(quot_toward_zero(area, value) as i64)
    }
}

/// The value density of `area` and `value`.
pub fn density(area: i64, value: i32) -> (r: Option<i64>)
    requires
        -0x4000_0000_0000_0000 <= area <= 0x4000_0000_0000_0000,
    ensures
        r == density_of(area as int, value as int),
{
    if value == 0 {
        return None;
    }
    let a: u64 = if area < 0 { (-area) as u64 } else { area as u64 };
    let b: u64 = if value < 0 { (-(value as i64)) as u64 } else { value as u64 };
    let q: u64 = a / b;
    proof {
        assert(q <= a) by (nonlinear_arith)
            requires q == a / b, b >= 1;
    }
    let q = q as i64;
    if (area < 0) != (value < 0) {
        Some(-q)
    } else {
        Some(q)
    }
}

/// A shape template of the catalog: its size, its value, its value density,
/// and the propensity (parts per billion) with which a rectangle of it is
/// considered for replacement during mutation.
#[derive(Clone, Copy, Debug)]
pub struct ViableRect {
    pub height: i32,
    pub width: i32,
    pub value: i32,
    pub avgvalue: Option<i64>,
    pub mut_prob: u32,
}

impl ViableRect {
    pub fn new(height: i32, width: i32, value: i32, mut_prob: u32) -> (r: ViableRect)
        ensures
            r.height == height,
            r.width == width,
            r.value == value,
            r.avgvalue == density_of(height * width, value as int),
            r.mut_prob == mut_prob,
    {
        proof {
            lemma_product_bound(height as int, width as int, 0x8000_0000);
        }
        let area = height as i64 * width as i64;
        ViableRect { height, width, value, avgvalue: density(area, value), mut_prob }
    }
}

/// A placed axis-aligned rectangle. Its corners are `center` plus or minus
/// half its width and height.
#[derive(Clone, Copy, Debug)]
pub struct Rect {
    pub center: Pos,
    pub area: i64,
    pub value: i32,
    pub avgvalue: Option<i64>,
    pub quadrant: Quadrant,
    pub height: i32,
    pub width: i32,
    pub mut_prob: u32,
}

/// The rectangle placed at `center` with the given size, value and propensity.
pub open spec fn rect_at(center: Pos, height: int, width: int, value: int, mut_prob: int) -> Rect {
    Rect {
        center,
        area: (width * height) as i64,
        value: value as i32,
        avgvalue: density_of(width * height, value),
        quadrant: quadrant_of(center.x as int, center.y as int),
        height: height as i32,
        width: width as i32,
        mut_prob: mut_prob as u32,
    }
}

/// The rectangle of template `t` placed at `center`.
pub open spec fn placed(center: Pos, t: ViableRect) -> Rect {
    rect_at(center, t.height as int, t.width as int, t.value as int, t.mut_prob as int)
}

/// Overlap with positive measure: touching edges do not overlap.
pub open spec fn rects_overlap(a: Rect, b: Rect) -> bool {
    2 * abs(a.center.x - b.center.x) < a.width + b.width
        && 2 * abs(a.center.y - b.center.y) < a.height + b.height
}

/// Twice the x coordinate of the corner that lies towards quadrant `q`.
pub open spec fn corner_x2(r: Rect, q: Quadrant) -> int {
    2 * r.center.x + quadrant_sx(q) * r.width
}

/// Twice the y coordinate of the corner that lies towards quadrant `q`.
pub open spec fn corner_y2(r: Rect, q: Quadrant) -> int {
    2 * r.center.y + quadrant_sy(q) * r.height
}

impl Rect {
    /// Area and quadrant agree with the size and the center.
    pub open spec fn wf(self) -> bool {
        &&& self.area == self.width * self.height
        &&& self.avgvalue == density_of(self.area as int, self.value as int)
        &&& self.quadrant == quadrant_of(self.center.x as int, self.center.y as int)
    }

    pub fn new(center: &Pos, height: i32, width: i32, value: i32, mut_prob: u32) -> (r: Rect)
        ensures
            r == rect_at(*center, height as int, width as int, value as int, mut_prob as int),
            r.wf(),
    {
        proof {
            lemma_product_bound(width as int, height as int, 0x8000_0000);
        }
        let area = width as i64 * height as i64;
        Rect {
            center: *center,
            area,
            value,
            avgvalue: density(area, value),
            quadrant: center.quadrant(),
            height,
            width,
            mut_prob,
        }
    }

    /// The rectangle of template `t` placed at `center`.
    pub fn from_template(center: &Pos, t: &ViableRect) -> (r: Rect)
        ensures
            r == placed(*center, *t),
            r.wf(),
    {
        Rect::new(center, t.height, t.width, t.value, t.mut_prob)
    }

    /// Twice the coordinates of the corner that lies towards quadrant `q`.
    pub fn corner_x2_y2(&self, q: Quadrant) -> (r: (i64, i64))
        ensures
            r.0 == corner_x2(*self, q),
            r.1 == corner_y2(*self, q),
            -0x2_0000_0000 <= r.0 <= 0x2_0000_0000,
            -0x2_0000_0000 <= r.1 <= 0x2_0000_0000,
    {
        let cx = 2 * self.center.x as i64;
        let cy = 2 * self.center.y as i64;
        let w = self.width as i64;
        let h = self.height as i64;
        match q {
            Quadrant::First => (cx + w, cy + h),
            Quadrant::Second => (cx - w, cy + h),
            Quadrant::Third => (cx + w, cy - h),
            Quadrant::Fourth => (cx - w, cy - h),
        }
    }

    pub fn overlaps(&self, other: &Rect) -> (r: bool)
        ensures
            r == rects_overlap(*self, *other),
    {
        let dx = self.center.x as i64 - other.center.x as i64;
        let dy = self.center.y as i64 - other.center.y as i64;
        let adx = if dx < 0 { -dx } else { dx };
        let ady = if dy < 0 { -dy } else { dy };
        2 * adx < self.width as i64 + other.width as i64
            && 2 * ady < self.height as i64 + other.height as i64
    }

    /// Whether this rectangle, assumed to share its center with a rectangle of
    /// template `other`, is at least as tall and as wide.
    pub fn covers(&self, other: &ViableRect) -> (r: bool)
        ensures
            r == (self.height >= other.height && self.width >= other.width),
    {
        self.height >= other.height && self.width >= other.width
    }

    /// Whether the vertical line at `line_x` meets this rectangle, edges included.
    pub fn contains_vert_line(&self, line_x: i32) -> (r: bool)
        ensures
            r == (2 * self.center.x - self.width <= 2 * line_x <= 2 * self.center.x + self.width),
    {
        let cx2 = 2 * self.center.x as i64;
        let w = self.width as i64;
        let l2 = 2 * line_x as i64;
        cx2 - w <= l2 && l2 <= cx2 + w
    }
}

/// The circular boundary, centred at the origin.
#[derive(Clone, Copy, Debug)]
pub struct Circle {
    pub radius: i32,
}

/// The single-corner containment test: the corner lying towards the quadrant
/// of the rectangle's center is within the radius.
pub open spec fn circle_holds_rect(c: Circle, r: Rect) -> bool {
    let q = quadrant_of(r.center.x as int, r.center.y as int);
    corner_x2(r, q) * corner_x2(r, q) + corner_y2(r, q) * corner_y2(r, q) <= 4 * (c.radius * c.radius)
}

pub open spec fn circle_holds_point(c: Circle, p: Pos) -> bool {
    p.norm_sq() <= c.radius * c.radius
}

impl Circle {
    pub fn contains(&self, rect: &Rect) -> (r: bool)
        requires
            rect.wf(),
        ensures
            r == circle_holds_rect(*self, *rect),
    {
        let corner = rect.corner_x2_y2(rect.quadrant);
        let x2 = corner.0 as i128;
        let y2 = corner.1 as i128;
        let r = self.radius as i128;
        proof {
            lemma_square_bound(x2 as int, 0x4_0000_0000);
            lemma_square_bound(y2 as int, 0x4_0000_0000);
            lemma_square_bound(r as int, 0x8000_0000);
        }
        x2 * x2 + y2 * y2 <= 4 * (r * r)
    }

    pub fn contains_point(&self, pos: &Pos) -> (r: bool)
        ensures
            r == circle_holds_point(*self, *pos),
    {
        let x = pos.x as i128;
        let y = pos.y as i128;
        let r = self.radius as i128;
        proof {
            lemma_square_bound(x as int, 0x8000_0000);
            lemma_square_bound(y as int, 0x8000_0000);
            lemma_square_bound(r as int, 0x8000_0000);
        }
        x * x + y * y <= r * r
    }
}

/// Overlap is symmetric in its two rectangles.
pub proof fn lemma_overlap_symmetric(a: Rect, b: Rect)
    ensures
        rects_overlap(a, b) == rects_overlap(b, a),
{
}

/// A rectangle covers a template exactly when it is at least as tall and as
/// wide; the template placed at the same center then lies inside it, so it
/// overlaps nothing that the rectangle did not overlap.
pub proof fn lemma_covers_keeps_clear(a: Rect, t: ViableRect, other: Rect)
    ensures
        (a.height >= t.height && a.width >= t.width) ==> (rects_overlap(placed(a.center, t), other)
            ==> rects_overlap(a, other)),
{
}

} // verus!
