use vstd::prelude::*;
use crate::geometry::{Circle, ViableRect};

verus! {

broadcast use vstd::seq_lib::group_to_multiset_ensures;

pub open spec fn clamp_value(v: int, lo: int, hi: int) -> int {
    if v < lo { lo } else if v > hi { hi } else { v }
}

/// Parts per billion: the scale of a normalized value.
pub const NORM_SCALE: i64 = 1_000_000_000;

/// `value`'s position between `min_value` and `max_value` (a value outside
/// them counts as the nearer bound), in parts per billion rounded down; `None`
/// where the bounds enclose no range
/// (all values equal), so that no propensity is ever derived from an
/// undefined quotient.
pub fn normalized_value(value: i32, min_value: i32, max_value: i32) -> (r: Option<i64>)
    ensures
        r is None <==> max_value <= min_value,
        r is Some ==> r->0 == (clamp_value(value as int, min_value as int, max_value as int) - min_value)
            * NORM_SCALE / (max_value - min_value),
{
    if max_value <= min_value {
        return None;
    }
    let v = if value < min_value { min_value } else if value > max_value { max_value } else { value };
    let num: i64 = v as i64 - min_value as i64;
    let den: i64 = max_value as i64 - min_value as i64;
    proof {
        assert(0 <= num <= 0x1_0000_0000);
        assert(0 <= num * NORM_SCALE <= 0x1_0000_0000 * NORM_SCALE) by (nonlinear_arith)
            requires 0 <= num <= 0x1_0000_0000;
    }
    let scaled: i64 = num * NORM_SCALE;
    proof {
        assert(0 <= scaled / den <= scaled) by (nonlinear_arith)
            requires 0 <= scaled, den >= 1;
    }
    Some(scaled / den)
}

/// Templates in ascending order of value.
pub open spec fn sorted_by_value(s: Seq<ViableRect>) -> bool {
    forall|i: int, j: int| 0 <= i < j < s.len() ==> s[i].value <= s[j].value
}

/// Least value of the templates; `i32::MAX` where there are none.
pub open spec fn min_value_of(s: Seq<ViableRect>) -> int
    decreases s.len(),
{
    if s.len() == 0 {
        i32::MAX as int
    } else {
        let m = min_value_of(s.drop_last());
        if s.last().value < m { s.last().value as int } else { m }
    }
}

/// Greatest value of the templates; zero where there are none.
pub open spec fn max_value_of(s: Seq<ViableRect>) -> int
    decreases s.len(),
{
    if s.len() == 0 {
        0
    } else {
        let m = max_value_of(s.drop_last());
        if s.len() == 1 || s.last().value > m { s.last().value as int } else { m }
    }
}

/// Greatest width of the templates; zero where there are none.
pub open spec fn max_width_of(s: Seq<ViableRect>) -> int
    decreases s.len(),
{
    if s.len() == 0 {
        0
    } else {
        let m = max_width_of(s.drop_last());
        if s.len() == 1 || s.last().width > m { s.last().width as int } else { m }
    }
}

/// Greatest height of the templates; zero where there are none.
pub open spec fn max_height_of(s: Seq<ViableRect>) -> int
    decreases s.len(),
{
    if s.len() == 0 {
        0
    } else {
        let m = max_height_of(s.drop_last());
        if s.len() == 1 || s.last().height > m { s.last().height as int } else { m }
    }
}

proof fn lemma_extreme_bounds(s: Seq<ViableRect>, k: int)
    requires
        0 <= k < s.len(),
    ensures
        min_value_of(s) <= s[k].value <= max_value_of(s),
        s[k].width <= max_width_of(s),
        s[k].height <= max_height_of(s),
    decreases s.len(),
{
    if k < s.len() - 1 {
        lemma_extreme_bounds(s.drop_last(), k);
        assert(s.drop_last()[k] == s[k]);
    }
}

proof fn lemma_extremes_attained(s: Seq<ViableRect>)
    requires
        s.len() > 0,
    ensures
        exists|k: int| 0 <= k < s.len() && #[trigger] s[k].value == min_value_of(s),
        exists|k: int| 0 <= k < s.len() && #[trigger] s[k].value == max_value_of(s),
        exists|k: int| 0 <= k < s.len() && #[trigger] s[k].width == max_width_of(s),
        exists|k: int| 0 <= k < s.len() && #[trigger] s[k].height == max_height_of(s),
    decreases s.len(),
{
    let n = s.len() - 1;
    assert(s[n] == s.last());
    if s.len() > 1 {
        let d = s.drop_last();
        lemma_extremes_attained(d);
        let a = choose|k: int| 0 <= k < d.len() && #[trigger] d[k].value == min_value_of(d);
        let b = choose|k: int| 0 <= k < d.len() && #[trigger] d[k].value == max_value_of(d);
        let c = choose|k: int| 0 <= k < d.len() && #[trigger] d[k].width == max_width_of(d);
        let e = choose|k: int| 0 <= k < d.len() && #[trigger] d[k].height == max_height_of(d);
        assert(d[a] == s[a] && d[b] == s[b] && d[c] == s[c] && d[e] == s[e]);
        if s[n].value < min_value_of(d) {
            assert(s[n].value == min_value_of(s));
        } else {
            assert(s[a].value == min_value_of(s));
        }
        if s[n].value > max_value_of(d) {
            assert(s[n].value == max_value_of(s));
        } else {
            assert(s[b].value == max_value_of(s));
        }
        if s[n].width > max_width_of(d) {
            assert(s[n].width == max_width_of(s));
        } else {
            assert(s[c].width == max_width_of(s));
        }
        if s[n].height > max_height_of(d) {
            assert(s[n].height == max_height_of(s));
        } else {
            assert(s[e].height == max_height_of(s));
        }
    } else {
        assert(s.drop_last().len() == 0);
        assert(min_value_of(s.drop_last()) == i32::MAX);
        assert(s[n].width == max_width_of(s));
        assert(s[n].height == max_height_of(s));
        assert(s[n].value == min_value_of(s));
        assert(s[n].value == max_value_of(s));
    }
}

/// In a catalog whose templates all have the value `v`, the least and the
/// greatest value are both `v`: no value range exists to normalize over.
pub proof fn lemma_equal_values_bounds(s: Seq<ViableRect>, v: int)
    requires
        s.len() > 0,
        forall|k: int| 0 <= k < s.len() ==> #[trigger] s[k].value == v,
    ensures
        min_value_of(s) == v,
        max_value_of(s) == v,
{
    lemma_extremes_attained(s);
}

/// The catalog: the shape templates, ascending by value, their bounds, and the
/// circular boundary.
pub struct TaskData {
    pub min_value: i32,
    pub max_value: i32,
    pub max_width: i32,
    pub max_height: i32,
    pub circle: Circle,
    pub rects: Vec<ViableRect>,
}

impl TaskData {
    /// Every template fits within the recorded largest width and height.
    pub open spec fn wf(&self) -> bool {
        &&& self.circle.radius > 0
        &&& sorted_by_value(self.rects@)
        &&& forall|i: int|
            0 <= i < self.rects@.len() ==> 0 <= #[trigger] self.rects@[i].width <= self.max_width
                && 0 <= self.rects@[i].height <= self.max_height
    }

    /// Builds the catalog of boundary radius `radius` from the templates
    /// `shapes`, in any order.
    pub fn new(radius: i32, shapes: Vec<ViableRect>) -> (r: TaskData)
        requires
            radius > 0,
        ensures
            r.circle.radius == radius,
            r.min_value == min_value_of(shapes@),
            r.max_value == max_value_of(shapes@),
            r.max_width == max_width_of(shapes@),
            r.max_height == max_height_of(shapes@),
            shapes@.len() > 0 ==> forall|k: int|
                0 <= k < shapes@.len() ==> r.min_value <= #[trigger] shapes@[k].value <= r.max_value
                    && shapes@[k].width <= r.max_width && shapes@[k].height <= r.max_height,
            shapes@.len() > 0 ==> exists|k: int| 0 <= k < shapes@.len() && #[trigger] shapes@[k].value == r.min_value,
            shapes@.len() > 0 ==> exists|k: int| 0 <= k < shapes@.len() && #[trigger] shapes@[k].value == r.max_value,
            shapes@.len() > 0 ==> exists|k: int| 0 <= k < shapes@.len() && #[trigger] shapes@[k].width == r.max_width,
            shapes@.len() > 0 ==> exists|k: int| 0 <= k < shapes@.len() && #[trigger] shapes@[k].height == r.max_height,
            sorted_by_value(r.rects@),
            r.rects@.to_multiset() == shapes@.to_multiset(),
            (forall|i: int| 0 <= i < shapes@.len() ==> 0 <= #[trigger] shapes@[i].width && 0 <= shapes@[i].height)
                ==> r.wf(),
    {
        let mut minv: i32 = i32::MAX;
        let mut maxv: i32 = 0;
        let mut maxw: i32 = 0;
        let mut maxh: i32 = 0;
        let mut rects: Vec<ViableRect> = Vec::new();
        let n = shapes.len();
        let mut i: usize = 0;
        while i < n
            invariant
                n == shapes@.len(),
                0 <= i <= n,
                minv == min_value_of(shapes@.subrange(0, i as int)),
                maxv == max_value_of(shapes@.subrange(0, i as int)),
                maxw == max_width_of(shapes@.subrange(0, i as int)),
                maxh == max_height_of(shapes@.subrange(0, i as int)),
                sorted_by_value(rects@),
                rects@.to_multiset() == shapes@.subrange(0, i as int).to_multiset(),
            decreases n - i,
        {
            let t = shapes[i];
            proof {
                let pre = shapes@.subrange(0, i as int);
                assert(shapes@.subrange(0, i + 1).drop_last() =~= pre);
                assert(shapes@.subrange(0, i + 1) =~= pre.push(t));
            }
            if t.value < minv {
                minv = t.value;
            }
            if i == 0 || t.value > maxv {
                maxv = t.value;
            }
            if i == 0 || t.width > maxw {
                maxw = t.width;
            }
            if i == 0 || t.height > maxh {
                maxh = t.height;
            }
            // first position holding a greater value: equal values keep their order
            let mut pos: usize = 0;
            while pos < rects.len() && rects[pos].value <= t.value
                invariant
                    0 <= pos <= rects@.len(),
                    forall|k: int| 0 <= k < pos ==> rects@[k].value <= t.value,
                decreases rects@.len() - pos,
            {
                pos = pos + 1;
            }
            let ghost before = rects@;
            rects.insert(pos, t);
            proof {
                assert(rects@ =~= before.insert(pos as int, t));
                assert forall|a: int, b: int| 0 <= a < b < rects@.len() implies rects@[a].value
                    <= rects@[b].value by {
                    if b < pos {
                    } else if a < pos && b == pos {
                    } else if a == pos {
                        assert(rects@[b] == before[b - 1]);
                    } else if a < pos {
                        assert(rects@[b] == before[b - 1]);
                    } else {
                        assert(rects@[b] == before[b - 1]);
                        assert(rects@[a] == before[a - 1]);
                    }
                }
            }
            i = i + 1;
        }
        proof {
            assert(shapes@.subrange(0, n as int) =~= shapes@);
            assert forall|k: int| 0 <= k < rects@.len() implies shapes@.contains(#[trigger] rects@[k]) by {
                assert(rects@.to_multiset().count(rects@[k]) > 0);
            }
            assert forall|k: int| 0 <= k < shapes@.len() implies minv <= #[trigger] shapes@[k].value <= maxv
                && shapes@[k].width <= maxw && shapes@[k].height <= maxh by {
                lemma_extreme_bounds(shapes@, k);
            }
            if n > 0 {
                lemma_extremes_attained(shapes@);
            }
        }
        TaskData {
            min_value: minv,
            max_value: maxv,
            max_width: maxw,
            max_height: maxh,
            circle: Circle { radius },
            rects,
        }
    }

    /// Sets each template's propensity: `curve[i]` for template `i`, except
    /// where all values are equal (no value range to normalize over), where
    /// every propensity is zero and no rectangle is ever selected for
    /// replacement. The other fields are kept.
    pub fn set_propensities(&mut self, curve: &Vec<u32>)
        requires
            curve@.len() == old(self).rects@.len(),
        ensures
            final(self).min_value == old(self).min_value,
            final(self).max_value == old(self).max_value,
            final(self).max_width == old(self).max_width,
            final(self).max_height == old(self).max_height,
            final(self).circle == old(self).circle,
            final(self).rects@.len() == old(self).rects@.len(),
            old(self).wf() ==> final(self).wf(),
            forall|i: int|
                0 <= i < old(self).rects@.len() ==> {
                    let (a, b) = (#[trigger] final(self).rects@[i], old(self).rects@[i]);
                    &&& a.height == b.height && a.width == b.width && a.value == b.value
                    &&& a.avgvalue == b.avgvalue
                    &&& a.mut_prob == if old(self).max_value <= old(self).min_value { 0 } else { curve@[i] }
                },
    {
        let degenerate = normalized_value(0, self.min_value, self.max_value).is_none();
        let n = self.rects.len();
        let mut rects: Vec<ViableRect> = Vec::new();
        let mut i: usize = 0;
        while i < n
            invariant
                n == self.rects@.len(),
                curve@.len() == n,
                degenerate == (self.max_value <= self.min_value),
                0 <= i <= n,
                rects@.len() == i,
                forall|j: int|
                    0 <= j < i ==> {
                        let (a, b) = (#[trigger] rects@[j], self.rects@[j]);
                        &&& a.height == b.height && a.width == b.width && a.value == b.value
                        &&& a.avgvalue == b.avgvalue
                        &&& a.mut_prob == if degenerate { 0 } else { curve@[j] }
                    },
            decreases n - i,
        {
            let t = self.rects[i];
            let p = if degenerate { 0 } else { curve[i] };
            rects.push(ViableRect { mut_prob: p, ..t });
            i = i + 1;
        }
        self.rects = rects;
    }
}

} // verus!
