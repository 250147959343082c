use vstd::prelude::*;
use crate::catalog::TaskData;
use crate::geometry::{rects_overlap, Rect};

verus! {

/// Sum of the values of the rectangles.
pub open spec fn total_value(s: Seq<Rect>) -> int
    decreases s.len(),
{
    if s.len() == 0 {
        0
    } else {
        total_value(s.drop_last()) + s.last().value
    }
}

/// No two rectangles at different positions overlap, and no size is negative.
pub open spec fn pairwise_clear(s: Seq<Rect>) -> bool {
    &&& forall|i: int| 0 <= i < s.len() ==> 0 <= #[trigger] s[i].width && 0 <= s[i].height
    &&& forall|i: int, j: int|
        0 <= i < s.len() && 0 <= j < s.len() && i != j ==> !rects_overlap(#[trigger] s[i], #[trigger] s[j])
}

/// The cut position clamped to the boundary's horizontal extent.
pub open spec fn clamp_cut(cut: int, radius: int) -> int {
    if cut < -radius {
        -radius
    } else if cut > radius {
        radius
    } else {
        cut
    }
}

/// Whether the vertical line at `x` meets the rectangle.
pub open spec fn straddles(r: Rect, x: int) -> bool {
    2 * r.center.x - r.width <= 2 * x <= 2 * r.center.x + r.width
}

/// The rectangles, in order, that the line at `x` does not meet and whose
/// center lies left of or on it (`left`) or right of it (`!left`).
pub open spec fn half(s: Seq<Rect>, x: int, left: bool) -> Seq<Rect>
    decreases s.len(),
{
    if s.len() == 0 {
        Seq::empty()
    } else {
        let h = half(s.drop_last(), x, left);
        let r = s.last();
        if !straddles(r, x) && ((r.center.x <= x) == left) {
            h.push(r)
        } else {
            h
        }
    }
}

/// One candidate packing: an unordered collection of placed rectangles.
pub struct Chromosome {
    pub rects: Vec<Rect>,
}

impl Chromosome {
    pub fn new() -> (r: Chromosome)
        ensures
            r.rects@ == Seq::<Rect>::empty(),
    {
        Chromosome { rects: Vec::new() }
    }

    /// The chromosome holding `left` followed by `right`.
    pub fn from_halves(left: Vec<Rect>, right: Vec<Rect>) -> (r: Chromosome)
        ensures
            r.rects@ == left@ + right@,
    {
        let mut rects = left;
        let ghost l = rects@;
        let mut i: usize = 0;
        while i < right.len()
            invariant
                0 <= i <= right@.len(),
                rects@ == l + right@.subrange(0, i as int),
            decreases right@.len() - i,
        {
            rects.push(right[i]);
            i = i + 1;
            proof {
                assert(rects@ =~= l + right@.subrange(0, i as int));
            }
        }
        proof {
            assert(right@.subrange(0, right@.len() as int) =~= right@);
        }
        Chromosome { rects }
    }

    /// A copy holding the same rectangles.
    pub fn duplicate(&self) -> (r: Chromosome)
        ensures
            r.rects@ == self.rects@,
    {
        let mut rects: Vec<Rect> = Vec::new();
        let mut i: usize = 0;
        while i < self.rects.len()
            invariant
                0 <= i <= self.rects@.len(),
                rects@ == self.rects@.subrange(0, i as int),
            decreases self.rects@.len() - i,
        {
            rects.push(self.rects[i]);
            i = i + 1;
            proof {
                assert(rects@ =~= self.rects@.subrange(0, i as int));
            }
        }
        proof {
            assert(self.rects@.subrange(0, self.rects@.len() as int) =~= self.rects@);
        }
        Chromosome { rects }
    }

    /// Total value of the placed rectangles.
    pub fn score(&self) -> (r: i128)
        ensures
            r == total_value(self.rects@),
    {
        let mut sum: i128 = 0;
        let mut i: usize = 0;
        while i < self.rects.len()
            invariant
                0 <= i <= self.rects@.len(),
                sum == total_value(self.rects@.subrange(0, i as int)),
                -(i * 0x8000_0000) <= sum <= i * 0x8000_0000,
            decreases self.rects@.len() - i,
        {
            proof {
                assert(self.rects@.subrange(0, i + 1).drop_last() =~= self.rects@.subrange(0, i as int));
            }
            sum = sum + self.rects[i].value as i128;
            i = i + 1;
        }
        proof {
            assert(self.rects@.subrange(0, self.rects@.len() as int) =~= self.rects@);
        }
        sum
    }

    /// The rectangles that the line at `x` does not meet, parted into those
    /// whose center lies left of or on it and those right of it.
    pub fn split_at_line(&self, x: i32) -> (r: (Vec<Rect>, Vec<Rect>))
        ensures
            r.0@ == half(self.rects@, x as int, true),
            r.1@ == half(self.rects@, x as int, false),
    {
        let mut left: Vec<Rect> = Vec::new();
        let mut right: Vec<Rect> = Vec::new();
        let mut i: usize = 0;
        while i < self.rects.len()
            invariant
                0 <= i <= self.rects@.len(),
                left@ == half(self.rects@.subrange(0, i as int), x as int, true),
                right@ == half(self.rects@.subrange(0, i as int), x as int, false),
            decreases self.rects@.len() - i,
        {
            let r = self.rects[i];
            proof {
                assert(self.rects@.subrange(0, i + 1).drop_last() =~= self.rects@.subrange(0, i as int));
            }
            if !r.contains_vert_line(x) {
                if r.center.x <= x {
                    left.push(r);
                } else {
                    right.push(r);
                }
            }
            i = i + 1;
        }
        proof {
            assert(self.rects@.subrange(0, self.rects@.len() as int) =~= self.rects@);
        }
        (left, right)
    }

    /// Cuts both parents at the vertical line `cut`, clamped to the boundary's
    /// extent, drops the rectangles that the line meets, and recombines: the
    /// first child is `this`'s left part with `other`'s right part, the second
    /// `other`'s left part with `this`'s right part.
    pub fn crossover(this: &Chromosome, other: &Chromosome, task_data: &TaskData, cut: i32) -> (r: (
        Chromosome,
        Chromosome,
    ))
        requires
            task_data.circle.radius > 0,
        ensures
            ({
                let x = clamp_cut(cut as int, task_data.circle.radius as int);
                &&& r.0.rects@ == half(this.rects@, x, true) + half(other.rects@, x, false)
                &&& r.1.rects@ == half(other.rects@, x, true) + half(this.rects@, x, false)
            }),
    {
        let radius = task_data.circle.radius;
        let x = if cut < -radius {
            -radius
        } else if cut > radius {
            radius
        } else {
            cut
        };
        let (this_left, this_right) = this.split_at_line(x);
        let (other_left, other_right) = other.split_at_line(x);
        (Chromosome::from_halves(this_left, other_right), Chromosome::from_halves(other_left, this_right))
    }
}

/// What a half holds was in the whole, clear of the line and on its side.
pub proof fn lemma_half_members(s: Seq<Rect>, x: int, left: bool, k: int)
    requires
        0 <= k < half(s, x, left).len(),
    ensures
        s.contains(half(s, x, left)[k]),
        !straddles(half(s, x, left)[k], x),
        (half(s, x, left)[k].center.x <= x) == left,
    decreases s.len(),
{
    let h = half(s.drop_last(), x, left);
    if k < h.len() {
        lemma_half_members(s.drop_last(), x, left, k);
        let e = h[k];
        let j = choose|j: int| 0 <= j < s.drop_last().len() && s.drop_last()[j] == e;
        assert(s[j] == e);
    } else {
        assert(s[s.len() - 1] == s.last());
    }
}

/// A half is no longer than the whole.
pub proof fn lemma_half_len(s: Seq<Rect>, x: int, left: bool)
    ensures
        half(s, x, left).len() + half(s, x, !left).len() <= s.len(),
    decreases s.len(),
{
    if s.len() > 0 {
        lemma_half_len(s.drop_last(), x, left);
    }
}

/// A half of a pairwise-clear collection is pairwise clear.
pub proof fn lemma_half_clear(s: Seq<Rect>, x: int, left: bool)
    requires
        pairwise_clear(s),
    ensures
        pairwise_clear(half(s, x, left)),
    decreases s.len(),
{
    if s.len() > 0 {
        let d = s.drop_last();
        assert(pairwise_clear(d)) by {
            assert forall|i: int, j: int|
                0 <= i < d.len() && 0 <= j < d.len() && i != j implies !rects_overlap(
                #[trigger] d[i],
                #[trigger] d[j],
            ) by {
                assert(d[i] == s[i] && d[j] == s[j]);
            }
            assert forall|i: int| 0 <= i < d.len() implies 0 <= #[trigger] d[i].width && 0
                <= d[i].height by {
                assert(d[i] == s[i]);
            }
        }
        lemma_half_clear(d, x, left);
        let h = half(d, x, left);
        let r = s.last();
        if !straddles(r, x) && ((r.center.x <= x) == left) {
            let hp = h.push(r);
            assert forall|k: int| 0 <= k < h.len() implies !rects_overlap(h[k], r) && !rects_overlap(
                r,
                h[k],
            ) by {
                lemma_half_members(d, x, left, k);
                let j = choose|j: int| 0 <= j < d.len() && d[j] == h[k];
                assert(s[j] == h[k]);
                assert(s[s.len() - 1] == r);
            }
            assert forall|i: int, j: int|
                0 <= i < hp.len() && 0 <= j < hp.len() && i != j implies !rects_overlap(
                #[trigger] hp[i],
                #[trigger] hp[j],
            ) by {
                if i < h.len() && j < h.len() {
                    assert(hp[i] == h[i] && hp[j] == h[j]);
                }
            }
            assert forall|i: int| 0 <= i < hp.len() implies 0 <= #[trigger] hp[i].width && 0
                <= hp[i].height by {
                if i < h.len() {
                    assert(hp[i] == h[i]);
                } else {
                    assert(s[s.len() - 1] == r);
                }
            }
        }
    }
}

/// Crossover drops the rectangles that meet the cut and never duplicates one:
/// the children together hold no more rectangles than the parents. Children of
/// pairwise-clear parents are pairwise clear: a left part and a right part lie
/// on opposite sides of the cut.
pub proof fn lemma_crossover_children(a: Seq<Rect>, b: Seq<Rect>, x: int)
    ensures
        (half(a, x, true) + half(b, x, false)).len() + (half(b, x, true) + half(a, x, false)).len()
            <= a.len() + b.len(),
        pairwise_clear(a) && pairwise_clear(b) ==> pairwise_clear(half(a, x, true) + half(b, x, false)),
        pairwise_clear(a) && pairwise_clear(b) ==> pairwise_clear(half(b, x, true) + half(a, x, false)),
{
    lemma_half_len(a, x, true);
    lemma_half_len(b, x, true);
    if pairwise_clear(a) && pairwise_clear(b) {
        lemma_join_clear(a, b, x);
        lemma_join_clear(b, a, x);
    }
}

proof fn lemma_join_clear(a: Seq<Rect>, b: Seq<Rect>, x: int)
    requires
        pairwise_clear(a),
        pairwise_clear(b),
    ensures
        pairwise_clear(half(a, x, true) + half(b, x, false)),
{
    let l = half(a, x, true);
    let r = half(b, x, false);
    let c = l + r;
    lemma_half_clear(a, x, true);
    lemma_half_clear(b, x, false);
    assert forall|i: int| 0 <= i < c.len() implies 0 <= #[trigger] c[i].width && 0 <= c[i].height by {
        if i < l.len() {
            assert(c[i] == l[i]);
        } else {
            assert(c[i] == r[i - l.len()]);
        }
    }
    assert forall|i: int, j: int|
        0 <= i < c.len() && 0 <= j < c.len() && i != j implies !rects_overlap(
        #[trigger] c[i],
        #[trigger] c[j],
    ) by {
        if i < l.len() && j < l.len() {
            assert(c[i] == l[i] && c[j] == l[j]);
        } else if i >= l.len() && j >= l.len() {
            assert(c[i] == r[i - l.len()] && c[j] == r[j - l.len()]);
        } else {
            let (p, q) = if i < l.len() { (i, j - l.len()) } else { (j, i - l.len()) };
            lemma_half_members(a, x, true, p);
            lemma_half_members(b, x, false, q);
            assert(0 <= l[p].width);
            assert(0 <= r[q].width);
            assert(c[i] == l[p] || c[i] == r[q]);
            assert(c[j] == l[p] || c[j] == r[q]);
        }
    }
}

} // verus!
