use vstd::prelude::*;
use crate::catalog::TaskData;
use crate::chromosome::{pairwise_clear, Chromosome};
use crate::geometry::{
    abs, circle_holds_point, circle_holds_rect, fits_i32, placed, rects_overlap, Pos, Rect,
};

verus! {

/// Number of insertion attempts in one mutation.
pub const INSERTION_ATTEMPTS: usize = 10;

/// The random draws that one mutation consumes.
///
/// - `rolls[i]`: uniform in `[0, 1_000_000_000)`, compared with the propensity
///   (parts per billion) of the rectangle at index `i`; a missing roll leaves
///   that rectangle alone.
/// - `orders[i]`: the shuffled order in which template indices are visited when
///   the rectangle at index `i` is replaced; indices outside the catalog are
///   passed over.
/// - `jitters[i][k]`: the offset of the candidate center for the `k`-th
///   position of `orders[i]`; a missing one is no offset.
/// - `points[a]`: the candidate center of insertion attempt `a`, and
///   `point_orders[a]` the order in which templates are tried there.
pub struct MutationDraws {
    pub rolls: Vec<u32>,
    pub orders: Vec<Vec<usize>>,
    pub jitters: Vec<Vec<(i32, i32)>>,
    pub points: Vec<Pos>,
    pub point_orders: Vec<Vec<usize>>,
}

/// Broad phase: `r`'s center lies within the largest template's extent of `c`.
pub open spec fn near(c: Pos, r: Rect, task: TaskData) -> bool {
    abs(c.x - r.center.x) <= task.max_width && abs(c.y - r.center.y) <= task.max_height
}

/// The rectangles of `s`, in order, that pass the broad phase around `c`,
/// leaving out the one at index `skip`, if any.
pub open spec fn neighbours(s: Seq<Rect>, c: Pos, task: TaskData, skip: Option<usize>) -> Seq<Rect>
    decreases s.len(),
{
    if s.len() == 0 {
        Seq::empty()
    } else {
        let h = neighbours(s.drop_last(), c, task, skip);
        if near(c, s.last(), task) && skip != Some((s.len() - 1) as usize) {
            h.push(s.last())
        } else {
            h
        }
    }
}

/// No rectangle of `nb` overlaps `cand`.
pub open spec fn clear_of(nb: Seq<Rect>, cand: Rect) -> bool {
    forall|k: int| 0 <= k < nb.len() ==> !rects_overlap(#[trigger] nb[k], cand)
}

pub open spec fn jitter_at(js: Seq<(i32, i32)>, k: int) -> (int, int) {
    if 0 <= k < js.len() {
        (js[k].0 as int, js[k].1 as int)
    } else {
        (0, 0)
    }
}

/// The first candidate, visiting `order` from position `k`, that may replace
/// `old`: the template placed at `old`'s jittered center lies inside the
/// boundary, and either `old` covers the template or the candidate overlaps
/// none of the neighbours `nb`.
pub open spec fn replacement(
    old: Rect,
    nb: Seq<Rect>,
    order: Seq<usize>,
    js: Seq<(i32, i32)>,
    task: TaskData,
    k: int,
) -> Option<Rect>
    decreases order.len() - k,
{
    if k < 0 || k >= order.len() {
        None
    } else if order[k] >= task.rects@.len() {
        replacement(old, nb, order, js, task, k + 1)
    } else {
        let t = task.rects@[order[k] as int];
        let (dx, dy) = jitter_at(js, k);
        let cx = old.center.x + dx;
        let cy = old.center.y + dy;
        if fits_i32(cx) && fits_i32(cy) {
            let cand = placed(Pos { x: cx as i32, y: cy as i32 }, t);
            if circle_holds_rect(task.circle, cand) && ((old.height >= t.height && old.width
                >= t.width) || clear_of(nb, cand)) {
                Some(cand)
            } else {
                replacement(old, nb, order, js, task, k + 1)
            }
        } else {
            replacement(old, nb, order, js, task, k + 1)
        }
    }
}

/// The first template, visiting `order` from position `k`, whose rectangle
/// placed at `p` overlaps none of the neighbours `nb`.
pub open spec fn first_fit(p: Pos, nb: Seq<Rect>, order: Seq<usize>, task: TaskData, k: int) -> Option<Rect>
    decreases order.len() - k,
{
    if k < 0 || k >= order.len() {
        None
    } else if order[k] >= task.rects@.len() {
        first_fit(p, nb, order, task, k + 1)
    } else {
        let cand = placed(p, task.rects@[order[k] as int]);
        if clear_of(nb, cand) {
            Some(cand)
        } else {
            first_fit(p, nb, order, task, k + 1)
        }
    }
}

pub open spec fn order_at(d: MutationDraws, i: int) -> Seq<usize> {
    if 0 <= i < d.orders@.len() {
        d.orders@[i]@
    } else {
        Seq::empty()
    }
}

pub open spec fn jitters_at(d: MutationDraws, i: int) -> Seq<(i32, i32)> {
    if 0 <= i < d.jitters@.len() {
        d.jitters@[i]@
    } else {
        Seq::empty()
    }
}

pub open spec fn point_order_at(d: MutationDraws, a: int) -> Seq<usize> {
    if 0 <= a < d.point_orders@.len() {
        d.point_orders@[a]@
    } else {
        Seq::empty()
    }
}

/// The rectangle at index `i` is considered for replacement.
pub open spec fn selected(d: MutationDraws, i: int, r: Rect) -> bool {
    0 <= i < d.rolls@.len() && d.rolls@[i] < r.mut_prob
}

/// The rectangles, and the marks of those to remove, after the replace pass
/// has visited the first `i` indices of `s`.
pub open spec fn replace_pass(s: Seq<Rect>, d: MutationDraws, task: TaskData, i: nat) -> (Seq<Rect>, Seq<bool>)
    decreases i,
{
    if i == 0 {
        (s, Seq::empty())
    } else {
        let (cur, marks) = replace_pass(s, d, task, (i - 1) as nat);
        let j = i - 1;
        if j < cur.len() && selected(d, j, cur[j]) {
            match replacement(cur[j], neighbours(cur, cur[j].center, task, Some(j as usize)), order_at(d, j), jitters_at(d, j), task, 0) {
                Some(c) => (cur.update(j, c), marks.push(false)),
                None => (cur, marks.push(true)),
            }
        } else {
            (cur, marks.push(false))
        }
    }
}

/// The rectangles of `s`, in order, whose mark is not set.
pub open spec fn unmarked(s: Seq<Rect>, marks: Seq<bool>) -> Seq<Rect>
    decreases s.len(),
{
    if s.len() == 0 {
        Seq::empty()
    } else {
        let h = unmarked(s.drop_last(), marks);
        if marks[s.len() - 1] {
            h
        } else {
            h.push(s.last())
        }
    }
}

/// The rectangles after the first `a` insertion attempts on `s`.
pub open spec fn insert_pass(s: Seq<Rect>, d: MutationDraws, task: TaskData, a: nat) -> Seq<Rect>
    decreases a,
{
    if a == 0 {
        s
    } else {
        let cur = insert_pass(s, d, task, (a - 1) as nat);
        let j = a - 1;
        if j < d.points@.len() && circle_holds_point(task.circle, d.points@[j]) {
            let p = d.points@[j];
            match first_fit(p, neighbours(cur, p, task, None), point_order_at(d, j), task, 0) {
                Some(c) => cur.push(c),
                None => cur,
            }
        } else {
            cur
        }
    }
}

/// The rectangles after a whole mutation of `s`.
pub open spec fn mutated(s: Seq<Rect>, d: MutationDraws, task: TaskData) -> Seq<Rect> {
    let (cur, marks) = replace_pass(s, d, task, s.len());
    insert_pass(unmarked(cur, marks), d, task, INSERTION_ATTEMPTS as nat)
}

/// The rectangles of `rects` that pass the broad phase around `c`, leaving
/// out the one at index `skip`, if any.
pub fn neighbours_of(rects: &Vec<Rect>, c: Pos, task: &TaskData, skip: Option<usize>) -> (r: Vec<Rect>)
    ensures
        r@ == neighbours(rects@, c, *task, skip),
{
    let mut out: Vec<Rect> = Vec::new();
    let mut i: usize = 0;
    while i < rects.len()
        invariant
            0 <= i <= rects@.len(),
            out@ == neighbours(rects@.subrange(0, i as int), c, *task, skip),
        decreases rects@.len() - i,
    {
        let r = rects[i];
        proof {
            assert(rects@.subrange(0, i + 1).drop_last() =~= rects@.subrange(0, i as int));
        }
        let dx = c.x as i64 - r.center.x as i64;
        let dy = c.y as i64 - r.center.y as i64;
        let adx = if dx < 0 { -dx } else { dx };
        let ady = if dy < 0 { -dy } else { dy };
        let skipped = match skip {
            Some(j) => j == i,
            None => false,
        };
        if adx <= task.max_width as i64 && ady <= task.max_height as i64 && !skipped {
            out.push(r);
        }
        i = i + 1;
    }
    proof {
        assert(rects@.subrange(0, rects@.len() as int) =~= rects@);
    }
    out
}

/// Whether no rectangle of `nb` overlaps `cand`.
pub fn is_clear_of(nb: &Vec<Rect>, cand: &Rect) -> (r: bool)
    ensures
        r == clear_of(nb@, *cand),
{
    let mut i: usize = 0;
    while i < nb.len()
        invariant
            0 <= i <= nb@.len(),
            forall|k: int| 0 <= k < i ==> !rects_overlap(#[trigger] nb@[k], *cand),
        decreases nb@.len() - i,
    {
        if nb[i].overlaps(cand) {
            return false;
        }
        i = i + 1;
    }
    true
}

/// The first replacement for `old` in the visiting order `order`, with the
/// center offsets `js`.
pub fn find_replacement(old: &Rect, nb: &Vec<Rect>, order: &Vec<usize>, js: &Vec<(i32, i32)>, task: &TaskData) -> (r: Option<Rect>)
    ensures
        r == replacement(*old, nb@, order@, js@, *task, 0),
{
    let mut k: usize = 0;
    while k < order.len()
        invariant
            0 <= k <= order@.len(),
            replacement(*old, nb@, order@, js@, *task, 0) == replacement(*old, nb@, order@, js@, *task, k as int),
        decreases order@.len() - k,
    {
        let idx = order[k];
        if idx < task.rects.len() {
            let t = &task.rects[idx];
            let (dx, dy) = if k < js.len() { js[k] } else { (0i32, 0i32) };
            match old.center.checked_add(dx, dy) {
                Some(c) => {
                    let cand = Rect::from_template(&c, t);
                    if task.circle.contains(&cand) && (old.covers(t) || is_clear_of(nb, &cand)) {
                        return Some(cand);
                    }
                },
                None => {},
            }
        }
        k = k + 1;
    }
    None
}

/// The first template of the visiting order `order` whose rectangle placed at
/// `p` overlaps none of `nb`.
pub fn find_fit(p: Pos, nb: &Vec<Rect>, order: &Vec<usize>, task: &TaskData) -> (r: Option<Rect>)
    ensures
        r == first_fit(p, nb@, order@, *task, 0),
{
    let mut k: usize = 0;
    while k < order.len()
        invariant
            0 <= k <= order@.len(),
            first_fit(p, nb@, order@, *task, 0) == first_fit(p, nb@, order@, *task, k as int),
        decreases order@.len() - k,
    {
        let idx = order[k];
        if idx < task.rects.len() {
            let cand = Rect::from_template(&p, &task.rects[idx]);
            if is_clear_of(nb, &cand) {
                return Some(cand);
            }
        }
        k = k + 1;
    }
    None
}

/// Every rectangle of `s` is no larger than the catalog's largest extent.
pub open spec fn within_extent(s: Seq<Rect>, task: TaskData) -> bool {
    forall|i: int|
        0 <= i < s.len() ==> 0 <= #[trigger] s[i].width <= task.max_width && 0 <= s[i].height
            <= task.max_height
}

proof fn lemma_neighbours_hold(s: Seq<Rect>, c: Pos, task: TaskData, k: int)
    requires
        0 <= k < s.len(),
        near(c, s[k], task),
    ensures
        neighbours(s, c, task, None).contains(s[k]),
    decreases s.len(),
{
    let h = neighbours(s.drop_last(), c, task, None);
    if k < s.len() - 1 {
        lemma_neighbours_hold(s.drop_last(), c, task, k);
        assert(s.drop_last()[k] == s[k]);
        if near(c, s.last(), task) {
            let j = choose|j: int| 0 <= j < h.len() && h[j] == s[k];
            assert(h.push(s.last())[j] == s[k]);
        }
    } else {
        assert(h.push(s.last())[h.len() as int] == s[k]);
    }
}

/// The broad phase is sound: where a candidate overlaps none of the
/// neighbours around its center, it overlaps no rectangle at all, provided all
/// of them are within the catalog's largest extent.
pub proof fn lemma_broad_phase_sound(s: Seq<Rect>, cand: Rect, task: TaskData)
    requires
        within_extent(s, task),
        within_extent(seq![cand], task),
        clear_of(neighbours(s, cand.center, task, None), cand),
    ensures
        forall|k: int| 0 <= k < s.len() ==> !rects_overlap(#[trigger] s[k], cand),
{
    assert(seq![cand][0] == cand);
    assert forall|k: int| 0 <= k < s.len() implies !rects_overlap(#[trigger] s[k], cand) by {
        if near(cand.center, s[k], task) {
            lemma_neighbours_hold(s, cand.center, task, k);
        }
    }
}

proof fn lemma_first_fit_clear(p: Pos, nb: Seq<Rect>, order: Seq<usize>, task: TaskData, k: int)
    requires
        task.wf(),
        first_fit(p, nb, order, task, k) is Some,
    ensures
        ({
            let c = first_fit(p, nb, order, task, k)->0;
            &&& clear_of(nb, c)
            &&& c.center == p
            &&& 0 <= c.width <= task.max_width
            &&& 0 <= c.height <= task.max_height
        }),
    decreases order.len() - k,
{
    if 0 <= k < order.len() {
        if order[k] >= task.rects@.len() {
            lemma_first_fit_clear(p, nb, order, task, k + 1);
        } else if !clear_of(nb, placed(p, task.rects@[order[k] as int])) {
            lemma_first_fit_clear(p, nb, order, task, k + 1);
        }
    }
}

/// The insertion pass never introduces an overlap: on a pairwise-clear
/// collection within the catalog's extent it leaves one.
pub proof fn lemma_insert_pass_clear(s: Seq<Rect>, d: MutationDraws, task: TaskData, a: nat)
    requires
        task.wf(),
        pairwise_clear(s),
        within_extent(s, task),
    ensures
        pairwise_clear(insert_pass(s, d, task, a)),
        within_extent(insert_pass(s, d, task, a), task),
    decreases a,
{
    if a > 0 {
        lemma_insert_pass_clear(s, d, task, (a - 1) as nat);
        let cur = insert_pass(s, d, task, (a - 1) as nat);
        let j = a - 1;
        if j < d.points@.len() && circle_holds_point(task.circle, d.points@[j]) {
            let p = d.points@[j];
            let nb = neighbours(cur, p, task, None);
            let fit = first_fit(p, nb, point_order_at(d, j), task, 0);
            if fit is Some {
                let c = fit->0;
                lemma_first_fit_clear(p, nb, point_order_at(d, j), task, 0);
                assert(within_extent(seq![c], task));
                lemma_broad_phase_sound(cur, c, task);
                let next = cur.push(c);
                assert forall|x: int, y: int|
                    0 <= x < next.len() && 0 <= y < next.len() && x != y implies !rects_overlap(
                    #[trigger] next[x],
                    #[trigger] next[y],
                ) by {
                    if x < cur.len() && y < cur.len() {
                        assert(next[x] == cur[x] && next[y] == cur[y]);
                    } else if x < cur.len() {
                        assert(next[x] == cur[x]);
                    } else {
                        assert(next[y] == cur[y]);
                    }
                }
                assert forall|x: int| 0 <= x < next.len() implies 0 <= #[trigger] next[x].width
                    <= task.max_width && 0 <= next[x].height <= task.max_height by {
                    if x < cur.len() {
                        assert(next[x] == cur[x]);
                    }
                }
            }
        }
    }
}

proof fn lemma_replace_pass_immune(s: Seq<Rect>, d: MutationDraws, task: TaskData, i: nat)
    requires
        i <= s.len(),
        forall|k: int| 0 <= k < s.len() ==> (#[trigger] s[k]).mut_prob == 0,
    ensures
        replace_pass(s, d, task, i).0 == s,
        replace_pass(s, d, task, i).1 == Seq::new(i, |k: int| false),
    decreases i,
{
    if i > 0 {
        lemma_replace_pass_immune(s, d, task, (i - 1) as nat);
        assert(Seq::new((i - 1) as nat, |k: int| false).push(false) =~= Seq::new(i, |k: int| false));
    }
}

proof fn lemma_unmarked_all(s: Seq<Rect>, marks: Seq<bool>)
    requires
        forall|k: int| 0 <= k < s.len() ==> !marks[k],
    ensures
        unmarked(s, marks) == s,
    decreases s.len(),
{
    if s.len() > 0 {
        lemma_unmarked_all(s.drop_last(), marks);
        assert(s.drop_last().push(s.last()) =~= s);
    }
}

proof fn lemma_insert_pass_extends(s: Seq<Rect>, d: MutationDraws, task: TaskData, a: nat)
    ensures
        insert_pass(s, d, task, a).len() >= s.len(),
        forall|k: int| 0 <= k < s.len() ==> #[trigger] insert_pass(s, d, task, a)[k] == s[k],
    decreases a,
{
    if a > 0 {
        lemma_insert_pass_extends(s, d, task, (a - 1) as nat);
        let cur = insert_pass(s, d, task, (a - 1) as nat);
        assert forall|k: int| 0 <= k < s.len() implies #[trigger] insert_pass(s, d, task, a)[k] == s[k] by {
            assert(cur[k] == s[k]);
        }
    }
}

/// Rectangles whose propensity is zero (as in a catalog whose values are all
/// equal) are never replaced nor removed: whatever the draws, mutation keeps
/// each of them in its place and only appends.
pub proof fn lemma_immune_rects_kept(s: Seq<Rect>, d: MutationDraws, task: TaskData)
    requires
        forall|k: int| 0 <= k < s.len() ==> (#[trigger] s[k]).mut_prob == 0,
    ensures
        mutated(s, d, task).len() >= s.len(),
        forall|k: int| 0 <= k < s.len() ==> #[trigger] mutated(s, d, task)[k] == s[k],
{
    lemma_replace_pass_immune(s, d, task, s.len());
    let marks = Seq::new(s.len(), |k: int| false);
    lemma_unmarked_all(s, marks);
    lemma_insert_pass_extends(s, d, task, INSERTION_ATTEMPTS as nat);
}

impl Chromosome {
    /// One mutation, with the random draws `draws`: first the replace pass,
    /// which replaces each selected rectangle by its first acceptable
    /// candidate or marks it for removal, then the removal of the marked
    /// rectangles, then the insertion attempts.
    pub fn mutate(&mut self, task_data: &TaskData, draws: &MutationDraws)
        ensures
            final(self).rects@ == mutated(old(self).rects@, *draws, *task_data),
    {
        let ghost s0 = self.rects@;
        let n = self.rects.len();
        let empty_order: Vec<usize> = Vec::new();
        let empty_js: Vec<(i32, i32)> = Vec::new();
        let mut marks: Vec<bool> = Vec::new();
        let mut i: usize = 0;
        while i < n
            invariant
                n == s0.len(),
                self.rects@.len() == n,
                0 <= i <= n,
                marks@.len() == i,
                self.rects@ == replace_pass(s0, *draws, *task_data, i as nat).0,
                marks@ == replace_pass(s0, *draws, *task_data, i as nat).1,
                empty_order@ == Seq::<usize>::empty(),
                empty_js@ == Seq::<(i32, i32)>::empty(),
            decreases n - i,
        {
            let r = self.rects[i];
            if i < draws.rolls.len() && draws.rolls[i] < r.mut_prob {
                let nb = neighbours_of(&self.rects, r.center, task_data, Some(i));
                let order = if i < draws.orders.len() { &draws.orders[i] } else { &empty_order };
                let js = if i < draws.jitters.len() { &draws.jitters[i] } else { &empty_js };
                match find_replacement(&r, &nb, order, js, task_data) {
                    Some(c) => {
                        self.rects.set(i, c);
                        marks.push(false);
                    },
                    None => {
                        marks.push(true);
                    },
                }
            } else {
                marks.push(false);
            }
            i = i + 1;
        }
        let ghost replaced = self.rects@;
        let mut kept: Vec<Rect> = Vec::new();
        let mut j: usize = 0;
        while j < n
            invariant
                self.rects@ == replaced,
                replaced.len() == n,
                marks@.len() == n,
                0 <= j <= n,
                kept@ == unmarked(replaced.subrange(0, j as int), marks@),
            decreases n - j,
        {
            proof {
                assert(replaced.subrange(0, j + 1).drop_last() =~= replaced.subrange(0, j as int));
            }
            if !marks[j] {
                kept.push(self.rects[j]);
            }
            j = j + 1;
        }
        proof {
            assert(replaced.subrange(0, n as int) =~= replaced);
        }
        self.rects = kept;
        let ghost base = self.rects@;
        let mut a: usize = 0;
        while a < INSERTION_ATTEMPTS
            invariant
                0 <= a <= INSERTION_ATTEMPTS,
                self.rects@ == insert_pass(base, *draws, *task_data, a as nat),
                empty_order@ == Seq::<usize>::empty(),
            decreases INSERTION_ATTEMPTS - a,
        {
            if a < draws.points.len() {
                let p = draws.points[a];
                if task_data.circle.contains_point(&p) {
                    let nb = neighbours_of(&self.rects, p, task_data, None);
                    let order = if a < draws.point_orders.len() { &draws.point_orders[a] } else { &empty_order };
                    match find_fit(p, &nb, order, task_data) {
                        Some(c) => {
                            self.rects.push(c);
                        },
                        None => {},
                    }
                }
            }
            a = a + 1;
        }
    }
}

} // verus!
