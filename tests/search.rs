use circle_packing::{normalized_value, Chromosome, Evolution, MutationDraws, Pos, Rect, TaskData, ViableRect};

fn catalog() -> TaskData {
    TaskData::new(
        100,
        vec![
            ViableRect::new(10, 10, 30, 5_000_000),
            ViableRect::new(20, 10, 10, 2_500_000),
            ViableRect::new(4, 4, 20, 4_000_000),
        ],
    )
}

fn no_draws() -> MutationDraws {
    MutationDraws { rolls: vec![], orders: vec![], jitters: vec![], points: vec![], point_orders: vec![] }
}

fn square(x: i32, y: i32, side: i32, value: i32) -> Rect {
    Rect::new(&Pos { x, y }, side, side, value, 0)
}

#[test]
fn catalog_sorts_and_bounds() {
    let t = catalog();
    let values: Vec<i32> = t.rects.iter().map(|r| r.value).collect();
    assert_eq!(values, vec![10, 20, 30]);
    assert_eq!(t.min_value, 10);
    assert_eq!(t.max_value, 30);
    assert_eq!(t.max_width, 10);
    assert_eq!(t.max_height, 20);
    assert_eq!(t.circle.radius, 100);
}

#[test]
fn empty_catalog_bounds() {
    let t = TaskData::new(5, vec![]);
    assert_eq!(t.min_value, i32::MAX);
    assert_eq!(t.max_value, 0);
    assert!(t.rects.is_empty());
}

#[test]
fn normalized_value_scales_and_flags_equal_bounds() {
    assert_eq!(normalized_value(10, 10, 30), Some(0));
    assert_eq!(normalized_value(20, 10, 30), Some(500_000_000));
    assert_eq!(normalized_value(30, 10, 30), Some(1_000_000_000));
    assert_eq!(normalized_value(15, 10, 40), Some(166_666_666));
    // all values equal: no quotient is formed
    assert_eq!(normalized_value(7, 7, 7), None);
    let t = TaskData::new(50, vec![ViableRect::new(1, 1, 7, 0), ViableRect::new(2, 2, 7, 0)]);
    for r in &t.rects {
        assert_eq!(normalized_value(r.value, t.min_value, t.max_value), None);
    }
}

#[test]
fn score_sums_values() {
    let c = Chromosome::from_halves(vec![square(0, 0, 2, 5)], vec![square(10, 0, 2, -2), square(20, 0, 2, 9)]);
    assert_eq!(c.rects.len(), 3);
    assert_eq!(c.score(), 12);
    assert_eq!(Chromosome::new().score(), 0);
}

#[test]
fn crossover_drops_straddlers_and_swaps_halves() {
    let t = catalog();
    let a = Chromosome::from_halves(vec![square(-20, 0, 10, 1), square(0, 0, 10, 2)], vec![square(20, 0, 10, 3)]);
    let b = Chromosome::from_halves(vec![square(-30, 5, 4, 4)], vec![square(30, 5, 4, 5), square(3, 40, 4, 6)]);
    let (c1, c2) = Chromosome::crossover(&a, &b, &t, 2);
    let v1: Vec<i32> = c1.rects.iter().map(|r| r.value).collect();
    let v2: Vec<i32> = c2.rects.iter().map(|r| r.value).collect();
    // a's square at 0 and b's square at (3, 40) meet the line x = 2: dropped
    assert_eq!(v1, vec![1, 5]);
    assert_eq!(v2, vec![4, 3]);
    assert!(c1.rects.len() + c2.rects.len() <= a.rects.len() + b.rects.len());
    for c in [&c1, &c2] {
        for i in 0..c.rects.len() {
            for j in 0..c.rects.len() {
                if i != j {
                    assert!(!c.rects[i].overlaps(&c.rects[j]));
                }
            }
        }
    }
}

#[test]
fn crossover_clamps_the_cut() {
    let t = catalog();
    let a = Chromosome::from_halves(vec![square(-50, 0, 10, 1), square(50, 0, 10, 2)], vec![]);
    let b = Chromosome::new();
    // a cut far right is clamped to x = 100: everything of a is left of it
    let (c1, c2) = Chromosome::crossover(&a, &b, &t, 100_000);
    assert_eq!(c1.rects.len(), 2);
    assert_eq!(c2.rects.len(), 0);
    let (c1, c2) = Chromosome::crossover(&a, &b, &t, -100_000);
    assert_eq!(c1.rects.len(), 0);
    assert_eq!(c2.rects.len(), 2);
}

#[test]
fn mutation_without_draws_changes_nothing() {
    let t = catalog();
    let mut c = Chromosome::from_halves(vec![square(0, 0, 4, 20)], vec![]);
    c.mutate(&t, &no_draws());
    assert_eq!(c.rects.len(), 1);
    assert_eq!((c.rects[0].center.x, c.rects[0].center.y, c.rects[0].value), (0, 0, 20));
}

#[test]
fn mutation_replaces_with_first_acceptable_template() {
    let t = catalog();
    let placed = Rect::new(&Pos { x: 0, y: 0 }, 4, 4, 20, 4_000_000);
    let mut c = Chromosome::from_halves(vec![placed], vec![]);
    let draws = MutationDraws {
        rolls: vec![0],
        // index 7 is not in the catalog; index 2 (10 x 10, value 30) at (3, -4)
        // overlaps only the rectangle's own old place, which is no neighbour
        orders: vec![vec![7, 2, 0]],
        jitters: vec![vec![(0, 0), (3, -4), (0, 0)]],
        points: vec![],
        point_orders: vec![],
    };
    c.mutate(&t, &draws);
    assert_eq!(c.rects.len(), 1);
    let r = c.rects[0];
    assert_eq!((r.center.x, r.center.y, r.value, r.width, r.height), (3, -4, 30, 10, 10));
    assert_eq!(r.mut_prob, 5_000_000);
}

#[test]
fn mutation_accepts_covered_template_despite_overlap() {
    let t = catalog();
    let big = Rect::new(&Pos { x: 0, y: 0 }, 10, 10, 30, 5_000_000);
    let neighbour = square(7, 0, 2, 1);
    let mut c = Chromosome::from_halves(vec![big, neighbour], vec![]);
    let draws = MutationDraws {
        rolls: vec![4_999_999],
        // the 4 x 4 template at (5, 0) overlaps the neighbour, but the old
        // rectangle covers it, so its overlaps are not tested
        orders: vec![vec![1]],
        jitters: vec![vec![(5, 0)]],
        points: vec![],
        point_orders: vec![],
    };
    c.mutate(&t, &draws);
    assert_eq!(c.rects.len(), 2);
    let r = c.rects[0];
    assert_eq!((r.center.x, r.center.y, r.value), (5, 0, 20));
    assert!(r.overlaps(&c.rects[1]));
}

#[test]
fn mutation_removes_rectangle_without_replacement() {
    let t = catalog();
    let placed = Rect::new(&Pos { x: 0, y: 0 }, 4, 4, 20, 4_000_000);
    let keep = square(50, 50, 2, 1);
    let mut c = Chromosome::from_halves(vec![placed, keep], vec![]);
    let draws = MutationDraws {
        rolls: vec![3_999_999, 999_999_999],
        // every candidate lands outside the boundary
        orders: vec![vec![0, 1, 2]],
        jitters: vec![vec![(500, 0), (0, 500), (-500, 0)]],
        points: vec![],
        point_orders: vec![],
    };
    c.mutate(&t, &draws);
    assert_eq!(c.rects.len(), 1);
    assert_eq!(c.rects[0].center.x, 50);
}

#[test]
fn mutation_rejects_overlapping_candidate_unless_covered() {
    let t = catalog();
    let small = Rect::new(&Pos { x: 0, y: 0 }, 4, 4, 20, 4_000_000);
    let neighbour = square(6, 0, 4, 1);
    let mut c = Chromosome::from_halves(vec![small, neighbour], vec![]);
    let draws = MutationDraws {
        rolls: vec![0],
        // the 10x10 template at the same center would overlap the neighbour
        orders: vec![vec![2]],
        jitters: vec![vec![(0, 0)]],
        points: vec![],
        point_orders: vec![],
    };
    c.mutate(&t, &draws);
    assert_eq!(c.rects.len(), 1);
    assert_eq!(c.rects[0].center.x, 6);
}

#[test]
fn mutation_inserts_at_points_inside_the_boundary() {
    let t = catalog();
    let mut c = Chromosome::new();
    let draws = MutationDraws {
        rolls: vec![],
        orders: vec![],
        jitters: vec![],
        points: vec![Pos { x: 90, y: 90 }, Pos { x: 0, y: 0 }, Pos { x: 3, y: 0 }, Pos { x: 40, y: 0 }],
        point_orders: vec![vec![0], vec![2, 1], vec![0, 1, 2], vec![9, 1]],
    };
    c.mutate(&t, &draws);
    // (90, 90) lies outside; (3, 0) meets the square at the origin everywhere
    let got: Vec<(i32, i32, i32)> = c.rects.iter().map(|r| (r.center.x, r.center.y, r.value)).collect();
    assert_eq!(got, vec![(0, 0, 30), (40, 0, 20)]);
}

#[test]
fn evolution_keeps_population_size() {
    let mut evo = Evolution::new(8, catalog());
    assert_eq!(evo.population.len(), 8);
    assert_eq!(evo.get_best_result(), 0);
    for g in 0..5 {
        let draws: Vec<MutationDraws> = (0..8)
            .map(|m| MutationDraws {
                rolls: vec![],
                orders: vec![],
                jitters: vec![],
                points: vec![Pos { x: (m * 11 + g * 7) % 80 - 40, y: (m * 5) % 60 - 30 }],
                point_orders: vec![vec![(m as usize) % 3]],
            })
            .collect();
        evo.advance(&vec![0, 0], &draws);
        assert_eq!(evo.population.len(), 8);
    }
    assert!(evo.get_best_result() > 0);
}

#[test]
fn crossover_step_carries_elites() {
    let t = catalog();
    let mut evo = Evolution::new(4, t);
    evo.population[0] = Chromosome::from_halves(vec![square(-50, 0, 4, 1)], vec![]);
    evo.population[1] = Chromosome::from_halves(vec![square(-50, 0, 4, 9)], vec![]);
    evo.population[2] = Chromosome::from_halves(vec![square(50, 0, 4, 5)], vec![]);
    evo.population[3] = Chromosome::new();
    assert_eq!(evo.ranking(), vec![1, 2, 0, 3]);
    evo.advance_crossover(&vec![0]);
    let scores: Vec<i128> = evo.population.iter().map(|c| c.score()).collect();
    // children of the best two (left of 9 with right of 5, and the rest),
    // then the best two themselves
    assert_eq!(scores, vec![14, 0, 9, 5]);
    assert_eq!(evo.get_best_result(), 14);
    // the elite copies score at least as much as the dropped bottom half (1 and 0)
    for elite in &evo.population[2..4] {
        assert!(elite.score() >= 1);
    }
}

#[test]
fn insertions_never_overlap() {
    let t = catalog();
    let mut c = Chromosome::new();
    for round in 0..6 {
        let points: Vec<Pos> = (0..10).map(|a| Pos { x: (a * 17 + round * 13) % 140 - 70, y: (a * 29 + round * 7) % 140 - 70 }).collect();
        let point_orders: Vec<Vec<usize>> = (0..10).map(|a| vec![(a + round as usize) % 3, 0, 1, 2]).collect();
        let draws = MutationDraws { rolls: vec![], orders: vec![], jitters: vec![], points, point_orders };
        c.mutate(&t, &draws);
    }
    assert!(c.rects.len() > 3);
    for i in 0..c.rects.len() {
        for j in 0..c.rects.len() {
            if i != j {
                assert!(!c.rects[i].overlaps(&c.rects[j]));
            }
        }
    }
}

#[test]
fn catalog_maxima_of_negative_values() {
    let t = TaskData::new(10, vec![ViableRect::new(3, 2, -5, 0), ViableRect::new(1, 4, -9, 0)]);
    assert_eq!(t.max_value, -5);
    assert_eq!(t.min_value, -9);
    assert_eq!(t.max_width, 4);
    assert_eq!(t.max_height, 3);
}

#[test]
fn best_result_of_negative_scores() {
    let mut evo = Evolution::new(4, catalog());
    for c in evo.population.iter_mut() {
        *c = Chromosome::from_halves(vec![square(0, 0, 2, -2)], vec![]);
    }
    evo.population[3] = Chromosome::from_halves(vec![square(0, 0, 2, -7)], vec![]);
    assert_eq!(evo.get_best_result(), -2);
}

#[test]
fn equal_values_give_zero_propensity() {
    let mut t = TaskData::new(50, vec![ViableRect::new(1, 1, 7, 0), ViableRect::new(2, 2, 7, 0)]);
    t.set_propensities(&vec![3_000_000, 4_000_000]);
    assert!(t.rects.iter().all(|r| r.mut_prob == 0));
    let placed = Rect::from_template(&Pos { x: 0, y: 0 }, &t.rects[1]);
    let mut c = Chromosome::from_halves(vec![placed], vec![]);
    let draws = MutationDraws { rolls: vec![0], orders: vec![vec![0]], jitters: vec![vec![(40, 0)]], points: vec![], point_orders: vec![] };
    c.mutate(&t, &draws);
    assert_eq!(c.rects.len(), 1);
    assert_eq!((c.rects[0].center.x, c.rects[0].width), (0, 2));
}

#[test]
fn distinct_values_take_the_curve() {
    let mut t = catalog();
    t.set_propensities(&vec![5_000_000, 3_000_000, 2_500_000]);
    let probs: Vec<u32> = t.rects.iter().map(|r| r.mut_prob).collect();
    assert_eq!(probs, vec![5_000_000, 3_000_000, 2_500_000]);
}

#[test]
fn value_density_and_its_sentinel() {
    let v = ViableRect::new(10, 7, 20, 0);
    assert_eq!(v.avgvalue, Some(3));
    assert_eq!(ViableRect::new(10, 7, -20, 0).avgvalue, Some(-3));
    assert_eq!(ViableRect::new(10, 7, 0, 0).avgvalue, None);
    let r = Rect::new(&Pos { x: 1, y: 1 }, 4, 5, 6, 0);
    assert_eq!(r.avgvalue, Some(3));
    assert_eq!(Rect::new(&Pos { x: 1, y: 1 }, 4, 5, 0, 0).avgvalue, None);
}

#[test]
fn position_difference() {
    let p = Pos { x: 5, y: -3 };
    let d = p.checked_sub(&Pos { x: 7, y: -10 }).unwrap();
    assert_eq!((d.x, d.y), (-2, 7));
    assert!(Pos { x: i32::MIN, y: 0 }.checked_sub(&Pos { x: 1, y: 0 }).is_none());
}
