use recsys::engine::{Cosine, RecEngine};

fn small() -> Vec<Vec<i32>> {
    vec![vec![5, 3, 0], vec![4, 0, 2], vec![1, 3, 0]]
}

fn example() -> Vec<Vec<i32>> {
    vec![
        vec![5, 3, 0, 4],
        vec![4, 0, 4, 4],
        vec![1, 1, 0, 1],
        vec![1, 0, 3, 4],
        vec![0, 3, 3, 4],
        vec![2, 1, 3, 0],
    ]
}

#[test]
fn mask_marks_exactly_the_non_sentinel_cells() {
    let v = example();
    let e = RecEngine::new(v.clone(), 0, 2);
    let mask = e.get_mask();
    for i in 0..v.len() {
        for j in 0..v[i].len() {
            assert_eq!(mask[i][j], v[i][j] != 0);
            assert_eq!(e.is_rated(i, j), v[i][j] != 0);
        }
    }
}

#[test]
fn mask_with_a_nonzero_sentinel() {
    let e = RecEngine::new(vec![vec![-1, 0, 2], vec![0, -1, -1]], -1, 1);
    assert_eq!(e.get_mask(), &vec![vec![false, true, true], vec![true, false, false]]);
    assert_eq!(e.get_mask_value(), -1);
}

#[test]
fn centered_rows_are_exact_and_scaled_by_count() {
    let e = RecEngine::new(small(), 0, 2);
    assert_eq!(e.get_centered(), &vec![vec![2, -2, 0], vec![2, 0, -2], vec![-2, 2, 0]]);
    // row [5, 3, 0, 4]: three ratings summing to 12
    let e2 = RecEngine::new(example(), 0, 2);
    assert_eq!(e2.get_centered()[0], vec![3, -3, 0, 0]);
}

#[test]
fn centered_rows_sum_to_zero_and_unobserved_are_zero() {
    let v = example();
    let e = RecEngine::new(v.clone(), 0, 2);
    for (i, row) in e.get_centered().iter().enumerate() {
        assert_eq!(row.iter().sum::<i64>(), 0);
        for j in 0..row.len() {
            if v[i][j] == 0 {
                assert_eq!(row[j], 0);
            }
        }
    }
}

#[test]
fn similarity_table_holds_exact_dot_products() {
    let e = RecEngine::new(small(), 0, 2);
    assert_eq!(e.get_sim(), &vec![vec![8, 4, -8], vec![4, 8, -4], vec![-8, -4, 8]]);
    assert_eq!(e.sim(0, 2), Some(Cosine { dot: -8, left: 8, right: 8 }));
    assert_eq!(e.sim(1, 0), Some(Cosine { dot: 4, left: 8, right: 8 }));
    assert_eq!(e.sim(3, 0), None);
    assert_eq!(e.sim(0, 3), None);
}

#[test]
fn similarity_is_symmetric_and_bounded() {
    let e = RecEngine::new(example(), 0, 2);
    let (n, _) = e.dim();
    for i in 0..n {
        for j in 0..n {
            let a = e.sim(i, j).unwrap();
            let b = e.sim(j, i).unwrap();
            assert_eq!(a.dot, b.dot);
            assert!(a.dot * a.dot <= a.left * a.right);
            if a.left > 0 && a.right > 0 {
                let c = a.dot as f64 / ((a.left as f64).sqrt() * (a.right as f64).sqrt());
                assert!((-1.0 - 1e-9..=1.0 + 1e-9).contains(&c));
            }
        }
    }
}

#[test]
fn all_sentinel_matrix_gives_zero_tables() {
    let e = RecEngine::new(vec![vec![0, 0], vec![0, 0]], 0, 1);
    assert_eq!(e.observed_count(), 0);
    assert_eq!(e.get_centered(), &vec![vec![0, 0], vec![0, 0]]);
    assert_eq!(e.get_sim(), &vec![vec![0, 0], vec![0, 0]]);
}

#[test]
fn empty_matrix_is_accepted() {
    let e = RecEngine::new(Vec::new(), 0, 3);
    assert_eq!(e.dim(), (0, 0));
    assert_eq!(e.observed_count(), 0);
    assert_eq!(e.sim(0, 0), None);
}

#[test]
fn observed_count_counts_every_rating() {
    let e = RecEngine::new(example(), 0, 2);
    assert_eq!(e.observed_count(), 18);
    assert_eq!(e.dim(), (6, 4));
    assert_eq!(e.default_k(), 2);
    assert_eq!(e.get_ratings(), &example());
}

#[test]
fn construction_is_deterministic() {
    let a = RecEngine::new(example(), 0, 2);
    let b = RecEngine::new(example(), 0, 5);
    assert_eq!(a.get_mask(), b.get_mask());
    assert_eq!(a.get_centered(), b.get_centered());
    assert_eq!(a.get_sim(), b.get_sim());
}

#[test]
fn top_k_sim_orders_by_score_and_leaves_out_the_user() {
    let e = RecEngine::new(small(), 0, 2);
    let scores = vec![100, 50, -100];
    assert_eq!(e.get_top_k_sim(&scores, 0, 2), vec![(50, 1), (-100, 2)]);
    assert_eq!(e.get_top_k_sim(&scores, 0, 1), vec![(50, 1)]);
    assert_eq!(e.get_top_k_sim_users(&scores, 0, 5), vec![1, 2]);
    assert_eq!(e.get_top_k_sim(&scores, 0, 0), vec![]);
}

#[test]
fn top_k_sim_with_rating_keeps_only_raters_of_the_item() {
    let e = RecEngine::new(small(), 0, 2);
    let scores = vec![100, 50, -100];
    // item 1 is rated by users 0 and 2
    assert_eq!(e.get_top_k_sim_with_rating(&scores, 0, 2, 1), vec![(-100, 2)]);
    // item 2 is rated by user 1 alone
    assert_eq!(e.get_top_k_sim_with_rating(&scores, 0, 2, 2), vec![(50, 1)]);
    assert_eq!(e.get_top_k_sim_with_rating(&scores, 1, 2, 2), vec![]);
}

#[test]
fn prediction_neighbours_cover_exactly_the_unrated_cells() {
    let e = RecEngine::new(small(), 0, 2);
    let keys = vec![vec![100, 50, -100], vec![50, 100, -50], vec![-100, -50, 100]];
    let plan = e.get_prediction_neighbours(&keys);
    assert_eq!(
        plan,
        vec![
            vec![None, None, Some(vec![1])],
            vec![None, Some(vec![0, 2]), None],
            vec![None, None, Some(vec![1])],
        ]
    );
}

#[test]
fn prediction_neighbours_use_the_default_k() {
    let e = RecEngine::new(example(), 0, 1);
    let keys: Vec<Vec<i64>> = (0..6).map(|i| (0..6).map(|c| if c == i { 100 } else { c as i64 }).collect()).collect();
    let plan = e.get_prediction_neighbours(&keys);
    // user 0 has not rated item 2; of its raters (1, 3, 4, 5) user 5 has the highest key
    assert_eq!(plan[0][2], Some(vec![5]));
    // user 4 has not rated item 0; of its raters (0, 1, 2, 3, 5) user 5 ranks first
    assert_eq!(plan[4][0], Some(vec![5]));
    assert_eq!(plan[0][0], None);
}

#[test]
fn mask_and_center_counts_ratings() {
    let (mask, centered, count) = RecEngine::mask_and_center(&small(), 0);
    assert_eq!(mask, vec![vec![true, true, false], vec![true, false, true], vec![true, true, false]]);
    assert_eq!(centered, vec![vec![2, -2, 0], vec![2, 0, -2], vec![-2, 2, 0]]);
    assert_eq!(count, 6);
}
