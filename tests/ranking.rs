use recsys::ranking::top_k;

#[test]
fn top_k_breaks_ties_by_lower_index() {
    let scores = vec![0, 7, 7, 9, 7];
    let all = vec![true; 5];
    assert_eq!(top_k(&scores, &all, 0, 3), vec![3, 1, 2]);
    assert_eq!(top_k(&scores, &all, 0, 10), vec![3, 1, 2, 4]);
    assert_eq!(top_k(&scores, &all, 3, 2), vec![1, 2]);
}

#[test]
fn top_k_of_zero_is_empty() {
    let scores = vec![1, 2, 3];
    assert_eq!(top_k(&scores, &vec![true; 3], 0, 0), Vec::<usize>::new());
}

#[test]
fn top_k_skips_ineligible_rows() {
    let scores = vec![5, 4, 3, 2, 1];
    let eligible = vec![true, false, true, false, true];
    assert_eq!(top_k(&scores, &eligible, 0, 5), vec![2, 4]);
    assert_eq!(top_k(&scores, &eligible, 9, 2), vec![0, 2]);
}

#[test]
fn top_k_size_is_min_of_k_and_candidates() {
    let scores = vec![3, -1, 4, 1, -5, 9, 2, 6];
    let eligible = vec![true, true, false, true, true, true, false, true];
    let candidates = 5; // eligible rows other than row 0
    for k in 0..9 {
        let r = top_k(&scores, &eligible, 0, k);
        assert_eq!(r.len(), k.min(candidates));
        assert!(!r.contains(&0));
        for w in r.windows(2) {
            assert!(scores[w[0]] >= scores[w[1]]);
        }
    }
}
