use arka::graph::entity_resolution::candidate_generator::{
    check_embeddings, generate_candidate_pairs, CandidateInputError,
};

fn ids(names: &[&str]) -> Vec<String> {
    names.iter().map(|n| n.to_string()).collect()
}

/// Every entity sees every other with rank `5 - distance`, as for vectors
/// whose angles grow evenly.
fn graded(n: usize) -> Vec<Vec<Option<u64>>> {
    (0..n)
        .map(|s| (0..n).map(|c| if s == c { None } else { Some(5 - s.abs_diff(c) as u64) }).collect())
        .collect()
}

#[test]
fn lists_a_mutual_pair_once() {
    let names = ids(&["carbon-dioxide", "co2"]);
    let scores = vec![vec![None, Some(7)], vec![Some(7), None]];
    let pairs = generate_candidate_pairs(&names, &vec![2, 2], &vec![false, false], &scores, 3).unwrap();
    assert_eq!(pairs, vec![(0, 1)]);
}

#[test]
fn nothing_below_the_threshold_is_listed() {
    let names = ids(&["carbon-dioxide", "oxygen"]);
    let scores = vec![vec![None, None], vec![None, None]];
    let pairs = generate_candidate_pairs(&names, &vec![2, 2], &vec![false, false], &scores, 3).unwrap();
    assert!(pairs.is_empty());
}

#[test]
fn each_entity_keeps_at_most_its_best_three() {
    let names = ids(&["a", "b", "c", "d", "e"]);
    let pairs = generate_candidate_pairs(&names, &vec![2; 5], &vec![false; 5], &graded(5), 3).unwrap();
    let from_a: Vec<usize> = pairs.iter().filter(|(s, _)| *s == 0).map(|(_, c)| *c).collect();
    assert_eq!(from_a.len(), 3);
    assert!(!from_a.contains(&4));
    for s in 0..5 {
        assert!(pairs.iter().filter(|(x, _)| *x == s).count() <= 3);
    }
    for (s, c) in &pairs {
        assert!(!pairs.contains(&(*c, *s)));
    }
}

#[test]
fn self_scores_are_ignored() {
    let names = ids(&["a", "b"]);
    let scores = vec![vec![Some(9), None], vec![None, Some(9)]];
    let pairs = generate_candidate_pairs(&names, &vec![1, 1], &vec![false, false], &scores, 3).unwrap();
    assert!(pairs.is_empty());
}

#[test]
fn ties_are_ordered_by_stable_ids_not_input_order() {
    let names = ids(&["z", "b", "a"]);
    let scores = vec![
        vec![None, Some(1), Some(1)],
        vec![Some(1), None, Some(1)],
        vec![Some(1), Some(1), None],
    ];
    let pairs = generate_candidate_pairs(&names, &vec![1; 3], &vec![false; 3], &scores, 1).unwrap();
    // `a` keeps `b`, `b` would keep `a` (already listed), `z` keeps `a`.
    assert_eq!(pairs, vec![(2, 1), (0, 2)]);
}

#[test]
fn higher_similarity_comes_first() {
    let names = ids(&["a", "b", "c"]);
    let scores = vec![
        vec![None, Some(1), Some(3)],
        vec![Some(1), None, Some(2)],
        vec![Some(3), Some(2), None],
    ];
    let pairs = generate_candidate_pairs(&names, &vec![1; 3], &vec![false; 3], &scores, 3).unwrap();
    assert_eq!(pairs, vec![(0, 2), (1, 2), (0, 1)]);
}

#[test]
fn batch_problems_are_reported_in_id_order() {
    let names = ids(&["b", "a", "c"]);
    assert_eq!(
        check_embeddings(&names, &vec![3, 2, 3], &vec![false, false, false]),
        Some(CandidateInputError::DimensionMismatch { entity_id: String::from("b"), expected: 2, actual: 3 })
    );
    let names = ids(&["x", "y", "x"]);
    assert_eq!(
        check_embeddings(&names, &vec![2, 2, 2], &vec![false, false, false]),
        Some(CandidateInputError::DuplicateEntityId { entity_id: String::from("x") })
    );
    let names = ids(&["x", "y"]);
    assert_eq!(
        check_embeddings(&names, &vec![2, 2], &vec![false, true]),
        Some(CandidateInputError::ZeroMagnitudeVector { entity_id: String::from("y") })
    );
    assert_eq!(check_embeddings(&names, &vec![2, 2], &vec![false, false]), None);
}
