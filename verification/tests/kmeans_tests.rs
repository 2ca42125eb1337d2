use kmeans::{distance, equal, mean_node, nearest, train};

fn node(xs: &[f64]) -> Vec<u64> {
    xs.iter().map(|x| x.to_bits()).collect()
}

fn floats(bits: &[u64]) -> Vec<f64> {
    bits.iter().map(|b| f64::from_bits(*b)).collect()
}

#[test]
fn it_works() {
    let observations = vec![
        node(&[20.0, 20.0, 20.0, 20.0]),
        node(&[21.0, 21.0, 21.0, 21.0]),
        node(&[100.5, 100.5, 100.5, 100.5]),
        node(&[50.1, 50.1, 50.1, 50.1]),
        node(&[64.2, 64.2, 64.2, 64.2]),
    ];

    let b = observations.clone();
    let centroids = train(&observations, 2, 50);
    let c = centroids.clone();
    if let Some(c) = centroids {
        for centroid in c {
            println!("centroid: {:?}", floats(&centroid));
        }
    }

    println!("...");
    for observation in b.iter() {
        let index = nearest(observation, &c.clone().unwrap());
        println!("{:?} belongs in cluster {:?}", floats(observation), index + 1);
    }
}

#[test]
fn feasibility_gate_returns_none() {
    let points = vec![node(&[1.0, 2.0]), node(&[3.0, 4.0])];
    assert!(train(&points, 3, 10).is_none());
}

#[test]
fn dimensionality_gate_returns_none() {
    let points = vec![node(&[1.0, 2.0]), node(&[3.0, 4.0, 5.0])];
    assert!(train(&points, 1, 10).is_none());
}

#[test]
fn output_shape_matches_request() {
    let points = vec![
        node(&[0.0, 0.0]),
        node(&[1.0, 1.0]),
        node(&[9.0, 9.0]),
        node(&[10.0, 10.0]),
    ];
    let result = train(&points, 2, 25).unwrap();
    assert_eq!(result.len(), 2);
    for centroid in &result {
        assert_eq!(centroid.len(), 2);
    }
}

#[test]
fn nearest_is_idempotent() {
    let query = node(&[2.0, 3.5]);
    let candidates = vec![node(&[0.0, 0.0]), node(&[2.0, 4.0]), node(&[5.0, 5.0])];
    let first = nearest(&query, &candidates);
    let second = nearest(&query, &candidates);
    assert_eq!(first, second);
}

#[test]
fn nearest_tie_break_picks_first() {
    let query = node(&[0.0]);
    let candidates = vec![node(&[0.0]), node(&[0.0])];
    assert_eq!(nearest(&query, &candidates), 0);
}

#[test]
fn nearest_prefers_strictly_closer() {
    let query = node(&[9.0]);
    let candidates = vec![node(&[0.0]), node(&[8.0])];
    assert_eq!(nearest(&query, &candidates), 1);
}

#[test]
fn converges_on_two_plain_clusters() {
    let points = vec![
        node(&[0.0, 0.0]),
        node(&[0.0, 0.0]),
        node(&[10.0, 10.0]),
        node(&[10.0, 10.0]),
    ];
    let result = train(&points, 2, 50).unwrap();
    assert_eq!(result.len(), 2);

    let low = node(&[0.0, 0.0]);
    let high = node(&[10.0, 10.0]);
    let hits_low = result.iter().filter(|c| equal(c, &low)).count();
    let hits_high = result.iter().filter(|c| equal(c, &high)).count();
    assert_eq!(hits_low, 1);
    assert_eq!(hits_high, 1);

    let c0 = nearest(&points[0], &result);
    let c1 = nearest(&points[1], &result);
    let c2 = nearest(&points[2], &result);
    let c3 = nearest(&points[3], &result);
    assert_eq!(c0, c1);
    assert_eq!(c2, c3);
    assert_ne!(c0, c2);
}

#[test]
fn zero_rounds_returns_seeds_unchanged() {
    let points = vec![node(&[1.0]), node(&[2.0]), node(&[3.0])];
    let result = train(&points, 3, 0).unwrap();
    assert_eq!(result.len(), 3);
    for centroid in &result {
        assert!(points.iter().any(|p| p == centroid));
    }
}

#[test]
fn empty_cluster_keeps_its_position() {
    let points = vec![node(&[0.0]), node(&[0.0])];
    let result = train(&points, 2, 10).unwrap();
    assert_eq!(result, vec![node(&[0.0]), node(&[0.0])]);
}

#[test]
fn nan_query_biases_toward_first_candidate() {
    let query = node(&[f64::NAN]);
    let candidates = vec![node(&[1.0]), node(&[2.0])];
    assert_eq!(nearest(&query, &candidates), 0);
}

#[test]
fn mean_of_three_points() {
    let group = vec![node(&[1.0, 1.0]), node(&[3.0, 3.0]), node(&[5.0, 5.0])];
    assert_eq!(mean_node(&group), node(&[3.0, 3.0]));
}

#[test]
fn epsilon_equality_tolerates_tiny_differences() {
    let below_epsilon = f64::EPSILON / 2.0;
    assert!(equal(&node(&[0.0, 1.0]), &node(&[below_epsilon, 1.0])));
    assert!(equal(&node(&[1.0]), &node(&[1.0])));
}

#[test]
fn epsilon_equality_rejects_larger_differences() {
    let above_epsilon = f64::EPSILON * 2.0;
    assert!(!equal(&node(&[0.0, 1.0]), &node(&[above_epsilon, 1.0])));
    assert!(!equal(&node(&[0.0]), &node(&[1.0])));
}

#[test]
fn equality_requires_same_dimensionality() {
    assert!(!equal(&node(&[1.0]), &node(&[1.0, 1.0])));
}

#[test]
fn squared_distance_sums_squares() {
    let a = node(&[1.0, 2.0]);
    let b = node(&[3.0, 4.0]);
    assert_eq!(distance(&a, &b), 8.0f64.to_bits());
    assert_eq!(distance(&a, &a), 0.0f64.to_bits());
}
