use wealthy::ratio::{ratio_distribute, ratio_reduce, ratio_resolve, Edge};

#[test]
fn test_ratio_resolve() {
    let cases: [(u32, Vec<Edge>, Vec<u32>); 11] = [
        (100, vec![], vec![]),
        (
            100,
            vec![
                Edge { size: Some(100), ..Edge::default() },
                Edge { ratio: 1, ..Edge::default() },
            ],
            vec![100, 1],
        ),
        (100, vec![Edge { ratio: 1, ..Edge::default() }], vec![100]),
        (
            100,
            vec![
                Edge { ratio: 1, ..Edge::default() },
                Edge { ratio: 1, ..Edge::default() },
            ],
            vec![50, 50],
        ),
        (
            100,
            vec![
                Edge { size: Some(20), ..Edge::default() },
                Edge { ratio: 1, ..Edge::default() },
                Edge { ratio: 1, ..Edge::default() },
            ],
            vec![20, 40, 40],
        ),
        (
            100,
            vec![
                Edge { size: Some(40), ..Edge::default() },
                Edge { ratio: 2, ..Edge::default() },
                Edge { ratio: 1, ..Edge::default() },
            ],
            vec![40, 40, 20],
        ),
        (
            100,
            vec![
                Edge { size: Some(40), ..Edge::default() },
                Edge { ratio: 2, ..Edge::default() },
                Edge { ratio: 1, minimum_size: 25, ..Edge::default() },
            ],
            vec![40, 35, 25],
        ),
        (
            100,
            vec![
                Edge { ratio: 1, ..Edge::default() },
                Edge { ratio: 1, ..Edge::default() },
                Edge { ratio: 1, ..Edge::default() },
            ],
            vec![33, 33, 34],
        ),
        (
            50,
            vec![
                Edge { size: Some(30), ..Edge::default() },
                Edge { ratio: 1, minimum_size: 10, ..Edge::default() },
                Edge { size: Some(30), ..Edge::default() },
            ],
            vec![30, 10, 30],
        ),
        (
            110,
            vec![
                Edge { ratio: 1, ..Edge::default() },
                Edge { ratio: 1, ..Edge::default() },
                Edge { ratio: 1, ..Edge::default() },
            ],
            vec![36, 37, 37],
        ),
        (
            50,
            vec![
                Edge { size: Some(30), ..Edge::default() },
                Edge { ratio: 1, minimum_size: 0, ..Edge::default() },
                Edge { size: Some(30), ..Edge::default() },
            ],
            vec![30, 1, 30],
        ),
    ];
    for (total, edges, result) in cases {
        assert_eq!(
            ratio_resolve(total, &edges),
            result,
            "ratio_resolve({total}, ...)"
        );
    }
}

#[test]
fn test_ratio_resolve_sums_to_total() {
    // Flexible edges with ratios and minimums of at least one and minimums
    // that fit: the resolved sizes always sum to exactly the total.
    let sets: [(u32, Vec<Edge>); 4] = [
        (
            100,
            vec![
                Edge { size: None, ratio: 3, minimum_size: 7 },
                Edge { size: None, ratio: 1, minimum_size: 1 },
                Edge { size: None, ratio: 5, minimum_size: 40 },
            ],
        ),
        (
            17,
            vec![
                Edge { size: None, ratio: 2, minimum_size: 8 },
                Edge { size: None, ratio: 9, minimum_size: 9 },
            ],
        ),
        (
            64,
            vec![
                Edge { size: None, ratio: 1, minimum_size: 1 },
                Edge { size: None, ratio: 6, minimum_size: 2 },
                Edge { size: None, ratio: 2, minimum_size: 3 },
                Edge { size: None, ratio: 7, minimum_size: 4 },
            ],
        ),
        (3, vec![Edge { size: None, ratio: 1, minimum_size: 3 }]),
    ];
    for (total, edges) in sets {
        let sizes = ratio_resolve(total, &edges);
        let sum: u32 = sizes.iter().sum();
        assert_eq!(sum, total, "ratio_resolve({total}, ...) = {sizes:?}");
    }
}

#[test]
fn test_ratio_reduce() {
    let cases: [(i32, Vec<i32>, Vec<i32>, Vec<i32>, Vec<i32>); 7] = [
        (20, vec![2, 4], vec![20, 20], vec![5, 5], vec![-2, -8]),
        (20, vec![2, 4], vec![1, 1], vec![5, 5], vec![4, 4]),
        (20, vec![2, 4], vec![1, 1], vec![2, 2], vec![1, 1]),
        (3, vec![2, 4], vec![3, 3], vec![2, 2], vec![1, 0]),
        (3, vec![2, 4], vec![3, 3], vec![0, 0], vec![-1, -2]),
        (3, vec![0, 0], vec![3, 3], vec![4, 4], vec![4, 4]),
        (3, vec![5, -6], vec![3, 3], vec![5, 5], vec![5, 5]),
    ];
    for (total, ratios, maximums, values, result) in cases {
        assert_eq!(
            ratio_reduce(total, &ratios, &maximums, values.clone()),
            result,
            "ratio_reduce({total}, {ratios:?}, {maximums:?}, {values:?})"
        );
    }
}

#[test]
fn test_ratio_distribute() {
    let cases: [(i32, Vec<i32>, Option<Vec<i32>>, Vec<i32>); 6] = [
        (10, vec![1], None, vec![10]),
        (10, vec![1, 1], None, vec![5, 5]),
        (12, vec![1, 3], None, vec![3, 9]),
        (0, vec![1, 3], None, vec![0, 0]),
        (0, vec![1, 3], Some(vec![1, 1]), vec![1, 1]),
        (10, vec![1, 0], None, vec![10, 0]),
    ];
    for (total, ratios, minimums, result) in cases {
        assert_eq!(
            ratio_distribute(total, ratios.clone(), minimums.clone()),
            result,
            "ratio_distribute({total}, {ratios:?}, {minimums:?})"
        );
    }
}

#[test]
fn test_ratio_distribute_sums_to_total() {
    // With no minimums and nonnegative ratios the shares sum to the total.
    let sets: [(i32, Vec<i32>); 4] = [
        (100, vec![3, 1, 5]),
        (17, vec![2, 9]),
        (64, vec![1, 6, 2, 7, 0]),
        (7, vec![0, 0, 3]),
    ];
    for (total, ratios) in sets {
        let shares = ratio_distribute(total, ratios.clone(), None);
        let sum: i32 = shares.iter().sum();
        assert_eq!(sum, total, "ratio_distribute({total}, {ratios:?}) = {shares:?}");
    }
}

#[test]
fn test_edge_default() {
    let edge = Edge::default();
    assert_eq!(edge.size, None);
    assert_eq!(edge.ratio, 1);
    assert_eq!(edge.minimum_size, 1);
}
