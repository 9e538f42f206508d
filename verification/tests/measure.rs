use wealthy::measure::Measurement;

#[test]
fn test_new_and_span() {
    let measure = Measurement::new(10, 100);
    assert_eq!(measure.minimum, 10);
    assert_eq!(measure.maximum, 100);
    assert_eq!(measure.span(), 90);
}

#[test]
fn test_normalize() {
    assert_eq!(Measurement::new(100, 10).normalize(), Measurement::new(10, 10));
    assert_eq!(Measurement::new(10, 100).normalize(), Measurement::new(10, 100));
}

#[test]
fn test_with_maximum() {
    assert_eq!(Measurement::new(100, 10).with_maximum(1), Measurement::new(1, 1));
    assert_eq!(Measurement::new(3, 9).with_maximum(5), Measurement::new(3, 5));
}

#[test]
fn test_with_minimum() {
    assert_eq!(
        Measurement::new(100, 10).with_minimum(1000),
        Measurement::new(1000, 1000)
    );
    assert_eq!(Measurement::new(3, 9).with_minimum(5), Measurement::new(5, 9));
}

#[test]
fn test_clamp() {
    let cases: [(Option<u32>, Option<u32>, u32, u32); 5] = [
        (Some(10), Some(50), 20, 50),
        (Some(30), Some(50), 30, 50),
        (None, Some(50), 20, 50),
        (Some(30), None, 30, 100),
        (None, None, 20, 100),
    ];
    for (min_width, max_width, minimum, maximum) in cases {
        let measurement = Measurement::new(20, 100);
        assert_eq!(
            measurement.clamp(min_width, max_width),
            Measurement { minimum, maximum }
        );
    }
}
