use speck::resolution::{Resolution, MAX_DIMENSION};

#[test]
fn bounds_and_payload_are_validated() {
    assert_eq!(Resolution::default(), Resolution::new(320, 180).unwrap());
    assert_eq!(Resolution::new(1, 1).unwrap().payload_bytes(), 3);
    assert_eq!(Resolution::new(4096, 4096).unwrap().payload_bytes(), 50_331_648);
    for (width, height) in [(0, 1), (1, 0), (4097, 1), (1, 4097), (u16::MAX, u16::MAX)] {
        assert!(Resolution::new(width, height).is_err());
    }
}

#[test]
fn refusals_name_the_first_bad_dimension() {
    assert_eq!(
        Resolution::new(0, 0),
        Err("resolution width must be between 1 and 4096, found 0".to_string())
    );
    assert_eq!(
        Resolution::new(MAX_DIMENSION, 5000),
        Err("resolution height must be between 1 and 4096, found 5000".to_string())
    );
    let resolution = Resolution::new(640, 360).unwrap();
    assert_eq!((resolution.width(), resolution.height()), (640, 360));
    assert_eq!(Resolution::default().payload_bytes(), 172_800);
}
