use openshell_holonomy_consensus::encoding::{Vector48, DIRECTION_COUNT};

#[test]
fn directions_are_exact_unit_vectors() {
    let dirs = Vector48::all_directions();
    assert_eq!(dirs.len(), DIRECTION_COUNT);
    for (xn, xd, yn, yd) in dirs.iter() {
        let (xn, xd, yn, yd) = (*xn as i64, *xd as i64, *yn as i64, *yd as i64);
        assert_eq!(xn * xn * yd * yd + yn * yn * xd * xd, xd * xd * yd * yd);
    }
}

#[test]
fn direction_lookup() {
    assert_eq!(Vector48(0).direction(), (1, 1, 0, 1));
    assert_eq!(Vector48(4).direction(), (3, 5, 4, 5));
    assert_eq!(Vector48(47).direction(), (-40, 41, -9, 41));
    assert_eq!(Vector48::COUNT, 48);
}

#[test]
fn test_all_48_directions() {
    for i in 0..48 {
        let (xn, xd, yn, yd) = Vector48(i as u8).direction();
        let x = xn as f32 / xd as f32;
        let y = yn as f32 / yd as f32;
        let mag = (x * x + y * y).sqrt();
        assert!((mag - 1.0).abs() < 0.001);
    }
}

#[test]
fn directions_are_pairwise_distinct() {
    let dirs = Vector48::all_directions();
    for i in 0..48 {
        for j in (i + 1)..48 {
            assert_ne!(dirs[i], dirs[j], "codes {} and {} share a direction", i, j);
        }
    }
    assert_eq!(Vector48(20).direction(), (20, 29, 21, 29));
    assert_eq!(Vector48(23).direction(), (-20, 29, -21, 29));
}
