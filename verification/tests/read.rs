use dose2gmsh::{DoseBlock, DoseError, Field};

/// Builds a `3ddose` text for a cubic grid of `n` voxels per axis with
/// integer node coordinates, doses of `1.0`, and uncertainties of `0.1`
/// except one marked voxel.
fn cubic_input(n: usize, marked: usize, marked_uncert: &str) -> String {
    let mut s = String::new();
    s.push_str(&format!("{} {} {}\n", n, n, n));
    for _ in 0..3 {
        for i in 0..=n {
            if i > 0 {
                s.push(' ');
            }
            s.push_str(&format!("{}", i));
        }
        s.push('\n');
    }
    let voxels = n * n * n;
    for i in 0..voxels {
        if i > 0 {
            s.push(' ');
        }
        s.push_str("1.0");
    }
    s.push('\n');
    for i in 0..voxels {
        if i > 0 {
            s.push(' ');
        }
        if i == marked {
            s.push_str(marked_uncert);
        } else {
            s.push_str("0.1");
        }
    }
    s.push('\n');
    s
}

#[test]
fn read_3ddose() {
    let input = cubic_input(40, 21503, "0.37652693977336593");
    let data = DoseBlock::from_3d_dose(input.as_bytes()).expect("couldn't parse 3ddose file");

    assert_eq!(data.num_voxels(), 40 * 40 * 40);
    assert_eq!(data.num_nodes(), 41 * 41 * 41);
    // x-nodes come first, then y, then z
    assert_eq!(data.grid_index(0, 0, 0), 0);
    assert_eq!(data.grid_index(0, 1, 0), 41);
    assert_eq!(data.grid_index(0, 0, 1), 1681);
    assert_eq!(data.grid_index(0, 0, 1), 1681);
    // a random uncertainty to check
    assert_eq!(data.uncerts[21503].parse::<f64>().unwrap(), 0.37652693977336593);
    assert_eq!(data.uncerts[21503], "0.37652693977336593");
}

#[test]
fn counts_queries() {
    let input = "2 3 4\n0 1 2\n0 1 2 3\n0 1 2 3 4\n".to_string()
        + &vec!["1.5"; 24].join(" ")
        + "\n"
        + &vec!["0.2"; 24].join(" ")
        + "\n";
    let data = DoseBlock::from_3d_dose(input.as_bytes()).unwrap();
    assert_eq!(data.num_x(), 2);
    assert_eq!(data.num_y(), 3);
    assert_eq!(data.num_z(), 4);
    assert_eq!(data.num_voxels(), 24);
    assert_eq!(data.num_nodes(), 3 * 4 * 5);
    assert_eq!(data.grid_index(2, 3, 4), 3 * 4 * 5 - 1);
}

#[test]
fn plus_signed_count_accepted() {
    let input = "+1 1 1\n0 1\n0 1\n0 1\n7.0\n0.5\n";
    let data = DoseBlock::from_3d_dose(input.as_bytes()).unwrap();
    assert_eq!(data.num_voxels(), 1);
}

#[test]
fn zero_voxel_count_rejected() {
    let input = "0 1 1\n0\n0 1\n0 1\n\n\n";
    let err = DoseBlock::from_3d_dose(input.as_bytes()).unwrap_err();
    assert_eq!(err, DoseError::BadToken(Field::VoxelCount));
}

#[test]
fn count_overflow_rejected() {
    let input = "18446744073709551616 1 1\n0 1\n0 1\n0 1\n1.0\n0.1\n";
    let err = DoseBlock::from_3d_dose(input.as_bytes()).unwrap_err();
    assert_eq!(err, DoseError::BadToken(Field::VoxelCount));
}

#[test]
fn huge_grid_rejected() {
    let input = "18446744073709551615 1 1\n0 1\n0 1\n0 1\n1.0\n0.1\n";
    let err = DoseBlock::from_3d_dose(input.as_bytes()).unwrap_err();
    assert_eq!(err, DoseError::GridTooLarge);
}

#[test]
fn malformed_x_coords() {
    // nx = 3 needs 4 x-coordinates but only 2 are given
    let input = "3 1 1\n0.0 1.0\n0.0 1.0\n0.0 1.0\n1.0 1.0 1.0\n0.1 0.1 0.1\n";
    let err = DoseBlock::from_3d_dose(input.as_bytes()).unwrap_err();
    assert_eq!(err, DoseError::WrongCount(Field::XCoord));
    assert_eq!(err.message(), "wrong token count: x-coordinate");
    assert!(err.message().contains("x-coordinate"));
}

#[test]
fn bad_dose_token() {
    let input = "1 1 1\n0 1\n0 1\n0 1\nabc\n0.1\n";
    let err = DoseBlock::from_3d_dose(input.as_bytes()).unwrap_err();
    assert_eq!(err, DoseError::BadToken(Field::Dose));
    assert_eq!(err.message(), "couldn't parse dose value");
}

#[test]
fn wrong_dose_count() {
    let input = "1 1 2\n0 1\n0 1\n0 1 2\n1.0\n0.1 0.1\n";
    let err = DoseBlock::from_3d_dose(input.as_bytes()).unwrap_err();
    assert_eq!(err, DoseError::WrongCount(Field::Dose));
}

#[test]
fn missing_lines() {
    assert_eq!(
        DoseBlock::from_3d_dose(b"").unwrap_err(),
        DoseError::MissingLine(Field::VoxelCount)
    );
    assert_eq!(
        DoseBlock::from_3d_dose(b"1 1 1\n").unwrap_err(),
        DoseError::MissingLine(Field::XCoord)
    );
    assert_eq!(
        DoseBlock::from_3d_dose(b"1 1 1\n0 1\n0 1\n0 1\n").unwrap_err(),
        DoseError::MissingLine(Field::Dose)
    );
    assert_eq!(
        DoseBlock::from_3d_dose(b"1 1 1\n0 1\n0 1\n0 1\n5.0\n").unwrap_err(),
        DoseError::MissingLine(Field::Uncert)
    );
}

#[test]
fn crlf_and_infinite_rejected() {
    // carriage returns before the line feeds are accepted
    let input = "1 1 1\r\n0 1\r\n0 1\r\n0 1\r\n5.0\r\n0.1\r\n";
    assert!(DoseBlock::from_3d_dose(input.as_bytes()).is_ok());
    // non-finite values are not scalar literals here
    let input = "1 1 1\n0 1\n0 1\n0 1\ninf\n0.1\n";
    assert_eq!(
        DoseBlock::from_3d_dose(input.as_bytes()).unwrap_err(),
        DoseError::BadToken(Field::Dose)
    );
}
