use brouter_client::Error;
use brouter_client::Nogo;
use brouter_client::Point;
use brouter_client::TurnInstructionMode;

#[test]
fn test_point_new() {
    let point = Point::new("52.52".to_string(), "13.405".to_string());
    assert_eq!(point.lat().as_str(), "52.52");
    assert_eq!(point.lon().as_str(), "13.405");
}

#[test]
fn test_nogo_point_weight() {
    let nogo = Nogo::Point {
        point: Point::new("52.52".to_string(), "13.405".to_string()),
        radius: "100".to_string(),
        weight: Some("10".to_string()),
    };
    assert_eq!(nogo.weight(), Some("10".to_string()));
}

#[test]
fn test_nogo_line_weight() {
    let nogo = Nogo::Line {
        points: vec![
            Point::new("52.52".to_string(), "13.405".to_string()),
            Point::new("52.53".to_string(), "13.415".to_string()),
        ],
        weight: Some("5".to_string()),
    };
    assert_eq!(nogo.weight(), Some("5".to_string()));
}

#[test]
fn test_nogo_polygon_weight() {
    let nogo = Nogo::Polygon {
        points: vec![
            Point::new("52.52".to_string(), "13.405".to_string()),
            Point::new("52.53".to_string(), "13.415".to_string()),
            Point::new("52.525".to_string(), "13.41".to_string()),
        ],
        weight: None,
    };
    assert_eq!(nogo.weight(), None);
}

#[test]
fn test_turn_instruction_mode_default() {
    let mode = TurnInstructionMode::default();
    assert_eq!(mode as i32, 0);
}

#[test]
fn test_error_display() {
    let error = Error::InvalidGpx("test error".to_string());
    assert_eq!(error.message(), "Invalid GPX: test error");

    let error = Error::NoRouteFound(42);
    assert_eq!(error.message(), "No route found: 42");

    let error = Error::PassTimeout {
        pass: "1".to_string(),
        timeout: "30".to_string(),
    };
    assert_eq!(error.message(), "Pass 1 timeout after 30 seconds");

    let error = Error::MissingDataFile("test.rd5".to_string());
    assert_eq!(error.message(), "Missing data file: test.rd5");

    let error = Error::Other("custom error".to_string());
    assert_eq!(error.message(), "Error: custom error");
}

#[test]
fn test_point_debug() {
    let point = Point::new("52.52".to_string(), "13.405".to_string());
    let debug_str = format!("{:?}", point);
    assert!(debug_str.contains("52.52"));
    assert!(debug_str.contains("13.405"));
}

#[test]
fn test_point_clone() {
    let point = Point::new("52.52".to_string(), "13.405".to_string());
    let cloned = point.clone();
    assert_eq!(point.lat(), cloned.lat());
    assert_eq!(point.lon(), cloned.lon());
}

#[test]
fn test_nogo_debug() {
    let nogo = Nogo::Point {
        point: Point::new("52.52".to_string(), "13.405".to_string()),
        radius: "100".to_string(),
        weight: Some("10".to_string()),
    };
    let debug_str = format!("{:?}", nogo);
    assert!(debug_str.contains("Point"));
    assert!(debug_str.contains("100"));
    assert!(debug_str.contains("10"));
}

#[test]
fn test_nogo_clone() {
    let nogo = Nogo::Line {
        points: vec![
            Point::new("52.52".to_string(), "13.405".to_string()),
            Point::new("52.53".to_string(), "13.415".to_string()),
        ],
        weight: Some("5".to_string()),
    };
    let cloned = nogo.clone();
    assert_eq!(nogo.weight(), cloned.weight());
}

#[test]
fn test_turn_instruction_mode_values() {
    assert_eq!(TurnInstructionMode::NoInstructions as i32, 0);
    assert_eq!(TurnInstructionMode::AutoChoose as i32, 1);
    assert_eq!(TurnInstructionMode::LocusStyle as i32, 2);
    assert_eq!(TurnInstructionMode::OsmandStyle as i32, 3);
    assert_eq!(TurnInstructionMode::CommentStyle as i32, 4);
    assert_eq!(TurnInstructionMode::GpsiesStyle as i32, 5);
    assert_eq!(TurnInstructionMode::OruxStyle as i32, 6);
    assert_eq!(TurnInstructionMode::LocusOldStyle as i32, 7);
}

#[test]
fn test_turn_instruction_mode_debug() {
    let mode = TurnInstructionMode::LocusStyle;
    let debug_str = format!("{:?}", mode);
    assert!(debug_str.contains("LocusStyle"));
}

#[test]
fn test_turn_instruction_mode_clone() {
    let mode = TurnInstructionMode::OsmandStyle;
    let cloned = mode;
    assert_eq!(mode as i32, cloned as i32);
}

#[test]
fn test_error_debug() {
    let error = Error::InvalidGpx("test".to_string());
    let debug_str = format!("{:?}", error);
    assert!(debug_str.contains("InvalidGpx"));
    assert!(debug_str.contains("test"));
}

#[test]
fn test_nogo_no_weight() {
    let nogo_point = Nogo::Point {
        point: Point::new("52.52".to_string(), "13.405".to_string()),
        radius: "100".to_string(),
        weight: None,
    };
    assert_eq!(nogo_point.weight(), None);

    let nogo_line = Nogo::Line {
        points: vec![Point::new("52.52".to_string(), "13.405".to_string())],
        weight: None,
    };
    assert_eq!(nogo_line.weight(), None);
}

#[test]
fn test_point_edge_values() {
    let point = Point::new("-90".to_string(), "-180".to_string());
    assert_eq!(point.lat().as_str(), "-90");
    assert_eq!(point.lon().as_str(), "-180");

    let point = Point::new("90".to_string(), "180".to_string());
    assert_eq!(point.lat().as_str(), "90");
    assert_eq!(point.lon().as_str(), "180");

    let point = Point::new("0".to_string(), "0".to_string());
    assert_eq!(point.lat().as_str(), "0");
    assert_eq!(point.lon().as_str(), "0");
}

#[test]
fn test_nogo_empty_collections() {
    let nogo_line = Nogo::Line {
        points: vec![],
        weight: Some("1".to_string()),
    };
    assert_eq!(nogo_line.weight(), Some("1".to_string()));

    let nogo_polygon = Nogo::Polygon {
        points: vec![],
        weight: Some("2".to_string()),
    };
    assert_eq!(nogo_polygon.weight(), Some("2".to_string()));
}

#[test]
fn test_nogo_single_point_collections() {
    let point = Point::new("52.52".to_string(), "13.405".to_string());

    let nogo_line = Nogo::Line {
        points: vec![point.clone()],
        weight: Some("1".to_string()),
    };
    assert_eq!(nogo_line.weight(), Some("1".to_string()));

    let nogo_polygon = Nogo::Polygon {
        points: vec![point],
        weight: Some("2".to_string()),
    };
    assert_eq!(nogo_polygon.weight(), Some("2".to_string()));
}

#[test]
fn test_nogo_many_points() {
    let points: Vec<Point> = (0..10)
        .map(|i| {
            Point::new(
                format!("{}", 50.0 + i as f64 * 0.1),
                format!("{}", 10.0 + i as f64 * 0.1),
            )
        })
        .collect();

    let nogo_line = Nogo::Line {
        points: points.clone(),
        weight: Some("5".to_string()),
    };
    assert_eq!(nogo_line.weight(), Some("5".to_string()));

    let nogo_polygon = Nogo::Polygon {
        points,
        weight: Some("7".to_string()),
    };
    assert_eq!(nogo_polygon.weight(), Some("7".to_string()));
}

#[test]
fn test_point_lon_lat_round_trip() {
    let point = Point::new("48.8566".to_string(), "2.3522".to_string());
    let pair = point.to_lon_lat();
    assert_eq!(pair.0.as_str(), "2.3522");
    assert_eq!(pair.1.as_str(), "48.8566");
    let back = Point::from_lon_lat(pair);
    assert_eq!(back.lat().as_str(), "48.8566");
    assert_eq!(back.lon().as_str(), "2.3522");
}

#[test]
fn test_error_message_negative_route() {
    let error = Error::NoRouteFound(-7);
    assert_eq!(error.message(), "No route found: -7");
    let error = Error::Http("connection reset".to_string());
    assert_eq!(error.message(), "HTTP error: connection reset");
    let error = Error::UploadProfileError("bad syntax".to_string());
    assert_eq!(error.message(), "Error uploading profile: bad syntax");
}

#[test]
fn test_valid_profile_data() {
    // Test with a valid BRouter profile content
    let valid_profile_data =
        b"# BRouter profile\nassign turncost 0\nassign uphillcostfactor 1.5\n".to_vec();

    // Since we can't test upload without a server, we test that the data is correctly formatted
    assert!(!valid_profile_data.is_empty());
    assert!(valid_profile_data.len() > 10);

    // Test that the profile content contains expected BRouter keywords
    let profile_str = String::from_utf8_lossy(&valid_profile_data);
    assert!(profile_str.contains("assign"));
}

#[test]
fn test_invalid_profile_data() {
    // Test with various invalid profile contents
    let empty_profile: Vec<u8> = Vec::new();
    assert!(empty_profile.is_empty());

    let invalid_profile = b"invalid profile content without proper syntax".to_vec();
    let profile_str = String::from_utf8_lossy(&invalid_profile);
    assert!(!profile_str.contains("assign"));

    // Test with binary data that shouldn't be a valid profile
    let binary_data = vec![0xFF, 0xFE, 0xFD, 0xFC];
    assert!(binary_data.len() == 4);

    // Test with extremely long data
    let long_data = vec![b'a'; 1_000_000];
    assert!(long_data.len() == 1_000_000);
}
