use brouter_client::codec::decode_response;
use brouter_client::codec::encode_lonlats;
use brouter_client::codec::encode_nogos;
use brouter_client::codec::encode_polygons;
use brouter_client::codec::encode_polylines;
use brouter_client::codec::encode_route_request;
use brouter_client::codec::UploadProfileResponse;
use brouter_client::Error;
use brouter_client::Nogo;
use brouter_client::Point;
use brouter_client::TurnInstructionMode;

fn berlin() -> Point {
    Point::new("52.52".to_string(), "13.405".to_string())
}

fn paris() -> Point {
    Point::new("48.8566".to_string(), "2.3522".to_string())
}

#[test]
fn test_encode_lonlats_empty() {
    let r = encode_lonlats(&vec![]);
    assert_eq!(r, b"".to_vec());
}

#[test]
fn test_encode_lonlats_groups() {
    let r = encode_lonlats(&vec![berlin(), paris()]);
    assert_eq!(r, b"13.405,52.52|2.3522,48.8566".to_vec());
}

#[test]
fn test_encode_nogos_weight_fields() {
    let without = vec![Nogo::Point {
        point: berlin(),
        radius: "100".to_string(),
        weight: None,
    }];
    assert_eq!(encode_nogos(&without), b"13.405,52.52,100".to_vec());

    let with = vec![Nogo::Point {
        point: berlin(),
        radius: "100".to_string(),
        weight: Some("10".to_string()),
    }];
    assert_eq!(encode_nogos(&with), b"13.405,52.52,100,10".to_vec());
}

#[test]
fn test_encode_nogos_skips_other_variants() {
    let nogos = vec![
        Nogo::Line {
            points: vec![berlin()],
            weight: None,
        },
        Nogo::Point {
            point: paris(),
            radius: "50".to_string(),
            weight: None,
        },
        Nogo::Point {
            point: berlin(),
            radius: "60".to_string(),
            weight: Some("2".to_string()),
        },
    ];
    assert_eq!(
        encode_nogos(&nogos),
        b"2.3522,48.8566,50|13.405,52.52,60,2".to_vec()
    );
}

#[test]
fn test_encode_polylines_weight_fields() {
    let without = vec![Nogo::Line {
        points: vec![berlin(), paris()],
        weight: None,
    }];
    assert_eq!(
        encode_polylines(&without),
        b"13.405,52.52,2.3522,48.8566".to_vec()
    );

    let with = vec![Nogo::Line {
        points: vec![berlin(), paris()],
        weight: Some("3".to_string()),
    }];
    assert_eq!(
        encode_polylines(&with),
        b"13.405,52.52,2.3522,48.8566,3".to_vec()
    );
}

#[test]
fn test_encode_polygons_weight_fields() {
    let with = vec![Nogo::Polygon {
        points: vec![berlin(), paris()],
        weight: Some("4".to_string()),
    }];
    assert_eq!(
        encode_polygons(&with),
        b"13.405,52.52,2.3522,48.8566,4".to_vec()
    );
    assert_eq!(encode_polygons(&vec![]), b"".to_vec());
}

#[test]
fn test_encode_route_request_minimal() {
    let q = encode_route_request(
        &vec![berlin(), paris()],
        &vec![],
        "trekking",
        None,
        None,
        None,
        false,
    )
    .unwrap();
    assert_eq!(
        q,
        "brouter?lonlats=13.405%2C52.52%7C2.3522%2C48.8566&profile=trekking&format=gpx"
    );
}

#[test]
fn test_encode_route_request_full() {
    let nogos = vec![
        Nogo::Point {
            point: berlin(),
            radius: "100".to_string(),
            weight: None,
        },
        Nogo::Line {
            points: vec![berlin(), paris()],
            weight: None,
        },
        Nogo::Polygon {
            points: vec![berlin(), paris()],
            weight: Some("2".to_string()),
        },
    ];
    let q = encode_route_request(
        &vec![berlin()],
        &nogos,
        "trekking",
        Some(1),
        Some(TurnInstructionMode::LocusStyle),
        Some("My Route"),
        true,
    )
    .unwrap();
    assert_eq!(
        q,
        "brouter?lonlats=13.405%2C52.52&profile=trekking&format=gpx&alternativeidx=1&timode=2\
         &polygons=13.405%2C52.52%2C2.3522%2C48.8566%2C2\
         &nogos=13.405%2C52.52%2C100\
         &polylines=13.405%2C52.52%2C2.3522%2C48.8566\
         &exportWaypoints=1&trackname=My+Route"
    );
}

#[test]
fn test_encode_route_request_percent_encoding() {
    let q = encode_route_request(
        &vec![],
        &vec![],
        "trekking",
        None,
        None,
        Some("R\u{f6}ute 100%"),
        false,
    )
    .unwrap();
    assert_eq!(
        q,
        "brouter?lonlats=&profile=trekking&format=gpx&trackname=R%C3%B6ute+100%25"
    );
}

#[test]
fn test_encode_route_request_alternativeidx_contract() {
    for idx in 0u8..=3u8 {
        assert!(encode_route_request(
            &vec![berlin()],
            &vec![],
            "trekking",
            Some(idx),
            None,
            None,
            false,
        )
        .is_ok());
    }
    let r = encode_route_request(
        &vec![berlin()],
        &vec![],
        "trekking",
        Some(4),
        None,
        None,
        false,
    );
    match r {
        Err(Error::Other(m)) => assert_eq!(m, "alternativeidx must be between 0 and 3"),
        _ => panic!("an out-of-range alternativeidx must fail before anything is sent"),
    }
}

#[test]
fn test_decode_missing_data_file() {
    let body = b"datafile europe.rd5 not found\n".to_vec();
    match decode_response(200, &body) {
        Err(Error::MissingDataFile(name)) => assert_eq!(name, "europe.rd5"),
        other => panic!("expected MissingDataFile, got {:?}", other.err()),
    }
    // the pattern wins regardless of HTTP status
    match decode_response(400, &body) {
        Err(Error::MissingDataFile(name)) => assert_eq!(name, "europe.rd5"),
        other => panic!("expected MissingDataFile, got {:?}", other.err()),
    }
}

#[test]
fn test_decode_no_route_found() {
    let body = b"no track found at pass=3\n".to_vec();
    match decode_response(200, &body) {
        Err(Error::NoRouteFound(n)) => assert_eq!(n, 3),
        other => panic!("expected NoRouteFound, got {:?}", other.err()),
    }
    let body = b"no track found at pass=-2\n".to_vec();
    match decode_response(200, &body) {
        Err(Error::NoRouteFound(n)) => assert_eq!(n, -2),
        other => panic!("expected NoRouteFound, got {:?}", other.err()),
    }
}

#[test]
fn test_decode_pass_timeout() {
    let body = b"pass2 timeout after 120 seconds\n".to_vec();
    match decode_response(200, &body) {
        Err(Error::PassTimeout { pass, timeout }) => {
            assert_eq!(pass, "2");
            assert_eq!(timeout, "120");
        }
        other => panic!("expected PassTimeout, got {:?}", other.err()),
    }
}

#[test]
fn test_decode_bad_request_status() {
    let body = b"something else entirely".to_vec();
    match decode_response(400, &body) {
        Err(Error::Other(m)) => assert_eq!(m, "HTTP error: 400"),
        other => panic!("expected Other, got {:?}", other.err()),
    }
}

#[test]
fn test_decode_invalid_gpx_keeps_body() {
    let body = b"<bogus>".to_vec();
    match decode_response(200, &body) {
        Err(Error::InvalidGpx(text)) => assert_eq!(text, "<bogus>"),
        other => panic!("expected InvalidGpx, got {:?}", other.err()),
    }
    // bytes that are not UTF-8 still travel along, lossily decoded
    let body = vec![0xFF, b'<'];
    match decode_response(200, &body) {
        Err(Error::InvalidGpx(text)) => assert_eq!(text, "\u{FFFD}<"),
        other => panic!("expected InvalidGpx, got {:?}", other.err()),
    }
}

#[test]
fn test_decode_track_file_one_route() {
    let body = br#"<?xml version="1.0" encoding="UTF-8"?>
<gpx version="1.1" creator="test">
<rte>
<rtept lat="52.52" lon="13.405"></rtept>
<rtept lat="48.8566" lon="2.3522"></rtept>
</rte>
</gpx>"#
        .to_vec();
    let gpx = decode_response(200, &body).unwrap();
    assert_eq!(gpx.routes.len(), 1);
    let route = &gpx.routes[0];
    assert_eq!(route.points.len(), 2);
    assert_eq!(route.points[0].point().y(), 52.52);
    assert_eq!(route.points[0].point().x(), 13.405);
    assert_eq!(route.points[1].point().y(), 48.8566);
    assert_eq!(route.points[1].point().x(), 2.3522);
}

#[test]
fn test_upload_profile_outcomes() {
    let ok = UploadProfileResponse {
        profileid: "custom_12345".to_string(),
        error: None,
    };
    assert_eq!(ok.into_result().unwrap(), "custom_12345");

    let rejected = UploadProfileResponse {
        profileid: "".to_string(),
        error: Some("Invalid profile syntax".to_string()),
    };
    match rejected.into_result() {
        Err(Error::UploadProfileError(reason)) => assert_eq!(reason, "Invalid profile syntax"),
        other => panic!("expected UploadProfileError, got {:?}", other.err()),
    }
}
