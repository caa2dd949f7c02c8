use brouter_client::lifecycle::all_segment_names;
use brouter_client::lifecycle::base_url;
use brouter_client::lifecycle::distribution_url;
use brouter_client::lifecycle::fetch_succeeded;
use brouter_client::lifecycle::parent_dir;
use brouter_client::lifecycle::segment_name;
use brouter_client::lifecycle::segment_url;
use brouter_client::lifecycle::DirEntry;
use brouter_client::lifecycle::ProcessPoll;
use brouter_client::lifecycle::ReadinessPoller;
use brouter_client::lifecycle::ServerSupervisor;
use brouter_client::lifecycle::StartPlan;

fn installed_listing() -> Vec<DirEntry> {
    vec![
        DirEntry {
            name: "segments4".to_string(),
            files: vec!["E0_N10.rd5".to_string()],
        },
        DirEntry {
            name: "brouter-1.7.7".to_string(),
            files: vec!["readme.txt".to_string(), "brouter-1.7.7.jar".to_string()],
        },
    ]
}

#[test]
fn test_supervisor_layout() {
    let sup = ServerSupervisor::new("/data/brouter".to_string());
    assert_eq!(sup.base_path, "/data/brouter");
    assert_eq!(sup.segments_dir, "/data/brouter/segments4");
    assert_eq!(
        sup.segment_path("E0_N10"),
        "/data/brouter/segments4/E0_N10.rd5"
    );
}

#[test]
fn test_find_jar_file() {
    let sup = ServerSupervisor::new("/data/brouter".to_string());
    let jar = sup.find_jar_file(&installed_listing());
    assert_eq!(
        jar,
        Some("/data/brouter/brouter-1.7.7/brouter-1.7.7.jar".to_string())
    );
    assert!(sup.has_downloaded(&installed_listing()));

    let empty: Vec<DirEntry> = vec![];
    assert_eq!(sup.find_jar_file(&empty), None);
    assert!(!sup.has_downloaded(&empty));

    // a distribution directory without a jar does not count
    let partial = vec![DirEntry {
        name: "brouter-1.7.7".to_string(),
        files: vec!["readme.txt".to_string()],
    }];
    assert_eq!(sup.find_jar_file(&partial), None);
}

#[test]
fn test_urls() {
    assert_eq!(base_url(), "http://localhost:17777");
    assert_eq!(
        distribution_url(),
        "https://github.com/abrensch/brouter/releases/download/v1.7.7/brouter-1.7.7.zip"
    );
    assert_eq!(
        segment_url("E0_N10"),
        "https://brouter.de/brouter/segments4/E0_N10.rd5"
    );
    assert!(fetch_succeeded(200));
    assert!(!fetch_succeeded(404));
    assert!(!fetch_succeeded(500));
}

#[test]
fn test_segment_names() {
    assert_eq!(segment_name(b'E', 0, b'N', 10), "E0_N10");
    assert_eq!(segment_name(b'W', 175, b'S', 90), "W175_S90");
}

#[test]
fn test_all_segment_names_grid() {
    let names = all_segment_names();
    assert_eq!(names.len(), 2 * 36 * 2 * 19);
    assert_eq!(names[0], "E0_N0");
    assert_eq!(names[18], "E0_N90");
    assert_eq!(names[19], "E0_S0");
    assert_eq!(names[38], "E5_N0");
    assert_eq!(names[36 * 38], "W0_N0");
    assert_eq!(names[names.len() - 1], "W175_S90");
}

#[test]
fn test_parent_dir() {
    assert_eq!(parent_dir("/data/brouter-1.7.7/app.jar"), "/data/brouter-1.7.7");
    assert_eq!(parent_dir("app.jar"), "");
}

#[test]
fn test_is_running_polls() {
    let mut sup = ServerSupervisor::new("/data/brouter".to_string());
    assert!(!sup.is_running(None));
    sup.note_spawned();
    assert!(sup.is_running(Some(ProcessPoll::Alive)));
    assert!(!sup.is_running(Some(ProcessPoll::Exited)));
    assert!(!sup.is_running(Some(ProcessPoll::PollFailed)));
}

#[test]
fn test_is_serving_probe() {
    let sup = ServerSupervisor::new("/data/brouter".to_string());
    assert!(sup.is_serving(Some(404)));
    assert!(!sup.is_serving(Some(200)));
    assert!(!sup.is_serving(None));
}

#[test]
fn test_start_plan_launch() {
    let sup = ServerSupervisor::new("/data/brouter".to_string());
    let jar = "/data/brouter/brouter-1.7.7/brouter-1.7.7.jar".to_string();
    match sup.start_plan(false, Some(&jar)) {
        StartPlan::Launch {
            args,
            profile_dir,
            url,
        } => {
            assert_eq!(profile_dir, "/data/brouter/brouter-1.7.7/profiles2");
            assert_eq!(url, "http://localhost:17777");
            assert_eq!(
                args,
                vec![
                    "-Xmx128M".to_string(),
                    "-Xms128M".to_string(),
                    "-Xmn8M".to_string(),
                    "-DmaxRunningTime=300".to_string(),
                    "-DuseRFCMimeType=false".to_string(),
                    "-cp".to_string(),
                    jar.clone(),
                    "btools.server.RouteServer".to_string(),
                    "/data/brouter/segments4".to_string(),
                    "/data/brouter/brouter-1.7.7/profiles2".to_string(),
                    "custom_profiles".to_string(),
                    "17777".to_string(),
                    "1".to_string(),
                    "localhost".to_string(),
                ]
            );
        }
        _ => panic!("expected a launch plan"),
    }
}

#[test]
fn test_start_plan_no_jar() {
    let sup = ServerSupervisor::new("/data/brouter".to_string());
    assert!(matches!(sup.start_plan(false, None), StartPlan::NoJar));
}

#[test]
fn test_start_idempotent_while_running() {
    let sup = ServerSupervisor::new("/data/brouter".to_string());
    let jar = "/data/brouter/brouter-1.7.7/brouter-1.7.7.jar".to_string();
    let first = sup.start_plan(true, Some(&jar));
    let second = sup.start_plan(true, None);
    let url1 = match first {
        StartPlan::AlreadyUp(u) => u,
        _ => panic!("a live child must not be spawned over"),
    };
    let url2 = match second {
        StartPlan::AlreadyUp(u) => u,
        _ => panic!("a live child must not be spawned over"),
    };
    assert_eq!(url1, url2);
}

#[test]
fn test_stop_idempotent() {
    let mut sup = ServerSupervisor::new("/data/brouter".to_string());
    // stop without ever starting: nothing to kill, no error
    assert!(!sup.stop());
    sup.note_spawned();
    // the first stop kills the tracked child, the second has nothing left
    assert!(sup.stop());
    assert!(!sup.stop());
}

#[test]
fn test_readiness_poller_budget() {
    let mut poller = ReadinessPoller::new();
    let mut probes = 0;
    while poller.attempts_left() {
        poller.record_attempt();
        probes += 1;
    }
    assert_eq!(probes, 10);
}
