use rustdesk::auth_2fa::TOTPInfo;
use rustdesk::ui_interface::{
    change_id_shared_, check_id, check_mouse_time, check_zombie, get_error, get_init_async_job_status,
    get_lan_peers, get_login_device_info, get_new_version, get_socks, handle_relay_id,
    has_valid_2fa, new_remote, path_join_str, pick_video_dir, recent_sessions_updated,
    remove_discovered, resolve_avatar_url, set_socks, status_requests,
    trim_video_save_directory, validate_windows_service_video_save_directory,
    video_save_directory, CheckIdOutcome, DirCandidate, IpcData, LanPeer, OptionStore,
    RegisterPkResult, RemoteAction, StatusSync, UserDirs, VideoDirPlan, get_async_http_status,
    show_run_without_install,
};

#[test]
fn trim_configured_video_save_directory() {
    assert_eq!(
        trim_video_save_directory("  relative/recordings  "),
        Some("relative/recordings")
    );
    assert_eq!(trim_video_save_directory("  "), None);
}

#[test]
fn validate_service_video_save_directory() {
    let absolute = "/recordings";
    let padded = format!("  {absolute}  ");

    assert_eq!(
        validate_windows_service_video_save_directory(&padded),
        Some(absolute)
    );
    assert_eq!(
        validate_windows_service_video_save_directory("recordings"),
        None
    );
    assert_eq!(
        validate_windows_service_video_save_directory(&format!("\"{absolute}\"")),
        None
    );
    assert_eq!(validate_windows_service_video_save_directory("  "), None);
}

#[test]
fn option_read_after_set_gives_value() {
    let mut store = OptionStore::new();
    store.set_option("api-server".to_string(), "https://a.example".to_string());
    store.set_option("other".to_string(), "1".to_string());
    assert_eq!(store.get_option("api-server"), "https://a.example");
    store.set_option("api-server".to_string(), "https://b.example".to_string());
    assert_eq!(store.get_option("api-server"), "https://b.example");
    assert_eq!(store.get_option("other"), "1");
    store.set_option("other".to_string(), String::new());
    assert_eq!(store.get_option("other"), "");
    assert!(!store.contains_key("other"));
    assert!(store.contains_key("api-server"));
}

#[test]
fn option_fixed_by_any_override() {
    let empty = OptionStore::new();
    let mut local = OptionStore::new();
    local.insert("theme".to_string(), "dark".to_string());
    assert!(rustdesk::ui_interface::is_option_fixed("theme", &empty, &local, &empty));
    assert!(!rustdesk::ui_interface::is_option_fixed("lang", &empty, &local, &empty));
}

#[test]
fn relay_marker_is_removed() {
    assert_eq!(handle_relay_id("123456789\\r"), "123456789");
    assert_eq!(handle_relay_id("123456789/r"), "123456789");
    assert_eq!(handle_relay_id("123456789"), "123456789");
    assert_eq!(handle_relay_id("r"), "r");
}

#[test]
fn avatar_path_is_resolved_against_api_server() {
    assert_eq!(
        resolve_avatar_url("  /avatar/x.png ".to_string(), "https://api.example//"),
        "https://api.example/avatar/x.png"
    );
    assert_eq!(resolve_avatar_url("/avatar/x.png".to_string(), ""), "/avatar/x.png");
    assert_eq!(
        resolve_avatar_url("https://cdn/x.png".to_string(), "https://api.example"),
        "https://cdn/x.png"
    );
}

#[test]
fn new_version_is_last_path_segment() {
    assert_eq!(get_new_version("https://example.com/releases/tag/1.4.2"), "1.4.2");
    assert_eq!(get_new_version("1.4.2"), "1.4.2");
    assert_eq!(get_new_version("https://example.com/"), "");
    assert_eq!(get_init_async_job_status(), " ");
}

#[test]
fn socks_setting_as_list() {
    assert!(get_socks(None).is_empty());
    let s = set_socks("127.0.0.1:1080".to_string(), "u".to_string(), "p".to_string());
    assert_eq!(get_socks(Some(s)), vec!["127.0.0.1:1080", "u", "p"]);
}

#[test]
fn status_follows_server_messages() {
    let mut sync = StatusSync::new(OptionStore::new());
    sync.on_ipc_data(IpcData::MouseMoveTime(42));
    sync.on_ipc_data(IpcData::Config("id".to_string(), Some("123".to_string())));
    sync.on_ipc_data(IpcData::Config("other".to_string(), Some("x".to_string())));
    sync.on_ipc_data(IpcData::OnlineStatus(Some((5, true))));
    let st = sync.get_connect_status();
    assert_eq!(st.status_num, 1);
    assert!(st.key_confirmed);
    assert_eq!(st.mouse_time, 42);
    assert_eq!(st.id, "123");
    sync.on_ipc_data(IpcData::OnlineStatus(Some((-3, false))));
    assert_eq!(sync.get_connect_status().status_num, -3);
    assert!(!sync.option_synced());
    let mut opts = OptionStore::new();
    opts.insert("k".to_string(), "v".to_string());
    sync.on_ipc_data(IpcData::Options(Some(opts)));
    assert!(sync.option_synced());
    assert_eq!(sync.options.get_option("k"), "v");
    sync.on_ipc_data(IpcData::ControlPermissionsRemoteModify(Some(true)));
    assert_eq!(sync.is_remote_modify_enabled_by_control_permissions(), Some(true));
}

#[test]
fn lost_link_shows_down_or_records_close() {
    let mut sync = StatusSync::new(OptionStore::new());
    sync.on_ipc_data(IpcData::OnlineStatus(Some((1, true))));
    assert!(sync.on_ipc_closed(true));
    assert_eq!(sync.get_connect_status().status_num, -1);
    assert!(sync.get_connect_status().key_confirmed);
    assert!(!sync.on_ipc_closed(false));
    assert_eq!(sync.options.get_option("ipc-closed"), "Y");
}

#[test]
fn status_requests_are_the_five_questions() {
    let r = status_requests();
    assert_eq!(r.len(), 5);
    assert!(matches!(r[0], IpcData::OnlineStatus(None)));
    assert!(matches!(r[1], IpcData::Options(None)));
    assert!(matches!(&r[2], IpcData::Config(n, None) if n == "id"));
    assert!(matches!(&r[3], IpcData::Config(n, None) if n == "temporary-password"));
    assert!(matches!(r[4], IpcData::ControlPermissionsRemoteModify(None)));
    assert!(matches!(check_mouse_time(), IpcData::MouseMoveTime(0)));
}

#[test]
fn check_id_messages() {
    assert_eq!(check_id(CheckIdOutcome::ConnectFailed), "Failed to connect to rendezvous server");
    assert_eq!(check_id(CheckIdOutcome::Connected(Some(RegisterPkResult::Accepted))), "");
    assert_eq!(check_id(CheckIdOutcome::Connected(Some(RegisterPkResult::IdExists))), "Not available");
    assert_eq!(check_id(CheckIdOutcome::Connected(Some(RegisterPkResult::TooFrequent))), "Too frequent");
    assert_eq!(
        check_id(CheckIdOutcome::Connected(Some(RegisterPkResult::NotSupport))),
        "server_not_support"
    );
    assert_eq!(check_id(CheckIdOutcome::Connected(Some(RegisterPkResult::ServerError))), "Server error");
    assert_eq!(
        check_id(CheckIdOutcome::Connected(Some(RegisterPkResult::InvalidIdFormat))),
        "Invalid format"
    );
    assert_eq!(check_id(CheckIdOutcome::Connected(Some(RegisterPkResult::Other))), "Unknown error");
    assert_eq!(check_id(CheckIdOutcome::Connected(None)), "Unknown error");
}

#[test]
fn change_id_reports_last_error() {
    let answers = vec![String::new(), "Not available".to_string(), String::new(), "Too frequent".to_string()];
    assert_eq!(change_id_shared_(true, false, &answers), "Too frequent");
    assert_eq!(change_id_shared_(true, false, &vec![String::new(), String::new()]), "");
    assert_eq!(change_id_shared_(false, false, &answers), "Invalid format");
    assert_eq!(change_id_shared_(true, true, &answers), "Unknown error");
}

#[test]
fn remote_session_plan() {
    let p = new_remote("123", "connect", false, None);
    assert!(matches!(p.action, RemoteAction::Spawn));
    assert_eq!(p.args, vec!["--connect", "123"]);
    let p = new_remote("123", "connect", true, Some(false));
    assert!(matches!(p.action, RemoteAction::KeepRunning));
    assert_eq!(p.args, vec!["--connect", "123", "", "--relay"]);
    assert!(matches!(new_remote("1", "rdp", false, Some(false)).action, RemoteAction::KillAndSpawn));
    assert!(matches!(new_remote("1", "rdp", false, Some(true)).action, RemoteAction::ReplaceExited));
}

#[test]
fn exited_sessions_are_dropped_and_flagged() {
    let mut children = vec!["a", "b", "c", "d"];
    let mut updated = false;
    check_zombie(&mut children, &[false, true, false, true], &mut updated);
    assert_eq!(children, vec!["a", "c"]);
    assert!(updated);
    assert!(recent_sessions_updated(&mut updated));
    assert!(!recent_sessions_updated(&mut updated));
    check_zombie(&mut children, &[false, false], &mut updated);
    assert!(!updated);
}

#[test]
fn recording_directory_candidates() {
    match video_save_directory(" /data/rec ", "RustDesk", None, None, None) {
        VideoDirPlan::Configured(d) => assert_eq!(d, "/data/rec"),
        VideoDirPlan::Search(_) => panic!("configured directory ignored"),
    }
    let dirs = UserDirs {
        video: Some("/home/u/Videos".to_string()),
        desktop: None,
        home: "/home/u".to_string(),
    };
    match video_save_directory("", "RustDesk", Some(dirs), Some("/home/u/".to_string()), Some("/opt/app".to_string())) {
        VideoDirPlan::Search(c) => {
            let paths: Vec<(u8, String)> = c
                .iter()
                .map(|x| match x {
                    DirCandidate::Create(p) => (0, p.clone()),
                    DirCandidate::IfExists(p) => (1, p.clone()),
                    DirCandidate::Always(p) => (2, p.clone()),
                })
                .collect();
            assert_eq!(
                paths,
                vec![
                    (0, "/home/u/Videos/RustDesk".to_string()),
                    (1, "/home/u/Videos".to_string()),
                    (1, "/home/u".to_string()),
                    (0, "/home/u/Videos/RustDesk".to_string()),
                    (1, "/home/u/Videos".to_string()),
                    (1, "/home/u/Desktop".to_string()),
                    (1, "/home/u/".to_string()),
                    (0, "/opt/app/videos".to_string()),
                    (2, "/opt/app".to_string()),
                ]
            );
            assert_eq!(pick_video_dir(&c, &[false, false, true, true, false, false, false, false, true]), "/home/u");
            assert_eq!(pick_video_dir(&c, &[false; 9]), "");
        }
        VideoDirPlan::Configured(_) => panic!("nothing was configured"),
    }
    assert_eq!(path_join_str("", "a"), "a");
    assert_eq!(path_join_str("/x", "/abs"), "/abs");
}

#[test]
fn lan_peers_listed_and_removed() {
    let peer = |id: &str| LanPeer {
        id: id.to_string(),
        username: "user".to_string(),
        hostname: "host".to_string(),
        platform: "Linux".to_string(),
    };
    let peers = vec![peer("1"), peer("2"), peer("1")];
    let listed = get_lan_peers(&peers);
    assert_eq!(listed.len(), 3);
    assert_eq!(
        listed[1],
        vec![
            ("id", "2".to_string()),
            ("username", "user".to_string()),
            ("hostname", "host".to_string()),
            ("platform", "Linux".to_string()),
        ]
    );
    let kept = remove_discovered(peers, "1");
    assert_eq!(kept.len(), 1);
    assert_eq!(kept[0].id, "2");
}

#[test]
fn display_server_error_texts() {
    assert_eq!(get_error("wayland", "portal".to_string(), "Unsupported display server", "x11 expected"), "portal");
    assert_eq!(get_error("x11", "portal".to_string(), "Unsupported display server", "x11 expected"), "");
    assert_eq!(
        get_error("tty", String::new(), "Unsupported display server", "x11 expected"),
        "Unsupported display server tty, x11 expected"
    );
}

#[test]
fn login_device_and_two_factor() {
    let d = get_login_device_info("linux", "box".to_string());
    assert_eq!(d.os, "linux");
    assert_eq!(d.device_type, "client");
    assert_eq!(d.name, "box");
    let info = TOTPInfo { name: "me".to_string(), secret: vec![7; 20], digits: 6, created_at: 0 };
    assert!(has_valid_2fa(Some(info.clone()), vec![7; 20], true));
    assert!(!has_valid_2fa(Some(info.clone()), vec![7; 20], false));
    assert!(!has_valid_2fa(Some(info), vec![7; 4], true));
    assert!(!has_valid_2fa(None, vec![7; 20], true));
}

#[test]
fn run_without_install_and_http_status() {
    assert!(show_run_without_install(&vec!["setup.exe".to_string()], true));
    assert!(!show_run_without_install(&vec!["setup.exe".to_string(), "--x".to_string()], true));
    assert!(!show_run_without_install(&vec!["app".to_string()], false));
    assert!(!show_run_without_install(&Vec::new(), true));
    let mut st = OptionStore::new();
    st.insert("https://x".to_string(), "200".to_string());
    assert_eq!(get_async_http_status(&st, "https://x"), Some("200".to_string()));
    assert_eq!(get_async_http_status(&st, "https://y"), None);
}
