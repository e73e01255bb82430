use rustdesk::platform::linux::{
    autostart_file, block_input, get_active_userid, get_active_userid_fresh, get_active_username,
    get_env_pid, handle_x_error, XErrorFlag, change_resolution_directly, current_resolution,
    get_active_user_id_name, get_env_from_pid, get_width_height_from_captures, get_xrandr_conn_pat,
    is_opensuse, resolutions, clear_gnome_shortcuts_inhibitor_permission, get_active_user_home,
    get_cursor_data, get_env, get_envs, get_focused_display, get_pa_monitor, get_pa_source_name,
    get_shortcuts_inhibitor_app_id, has_gnome_shortcuts_inhibitor_permission, is_installed,
    is_locked, is_login_wayland, is_prelogin, is_root, is_selinux_enforcing, is_valid_env_key,
    is_xwayland_running, run_as_user, sudo_env_probe_key, sudo_keeps_env, CursorImage,
    DisplayInfo, ProcEntry, WallPaperRemover, WindowGeometry,
};

fn entry(pid: &str, uid: u32, cmdline: &[u8], environ: &[u8]) -> ProcEntry {
    ProcEntry {
        file_name: Some(pid.to_string()),
        uid: Some(uid),
        cmdline: Some(cmdline.to_vec()),
        environ: Some(environ.to_vec()),
    }
}

#[test]
fn envs_come_from_one_matching_process() {
    let entries = vec![
        entry("self", 1000, b"xdg-desktop-portal\0", b"DISPLAY=:9\0"),
        entry("10", 1001, b"xdg-desktop-portal\0", b"DISPLAY=:8\0"),
        entry("11", 1000, b"/usr/bin/bash\0", b"DISPLAY=:7\0"),
        entry("12", 1000, b"/usr/libexec/xdg-desktop-portal\0--replace\0", b"DISPLAY=:1\0HOME=/h\0"),
        entry("13", 1000, b"xdg-desktop-portal\0", b"DISPLAY=:2\0WAYLAND_DISPLAY=wayland-0\0"),
    ];
    let r = get_envs("1000", "xdg-desktop-portal", &["WAYLAND_DISPLAY", "DISPLAY"], Some(entries));
    assert_eq!(r, vec!["wayland-0".to_string(), ":2".to_string()]);
    let none = get_envs("x", "xdg", &["DISPLAY"], Some(Vec::new()));
    assert_eq!(none, vec![String::new()]);
}

#[test]
fn focused_display_holds_window_center() {
    let displays = [
        DisplayInfo { x: 0, y: 0, width: 1920, height: 1080 },
        DisplayInfo { x: 1920, y: 0, width: 1280, height: 1024 },
    ];
    let w = WindowGeometry { x: 2000, y: 100, width: 400, height: 300 };
    assert_eq!(get_focused_display(Some(w), &displays), Some(1));
    let off = WindowGeometry { x: 5000, y: 100, width: 10, height: 10 };
    assert_eq!(get_focused_display(Some(off), &displays), None);
    assert_eq!(get_focused_display(None, &displays), None);
}

#[test]
fn cursor_pixels_become_rgba() {
    let img = CursorImage {
        x: 0,
        y: 0,
        width: 2,
        height: 1,
        xhot: 1,
        yhot: 0,
        cursor_serial: 77,
        pixels: vec![0xFF11_2233, 0x0044_5566],
    };
    let cd = get_cursor_data(77, Some(img)).expect("cursor data");
    assert_eq!(cd.colors, vec![0x11, 0x22, 0x33, 0xFF, 0, 0, 0, 0]);
    assert_eq!((cd.hotx, cd.hoty, cd.width, cd.height), (1, 0, 2, 1));
    assert!(get_cursor_data(1, None).is_err());
}

#[test]
fn sudo_arguments() {
    let envs = vec![
        ("DISPLAY".to_string(), ":0".to_string()),
        ("bad-key".to_string(), "x".to_string()),
        ("_X1".to_string(), "a b".to_string()),
    ];
    let c = run_as_user(&["--tray"], "1000", "alice", "/usr/bin/app", false, envs.clone()).ok().unwrap();
    assert_eq!(
        c.args,
        vec![
            "-u", "alice", "--", "env", "XDG_RUNTIME_DIR=/run/user/1000", "DISPLAY=:0", "_X1=a b",
            "/usr/bin/app", "--tray"
        ]
    );
    assert!(c.envs.is_empty());
    let c = run_as_user(&["--tray"], "1000", "alice", "/usr/bin/app", true, envs.clone()).ok().unwrap();
    assert_eq!(
        c.args,
        vec!["-E", "XDG_RUNTIME_DIR=/run/user/1000", "-u", "alice", "/usr/bin/app", "--tray"]
    );
    assert_eq!(c.envs, envs);
    assert!(run_as_user(&[], "", "alice", "/usr/bin/app", true, Vec::new()).is_err());
    assert!(is_valid_env_key("_A9"));
    assert!(!is_valid_env_key("9A"));
    assert!(!is_valid_env_key("java.home"));
    assert!(!is_valid_env_key(""));
}

#[test]
fn sudo_environment_probe() {
    assert_eq!(sudo_env_probe_key(42), "__RUSTDESK_SUDO_E_TEST_42");
    let out = "PATH=/bin\n__RUSTDESK_SUDO_E_TEST_42=1\n".to_string();
    assert!(sudo_keeps_env(true, 42, Some((true, out.clone()))));
    assert!(!sudo_keeps_env(false, 42, Some((true, out.clone()))));
    assert!(!sudo_keeps_env(true, 42, Some((false, out))));
    assert!(!sudo_keeps_env(true, 42, Some((true, "PATH=/bin\n".to_string()))));
}

#[test]
fn install_root_and_home() {
    assert!(is_installed(Some("/usr/bin/rustdesk")));
    assert!(is_installed(Some("/nix/store/abc/bin/rustdesk")));
    assert!(!is_installed(Some("/home/u/rustdesk")));
    assert!(!is_installed(None));
    assert!(is_root("root"));
    assert!(!is_root("rootless"));
    assert_eq!(get_active_user_home("", Some("/x".to_string()), true), None);
    assert_eq!(get_active_user_home("bob", Some("/srv/bob".to_string()), false), Some("/srv/bob".to_string()));
    assert_eq!(get_active_user_home("bob", None, true), Some("/home/bob".to_string()));
    assert_eq!(get_active_user_home("bob", None, false), None);
}

#[test]
fn login_screen_and_lock() {
    assert!(is_prelogin(false, Some("gdm:x:120:125::/var/lib/gdm3:/bin/false")));
    assert!(is_prelogin(false, Some("sddm:x:1:1::/var/lib/sddm:/usr/sbin/nologin")));
    assert!(!is_prelogin(false, Some("alice:x:1000:1000::/home/alice:/bin/bash")));
    assert!(!is_prelogin(true, Some("gdm:x:120:125::/var/lib/gdm3:/bin/false")));
    assert!(is_locked(false, &vec!["c2".to_string()], true));
    assert!(!is_locked(true, &vec!["c2".to_string()], true));
    assert!(!is_locked(false, &vec![String::new()], true));
    assert!(!is_locked(false, &Vec::new(), true));
}

#[test]
fn audio_sources() {
    let s = vec![
        ("alsa_input.mic".to_string(), "Microphone".to_string()),
        ("alsa_output.monitor".to_string(), "Monitor of Speakers".to_string()),
    ];
    assert_eq!(get_pa_monitor(&s), "alsa_output.monitor");
    assert_eq!(get_pa_source_name(&s, "Microphone"), "alsa_input.mic");
    assert_eq!(get_pa_source_name(&s, "None"), "");
}

#[test]
fn selinux_and_xwayland() {
    assert!(is_selinux_enforcing(Some("Enforcing\n"), None));
    assert!(!is_selinux_enforcing(Some("Permissive\n"), Some("Current mode: enforcing")));
    assert!(is_selinux_enforcing(None, Some("SELinux status: enabled\nCurrent mode:                   enforcing\n")));
    assert!(!is_selinux_enforcing(None, Some("Current mode: permissive\n")));
    assert!(!is_selinux_enforcing(None, None));
    assert!(is_xwayland_running(Some("1234 /usr/bin/Xwayland :0")));
    assert!(!is_xwayland_running(Some("")));
    assert!(!is_xwayland_running(None));
}

#[test]
fn gdm_wayland_setting() {
    assert!(is_login_wayland(Some("[daemon]\n#WaylandEnable=false\n")));
    assert!(is_login_wayland(Some("[daemon]\nWaylandEnable = true\n")));
    assert!(!is_login_wayland(Some("[daemon]\nWaylandEnable=false\n")));
    assert!(!is_login_wayland(None));
}

#[test]
fn shortcuts_permission() {
    assert_eq!(get_shortcuts_inhibitor_app_id(false, None, "RustDesk"), "rustdesk.desktop");
    assert_eq!(
        get_shortcuts_inhibitor_app_id(true, Some("com.rustdesk.RustDesk".to_string()), "RustDesk"),
        "com.rustdesk.RustDesk.desktop"
    );
    assert_eq!(
        get_shortcuts_inhibitor_app_id(true, Some(String::new()), "RustDesk"),
        "com.rustdesk.RustDesk.desktop"
    );
    assert!(clear_gnome_shortcuts_inhibitor_permission(None));
    assert!(clear_gnome_shortcuts_inhibitor_permission(Some("org.freedesktop.portal.Error.NotFound")));
    assert!(!clear_gnome_shortcuts_inhibitor_permission(Some("org.freedesktop.DBus.Error.AccessDenied")));
    let ids = vec!["a.desktop".to_string(), "rustdesk.desktop".to_string()];
    assert!(has_gnome_shortcuts_inhibitor_permission(Some(&ids), "rustdesk.desktop"));
    assert!(!has_gnome_shortcuts_inhibitor_permission(Some(&ids), "b.desktop"));
    assert!(!has_gnome_shortcuts_inhibitor_permission(None, "a.desktop"));
    assert_eq!(autostart_file("/home/u", "RustDesk"), "/home/u/.config/autostart/rustdesk.desktop");
    assert_eq!(block_input(true), (true, String::new()));
}

#[test]
fn wallpaper_remover() {
    assert!(WallPaperRemover::new(String::new(), None).is_err());
    assert!(WallPaperRemover::new(String::new(), Some(String::new())).is_err());
    let w = WallPaperRemover::new(String::new(), Some("file:///dark.png".to_string())).ok().unwrap();
    assert_eq!(w.old_path_dark, Some("file:///dark.png".to_string()));
    assert!(WallPaperRemover::support("ubuntu:GNOME", true));
    assert!(WallPaperRemover::support("XFCE", true));
    assert!(!WallPaperRemover::support("KDE", true));
    assert!(!WallPaperRemover::support("Unity", false));
}

#[test]
fn environment_value_of_a_process() {
    let environ = b"HOME=/root\0PATH=/bin\0HOME=/home/u  \0X=HOME=1\0";
    assert_eq!(get_env_from_pid("HOME", Some(environ)), "/home/u  ");
    assert_eq!(get_env_from_pid("A", Some(b"A=A=\0")), "A=");
    assert_eq!(get_env_from_pid("PATH", Some(environ)), "/bin");
    assert_eq!(get_env_from_pid("NONE", Some(environ)), "");
    assert_eq!(get_env_from_pid("HOME", None), "");
}

const XRANDR: &str = "Screen 0: minimum 320 x 200, current 1920 x 1080, maximum 16384 x 16384\neDP-1 connected primary 1920x1080+0+0 (normal left inverted right x axis y axis) 344mm x 193mm\n 1920x1080 60.01*+ 60.01 59.97 59.96 59.93\n 1680x1050 59.95 59.88\n 1600x1024 60.17\n 1920x1080 30.00\nHDMI-1 disconnected (normal left inverted right x axis y axis)\n";

#[test]
fn xrandr_modes() {
    let r = resolutions("eDP-1", XRANDR);
    let pairs: Vec<(i32, i32)> = r.iter().map(|m| (m.width, m.height)).collect();
    assert_eq!(pairs, vec![(1920, 1080), (1680, 1050), (1600, 1024)]);
    assert!(resolutions("HDMI-1", XRANDR).is_empty());
    let cur = current_resolution("eDP-1", XRANDR).expect("current mode");
    assert_eq!((cur.width, cur.height), (1920, 1080));
    assert!(current_resolution("DP-9", XRANDR).is_none());
    assert_eq!(change_resolution_directly("eDP-1", 1280, 720), vec!["--output", "eDP-1", "--mode", "1280x720"]);
    assert_eq!(get_width_height_from_captures(Some("12"), Some("x")), None);
    assert_eq!(get_width_height_from_captures(Some("12"), Some("34")), Some((12, 34)));
    assert!(get_xrandr_conn_pat("eDP-1").starts_with("eDP-1\\s+connected"));
}

#[test]
fn small_system_facts() {
    assert!(is_opensuse(Some("ID=\"opensuse-tumbleweed\"\n")));
    assert!(!is_opensuse(Some("")));
    assert!(!is_opensuse(None));
    let seat0 = vec!["1000".to_string(), "alice".to_string()];
    assert_eq!(get_active_user_id_name(None, &seat0), ("1000".to_string(), "alice".to_string()));
    assert_eq!(
        get_active_user_id_name(Some(("0".to_string(), "root".to_string())), &seat0),
        ("0".to_string(), "root".to_string())
    );
}

const PS: &str = "UID PID PPID C STIME TTY TIME CMD\nalice 100 1 0 09:00 ? 00:00:01 /usr/bin/Xwayland :0\nalice 200 1 0 09:01 ? 00:00:01 /usr/bin/Xwayland :1\nalice 300 2 0 09:02 pts/0 00:00:00 grep Xwayland\nalice 400 1 0 09:03 ? 00:00:00 ibus-daemon\n";

#[test]
fn environment_value_of_the_last_matching_process() {
    assert_eq!(get_env_pid("Xwayland", Some(PS)), Some("200".to_string()));
    assert_eq!(get_env_pid("ibus-daemon", Some(PS)), Some("400".to_string()));
    assert_eq!(get_env_pid("kded[0-9]+", Some(PS)), None);
    assert_eq!(get_env_pid("Xwayland", None), None);
    let environ = b"DISPLAY=:0\0DISPLAY=:1\0";
    assert_eq!(get_env("DISPLAY", "Xwayland", Some(PS), Some(environ)), ":1");
    assert_eq!(get_env("DISPLAY", "Xwayland", Some(PS), None), "");
    assert_eq!(get_env("DISPLAY", "kded[0-9]+", Some(PS), Some(environ)), "");
    assert_eq!(get_env("XAUTHORITY", "Xwayland", Some(PS), Some(environ)), "");
}

#[test]
fn x_errors_and_active_user() {
    assert!(matches!(handle_x_error(Some(3)), (XErrorFlag::BadWindow, 0)));
    assert!(matches!(handle_x_error(Some(8)), (XErrorFlag::Unexpected, 0)));
    assert!(matches!(handle_x_error(None), (XErrorFlag::Unexpected, 0)));
    let seat0 = vec!["1000".to_string()];
    let cache = Some(("7".to_string(), "bob".to_string()));
    assert_eq!(get_active_userid(cache.clone(), &seat0), "7");
    assert_eq!(get_active_userid(None, &seat0), "1000");
    assert_eq!(get_active_username(cache, &vec!["alice".to_string()]), "bob");
    assert_eq!(get_active_username(None, &vec!["alice".to_string()]), "alice");
    assert_eq!(get_active_userid_fresh(&seat0), "1000");
}
