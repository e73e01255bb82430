use rustdesk::platform::linux::desktop::{
    display_x11_procs, first_found, gdm_xauth_path, get_display_by_user, get_display_x11,
    get_xauth_x11, get_xorg_auth_arg, home_of, home_xauth_path, is_subprocess_count,
    refresh_active, refresh_from_seat0, tray_process, wayland_env_found, xauth_from_xorg,
    probe_step, xauth_x11_procs, xwayland_env_found, xwayland_procs, Desktop, ProbeStep,
    RefreshProbe, XorgXauth,
};

#[test]
fn display_found_by_w() {
    let w = " 10:00:01 up 1 day,  2 users\nUSER     TTY      FROM             LOGIN@\nalice    tty2     :1               09:00\n";
    assert_eq!(get_display_by_user("alice", Some(w), Some("ignored")), ":1");
}

#[test]
fn display_found_in_socket_listing() {
    let ls = "total 0\nsrwxrwxrwx 1 gdm gdm 0 Jan 1 10:00 X1024\nsrwxrwxrwx 1 bob bob 0 Jan 1 10:00 X1\nsrwxrwxrwx 1 root root 0 Jan 1 10:00 X0\n";
    assert_eq!(get_display_by_user("bob", Some("no display here\n"), Some(ls)), ":1");
    assert_eq!(get_display_by_user("carol", None, Some(ls)), ":0");
    assert_eq!(get_display_by_user("carol", None, None), "");
}

#[test]
fn display_normalised() {
    assert_eq!(get_display_x11("myhost:0", "", "myhost"), ":0");
    assert_eq!(get_display_x11("", "localhost:1", "myhost"), ":1");
    assert_eq!(get_display_x11("", "", "myhost"), ":0");
    assert_eq!(get_display_x11(":2", "", ""), ":2");
}

#[test]
fn xorg_auth_argument() {
    let ps = "UID PID PPID C STIME TTY TIME CMD\nroot 812 790 0 09:00 tty1 00:00:10 /usr/lib/Xorg vt1 -displayfd 3 -auth /run/user/120/gdm/Xauthority -nolisten tcp\n";
    assert_eq!(
        get_xorg_auth_arg(ps),
        Some(("/run/user/120/gdm/Xauthority".to_string(), "812".to_string()))
    );
    assert_eq!(get_xorg_auth_arg("root 1 0 Xorg -auth\n"), None);
    assert_eq!(
        get_xorg_auth_arg("root 5 1 Xorg -auth -auth /run/x -nolisten tcp\n"),
        Some(("/run/x".to_string(), "5".to_string()))
    );
    match xauth_from_xorg("/run/x", true, "", None) {
        XorgXauth::Direct(v) => assert_eq!(v, "/run/x"),
        _ => panic!("absolute existing path"),
    }
    match xauth_from_xorg(".Xauthority", false, "", Some("/home/bob".to_string())) {
        XorgXauth::UnderBase { base, path } => {
            assert_eq!(base, "/home/bob");
            assert_eq!(path, "/home/bob/.Xauthority");
        }
        _ => panic!("relative path"),
    }
    match xauth_from_xorg("a", false, "/h", None) {
        XorgXauth::UnderBase { base, path } => {
            assert_eq!(base, "/h");
            assert_eq!(path, "/h/a");
        }
        _ => panic!("relative path"),
    }
}

#[test]
fn xauth_fallbacks() {
    assert_eq!(get_xauth_x11("/p", "/x", "1000", "bob", true, None, true), "/p");
    assert_eq!(get_xauth_x11("", "/x", "1000", "bob", true, None, true), "/x");
    assert_eq!(get_xauth_x11("", "", "1000", "bob", true, None, true), "/run/user/1000/gdm/Xauthority");
    assert_eq!(
        get_xauth_x11("", "", "1000", "bob", false, Some("/srv/bob".to_string()), true),
        "/srv/bob/.Xauthority"
    );
    assert_eq!(get_xauth_x11("", "", "0", "root", false, None, false), "/root/.Xauthority");
    assert_eq!(get_xauth_x11("", "", "1000", "bob", false, None, true), "/home/bob/.Xauthority");
    assert_eq!(get_xauth_x11("", "", "1000", "bob", false, None, false), "/var/lib/bob/.Xauthority");
    assert_eq!(gdm_xauth_path("7"), "/run/user/7/gdm/Xauthority");
    assert_eq!(home_xauth_path("bob"), "/home/bob/.Xauthority");
}

#[test]
fn probe_lists() {
    assert_eq!(
        display_x11_procs(),
        vec!["Xwayland", "ibus-daemon", "goa-daemon", "kded[0-9]+", "xfce4-panel", "sddm-greeter"]
    );
    let tray = tray_process("RustDesk");
    assert_eq!(tray, "rustdesk +--tray");
    assert_eq!(xauth_x11_procs(&tray).last().unwrap(), "rustdesk +--tray");
    assert_eq!(xwayland_procs(&tray)[0], "xdg-desktop-portal");
    assert_eq!(first_found(&vec![String::new(), ":1".to_string(), ":2".to_string()]), ":1");
    assert_eq!(first_found(&vec![String::new()]), "");
}

#[test]
fn session_basics() {
    assert_eq!(home_of("bob", None), "/home/bob");
    assert_eq!(home_of("root", None), "/root");
    assert_eq!(home_of("bob", Some("/srv/bob".to_string())), "/srv/bob");
    assert!(is_subprocess_count(Some("1\n")));
    assert!(!is_subprocess_count(Some(" 0\n")));
    assert!(!is_subprocess_count(None));
    let mut d = Desktop::blank();
    assert!(d.is_headless());
    d.sid = "c1".to_string();
    assert!(!d.is_headless());
    d.protocol = "wayland".to_string();
    assert!(d.is_wayland());
    assert!(d.is_login_wayland(true));
    assert!(!d.is_login_wayland(false));
    d.wl_display = "wayland-0".to_string();
    assert!(!wayland_env_found(&d));
    d.dbus = "unix:path=/run/user/1000/bus".to_string();
    assert!(wayland_env_found(&d));
    assert!(!xwayland_env_found(&d));
}

#[test]
fn refresh_decisions() {
    let mut d = Desktop::blank();
    assert!(refresh_active(&mut d, true, false, false).is_none());
    let seat0 = vec!["c2".to_string(), "1000".to_string(), "alice".to_string()];
    let p = refresh_from_seat0(&mut d, &seat0, "x11", false, false, "/home/alice");
    assert!(matches!(p, RefreshProbe::X11));
    assert_eq!((d.sid.as_str(), d.uid.as_str(), d.username.as_str()), ("c2", "1000", "alice"));
    assert_eq!(d.home, "/home/alice");
    assert!(matches!(refresh_active(&mut d, true, false, false), Some(RefreshProbe::Done)));
    d.is_rustdesk_subprocess = true;
    assert!(matches!(refresh_active(&mut d, true, true, false), Some(RefreshProbe::Xwayland)));
    assert!(!d.is_rustdesk_subprocess);
    let p = refresh_from_seat0(&mut d, &seat0, "wayland", false, false, "/home/alice");
    assert!(matches!(p, RefreshProbe::Wayland));
    let gdm = vec!["c1".to_string(), "120".to_string(), "gdm".to_string()];
    d.display = ":0".to_string();
    let p = refresh_from_seat0(&mut d, &gdm, "wayland", true, true, "/var/lib/gdm");
    assert!(matches!(p, RefreshProbe::Done));
    assert_eq!(d.display, "");
    let p = refresh_from_seat0(&mut d, &vec![String::new(), String::new(), String::new()], "", false, false, "");
    assert!(matches!(p, RefreshProbe::Done));
    assert_eq!(d.sid, "");
    assert_eq!(d.username, "");
}

#[test]
fn refresh_in_one_step() {
    let seat0 = vec!["c3".to_string(), "1001".to_string(), "bob".to_string()];
    let mut d = Desktop::blank();
    let p = d.refresh(false, false, false, &seat0, "x11", false, "/home/bob");
    assert!(matches!(p, RefreshProbe::X11));
    assert_eq!(d.username, "bob");
    assert_eq!(d.home, "/home/bob");
    let root = vec!["c4".to_string(), "0".to_string(), "root".to_string()];
    let mut r = Desktop::blank();
    let p = r.refresh(false, false, false, &root, "x11", false, &home_of("root", None));
    assert!(matches!(p, RefreshProbe::X11));
    assert_eq!(r.username, "root");
    assert_eq!(r.home, "/root");
    let gdm = vec!["c1".to_string(), "120".to_string(), "gdm".to_string()];
    let mut g = Desktop::blank();
    g.display = ":0".to_string();
    g.xauth = "/x".to_string();
    g.is_rustdesk_subprocess = true;
    let p = g.refresh(false, true, false, &gdm, "wayland", true, "/var/lib/gdm");
    assert!(matches!(p, RefreshProbe::Done));
    assert_eq!((g.display.as_str(), g.xauth.as_str()), ("", ""));
    assert!(!g.is_rustdesk_subprocess);
    let p = d.refresh(true, false, false, &seat0, "wayland", false, "/home/bob");
    assert!(matches!(p, RefreshProbe::Done));
    assert_eq!(d.protocol, "x11");
}

#[test]
fn probe_retries() {
    assert!(matches!(probe_step(1, true), ProbeStep::Found));
    assert!(matches!(probe_step(1, false), ProbeStep::Retry { pause_ms: 300 }));
    assert!(matches!(probe_step(9, false), ProbeStep::Retry { pause_ms: 300 }));
    assert!(matches!(probe_step(10, false), ProbeStep::GiveUp { pause_ms: 300 }));
    assert!(matches!(probe_step(10, true), ProbeStep::Found));
}
