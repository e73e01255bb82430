use rustdesk::auth_2fa::{get_2fa, TOTPInfo, TotpAlgorithm, TotpError};
use rustdesk::core_main::{core_main, parse_cli_args, CoreAction};
use rustdesk::keyboard::{is_modifier, is_numpad_rdev_key, map_key_to_control_key, ControlKey, Key};
use rustdesk::rendezvous_mediator::{
    direct_server_next, direct_server_on_accept, direct_server_on_listen, get_direct_port,
    port_option_value, DirectServerAction, DirectServerState, DEFAULT_DIRECT_PORT,
};
use rustdesk::text::{
    decimal_string, parse_i32, parse_u16, parse_u32, remove_all_str, replace_char_str,
    split_lines, split_words, str_contains, str_ends_with, str_starts_with, to_lowercase_str,
    trim_str, utf8_lossy_string, utf8_to_string,
};

fn args(v: &[&str]) -> Vec<String> {
    v.iter().map(|s| s.to_string()).collect()
}

#[test]
fn command_line_options() {
    let o = parse_cli_args(&args(&["rustdesk", "--port", "21200", "x", "--password", "pw"]));
    assert_eq!(o.args, vec!["x"]);
    assert_eq!(o.direct_port, 21200);
    assert_eq!(o.password, "pw");
    let o = parse_cli_args(&args(&["rustdesk", "--port", "99999"]));
    assert_eq!(o.direct_port, 0);
    let o = parse_cli_args(&args(&["rustdesk", "--password"]));
    assert_eq!(o.password, "");
}

#[test]
fn command_line_actions() {
    assert!(matches!(core_main(&args(&["rustdesk", "--version"])), CoreAction::PrintVersion));
    assert!(matches!(core_main(&args(&["rustdesk", "--build-date"])), CoreAction::PrintBuildDate));
    assert!(matches!(core_main(&args(&["rustdesk", "-h"])), CoreAction::PrintUsage));
    match core_main(&args(&["rustdesk", "--bogus"])) {
        CoreAction::UnknownOption(s) => assert_eq!(s, "--bogus"),
        _ => panic!("unknown option expected"),
    }
    match core_main(&args(&["rustdesk", "--port", "300", "--password", "secret"])) {
        CoreAction::Run { direct_port, password } => {
            assert_eq!(direct_port, Some(300));
            assert_eq!(password, Some("secret".to_string()));
        }
        _ => panic!("run expected"),
    }
    match core_main(&args(&["rustdesk"])) {
        CoreAction::Run { direct_port, password } => {
            assert_eq!(direct_port, None);
            assert_eq!(password, None);
        }
        _ => panic!("run expected"),
    }
}

#[test]
fn direct_port_option() {
    assert_eq!(get_direct_port("21200"), 21200);
    assert_eq!(get_direct_port(""), DEFAULT_DIRECT_PORT);
    assert_eq!(get_direct_port("-5"), DEFAULT_DIRECT_PORT);
    assert_eq!(get_direct_port("abc"), DEFAULT_DIRECT_PORT);
    assert_eq!(get_direct_port(&port_option_value(4321)), 4321);
}

#[test]
fn direct_server_steps() {
    let (s, a) = direct_server_next(&DirectServerState::Idle, "");
    assert!(matches!(s, DirectServerState::Idle));
    assert!(matches!(a, DirectServerAction::Listen { port: 21118 }));
    let s = direct_server_on_listen(21118, true);
    let (s2, a) = direct_server_next(&s, "21118");
    assert!(matches!(s2, DirectServerState::Listening { port: 21118 }));
    assert!(matches!(a, DirectServerAction::Accept { port: 21118 }));
    let (s3, a) = direct_server_next(&s2, "30000");
    assert!(matches!(s3, DirectServerState::Idle));
    assert!(matches!(a, DirectServerAction::CloseListener));
    let failed = direct_server_on_listen(21118, false);
    let (_, a) = direct_server_next(&failed, "21118");
    assert!(matches!(a, DirectServerAction::Sleep { ms: 1000 }));
    assert!(matches!(direct_server_on_accept(true), DirectServerAction::SpawnConnection));
}

#[test]
fn one_time_password_setup() {
    let info = TOTPInfo { name: "alice".to_string(), secret: vec![1; 16], digits: 6, created_at: 1 };
    let t = info.new_totp().ok().unwrap();
    assert!(t.totp().generate(0).len() == 6);
    let st = info.totp_settings();
    assert_eq!(st.algorithm, TotpAlgorithm::Sha1);
    assert_eq!((st.digits, st.skew, st.step), (6, 1, 30));
    assert_eq!(st.issuer, Some("RustDesk Connection".to_string()));
    assert_eq!(st.account_name, "alice");
    assert_eq!(st.secret, vec![1; 16]);
    let bad = TOTPInfo { digits: 9, ..info.clone() };
    assert!(matches!(bad.new_totp(), Err(TotpError::DigitsNumber(9))));
    let short = TOTPInfo { secret: vec![1; 15], ..info.clone() };
    assert!(matches!(short.new_totp(), Err(TotpError::SecretSize(120))));
    let colon = TOTPInfo { name: "a:b".to_string(), ..info.clone() };
    assert!(matches!(colon.new_totp(), Err(TotpError::AccountName(_))));
    assert!(matches!(TOTPInfo::from_decrypted(info.clone(), vec![1; 16], false), Err(TotpError::DecryptFailed)));
    assert!(get_2fa(Some(info.clone()), vec![2; 20], true).is_some());
    assert!(get_2fa(None, vec![2; 20], true).is_none());
}

#[test]
fn keys() {
    assert!(is_modifier(&Key::AltGr));
    assert!(!is_modifier(&Key::Kp1));
    assert!(is_numpad_rdev_key(&Key::KpDecimal));
    assert!(!is_numpad_rdev_key(&Key::NumLock));
    assert_eq!(map_key_to_control_key(&Key::MetaRight), Some(ControlKey::RWin));
    assert_eq!(map_key_to_control_key(&Key::ShiftLeft), Some(ControlKey::Shift));
    assert_eq!(map_key_to_control_key(&Key::Other(65)), None);
}

#[test]
fn text_helpers() {
    assert_eq!(trim_str(" \t a b \n"), "a b");
    assert!(str_starts_with("monitor1", "monitor"));
    assert!(str_ends_with("id/r", "/r"));
    assert!(str_contains("a Xwayland b", "Xwayland"));
    assert_eq!(parse_u16("65535"), Some(65535));
    assert_eq!(parse_u16("65536"), None);
    assert_eq!(parse_u32("+7"), Some(7));
    assert_eq!(parse_i32("-2147483648"), Some(i32::MIN));
    assert_eq!(parse_i32(""), None);
    assert_eq!(decimal_string(1209), "1209");
    assert_eq!(split_words("  a  bc\td \n"), vec!["a", "bc", "d"]);
    assert_eq!(split_lines("a\r\nb\n\nc"), vec!["a", "b", "", "c"]);
    assert_eq!(split_lines("a\n"), vec!["a"]);
    assert_eq!(remove_all_str("aXbXXc", "X"), "abc");
    assert_eq!(remove_all_str("localhost:0", "localhost"), ":0");
    assert_eq!(replace_char_str("X1X", 'X', ":"), ":1:");
    assert_eq!(to_lowercase_str("RustDesk"), "rustdesk");
    assert_eq!(utf8_to_string(b"ok"), Some("ok".to_string()));
    assert_eq!(utf8_to_string(b"\xff"), None);
    assert_eq!(utf8_lossy_string(b"a\xffb"), "a\u{FFFD}b");
}
