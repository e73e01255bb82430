use rustdesk::server::{
    create_tcp_connection, get_service_name, handshake_error_text, handshake_required,
    initial_services, is_video_service_name, remove_exited, HandshakeError, HandshakeReply,
    HandshakeStep, InitialService, Server, VideoSource,
};

#[test]
fn service_names() {
    assert_eq!(get_service_name(VideoSource::Monitor, 0), "monitor0");
    assert_eq!(get_service_name(VideoSource::Camera, 12), "camera12");
    assert!(is_video_service_name("monitor3"));
    assert!(is_video_service_name("camera0"));
    assert!(!is_video_service_name("clipboard"));
    assert!(matches!(
        initial_services(false, true).as_slice(),
        [
            InitialService::Display,
            InitialService::Clipboard,
            InitialService::Cursor,
            InitialService::Position,
            InitialService::WindowFocus
        ]
    ));
    assert_eq!(initial_services(true, true).len(), 2);
    assert_eq!(initial_services(false, false).len(), 4);
}

#[test]
fn ids_increase_and_stay_positive() {
    let mut s = Server::new(-1);
    let a = s.get_new_id();
    let b = s.get_new_id();
    assert_eq!(a, 1000);
    assert_eq!(b, a + 1);
    let mut t = Server::new(123_456);
    assert_eq!(t.get_new_id(), 1457);
    let mut u = Server::new(i32::MIN);
    let c = u.get_new_id();
    assert!(c > 0 && c < 2001);
}

#[test]
fn monitor_connection_subscriptions() {
    let mut s = Server::new(0);
    s.add_service("monitor0".to_string());
    s.add_service("monitor1".to_string());
    s.add_service("clipboard".to_string());
    s.add_service("audio".to_string());
    assert!(s.contains("audio"));
    assert!(!s.contains("camera0"));
    let mut subs = s.add_monitor_connection(7, &["audio"], 1);
    subs.sort();
    assert_eq!(subs, vec!["clipboard", "monitor1"]);
    assert_eq!(s.get_subbed_displays_count(7), 1);
    assert!(s.subscribe("monitor0", 7, true));
    assert!(!s.subscribe("monitor0", 7, true));
    assert_eq!(s.get_subbed_displays_count(7), 2);
    assert_eq!(s.close_connections(), vec![7]);
    s.remove_connection(7);
    assert_eq!(s.get_subbed_displays_count(7), 0);
    assert!(s.close_connections().is_empty());
}

#[test]
fn capture_and_options() {
    let mut s = Server::new(0);
    assert!(s.try_add_monitor_service(0));
    assert!(!s.try_add_monitor_service(0));
    assert!(s.try_add_monitor_service(1));
    assert!(!s.try_add_primary_camera_service(false));
    assert!(s.try_add_primary_camera_service(true));
    s.add_monitor_connection(3, &[], 0);
    let mut changes = s.capture_displays(3, VideoSource::Monitor, &[1], true, true);
    changes.sort();
    assert_eq!(changes, vec![("monitor0".to_string(), false), ("monitor1".to_string(), true)]);
    let mut all = s.set_video_service_opt(None);
    all.sort();
    assert_eq!(all, vec!["camera0", "monitor0", "monitor1"]);
    assert_eq!(s.set_video_service_opt(Some((VideoSource::Monitor, 1))), vec!["monitor1"]);
    assert!(s.set_video_service_opt(Some((VideoSource::Monitor, 5))).is_empty());
    assert!(s.add_camera_connection(4, true));
    assert!(!s.add_camera_connection(5, false));
}

#[test]
fn exited_children_removed_in_order() {
    let mut v = vec![10, 11, 12, 13, 14];
    assert_eq!(remove_exited(&mut v, &[true, false, true, false, false]), 2);
    assert_eq!(v, vec![11, 13, 14]);
    let mut e: Vec<u8> = Vec::new();
    assert_eq!(remove_exited(&mut e, &[]), 0);
}

#[test]
fn key_exchange_decisions() {
    assert!(handshake_required(true, 32, 64));
    assert!(!handshake_required(false, 32, 64));
    assert!(!handshake_required(true, 31, 64));
    assert!(matches!(create_tcp_connection(false, 32, 64, None), HandshakeStep::Proceed));
    assert!(matches!(
        create_tcp_connection(true, 32, 64, Some(HandshakeReply::PublicKey { asymmetric_len: 32 })),
        HandshakeStep::UseKey
    ));
    assert!(matches!(
        create_tcp_connection(true, 32, 64, Some(HandshakeReply::PublicKey { asymmetric_len: 0 })),
        HandshakeStep::ForceUpdatePk
    ));
    assert!(matches!(
        create_tcp_connection(true, 32, 64, Some(HandshakeReply::PublicKey { asymmetric_len: 5 })),
        HandshakeStep::Fail(HandshakeError::InvalidKeyLength)
    ));
    assert!(matches!(
        create_tcp_connection(true, 32, 64, Some(HandshakeReply::OtherMessage)),
        HandshakeStep::Proceed
    ));
    assert!(matches!(
        create_tcp_connection(true, 32, 64, Some(HandshakeReply::NoReply)),
        HandshakeStep::Fail(HandshakeError::NoPublicKey)
    ));
    assert!(matches!(
        create_tcp_connection(true, 32, 64, Some(HandshakeReply::Unparsable)),
        HandshakeStep::Fail(HandshakeError::InvalidFormat)
    ));
    assert_eq!(handshake_error_text(&HandshakeError::NoPublicKey), Some("Failed to receive public key"));
    assert_eq!(
        handshake_error_text(&HandshakeError::InvalidKeyLength),
        Some("Handshake failed: invalid public sign key length from peer")
    );
    assert_eq!(handshake_error_text(&HandshakeError::ReadFailed), None);
}
