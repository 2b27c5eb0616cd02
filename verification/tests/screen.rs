use signal_relay::screen::{
    check_start, frame_size, is_server_running, start_screen_server, stop_screen_server,
    stream_step, ScreenServer, StreamAction, StreamEvent, FRAME_INTERVAL_MS, FRAME_QUALITY,
};

fn s(text: &str) -> String {
    text.to_string()
}

#[test]
fn new_screen_server_does_not_run() {
    let server = ScreenServer::new();
    assert!(!is_server_running(&server));
    assert_eq!(check_start(&server), Ok(()));
}

#[test]
fn start_reports_where_to_reach_the_server() {
    let mut server = ScreenServer::new();
    assert_eq!(
        start_screen_server(&mut server, 8080, None, Some(s("192.168.1.5"))),
        Ok(s("192.168.1.5:8080"))
    );
    assert!(is_server_running(&server));

    let mut server = ScreenServer::new();
    assert_eq!(start_screen_server(&mut server, 9, None, None), Ok(s("0.0.0.0:9")));
    assert!(is_server_running(&server));
}

#[test]
fn start_refuses_while_running() {
    let mut server = ScreenServer::new();
    start_screen_server(&mut server, 8080, None, None).unwrap();
    assert_eq!(check_start(&server), Err(s("Server already running")));
    assert_eq!(
        start_screen_server(&mut server, 8081, None, Some(s("10.0.0.1"))),
        Err(s("Server already running"))
    );
    assert_eq!(
        start_screen_server(&mut server, 8081, Some(s("in use")), None),
        Err(s("Server already running"))
    );
    assert!(is_server_running(&server));
}

#[test]
fn failed_bind_leaves_the_server_stopped() {
    let mut server = ScreenServer::new();
    assert_eq!(
        start_screen_server(&mut server, 80, Some(s("Permission denied")), Some(s("10.0.0.1"))),
        Err(s("Permission denied"))
    );
    assert!(!is_server_running(&server));
    assert_eq!(check_start(&server), Ok(()));
}

#[test]
fn stop_signals_only_a_running_server() {
    let mut server = ScreenServer::new();
    assert!(!stop_screen_server(&mut server));
    start_screen_server(&mut server, 8080, None, None).unwrap();
    assert!(stop_screen_server(&mut server));
    assert!(!is_server_running(&server));
    assert!(!stop_screen_server(&mut server));
    assert_eq!(start_screen_server(&mut server, 8080, None, None), Ok(s("0.0.0.0:8080")));
}

#[test]
fn frames_are_scaled_to_half() {
    assert_eq!(frame_size(1920, 1080), (960, 540));
    assert_eq!(frame_size(1921, 1081), (960, 540));
    assert_eq!(frame_size(1, 1), (0, 0));
    assert_eq!(frame_size(0, 0), (0, 0));
    assert_eq!(frame_size(u32::MAX, 2), (2147483647, 1));
}

#[test]
fn frame_constants() {
    assert_eq!(FRAME_INTERVAL_MS, 100);
    assert_eq!(FRAME_QUALITY, 50);
}

#[test]
fn captured_image_is_sent_as_base64() {
    assert_eq!(
        stream_step(StreamEvent::Captured(Ok(b"hello".to_vec()))),
        StreamAction::Send(s("aGVsbG8="))
    );
    assert_eq!(
        stream_step(StreamEvent::Captured(Ok(vec![0xff, 0xd8, 0xff, 0xe0, 0x00, 0x10]))),
        StreamAction::Send(s("/9j/4AAQ"))
    );
    assert_eq!(stream_step(StreamEvent::Captured(Ok(vec![0xfb]))), StreamAction::Send(s("+w==")));
    assert_eq!(stream_step(StreamEvent::Captured(Ok(vec![]))), StreamAction::Send(s("")));
}

#[test]
fn stream_stops_on_anything_else() {
    assert_eq!(stream_step(StreamEvent::Shutdown), StreamAction::Stop);
    assert_eq!(stream_step(StreamEvent::Captured(Err(s("No monitor found")))), StreamAction::Stop);
}
