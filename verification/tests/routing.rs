use multiplexing_stream::frame::{Frame, StreamId};
use multiplexing_stream::multiplexor::{
    accept_frame, frame_for, initial_window, local_id, offer_frame, pump_message, read_budget,
    Outcoming, PumpError, Route, Router, WriteMsg, DEFAULT_REM_WIN_SIZE, READ_CHUNK_SIZE,
};
use multiplexing_stream::proxy::next_target;
use multiplexing_stream::streams::StreamMap;

#[test]
fn stream_map_keeps_sides_apart() {
    let mut m: StreamMap<u8> = StreamMap::new();
    m.insert(StreamId::Local(1), 10);
    m.insert(StreamId::Remote(1), 20);
    assert_eq!(m.get(StreamId::Local(1)), Some(&10));
    assert_eq!(m.get(StreamId::Remote(1)), Some(&20));
    assert_eq!(m.remove(StreamId::Local(1)), Some(10));
    assert_eq!(m.get(StreamId::Local(1)), None);
    assert_eq!(m.remove(StreamId::Local(1)), None);
    assert_eq!(m.get(StreamId::Remote(1)), Some(&20));
}

#[test]
fn window_defaults() {
    assert_eq!(initial_window(Some(7)), 7);
    assert_eq!(initial_window(None), DEFAULT_REM_WIN_SIZE);
    assert_eq!(DEFAULT_REM_WIN_SIZE, 5 * 20 * 1024);
}

#[test]
fn offer_and_accept_frames_announce_the_default_window() {
    let id = local_id(3);
    assert_eq!(id, StreamId::Local(3));
    match offer_frame(id, "ig-common".to_string()) {
        Frame::Offer { id, name, window_size } => {
            assert_eq!(id, StreamId::Local(3));
            assert_eq!(name, "ig-common");
            assert_eq!(window_size, Some(102400));
        }
        other => panic!("unexpected {:?}", other),
    }
    assert!(matches!(
        accept_frame(StreamId::Remote(4)),
        Frame::OfferAccepted { id: StreamId::Remote(4), rem_window_size: Some(102400) }
    ));
}

#[test]
fn routes_an_offer_and_its_content() {
    let mut router: Router<&'static str, u8> = Router::new();
    match router.route(Frame::Offer { id: StreamId::Remote(1), name: "a".to_string(), window_size: None }) {
        Route::Incoming { id, name, window } => {
            assert_eq!(id, StreamId::Remote(1));
            assert_eq!(name, "a");
            assert_eq!(window, DEFAULT_REM_WIN_SIZE);
        }
        _ => panic!("expected an incoming channel"),
    }
    router.attach(StreamId::Remote(1), "pipe-1");
    match router.route(Frame::Content { id: StreamId::Remote(1), payload: vec![1, 2, 3] }) {
        Route::Deliver { id, payload, writer } => {
            assert_eq!(id, StreamId::Remote(1));
            assert_eq!(payload, vec![1, 2, 3]);
            assert_eq!(writer, "pipe-1");
            match router.delivered(id, writer, true, payload.len()) {
                Frame::ContentProcessed { id, processed } => {
                    assert_eq!(id, StreamId::Remote(1));
                    assert_eq!(processed, 3);
                }
                other => panic!("unexpected {:?}", other),
            }
        }
        _ => panic!("expected a delivery"),
    }
    assert_eq!(router.stream(StreamId::Remote(1)), Some(&"pipe-1"));
    assert!(matches!(
        router.route(Frame::ContentProcessed { id: StreamId::Remote(1), processed: 10 }),
        Route::Credit { id: StreamId::Remote(1), amount: 10 }
    ));
    match router.route(Frame::ChannelTerminated { id: StreamId::Remote(1) }) {
        Route::Closed { id, dropped } => {
            assert_eq!(id, StreamId::Remote(1));
            assert_eq!(dropped, Some("pipe-1"));
        }
        _ => panic!("expected closing"),
    }
    assert_eq!(router.stream(StreamId::Remote(1)), None);
    assert!(matches!(router.route(Frame::Content { id: StreamId::Remote(1), payload: vec![] }), Route::Ignored));
    assert!(matches!(
        router.route(Frame::ContentProcessed { id: StreamId::Remote(1), processed: 1 }),
        Route::Ignored
    ));
}

#[test]
fn failed_delivery_terminates_the_channel() {
    let mut router: Router<u8, u8> = Router::new();
    router.attach(StreamId::Local(2), 7);
    match router.route(Frame::Content { id: StreamId::Local(2), payload: vec![5] }) {
        Route::Deliver { id, writer, .. } => {
            assert!(matches!(router.delivered(id, writer, false, 1), Frame::ChannelTerminated { id: StreamId::Local(2) }));
        }
        _ => panic!("expected a delivery"),
    }
    assert_eq!(router.stream(StreamId::Local(2)), None);
}

#[test]
fn acceptance_matches_the_waiting_offer() {
    let mut router: Router<u8, &'static str> = Router::new();
    assert!(matches!(
        router.route(Frame::OfferAccepted { id: StreamId::Local(5), rem_window_size: Some(9) }),
        Route::Unmatched { id: StreamId::Local(5), window: 9 }
    ));
    // The queue holds another offer first: it is kept for later.
    let other = Outcoming { id: StreamId::Local(6), name: "b".to_string() };
    assert!(router.settle(StreamId::Local(5), other, "six").is_none());
    let mine = Outcoming { id: StreamId::Local(5), name: "a".to_string() };
    match router.settle(StreamId::Local(5), mine, "five") {
        Some((o, l)) => {
            assert_eq!(o.id, StreamId::Local(5));
            assert_eq!(l, "five");
        }
        None => panic!("expected the matching offer"),
    }
    match router.route(Frame::OfferAccepted { id: StreamId::Local(6), rem_window_size: None }) {
        Route::Accepted { id, window, outcoming, listener } => {
            assert_eq!(id, StreamId::Local(6));
            assert_eq!(window, DEFAULT_REM_WIN_SIZE);
            assert_eq!(outcoming.name, "b");
            assert_eq!(listener, "six");
        }
        _ => panic!("expected the parked offer"),
    }
}

#[test]
fn pump_budget_and_messages() {
    assert_eq!(read_budget(0), 0);
    assert_eq!(read_budget(100), 100);
    assert_eq!(read_budget(1 << 20), READ_CHUNK_SIZE);
    assert_eq!(READ_CHUNK_SIZE, 2 * 1024);
    let buf = [1u8, 2, 3, 4];
    match pump_message(StreamId::Local(1), Ok(3), &buf) {
        (WriteMsg::Content { id, payload }, stop) => {
            assert_eq!(id, StreamId::Local(1));
            assert_eq!(payload, vec![1, 2, 3]);
            assert!(!stop);
        }
        other => panic!("unexpected {:?}", other),
    }
    match pump_message(StreamId::Local(1), Ok(0), &buf) {
        (WriteMsg::Error { id, error }, stop) => {
            assert_eq!(id, StreamId::Local(1));
            assert!(matches!(error, PumpError::ZeroRead));
            assert!(stop);
        }
        other => panic!("unexpected {:?}", other),
    }
    let failed = std::io::Error::new(std::io::ErrorKind::BrokenPipe, "gone");
    match pump_message(StreamId::Remote(2), Err(failed), &buf) {
        (WriteMsg::Error { id, error }, stop) => {
            assert_eq!(id, StreamId::Remote(2));
            match error {
                PumpError::Io(e) => assert_eq!(e.kind(), std::io::ErrorKind::BrokenPipe),
                PumpError::ZeroRead => panic!("expected the read error"),
            }
            assert!(stop);
        }
        other => panic!("unexpected {:?}", other),
    }
}

#[test]
fn writing_side_frames() {
    match frame_for(WriteMsg::Content { id: StreamId::Local(3), payload: vec![8] }) {
        Frame::Content { id, payload } => {
            assert_eq!(id, StreamId::Local(3));
            assert_eq!(payload, vec![8]);
        }
        other => panic!("unexpected {:?}", other),
    }
    let error = PumpError::Io(std::io::Error::new(std::io::ErrorKind::Other, "x"));
    assert!(matches!(
        frame_for(WriteMsg::Error { id: StreamId::Remote(3), error }),
        Frame::ChannelTerminated { id: StreamId::Remote(3) }
    ));
}

#[test]
fn connections_take_turns() {
    assert_eq!(next_target(0, 0), (None, 0));
    assert_eq!(next_target(5, 0), (None, 0));
    assert_eq!(next_target(0, 3), (Some(0), 1));
    assert_eq!(next_target(2, 3), (Some(2), 3));
    assert_eq!(next_target(3, 3), (Some(0), 1));
    let mut selector = 0;
    let mut seen = Vec::new();
    for _ in 0..6 {
        let (target, next) = next_target(selector, 3);
        seen.push(target.unwrap());
        selector = next;
    }
    assert_eq!(seen, vec![0, 1, 2, 0, 1, 2]);
}
