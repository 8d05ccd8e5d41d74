use audioviz::capture::{AudioCaptureChannel, Received, StreamSignal};

fn frame_of(received: Received) -> Option<Vec<i16>> {
    match received {
        Received::Frame(frame) => Some(frame),
        _ => None,
    }
}

#[test]
fn nothing_waits_in_a_new_channel() {
    let mut channel = AudioCaptureChannel::new();
    assert!(matches!(channel.try_recv(), Received::Empty));
}

#[test]
fn pushed_frame_is_received() {
    let mut channel = AudioCaptureChannel::new();
    assert_eq!(channel.push(vec![1, -2, 3]), StreamSignal::Continue);
    assert_eq!(frame_of(channel.try_recv()), Some(vec![1, -2, 3]));
    assert!(matches!(channel.try_recv(), Received::Empty));
}

#[test]
fn capture_continues_while_the_consumer_keeps_up() {
    let mut channel = AudioCaptureChannel::new();
    for k in 0..10i16 {
        assert_eq!(channel.push(vec![k; 512]), StreamSignal::Continue);
        assert_eq!(frame_of(channel.try_recv()), Some(vec![k; 512]));
    }
}

#[test]
fn overrun_stops_capture_and_drops_the_frame() {
    let mut channel = AudioCaptureChannel::new();
    assert_eq!(channel.push(vec![1]), StreamSignal::Continue);
    assert_eq!(channel.push(vec![2]), StreamSignal::Complete);
    assert_eq!(frame_of(channel.try_recv()), Some(vec![1]));
    assert!(matches!(channel.try_recv(), Received::Disconnected));
}

#[test]
fn nothing_is_taken_after_capture_stopped() {
    let mut channel = AudioCaptureChannel::new();
    channel.push(vec![1]);
    channel.push(vec![2]);
    channel.try_recv();
    assert_eq!(channel.push(vec![3]), StreamSignal::Complete);
    assert!(matches!(channel.try_recv(), Received::Disconnected));
}

#[test]
fn disconnect_is_reported_once_the_slot_is_empty() {
    let mut channel = AudioCaptureChannel::new();
    channel.disconnect();
    assert!(matches!(channel.try_recv(), Received::Disconnected));
    assert!(matches!(channel.try_recv(), Received::Disconnected));
}

#[test]
fn waiting_frame_survives_a_disconnect() {
    let mut channel = AudioCaptureChannel::new();
    assert_eq!(channel.push(vec![7, 8]), StreamSignal::Continue);
    channel.disconnect();
    assert_eq!(frame_of(channel.try_recv()), Some(vec![7, 8]));
    assert!(matches!(channel.try_recv(), Received::Disconnected));
}

#[test]
fn empty_frame_is_a_frame() {
    let mut channel = AudioCaptureChannel::new();
    assert_eq!(channel.push(Vec::new()), StreamSignal::Continue);
    assert_eq!(frame_of(channel.try_recv()), Some(Vec::new()));
}
