use coomi::channel::ManualState;
use std::sync::mpsc;

#[test]
fn channel_roundtrip() {
    let mut channel: ManualState<mpsc::Sender<String>> = ManualState::new();
    let (sender, receiver) = mpsc::channel();
    let _seq = channel.request(sender);
    assert!(channel.has_pending());
    let taken = channel.respond();
    assert!(taken.is_some());
    if let Some(Some(sender)) = taken {
        let _ = sender.send("answer".to_string());
    }
    assert!(!channel.has_pending());
    let text = receiver.try_recv();
    assert!(text.is_ok());
    // A late answer finds nothing waiting.
    assert!(channel.respond().is_none());
}

#[test]
fn channel_cancel_clears_pending() {
    let mut channel: ManualState<mpsc::Sender<String>> = ManualState::new();
    let (sender, receiver) = mpsc::channel::<String>();
    let _seq = channel.request(sender);
    assert!(channel.has_pending());
    channel.cancel();
    assert!(!channel.has_pending());
    assert!(receiver.try_recv().is_err());
}

#[test]
fn channel_seq_increments_per_request() {
    let mut channel: ManualState<mpsc::Sender<String>> = ManualState::new();
    let (s1, _rx1) = mpsc::channel::<String>();
    let seq1 = channel.request(s1);
    let _ = channel.respond();
    let (s2, _rx2) = mpsc::channel::<String>();
    let seq2 = channel.request(s2);
    assert_eq!(seq1, 1);
    assert_eq!(seq2, 2);
}

#[test]
fn a_new_request_replaces_the_waiting_one() {
    let mut channel: ManualState<mpsc::Sender<String>> = ManualState::new();
    let (s1, rx1) = mpsc::channel::<String>();
    let (s2, rx2) = mpsc::channel::<String>();
    assert_eq!(channel.request(s1), 1);
    assert_eq!(channel.request(s2), 2);
    assert_eq!(channel.last_seq(), 2);
    // The first receiver sees its sender gone.
    assert!(matches!(rx1.try_recv(), Err(mpsc::TryRecvError::Disconnected)));
    if let Some(Some(sender)) = channel.respond() {
        let _ = sender.send("second".to_string());
    }
    assert_eq!(rx2.try_recv().ok(), Some("second".to_string()));
}

#[test]
fn cancel_then_request_keeps_counting() {
    let mut channel: ManualState<u8> = ManualState::new();
    assert_eq!(channel.request(0), 1);
    channel.cancel();
    assert!(channel.respond().is_none());
    assert_eq!(channel.request(0), 2);
}
