use tabs::channel::{PlaybackChannel, PlaybackCmd, PLAYBACK_CHANNEL_CAPACITY};

fn cmd(pause: bool, position_us: u64, speed_mille: u32) -> PlaybackCmd {
    PlaybackCmd { pause, position_us, speed_mille }
}

#[test]
fn commands_arrive_in_order() {
    let mut chan = PlaybackChannel::new();
    assert_eq!(chan.len(), 0);
    assert_eq!(chan.recv(), None);

    assert!(chan.send(cmd(true, 1_000, 1000)));
    assert!(chan.send(cmd(false, 2_000, 500)));
    assert!(chan.send(cmd(false, 3_000, 1000)));
    assert_eq!(chan.len(), 3);

    assert_eq!(chan.recv(), Some(cmd(true, 1_000, 1000)));
    assert_eq!(chan.recv(), Some(cmd(false, 2_000, 500)));
    assert_eq!(chan.recv(), Some(cmd(false, 3_000, 1000)));
    assert_eq!(chan.recv(), None);
}

#[test]
fn full_channel_drops_new_commands() {
    let mut chan = PlaybackChannel::new();
    for i in 0..PLAYBACK_CHANNEL_CAPACITY {
        assert!(chan.send(cmd(false, i as u64, 1000)));
    }
    // The channel is full: the next command is dropped, not queued.
    assert!(!chan.send(cmd(true, 999, 1000)));
    assert_eq!(chan.len(), PLAYBACK_CHANNEL_CAPACITY);

    // What is drained is exactly what was accepted, in order.
    for i in 0..PLAYBACK_CHANNEL_CAPACITY {
        assert_eq!(chan.recv(), Some(cmd(false, i as u64, 1000)));
    }
    assert_eq!(chan.recv(), None);

    // Room again: sending works once more.
    assert!(chan.send(cmd(true, 7, 250)));
    assert_eq!(chan.recv(), Some(cmd(true, 7, 250)));
}
