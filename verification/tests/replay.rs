use packet_io::config::{load_config_from_string, CliConfigReplay};
use packet_io::packet::Timestamp;
use packet_io::replay::{replay_delay, Pacer};

fn at(nanos: u128) -> Timestamp {
    Timestamp::from_nanos(nanos)
}

#[test]
fn fast_replay_delivers_back_to_back() {
    assert_eq!(replay_delay(false, None, at(500)), 0);
    assert_eq!(replay_delay(false, Some(at(100)), at(9_000_000_000)), 0);
    let mut pacer = Pacer::new(&CliConfigReplay { realtime: false });
    let stamps = [10u128, 1_000_000, 5, 60_000_000_000];
    for nanos in stamps {
        assert_eq!(pacer.delay_for(at(nanos)), 0);
    }
}

#[test]
fn realtime_replay_waits_the_captured_gap() {
    assert_eq!(replay_delay(true, None, at(500)), 0);
    assert_eq!(replay_delay(true, Some(at(100)), at(350)), 250);
    assert_eq!(replay_delay(true, Some(at(350)), at(350)), 0);
    assert_eq!(replay_delay(true, Some(at(350)), at(100)), 0);
    let mut pacer = Pacer::new(&CliConfigReplay { realtime: true });
    let stamps = [1_000u128, 1_250, 1_250, 2_000_001_250];
    let mut total = 0;
    let mut delays = Vec::new();
    for nanos in stamps {
        let delay = pacer.delay_for(at(nanos));
        total += delay;
        delays.push(delay);
    }
    assert_eq!(delays, vec![0, 250, 0, 2_000_000_000]);
    assert_eq!(total, 2_000_001_250 - 1_000);
    assert_eq!(pacer.previous, Some(at(2_000_001_250)));
}

#[test]
fn pacer_follows_the_tuning_document() {
    let config = load_config_from_string("replay:\n  realtime: true\n").unwrap();
    let mut pacer = Pacer::new(&config.replay);
    assert!(pacer.realtime);
    assert_eq!(pacer.delay_for(at(7)), 0);
    assert_eq!(pacer.delay_for(at(10)), 3);
    let config = load_config_from_string("").unwrap();
    let mut pacer = Pacer::new(&config.replay);
    assert!(!pacer.realtime);
    assert_eq!(pacer.delay_for(at(7)), 0);
    assert_eq!(pacer.delay_for(at(10)), 0);
}
