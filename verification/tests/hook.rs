use timespoof::{
    get_system_time_as_file_time_hook, Agent, ControlMessage, FileTime, PollEvent, TimeConfig,
};

fn data(text: &str) -> PollEvent {
    PollEvent::Data(text.as_bytes().to_vec())
}

fn ticks(file_time: FileTime) -> u64 {
    ((file_time.high_date_time as u64) << 32) | file_time.low_date_time as u64
}

#[test]
fn agent_starts_frozen_at_zero() {
    let agent = Agent::new();
    assert_eq!(agent.policy(), TimeConfig::new(0, 0, false, false));
    assert!(agent.is_online());
}

#[test]
fn fresh_agent_reports_zero_at_any_clock() {
    let mut agent = Agent::new();
    for now in [0u64, 1, 132_223_104_000_000_000, u64::MAX] {
        let seen = get_system_time_as_file_time_hook(&mut agent, PollEvent::Idle, now);
        assert_eq!(seen.file_time, FileTime { low_date_time: 0, high_date_time: 0 });
        assert!(seen.applied.is_empty());
        assert!(!seen.rejected);
    }
}

#[test]
fn frozen_update_is_reported_from_then_on() {
    let mut agent = Agent::new();
    let seen = get_system_time_as_file_time_hook(&mut agent, data("100 0 0 0"), 777);
    assert_eq!(ticks(seen.file_time), 100);
    assert_eq!(
        seen.applied,
        vec![ControlMessage { timestamp: 100, real_time: false, move_forward: false, reset_base: false }]
    );
    for now in [0u64, 778, 5_000_000, u64::MAX] {
        let seen = get_system_time_as_file_time_hook(&mut agent, PollEvent::Idle, now);
        assert_eq!(ticks(seen.file_time), 100);
    }
}

#[test]
fn moving_update_advances_with_the_clock() {
    let mut agent = Agent::new();
    let seen = get_system_time_as_file_time_hook(&mut agent, data("500 0 1 1"), 1000);
    assert_eq!(ticks(seen.file_time), 500);
    assert_eq!(agent.policy(), TimeConfig::new(1000, 500, false, true));
    let seen = get_system_time_as_file_time_hook(&mut agent, PollEvent::Idle, 1005);
    assert_eq!(ticks(seen.file_time), 505);
    assert_eq!(seen.file_time, FileTime { low_date_time: 505, high_date_time: 0 });
}

#[test]
fn real_time_update_reports_the_clock() {
    let mut agent = Agent::new();
    get_system_time_as_file_time_hook(&mut agent, data("0 1 0 0"), 5);
    for now in [0u64, 6, 132_223_104_000_000_000, 0xFFFF_FFFF_0000_0001, u64::MAX] {
        let seen = get_system_time_as_file_time_hook(&mut agent, PollEvent::Idle, now);
        assert_eq!(ticks(seen.file_time), now);
    }
}

#[test]
fn malformed_message_is_ignored_and_the_next_applies() {
    let mut agent = Agent::new();
    get_system_time_as_file_time_hook(&mut agent, data("100 0 0 0"), 1);
    let before = agent.policy();
    let seen = get_system_time_as_file_time_hook(&mut agent, data("abc"), 2);
    assert!(seen.rejected);
    assert!(seen.applied.is_empty());
    assert_eq!(agent.policy(), before);
    assert_eq!(ticks(seen.file_time), 100);
    assert!(agent.is_online());
    let seen = get_system_time_as_file_time_hook(&mut agent, data("200 0 0 0"), 3);
    assert!(!seen.rejected);
    assert_eq!(seen.applied.len(), 1);
    assert_eq!(ticks(seen.file_time), 200);
    assert_eq!(agent.policy(), TimeConfig::new(0, 200, false, false));
}

#[test]
fn update_takes_effect_in_the_call_that_reads_it() {
    let mut agent = Agent::new();
    let seen = get_system_time_as_file_time_hook(&mut agent, data("0 1 0 0"), 4242);
    assert_eq!(ticks(seen.file_time), 4242);
}

#[test]
fn the_last_update_of_a_read_decides_the_reported_time() {
    let mut agent = Agent::new();
    let seen = get_system_time_as_file_time_hook(&mut agent, data("100 0 0 0 0 1 0 0 900 0 0 0"), 50);
    assert_eq!(seen.applied.len(), 3);
    assert_eq!(ticks(seen.file_time), 900);
}

#[test]
fn connection_loss_leaves_the_last_policy_in_force() {
    let mut agent = Agent::new();
    get_system_time_as_file_time_hook(&mut agent, data("500 0 1 1"), 1000);
    let seen = get_system_time_as_file_time_hook(&mut agent, PollEvent::Lost, 1001);
    assert_eq!(ticks(seen.file_time), 501);
    assert!(!agent.is_online());
    let seen = get_system_time_as_file_time_hook(&mut agent, data("0 0 0 0"), 1010);
    assert!(seen.applied.is_empty());
    assert_eq!(ticks(seen.file_time), 510);
    assert_eq!(agent.policy(), TimeConfig::new(1000, 500, false, true));
}

#[test]
fn failed_acknowledgement_gives_the_connection_up() {
    let mut agent = Agent::new();
    get_system_time_as_file_time_hook(&mut agent, data("100 0 0 0"), 1);
    agent.connection_lost();
    assert!(!agent.is_online());
    assert_eq!(agent.policy(), TimeConfig::new(0, 100, false, false));
    let seen = get_system_time_as_file_time_hook(&mut agent, data("200 0 0 0"), 2);
    assert_eq!(ticks(seen.file_time), 100);
}

#[test]
fn moving_policy_wraps_in_the_reported_words() {
    let mut agent = Agent::new();
    get_system_time_as_file_time_hook(&mut agent, data("18446744073709551615 0 1 1"), 10);
    let seen = get_system_time_as_file_time_hook(&mut agent, PollEvent::Idle, 11);
    assert_eq!(seen.file_time, FileTime { low_date_time: 0, high_date_time: 0 });
    let seen = get_system_time_as_file_time_hook(&mut agent, PollEvent::Idle, 9);
    assert_eq!(
        seen.file_time,
        FileTime { low_date_time: 0xFFFF_FFFE, high_date_time: 0xFFFF_FFFF }
    );
}
