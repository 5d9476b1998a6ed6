use statusbar::modules::network::{
    is_candidate_interface, network_up, operstate_is_up, update, NetState, Rate,
};
use statusbar::modules::AppState;

#[test]
fn first_sample_gives_no_rate() {
    let mut n = NetState::new();
    n.read(Some("1000\n"), 5);
    assert_eq!(n.speed, None);
}

#[test]
fn second_sample_gives_rate() {
    let mut n = NetState::new();
    n.read(Some("1000\n"), 1_000_000_000);
    n.read(Some("3048\n"), 1_500_000_000);
    assert_eq!(n.speed, Some(Rate { bytes: 2048, nanos: 500_000_000 }));
}

#[test]
fn counter_going_back_counts_as_nothing() {
    let mut n = NetState::new();
    n.read(Some("5000"), 10);
    n.read(Some("4000"), 20);
    assert_eq!(n.speed, Some(Rate { bytes: 0, nanos: 10 }));
}

#[test]
fn unreadable_or_bad_counter_changes_nothing() {
    let mut n = NetState::new();
    n.read(Some("100"), 10);
    n.read(None, 20);
    n.read(Some("garbage"), 30);
    assert_eq!(n.speed, None);
    n.read(Some("300"), 40);
    assert_eq!(n.speed, Some(Rate { bytes: 200, nanos: 30 }));
}

#[test]
fn same_instant_keeps_the_old_rate() {
    let mut n = NetState::new();
    n.read(Some("100"), 10);
    n.read(Some("200"), 20);
    n.read(Some("900"), 20);
    assert_eq!(n.speed, Some(Rate { bytes: 100, nanos: 10 }));
    n.read(Some("1000"), 30);
    assert_eq!(n.speed, Some(Rate { bytes: 100, nanos: 10 }));
}

#[test]
fn rate_is_between_last_two_samples() {
    let mut n = NetState::new();
    n.read(Some("1"), 1);
    n.read(Some("50"), 2);
    n.read(Some("70"), 7);
    n.read(Some("170"), 17);
    assert_eq!(n.speed, Some(Rate { bytes: 100, nanos: 10 }));
}

#[test]
fn update_samples_the_state() {
    let mut st = AppState::new();
    update(&mut st, Some("10"), 100);
    update(&mut st, Some("30"), 200);
    assert_eq!(st.net.speed, Some(Rate { bytes: 20, nanos: 100 }));
    assert!(st.i3workspace.is_none());
}

#[test]
fn default_state_is_empty() {
    let n: NetState = Default::default();
    assert_eq!(n.speed, None);
}

#[test]
fn candidate_interfaces() {
    assert!(is_candidate_interface("wlan0"));
    assert!(is_candidate_interface("eth0"));
    assert!(is_candidate_interface("lo0"));
    assert!(is_candidate_interface(""));
    assert!(!is_candidate_interface("lo"));
    assert!(!is_candidate_interface(".hidden"));
}

#[test]
fn operstate_text() {
    assert!(operstate_is_up("up\n"));
    assert!(operstate_is_up("  up"));
    assert!(!operstate_is_up("down\n"));
    assert!(!operstate_is_up("UP"));
    assert!(!operstate_is_up("upp"));
    assert!(!operstate_is_up(""));
}

#[test]
fn network_up_needs_a_candidate_that_is_up() {
    let none: Vec<(String, Option<String>)> = vec![];
    assert!(!network_up(&none));
    let only_lo = vec![("lo".to_string(), Some("up\n".to_string()))];
    assert!(!network_up(&only_lo));
    let down = vec![
        ("lo".to_string(), Some("unknown\n".to_string())),
        ("wlan0".to_string(), Some("down\n".to_string())),
        ("eth0".to_string(), None),
    ];
    assert!(!network_up(&down));
    let up = vec![
        ("lo".to_string(), Some("unknown\n".to_string())),
        ("wlan0".to_string(), Some("up\n".to_string())),
    ];
    assert!(network_up(&up));
}

#[test]
fn sample_range_check() {
    let mut n = NetState::new();
    assert!(n.sample_in_range(Some("5"), 1));
    n.read(Some("-9223372036854775808"), 1);
    assert!(!n.sample_in_range(Some("9223372036854775807"), 2));
    assert!(n.sample_in_range(Some("9223372036854775807"), 1));
    assert!(n.sample_in_range(Some("-1"), 2));
    assert!(n.sample_in_range(None, 2));
    assert!(n.sample_in_range(Some("x"), 2));
}
