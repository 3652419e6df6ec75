use anchor::clock::{get_clock, get_uptime, InstantFull, InstantShort};
use anchor::state::{config_reset, finalize_config, get_config, AppState};

#[test]
fn instant_after_wraps() {
    let a = InstantShort::new(100);
    let b = InstantShort::new(200);
    assert!(b.after(&a));
    assert!(!a.after(&b));
    // Near the wrap point, later-but-wrapped instants still compare as
    // after.
    let before_wrap = InstantShort::new(u32::MAX - 10);
    let after_wrap = InstantShort::new(5);
    assert!(after_wrap.after(&before_wrap));
    assert!(!before_wrap.after(&after_wrap));
}

#[test]
fn instant_plus_ticks_wraps() {
    let t = InstantShort::new(u32::MAX - 1);
    let u = t.plus_ticks(3);
    assert_eq!(u.value(), 1);
    assert!(u.after(&t));
}

#[test]
fn uptime_splits_into_halves() {
    let c = InstantFull::new(0x0000_0002_0000_002A);
    let (high, low) = get_uptime(&c);
    assert_eq!(high, 2);
    assert_eq!(low, 0x2A);
    assert_eq!(get_clock(&InstantShort::new(0x1234)), 0x1234);
}

#[test]
fn config_state_lifecycle() {
    let mut state = AppState::new();
    let (is_config, crc, is_shutdown, move_count) = get_config(&state);
    assert!(!is_config);
    assert_eq!(crc, 0);
    assert!(!is_shutdown);
    assert_eq!(move_count, 0);

    finalize_config(&mut state, 0xDEADBEEF);
    let (is_config, crc, _, _) = get_config(&state);
    assert!(is_config);
    assert_eq!(crc, 0xDEADBEEF);

    config_reset(&mut state);
    let (is_config, crc, _, _) = get_config(&state);
    assert!(!is_config);
    assert_eq!(crc, 0);
}
