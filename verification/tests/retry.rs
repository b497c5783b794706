use redox::retry::{next_attempt, next_port};

#[test]
fn attempts_run_out_at_the_limit() {
    assert_eq!(next_attempt(0, 3), Some(1));
    assert_eq!(next_attempt(1, 3), Some(2));
    assert_eq!(next_attempt(2, 3), None);
    assert_eq!(next_attempt(3, 3), None);
    assert_eq!(next_attempt(0, 0), None);
    assert_eq!(next_attempt(0, 1), None);
    assert_eq!(next_attempt(u32::MAX, u32::MAX), None);
    assert_eq!(next_attempt(u32::MAX - 2, u32::MAX), Some(u32::MAX - 1));
}

#[test]
fn ports_run_out_at_the_last_one() {
    assert_eq!(next_port(2001), Some(2002));
    assert_eq!(next_port(0), Some(1));
    assert_eq!(next_port(65534), Some(65535));
    assert_eq!(next_port(65535), None);
}
