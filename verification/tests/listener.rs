use rover::board::{Level, Op};
use rover::listener::{level_of, Mirror, POLL_US};

#[test]
fn levels() {
    assert_eq!(level_of(true), Level::High);
    assert_eq!(level_of(false), Level::Low);
    assert_eq!(POLL_US, 200);
}

#[test]
fn idle_level_is_shown() {
    for idle in [false, true] {
        let mut out = Vec::new();
        let mirror = Mirror::start(3, idle, &mut out);
        assert_eq!(mirror, Mirror { led: 3, last: idle });
        assert_eq!(out, vec![Op::Write { pin: 3, level: level_of(idle) }]);
    }
}

#[test]
fn only_changes_reach_the_led() {
    let mut out = Vec::new();
    let mut mirror = Mirror::start(3, true, &mut out);
    let mut changes = Vec::new();
    for now in [true, false, false, true, true, false] {
        changes.push(mirror.poll(now, &mut out));
    }
    assert_eq!(changes, vec![false, true, false, true, false, true]);
    let levels = [true, false, true, false];
    let expected: Vec<Op> = levels.iter().map(|&l| Op::Write { pin: 3, level: level_of(l) }).collect();
    assert_eq!(out, expected);
    assert_eq!(mirror.last, false);
}
