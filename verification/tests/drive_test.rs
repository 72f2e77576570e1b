use rover::board::{Duty, Level, Op};
use rover::drive_test::{
    drive_full_routine, drive_rectangle, left_motor, right_motor, settle, spin, straight, Motor,
    DRIVE_DUTY, LONG_LEG_MS, PWM_FREQ_HZ, SETTLE_MS, SHORT_LEG_MS, TURN_90_MS, TURN_DUTY,
};
use rover::motion::{Turn, Wires};

fn high(pin: u8) -> Op {
    Op::Write { pin, level: Level::High }
}

fn low(pin: u8) -> Op {
    Op::Write { pin, level: Level::Low }
}

fn load(pin: u8, pct: u8) -> Op {
    Op::Load { pin, duty: Duty::Percent(pct) }
}

fn wait(ms: u64) -> Op {
    Op::Wait { ms }
}

fn stops() -> Vec<Op> {
    vec![low(1), low(10), load(0, 0), low(7), low(5), load(6, 0)]
}

fn straights(ms: u64) -> Vec<Op> {
    let mut ops = vec![high(1), low(10), load(0, 40), high(7), low(5), load(6, 40), wait(ms)];
    ops.extend(stops());
    ops
}

fn spins(turn: Turn, ms: u64) -> Vec<Op> {
    let mut ops = match turn {
        Turn::Right => vec![high(1), low(10), load(0, 50), low(7), high(5), load(6, 50)],
        Turn::Left => vec![low(1), high(10), load(0, 50), high(7), low(5), load(6, 50)],
    };
    ops.push(wait(ms));
    ops.extend(stops());
    ops
}

fn settles() -> Vec<Op> {
    let mut ops = stops();
    ops.push(wait(300));
    ops
}

fn rectangles(turn: Turn) -> Vec<Op> {
    let mut ops = Vec::new();
    for leg in [1000, 500, 1000, 500] {
        ops.extend(straights(leg));
        ops.extend(settles());
        ops.extend(spins(turn, 600));
        ops.extend(settles());
    }
    ops
}

#[test]
fn constants() {
    assert_eq!((DRIVE_DUTY, TURN_DUTY), (40, 50));
    assert_eq!((LONG_LEG_MS, SHORT_LEG_MS, TURN_90_MS, SETTLE_MS), (1000, 500, 600, 300));
    assert_eq!(PWM_FREQ_HZ, 5000);
}

#[test]
fn motor_wiring() {
    assert_eq!(left_motor(), Motor { wires: Wires { pwm: 0, in1: 1, in2: 10 } });
    assert_eq!(right_motor(), Motor { wires: Wires { pwm: 6, in1: 7, in2: 5 } });
}

#[test]
fn motor_steps() {
    let mut out = Vec::new();
    left_motor().forward(100, &mut out);
    left_motor().reverse(1, &mut out);
    left_motor().stop(&mut out);
    assert_eq!(
        out,
        vec![
            high(1),
            low(10),
            load(0, 100),
            low(1),
            high(10),
            load(0, 1),
            low(1),
            low(10),
            load(0, 0),
        ]
    );
}

#[test]
fn moves() {
    let (left, right) = (left_motor(), right_motor());
    let mut out = Vec::new();
    straight(&left, &right, 123, &mut out);
    assert_eq!(out, straights(123));
    out.clear();
    spin(&left, &right, Turn::Right, 45, &mut out);
    assert_eq!(out, spins(Turn::Right, 45));
    out.clear();
    spin(&left, &right, Turn::Left, 46, &mut out);
    assert_eq!(out, spins(Turn::Left, 46));
    out.clear();
    settle(&left, &right, &mut out);
    assert_eq!(out, settles());
}

#[test]
fn one_rectangle_each_way() {
    let (left, right) = (left_motor(), right_motor());
    for turn in [Turn::Left, Turn::Right] {
        let mut out = vec![wait(9)];
        drive_rectangle(&left, &right, turn, &mut out);
        let mut expected = vec![wait(9)];
        expected.extend(rectangles(turn));
        assert_eq!(out, expected);
    }
}

#[test]
fn whole_drive_test() {
    let mut out = Vec::new();
    drive_full_routine(&left_motor(), &right_motor(), &mut out);
    let mut expected = vec![wait(2000)];
    expected.extend(rectangles(Turn::Right));
    expected.extend(settles());
    expected.extend(spins(Turn::Right, 1200));
    expected.extend(settles());
    expected.extend(rectangles(Turn::Left));
    expected.extend(stops());
    assert_eq!(out, expected);
}
