use rover::board::{Duty, Level, Op};
use rover::command::{command_fits, handle_command, parse_command, Command, Direction, Wheel};
use rover::rig::Rig;
use rover::tunables::{Key, Tunables};

fn high(pin: u8) -> Op {
    Op::Write { pin, level: Level::High }
}

fn low(pin: u8) -> Op {
    Op::Write { pin, level: Level::Low }
}

fn load(pin: u8, counts: u32) -> Op {
    Op::Load { pin, duty: Duty::Counts(counts) }
}

fn stopped() -> Vec<Op> {
    vec![low(1), low(10), load(0, 0), low(7), low(5), load(6, 0), low(3)]
}

fn answer(line: &str, tunables: &mut Tunables) -> (String, Vec<Op>) {
    let rig = Rig::wired(256, 256);
    assert!(command_fits(line, &rig, tunables));
    let mut out = Vec::new();
    let reply = handle_command(line, &rig, tunables, &mut out);
    (reply, out)
}

#[test]
fn blank_lines_get_a_blank_answer() {
    let mut t = Tunables::new();
    assert_eq!(answer("", &mut t), (String::new(), vec![]));
    assert_eq!(answer(" \t\r\n", &mut t), (String::new(), vec![]));
    assert_eq!(t, Tunables::new());
}

#[test]
fn drive_commands() {
    let mut t = Tunables::new();
    assert_eq!(
        answer("left fwd", &mut t),
        ("ok left fwd 40".to_string(), vec![high(1), low(10), load(0, 102)])
    );
    assert_eq!(
        answer("left rev 50", &mut t),
        ("ok left rev 50".to_string(), vec![low(1), high(10), load(0, 128)])
    );
    assert_eq!(
        answer("left stop", &mut t),
        ("ok left stop 40".to_string(), vec![low(1), low(10), load(0, 0)])
    );
    assert_eq!(
        answer("right fwd 100", &mut t),
        ("ok right fwd 100".to_string(), vec![high(3), high(7), low(5), load(6, 256)])
    );
    assert_eq!(
        answer("right rev 0", &mut t),
        ("ok right rev 0".to_string(), vec![high(3), low(7), high(5), load(6, 0)])
    );
    assert_eq!(
        answer("right stop 7", &mut t),
        ("ok right stop 7".to_string(), vec![low(7), low(5), load(6, 0), low(3)])
    );
}

#[test]
fn an_unreadable_duty_means_driving_speed() {
    let mut t = Tunables { drive_duty: 33, ..Tunables::new() };
    assert_eq!(answer("left fwd fast", &mut t).0, "ok left fwd 33");
    assert_eq!(answer("left fwd -5", &mut t).0, "ok left fwd 33");
    assert_eq!(answer("left fwd 4294967296", &mut t).0, "ok left fwd 33");
    assert_eq!(answer("left fwd +20 extra words", &mut t).0, "ok left fwd 20");
}

#[test]
fn refused_drive_commands() {
    let mut t = Tunables::new();
    assert_eq!(
        answer("left", &mut t),
        ("usage: left|right fwd|rev|stop [duty_pct]".to_string(), vec![])
    );
    assert_eq!(
        answer("right", &mut t),
        ("usage: left|right fwd|rev|stop [duty_pct]".to_string(), vec![])
    );
    assert_eq!(
        answer("right forward 40", &mut t),
        ("dir must be fwd, rev, or stop".to_string(), vec![])
    );
    assert_eq!(t, Tunables::new());
}

#[test]
fn stop_command() {
    let mut t = Tunables::new();
    assert_eq!(answer("stop", &mut t), ("ok stop".to_string(), stopped()));
    assert_eq!(answer("  stop now", &mut t), ("ok stop".to_string(), stopped()));
}

#[test]
fn alt_command() {
    let mut t = Tunables::new();
    let lap = |ms: u64| {
        let mut ops = Vec::new();
        for drive in [
            vec![high(1), low(10), load(0, 102)],
            vec![low(1), high(10), load(0, 102)],
            vec![high(3), high(7), low(5), load(6, 102)],
            vec![high(3), low(7), high(5), load(6, 102)],
        ] {
            ops.extend(drive);
            ops.push(Op::Wait { ms });
            ops.extend(stopped());
            ops.push(Op::Wait { ms: 200 });
        }
        ops
    };
    assert_eq!(answer("alt", &mut t), ("ok alt".to_string(), lap(1000)));
    assert_eq!(answer("alt 250", &mut t), ("ok alt".to_string(), lap(250)));
    assert_eq!(answer("alt soon", &mut t), ("ok alt".to_string(), lap(1000)));
    assert_eq!(
        answer("alt 18446744073709551615", &mut t),
        ("ok alt".to_string(), lap(u64::MAX))
    );
}

#[test]
fn rect_command() {
    let mut t = Tunables::new();
    let (reply, ops) = answer("rect", &mut t);
    assert_eq!(reply, "ok rect");
    let mut expected = Vec::new();
    Rig::wired(256, 256).drive_full_routine(&t, &mut expected);
    assert_eq!(ops, expected);
    assert_eq!(ops[ops.len() - 7..].to_vec(), stopped());
}

#[test]
fn get_reads_what_set_wrote() {
    let mut t = Tunables::new();
    assert_eq!(
        answer("get", &mut t).0,
        "drive_duty=40 turn_duty=50 long_leg_ms=1000 short_leg_ms=500 turn90_ms=600 settle_ms=300"
    );
    assert_eq!(answer("set drive_duty 45", &mut t), ("ok set drive_duty 45".to_string(), vec![]));
    assert_eq!(answer("set turn_duty 55", &mut t).0, "ok set turn_duty 55");
    assert_eq!(answer("set long_leg_ms 1500", &mut t).0, "ok set long_leg_ms 1500");
    assert_eq!(answer("set short_leg_ms 0", &mut t).0, "ok set short_leg_ms 0");
    assert_eq!(answer("set turn90_ms +610", &mut t).0, "ok set turn90_ms 610");
    assert_eq!(answer("set settle_ms 00250", &mut t).0, "ok set settle_ms 250");
    assert_eq!(
        answer("get", &mut t).0,
        "drive_duty=45 turn_duty=55 long_leg_ms=1500 short_leg_ms=0 turn90_ms=610 settle_ms=250"
    );
}

#[test]
fn a_number_may_be_written_in_other_ways() {
    let mut t = Tunables::new();
    assert_eq!(answer(" set turn_duty +0061 percent please", &mut t).0, "ok set turn_duty 61");
    assert_eq!(
        answer("get it", &mut t).0,
        "drive_duty=40 turn_duty=61 long_leg_ms=1000 short_leg_ms=500 turn90_ms=600 settle_ms=300"
    );
}

#[test]
fn set_echoes_the_number_and_keeps_its_low_bits() {
    let mut t = Tunables::new();
    assert_eq!(answer("set settle_ms 4294967301", &mut t).0, "ok set settle_ms 4294967301");
    assert_eq!(t.settle_ms, 5);
}

#[test]
fn refused_set_commands() {
    let mut t = Tunables::new();
    for line in ["set", "set drive_duty"] {
        assert_eq!(answer(line, &mut t), ("usage: set <key> <value>".to_string(), vec![]));
    }
    for line in ["set drive_duty fast", "set speed -1", "set drive_duty 18446744073709551616"] {
        assert_eq!(answer(line, &mut t), ("value must be an integer".to_string(), vec![]));
    }
    assert_eq!(answer("set speed 10", &mut t), ("unknown key 'speed'".to_string(), vec![]));
    assert_eq!(t, Tunables::new());
}

#[test]
fn help_and_unknown_commands() {
    let mut t = Tunables::new();
    assert_eq!(
        answer("help", &mut t).0,
        "commands: left|right fwd|rev|stop [duty]; stop; alt [ms]; rect; set <key> <val>; get; help"
    );
    assert_eq!(
        answer("dance now", &mut t),
        ("unknown command 'dance' (try 'help')".to_string(), vec![])
    );
    assert_eq!(answer("STOP", &mut t).0, "unknown command 'STOP' (try 'help')");
}

#[test]
fn what_lines_ask_for() {
    assert_eq!(parse_command(""), Command::Nothing);
    assert_eq!(
        parse_command("left fwd"),
        Command::Drive { wheel: Wheel::Left, direction: Direction::Forward, duty: None }
    );
    assert_eq!(
        parse_command("right rev 9"),
        Command::Drive { wheel: Wheel::Right, direction: Direction::Reverse, duty: Some(9) }
    );
    assert_eq!(parse_command("alt 5"), Command::Alt { ms: 5 });
    assert_eq!(parse_command("set turn90_ms 7"), Command::Tune { key: Key::Turn90Ms, value: 7 });
    assert_eq!(parse_command("set x 7"), Command::UnknownKey("x"));
    assert_eq!(parse_command("\u{a0}get\u{a0}"), Command::Get);
    assert_eq!(parse_command("gett"), Command::Unknown("gett"));
}

#[test]
fn speeds_have_to_fit() {
    let rig = Rig::wired(256, 256);
    let t = Tunables::new();
    assert!(command_fits("left fwd 16777215", &rig, &t));
    assert!(!command_fits("left fwd 16777216", &rig, &t));
    assert!(!command_fits("right rev 4294967295", &rig, &t));
    assert!(command_fits("right stop 4294967295", &rig, &t));
    let fast = Tunables { drive_duty: u32::MAX, ..t };
    assert!(!command_fits("left fwd", &rig, &fast));
    assert!(!command_fits("alt", &rig, &fast));
    assert!(!command_fits("rect", &rig, &fast));
    assert!(command_fits("left fwd 40", &rig, &fast));
    assert!(command_fits("get", &rig, &fast));
    assert!(!command_fits("rect", &rig, &Tunables { turn_90_ms: 2147483648, ..t }));
}

#[test]
fn every_answer_is_one_line() {
    let mut t = Tunables::new();
    for line in ["", "left fwd", "left", "left x", "stop", "alt", "rect", "set", "set a b"] {
        assert!(!answer(line, &mut t).0.contains('\n'));
    }
    for line in ["set a 1", "set drive_duty 1", "get", "help", "a\nb", "\nset\nb\n1"] {
        assert!(!answer(line, &mut t).0.contains('\n'));
    }
}

#[test]
fn the_led_shows_the_right_wheel_at_every_step() {
    let rig = Rig::wired(256, 256);
    let mut t = Tunables::new();
    let mut ops = Vec::new();
    for line in [
        "right fwd", "right rev", "alt 7", "left rev", "right rev", "rect", "right fwd", "stop",
        "right rev", "right stop",
    ] {
        handle_command(line, &rig, &mut t, &mut ops);
    }
    let mut level = [Level::Low; 11];
    let mut waits = 0;
    for op in &ops {
        match *op {
            Op::Write { pin, level: l } => level[pin as usize] = l,
            Op::Load { .. } => {}
            Op::Wait { .. } => {
                waits += 1;
                assert_eq!(level[3] == Level::High, level[7] != level[5]);
                assert!(level[1] == Level::Low || level[10] == Level::Low);
                assert!(level[7] == Level::Low || level[5] == Level::Low);
            }
        }
        if level[7] == Level::High || level[5] == Level::High {
            assert_eq!(level[3], Level::High);
        }
    }
    assert_eq!(waits, 8 + 16 + 3 + 16);
    assert_eq!(level, [Level::Low; 11]);
}
