use voxalic::timer::{parse_time_to_secs, parse_timer_command, state_str, time_reading, MissionTimerState, TimerCommand, TimerState};

#[test]
fn fresh_timer_is_idle() {
    let t = MissionTimerState::new();
    assert_eq!(t.inner_state, TimerState::Idle);
    assert_eq!(t.payload.state, "idle");
    assert_eq!(t.payload.elapsed_str, "0:00");
    assert_eq!(t.payload.status_text, "未启动");
    assert_eq!(t.last_mode, "normal");
}

#[test]
fn start_stop_counts_the_run() {
    let mut t = MissionTimerState::new();
    t.handle_command(&TimerCommand::Start, 1_000);
    assert_eq!(t.inner_state, TimerState::Running);
    assert_eq!(t.payload.status_text, "运行中");
    t.update_elapsed(66_500);
    assert_eq!(t.payload.elapsed_secs, 65);
    assert_eq!(t.payload.elapsed_str, "1:05");
    t.handle_command(&TimerCommand::Stop, 61_000);
    assert_eq!(t.inner_state, TimerState::Paused);
    assert_eq!(t.payload.state, "paused");
    // Frozen while paused.
    t.update_elapsed(500_000);
    assert_eq!(t.payload.elapsed_secs, 60);
    assert_eq!(t.payload.elapsed_str, "1:00");
    // Resuming continues the count.
    t.handle_command(&TimerCommand::Start, 600_000);
    t.update_elapsed(610_000);
    assert_eq!(t.payload.elapsed_secs, 70);
    assert_eq!(t.payload.elapsed_str, "1:10");
}

#[test]
fn reset_clears_everything_but_the_mode() {
    let mut t = MissionTimerState::new();
    t.handle_command(&TimerCommand::SetMode("fissure".to_string()), 0);
    t.handle_command(&TimerCommand::Start, 0);
    t.update_elapsed(5_000);
    t.handle_command(&TimerCommand::Reset, 10_000);
    assert_eq!(t.inner_state, TimerState::Idle);
    assert_eq!(t.start_ms, None);
    assert_eq!(t.paused_ms, 0);
    assert_eq!(t.payload.elapsed_secs, 0);
    assert_eq!(t.payload.mode, "normal");
    assert_eq!(t.last_mode, "fissure");
}

#[test]
fn readings_only_count_while_running() {
    let mut t = MissionTimerState::new();
    t.apply_ocr(Some("0:05".to_string()), 0);
    assert_eq!(t.last_valid_ocr, None);
    t.handle_command(&TimerCommand::Start, 0);
    t.apply_ocr(Some("0:05".to_string()), 5_000);
    t.apply_ocr(Some("0:07".to_string()), 7_000);
    // Two plausible readings are not enough.
    assert_eq!(t.last_valid_ocr, None);
    t.apply_ocr(Some("0:09".to_string()), 9_000);
    assert_eq!(t.last_valid_ocr.as_deref(), Some("0:09"));
    assert_eq!(t.last_valid_ms, Some(9_000));
}

#[test]
fn three_implausible_readings_stop_the_timer() {
    let mut t = MissionTimerState::new();
    t.handle_command(&TimerCommand::Start, 0);
    t.apply_ocr(Some("30:00".to_string()), 1_000);
    t.apply_ocr(Some("30:00".to_string()), 2_000);
    assert_eq!(t.inner_state, TimerState::Running);
    t.apply_ocr(Some("30:00".to_string()), 3_000);
    assert_eq!(t.inner_state, TimerState::Idle);
    assert_eq!(t.payload.state, "idle");
}

fn accepted_at_five(t: &mut MissionTimerState) {
    t.handle_command(&TimerCommand::Start, 0);
    t.payload.elapsed_secs = 300;
    t.apply_ocr(Some("4:58".to_string()), 0);
    t.apply_ocr(Some("4:59".to_string()), 1_000);
    t.apply_ocr(Some("5:00".to_string()), 2_000);
    assert_eq!(t.last_valid_ocr.as_deref(), Some("5:00"));
    assert_eq!(t.last_valid_ms, Some(2_000));
}

#[test]
fn a_frozen_reading_marks_the_checkpoint() {
    let mut t = MissionTimerState::new();
    accepted_at_five(&mut t);
    t.apply_ocr(Some("5:00".to_string()), 12_000);
    assert_eq!(t.inner_state, TimerState::Running);
    t.apply_ocr(Some("5:00".to_string()), 20_000);
    assert_eq!(t.inner_state, TimerState::Running);
    assert_eq!(t.consecutive_rejects, 0);
    t.apply_ocr(Some("5:00".to_string()), 33_000);
    assert_eq!(t.inner_state, TimerState::Checkpoint);
    assert_eq!(t.payload.state, "checkpoint");
    assert_eq!(t.paused_ms, 33_000);
    // Continuing goes on from the held count.
    t.handle_command(&TimerCommand::Start, 100_000);
    t.update_elapsed(101_000);
    assert_eq!(t.payload.elapsed_secs, 34);
}

#[test]
fn readings_outside_the_window_are_rejected() {
    let mut t = MissionTimerState::new();
    accepted_at_five(&mut t);
    // 20 s behind the clock: rejected.
    t.apply_ocr(Some("4:40".to_string()), 4_000);
    assert_eq!(t.consecutive_rejects, 1);
    // 8 s behind: accepted into the run (reject count cleared).
    t.apply_ocr(Some("4:56".to_string()), 6_000);
    assert_eq!(t.consecutive_rejects, 0);
    t.apply_ocr(Some("4:00".to_string()), 8_000);
    t.apply_ocr(Some("4:01".to_string()), 9_000);
    assert_eq!(t.inner_state, TimerState::Running);
    t.apply_ocr(Some("4:02".to_string()), 10_000);
    assert_eq!(t.inner_state, TimerState::Idle);
    assert_eq!(t.payload.elapsed_secs, 0);
}

#[test]
fn time_text_in_seconds() {
    assert_eq!(parse_time_to_secs("12:34"), 754);
    assert_eq!(parse_time_to_secs("1:2:3"), 0);
    assert_eq!(parse_time_to_secs("abc"), 0);
    assert_eq!(parse_time_to_secs("x:5"), 5);
    assert_eq!(state_str(TimerState::Checkpoint), "checkpoint");
}

#[test]
fn ui_commands() {
    assert!(matches!(parse_timer_command("start", None), Ok(TimerCommand::Start)));
    assert!(matches!(parse_timer_command("reset", None), Ok(TimerCommand::Reset)));
    match parse_timer_command("set_mode", None) {
        Ok(TimerCommand::SetMode(m)) => assert_eq!(m, "normal"),
        _ => panic!("expected a mode"),
    }
    assert_eq!(parse_timer_command("jump", None).err(), Some("Unknown command: jump".to_string()));
}

#[test]
fn recognised_digits_become_a_reading() {
    assert_eq!(time_reading(&[4, 3, 2]), Some("4:32".to_string()));
    assert_eq!(time_reading(&[1, 2, 0, 5]), Some("12:05".to_string()));
    assert_eq!(time_reading(&[1, 6, 0]), None);
    assert_eq!(time_reading(&[5, 9]), None);
    assert_eq!(time_reading(&[]), None);
    assert_eq!(time_reading(&[0, 5, 9]), Some("0:59".to_string()));
    assert_eq!(time_reading(&[1, 2, 3, 4, 5]), None);
}
