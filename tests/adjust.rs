use paper_clock::adjust::{
    adjust, clock_face, draw, press_latch, AdjustDirection, AdjustField, AdjustState, LatchPhase,
    LatchStep, RenderAction, RenderTracker, HOLD_POLLS, POLL_MS, REPEAT_MS, STALE_POLLS,
};
use paper_clock::calendar::{counter_from_datetime, datetime_from_counter, CivilDate, CivilDateTime};
use paper_clock::counter::{read_and_increment_counter, read_counter, set_counter};
use paper_clock::framebuffer::{Framebuffer, Paint, BLACK, WHITE};

fn at(year: i32, month: u32, day: u32, hour: u32, minute: u32) -> CivilDateTime {
    CivilDateTime { date: CivilDate { year, month, day }, hour, minute }
}

fn counter_at(year: i32, month: u32, day: u32, hour: u32, minute: u32) -> u32 {
    counter_from_datetime(at(year, month, day, hour, minute))
}

const ALL: [AdjustField; 6] = [
    AdjustField::Years,
    AdjustField::Months,
    AdjustField::Days,
    AdjustField::Hours,
    AdjustField::Minutes,
    AdjustField::Store,
];

#[test]
fn field_cycle_has_six_steps_and_no_fixed_point() {
    for start in ALL {
        let mut f = start;
        for step in 1..=6 {
            f = f.cycle();
            if step < 6 {
                assert_ne!(f, start);
            }
        }
        assert_eq!(f, start);
    }
    assert_eq!(AdjustField::Minutes.cycle(), AdjustField::Store);
    assert_eq!(AdjustField::Store.cycle(), AdjustField::Years);
}

#[test]
fn forward_minute_carries_into_the_next_month() {
    let t = counter_at(2024, 1, 31, 23, 59);
    let r = adjust(AdjustField::Minutes, AdjustDirection::Forward, t);
    assert_eq!(datetime_from_counter(r), at(2024, 2, 1, 0, 0));
}

#[test]
fn backward_steps_borrow_across_days() {
    let t = counter_at(2024, 3, 1, 0, 30);
    let back_hour = adjust(AdjustField::Hours, AdjustDirection::Backward, t);
    assert_eq!(datetime_from_counter(back_hour), at(2024, 2, 29, 23, 30));
    let back_day = adjust(AdjustField::Days, AdjustDirection::Backward, t);
    assert_eq!(datetime_from_counter(back_day), at(2024, 2, 29, 0, 30));
    let fwd_day = adjust(AdjustField::Days, AdjustDirection::Forward, t);
    assert_eq!(datetime_from_counter(fwd_day), at(2024, 3, 2, 0, 30));
}

#[test]
fn month_and_year_steps_clamp_the_day() {
    let t = counter_at(2024, 1, 31, 12, 0);
    let m = adjust(AdjustField::Months, AdjustDirection::Forward, t);
    assert_eq!(datetime_from_counter(m), at(2024, 2, 29, 12, 0));
    let y = adjust(AdjustField::Years, AdjustDirection::Forward, m);
    assert_eq!(datetime_from_counter(y), at(2025, 2, 28, 12, 0));
    let b = adjust(AdjustField::Years, AdjustDirection::Backward, t);
    assert_eq!(datetime_from_counter(b), at(2023, 1, 31, 12, 0));
}

#[test]
fn adjust_clamps_to_the_counter_range() {
    assert_eq!(adjust(AdjustField::Minutes, AdjustDirection::Backward, 0), 0);
    assert_eq!(adjust(AdjustField::Days, AdjustDirection::Backward, 100), 0);
    assert_eq!(adjust(AdjustField::Minutes, AdjustDirection::Forward, u32::MAX), u32::MAX);
    assert_eq!(adjust(AdjustField::Years, AdjustDirection::Forward, u32::MAX), u32::MAX);
    assert_eq!(adjust(AdjustField::Store, AdjustDirection::Forward, 1234), 1234);
}

#[test]
fn state_starts_on_years_unchanged() {
    let s = AdjustState::new(42);
    assert_eq!(s, AdjustState { field: AdjustField::Years, time: 42, changed: false });
}

#[test]
fn buttons_step_the_selected_field_and_mark_it_changed() {
    let t = counter_at(2024, 5, 10, 8, 0);
    let mut s = AdjustState::new(t);
    for _ in 0..3 {
        s.cycle_field();
    }
    assert_eq!(s.field, AdjustField::Hours);
    assert_eq!(s.step_forward(), None);
    assert!(s.changed);
    assert_eq!(datetime_from_counter(s.time), at(2024, 5, 10, 9, 0));
    s.step_backward();
    s.step_backward();
    assert_eq!(datetime_from_counter(s.time), at(2024, 5, 10, 7, 0));
}

#[test]
fn forward_on_store_commits_the_timestamp_and_clears_changed() {
    let t = counter_at(2024, 1, 31, 23, 59);
    let mut s = AdjustState { field: AdjustField::Store, time: t, changed: true };
    let committed = s.step_forward();
    assert_eq!(committed, Some(t));
    assert_eq!(s, AdjustState { field: AdjustField::Store, time: t, changed: false });
    let mut region = vec![0u8; 12];
    set_counter(&mut region, committed.unwrap());
    assert_eq!(read_counter(&region), Some(t));
    assert_eq!(read_and_increment_counter(&mut region), Some(t));
    s.step_backward();
    assert_eq!(s.time, t);
    assert!(s.changed);
}

#[test]
fn field_texts_use_the_field_formats() {
    let t = counter_at(2024, 2, 1, 9, 5);
    assert_eq!(AdjustField::Years.format(t), "2024");
    assert_eq!(AdjustField::Months.format(t), "02");
    assert_eq!(AdjustField::Days.format(t), "01");
    assert_eq!(AdjustField::Hours.format(t), "09");
    assert_eq!(AdjustField::Minutes.format(t), "05");
    assert_eq!(AdjustField::Store.format(t), "Save");
}

#[test]
fn render_tracker_redraws_on_change_and_clears_after_quiet_polls() {
    let s = AdjustState::new(10);
    let mut tr = RenderTracker::new(s);
    assert_eq!(tr.on_poll(s), RenderAction::Wait);
    assert!(!tr.dirty);
    let mut s2 = s;
    s2.cycle_field();
    assert_eq!(tr.on_poll(s2), RenderAction::Redraw);
    assert_eq!(tr.shown, s2);
    assert!(tr.dirty);
    for _ in 0..STALE_POLLS - 1 {
        assert_eq!(tr.on_poll(s2), RenderAction::Wait);
    }
    assert_eq!(tr.on_poll(s2), RenderAction::ClearAndRedraw);
    assert!(!tr.dirty);
    assert_eq!(tr.idle_polls, 0);
    assert_eq!(tr.on_poll(s2), RenderAction::Wait);
    assert_eq!(tr.idle_polls, 0);
}

#[test]
fn a_change_restarts_the_quiet_count() {
    let s = AdjustState::new(10);
    let mut tr = RenderTracker::new(s);
    let mut s2 = s;
    s2.step_forward();
    assert_eq!(tr.on_poll(s2), RenderAction::Redraw);
    for _ in 0..100 {
        tr.on_poll(s2);
    }
    assert_eq!(tr.idle_polls, 100);
    let mut s3 = s2;
    s3.step_forward();
    assert_eq!(tr.on_poll(s3), RenderAction::Redraw);
    assert_eq!(tr.idle_polls, 0);
}

fn run_latch(readings: &[bool], repeat: bool) -> (u32, u32) {
    let mut phase = LatchPhase::Idle;
    let mut fired = 0;
    let mut waited = 0;
    for &pressed in readings {
        let step = press_latch(phase, pressed, repeat);
        if step.fire {
            fired += 1;
        }
        waited += step.delay_ms;
        if step.done {
            return (fired, waited);
        }
        phase = step.next;
    }
    (fired, waited)
}

#[test]
fn latch_does_nothing_when_not_pressed() {
    assert_eq!(
        press_latch(LatchPhase::Idle, false, true),
        LatchStep { next: LatchPhase::Idle, fire: false, delay_ms: 0, done: true }
    );
}

#[test]
fn short_press_fires_once() {
    let mut readings = vec![true; 10];
    readings.push(false);
    assert_eq!(run_latch(&readings, true), (1, 9 * POLL_MS));
}

#[test]
fn held_press_repeats_only_when_asked() {
    let held = HOLD_POLLS as usize;
    let mut readings = vec![true; 1 + held + 3];
    readings.push(false);
    assert_eq!(run_latch(&readings, true), (4, HOLD_POLLS * POLL_MS + 3 * REPEAT_MS));
    assert_eq!(run_latch(&readings, false), (1, HOLD_POLLS * POLL_MS + 3 * POLL_MS));
}

#[test]
fn adjust_frame_lists_legends_fields_and_caption() {
    let t = counter_at(2024, 2, 1, 9, 5);
    let state = AdjustState { field: AdjustField::Minutes, time: t, changed: true };
    let mut fb = Framebuffer::new();
    let texts = draw(&mut fb, &state);
    let got: Vec<(i32, i32, u32, String)> =
        texts.iter().map(|t| (t.x, t.y, t.size, t.text.clone())).collect();
    let want: Vec<(i32, i32, u32, String)> = vec![
        (240, 30, 30, "RST".to_string()),
        (378, 30, 30, "NEXT".to_string()),
        (447, 30, 30, "-".to_string()),
        (516, 30, 30, "+".to_string()),
        (400, 180, 94, "09".to_string()),
        (560, 180, 94, "05".to_string()),
        (290, 300, 94, "01".to_string()),
        (450, 300, 94, "02".to_string()),
        (650, 300, 94, "2024".to_string()),
        (480, 430, 94, "Save".to_string()),
        (480, 480, 50, "not saved".to_string()),
    ];
    assert_eq!(got, want);
    assert!(texts.iter().all(|t| t.paint == Paint::Darken));
    // Legend bar of "RST" and the underline of the minutes.
    assert_eq!(fb.get(220, 0), BLACK);
    assert_eq!(fb.get(259, 3), BLACK);
    assert_eq!(fb.get(260, 0), WHITE);
    assert_eq!(fb.get(520, 190), BLACK);
    assert_eq!(fb.get(599, 195), BLACK);
    assert_eq!(fb.get(360, 190), WHITE);
    // The slot between "RST" and "NEXT" has no legend.
    assert_eq!(fb.get(309, 1), WHITE);
}

#[test]
fn saved_frame_has_no_caption() {
    let state = AdjustState::new(0);
    let mut fb = Framebuffer::new();
    let texts = draw(&mut fb, &state);
    assert_eq!(texts.len(), 10);
    assert_eq!(texts[8].text, "1970");
    assert_eq!(fb.get(610, 310), BLACK);
}

#[test]
fn clock_face_shows_title_time_and_date() {
    let t = counter_at(2024, 2, 1, 9, 5);
    let texts = clock_face(t);
    let got: Vec<(i32, i32, u32, String)> =
        texts.iter().map(|t| (t.x, t.y, t.size, t.text.clone())).collect();
    assert_eq!(
        got,
        vec![
            (480, 96, 90, "Aikamme".to_string()),
            (480, 405, 454, "09:05".to_string()),
            (480, 500, 90, "1.2.2024".to_string()),
        ]
    );
}
