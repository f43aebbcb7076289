//! The adjust mode: the fields a user steps through, the calendar steps they
//! take, the shared state the input task mutates and the render task watches,
//! and the decisions of both tasks' loops.
use crate::calendar::{
    civil_of, clamp_to_counter, format_counter, is_simple_pattern, months_moved, move_months, padded_decimal, strftime, text_of,
};
use crate::framebuffer::{Framebuffer, Paint, Rect, rect_painted};
use vstd::prelude::*;

verus! {

/// The part of the timestamp that the adjust buttons change, or the entry
/// that stores it.
#[derive(Clone, Copy, Debug, PartialEq, Eq, Structural)]
pub enum AdjustField {
    Years,
    Months,
    Days,
    Hours,
    Minutes,
    Store,
}

#[derive(Clone, Copy, Debug, PartialEq, Eq, Structural)]
pub enum AdjustDirection {
    Forward,
    Backward,
}

pub open spec fn next_field(f: AdjustField) -> AdjustField {
    match f {
        AdjustField::Years => AdjustField::Months,
        AdjustField::Months => AdjustField::Days,
        AdjustField::Days => AdjustField::Hours,
        AdjustField::Hours => AdjustField::Minutes,
        AdjustField::Minutes => AdjustField::Store,
        AdjustField::Store => AdjustField::Years,
    }
}

/// `k` applications of the field cycle.
pub open spec fn cycled(f: AdjustField, k: nat) -> AdjustField
    decreases k,
{
    if k == 0 {
        f
    } else {
        next_field(cycled(f, (k - 1) as nat))
    }
}

/// The strftime pattern that renders a field.
pub open spec fn field_pattern(f: AdjustField) -> Seq<char> {
    match f {
        AdjustField::Years => seq!['%', 'Y'],
        AdjustField::Months => seq!['%', 'm'],
        AdjustField::Days => seq!['%', 'd'],
        AdjustField::Hours => seq!['%', 'H'],
        AdjustField::Minutes => seq!['%', 'M'],
        AdjustField::Store => seq!['S', 'a', 'v', 'e'],
    }
}

/// The text shown for a field of the timestamp `time`.
pub open spec fn field_text(f: AdjustField, time: u32) -> Seq<char> {
    match strftime(field_pattern(f), time * 60) {
        Some(s) => s,
        None => Seq::empty(),
    }
}

/// The timestamp after one step of a field in a direction: minutes, hours and
/// days move by that many minutes, months and years by calendar months with
/// the day clamped to the target month; the result is clamped to the counter.
pub open spec fn adjusted(field: AdjustField, direction: AdjustDirection, time: u32) -> u32 {
    let sign: int = if direction == AdjustDirection::Forward {
        1
    } else {
        -1
    };
    let forward = direction == AdjustDirection::Forward;
    match field {
        AdjustField::Minutes => clamp_to_counter(time + sign),
        AdjustField::Hours => clamp_to_counter(time + 60 * sign),
        AdjustField::Days => clamp_to_counter(time + 1440 * sign),
        AdjustField::Months => months_moved(time, 1, forward),
        AdjustField::Years => months_moved(time, 12, forward),
        AdjustField::Store => time,
    }
}

impl AdjustField {
    /// The next field in the fixed cycle Years, Months, Days, Hours, Minutes, Store.
    pub fn cycle(self) -> (r: AdjustField)
        ensures
            r == next_field(self),
    {
        match self {
            AdjustField::Years => AdjustField::Months,
            AdjustField::Months => AdjustField::Days,
            AdjustField::Days => AdjustField::Hours,
            AdjustField::Hours => AdjustField::Minutes,
            AdjustField::Minutes => AdjustField::Store,
            AdjustField::Store => AdjustField::Years,
        }
    }

    /// The text shown for this field of the timestamp `time`: the year with
    /// four digits, the other parts with two, and a label for `Store`.
    pub fn format(self, time: u32) -> (r: String)
        ensures
            strftime(field_pattern(self), time * 60) == Some(r@),
            r@ == field_text(self, time),
            self == AdjustField::Years && 0 <= civil_of(time as int).date.year <= 9999 ==> r@
                == padded_decimal(civil_of(time as int).date.year as int, 4),
            self == AdjustField::Months ==> r@ == padded_decimal(civil_of(time as int).date.month as int, 2),
            self == AdjustField::Days ==> r@ == padded_decimal(civil_of(time as int).date.day as int, 2),
            self == AdjustField::Hours ==> r@ == padded_decimal(civil_of(time as int).hour as int, 2),
            self == AdjustField::Minutes ==> r@ == padded_decimal(civil_of(time as int).minute as int, 2),
            self == AdjustField::Store ==> r@ == "Save"@,
    {
        let pattern = match self {
            AdjustField::Years => "%Y",
            AdjustField::Months => "%m",
            AdjustField::Days => "%d",
            AdjustField::Hours => "%H",
            AdjustField::Minutes => "%M",
            AdjustField::Store => "Save",
        };
        proof {
            reveal_strlit("%Y");
            reveal_strlit("%m");
            reveal_strlit("%d");
            reveal_strlit("%H");
            reveal_strlit("%M");
            reveal_strlit("Save");
            assert(pattern@ == field_pattern(self));
        }
        match format_counter(time, pattern) {
            Some(s) => s,
            None => {
                proof {
                    assert(text_of(None) == strftime(pattern@, time * 60));
                    assert(false);
                }
                String::new()
            },
        }
    }
}

/// The field cycle has six elements and no fixed point: stepping a field
/// once to five times never returns to it, stepping it six times does.
pub proof fn lemma_cycle_of_six(f: AdjustField)
    ensures
        cycled(f, 6) == f,
        forall|k: nat| 1 <= k < 6 ==> #[trigger] cycled(f, k) != f,
{
    reveal_with_fuel(cycled, 7);
    assert forall|k: nat| 1 <= k < 6 implies #[trigger] cycled(f, k) != f by {
        assert(k == 1 || k == 2 || k == 3 || k == 4 || k == 5);
    }
}

/// Step one field of a timestamp forward or backward. The `Store` entry
/// leaves the timestamp as it is.
pub fn adjust(field: AdjustField, direction: AdjustDirection, time: u32) -> (r: u32)
    ensures
        r == adjusted(field, direction, time),
{
    let forward = match direction {
        AdjustDirection::Forward => true,
        AdjustDirection::Backward => false,
    };
    let delta: i64 = match field {
        AdjustField::Minutes => 1,
        AdjustField::Hours => 60,
        AdjustField::Days => 1440,
        AdjustField::Months => {
            return move_months(time, 1, forward);
        },
        AdjustField::Years => {
            return move_months(time, 12, forward);
        },
        AdjustField::Store => {
            return time;
        },
    };
    let moved: i64 = if forward {
        time as i64 + delta
    } else {
        time as i64 - delta
    };
    if moved < 0 {
        0
    } else if moved > u32::MAX as i64 {
        u32::MAX
    } else {
        moved as u32
    }
}

/// What both tasks share: the selected field, the timestamp being adjusted
/// (minutes since 1970-01-01T00:00 UTC) and whether it differs from the
/// stored one.
#[derive(Clone, Copy, Debug, PartialEq, Eq, Structural)]
pub struct AdjustState {
    pub field: AdjustField,
    pub time: u32,
    pub changed: bool,
}

impl AdjustState {
    /// The state on entering the adjust mode with the stored timestamp.
    pub fn new(time: u32) -> (r: AdjustState)
        ensures
            r == (AdjustState { field: AdjustField::Years, time, changed: false }),
    {
        AdjustState { field: AdjustField::Years, time, changed: false }
    }

    /// The field-cycle button: select the next field.
    pub fn cycle_field(&mut self)
        ensures
            *final(self) == (AdjustState { field: next_field(old(self).field), ..*old(self) }),
    {
        self.field = self.field.cycle();
    }

    /// The backward button: step the selected field back.
    pub fn step_backward(&mut self)
        ensures
            *final(self) == (AdjustState {
                time: adjusted(old(self).field, AdjustDirection::Backward, old(self).time),
                changed: true,
                ..*old(self)
            }),
    {
        self.time = adjust(self.field, AdjustDirection::Backward, self.time);
        self.changed = true;
    }

    /// The forward button: on `Store`, hand back the timestamp to commit to
    /// the counter and mark it saved; on any other field, step it forward.
    pub fn step_forward(&mut self) -> (commit: Option<u32>)
        ensures
            old(self).field == AdjustField::Store ==> commit == Some(old(self).time) && *final(self)
                == (AdjustState { changed: false, ..*old(self) }),
            old(self).field != AdjustField::Store ==> commit is None && *final(self) == (
            AdjustState {
                time: adjusted(old(self).field, AdjustDirection::Forward, old(self).time),
                changed: true,
                ..*old(self)
            }),
    {
        if self.field == AdjustField::Store {
            self.changed = false;
            Some(self.time)
        } else {
            self.time = adjust(self.field, AdjustDirection::Forward, self.time);
            self.changed = true;
            None
        }
    }
}

/// A run of text for the text renderer to lay out and paint: its paint
/// operator, the point it is centered on horizontally, its baseline, its pixel
/// size and its characters.
#[derive(Debug)]
pub struct TextItem {
    pub paint: Paint,
    pub x: i32,
    pub y: i32,
    pub size: u32,
    pub text: String,
}

/// A text item as plain values: center, baseline, size and characters; every
/// text item of a frame darkens.
pub open spec fn item_view(t: TextItem) -> (int, int, int, Seq<char>) {
    (t.x as int, t.y as int, t.size as int, t.text@)
}

/// Where a field's value is drawn: the point its text is centered on, and the
/// baseline.
pub open spec fn field_position(f: AdjustField) -> (int, int) {
    match f {
        AdjustField::Hours => (400, 180),
        AdjustField::Minutes => (560, 180),
        AdjustField::Days => (290, 300),
        AdjustField::Months => (450, 300),
        AdjustField::Years => (650, 300),
        AdjustField::Store => (480, 430),
    }
}

/// The bar above a button legend centered on `x`.
pub open spec fn legend_bar(x: int) -> Rect {
    Rect { x: (x - 20) as i32, y: 0, w: 40, h: 4 }
}

/// The underline of the selected field.
pub open spec fn underline(f: AdjustField) -> Rect {
    Rect {
        x: (field_position(f).0 - 40) as i32,
        y: (field_position(f).1 + 10) as i32,
        w: 80,
        h: 6,
    }
}

/// The rectangles of an adjust frame: four legend bars, then the underline.
pub open spec fn frame_rects(state: AdjustState) -> Seq<Rect> {
    seq![legend_bar(240), legend_bar(378), legend_bar(447), legend_bar(516), underline(state.field)]
}

/// A canvas after painting rectangles one after the other.
pub open spec fn rects_painted(fb: Seq<u8>, paint: Paint, rs: Seq<Rect>) -> Seq<u8>
    decreases rs.len(),
{
    if rs.len() == 0 {
        fb
    } else {
        rect_painted(rects_painted(fb, paint, rs.drop_last()), paint, rs.last())
    }
}

pub open spec fn field_item(f: AdjustField, time: u32) -> (int, int, int, Seq<char>) {
    (field_position(f).0, field_position(f).1, 94, field_text(f, time))
}

/// The texts of an adjust frame: the button legends, the six fields, and a
/// caption while the timestamp is unsaved.
pub open spec fn frame_texts(state: AdjustState) -> Seq<(int, int, int, Seq<char>)> {
    seq![
        (240, 30, 30, "RST"@),
        (378, 30, 30, "NEXT"@),
        (447, 30, 30, "-"@),
        (516, 30, 30, "+"@),
        field_item(AdjustField::Hours, state.time),
        field_item(AdjustField::Minutes, state.time),
        field_item(AdjustField::Days, state.time),
        field_item(AdjustField::Months, state.time),
        field_item(AdjustField::Years, state.time),
        field_item(AdjustField::Store, state.time),
    ] + if state.changed {
        seq![(480, 480, 50, "not saved"@)]
    } else {
        Seq::empty()
    }
}

fn push_legend(framebuffer: &mut Framebuffer, texts: &mut Vec<TextItem>, x: i32, label: &str)
    requires
        old(framebuffer).wf(),
        0 <= x <= 960,
    ensures
        final(framebuffer).wf(),
        final(framebuffer)@ == rect_painted(old(framebuffer)@, Paint::Darken, legend_bar(x as int)),
        final(texts)@.len() == old(texts)@.len() + 1,
        forall|i: int| 0 <= i < old(texts)@.len() ==> final(texts)@[i] == old(texts)@[i],
        final(texts)@.last().paint == Paint::Darken,
        item_view(final(texts)@.last()) == (x as int, 30int, 30int, label@),
{
    framebuffer.rect(Paint::Darken, Rect { x: x - 20, y: 0, w: 40, h: 4 });
    texts.push(TextItem { paint: Paint::Darken, x, y: 30, size: 30, text: label.to_owned() });
}

fn push_field(texts: &mut Vec<TextItem>, field: AdjustField, time: u32)
    ensures
        final(texts)@.len() == old(texts)@.len() + 1,
        forall|i: int| 0 <= i < old(texts)@.len() ==> final(texts)@[i] == old(texts)@[i],
        final(texts)@.last().paint == Paint::Darken,
        item_view(final(texts)@.last()) == field_item(field, time),
{
    let (x, y) = position_of(field);
    texts.push(TextItem { paint: Paint::Darken, x, y, size: 94, text: field.format(time) });
}

fn position_of(field: AdjustField) -> (r: (i32, i32))
    ensures
        (r.0 as int, r.1 as int) == field_position(field),
{
    match field {
        AdjustField::Hours => (400, 180),
        AdjustField::Minutes => (560, 180),
        AdjustField::Days => (290, 300),
        AdjustField::Months => (450, 300),
        AdjustField::Years => (650, 300),
        AdjustField::Store => (480, 430),
    }
}

/// Paint the rectangles of the adjust frame for `state` and return its texts,
/// in order, for the text renderer. Every item darkens, so the order in which
/// the texts and rectangles are painted does not change the frame.
pub fn draw(framebuffer: &mut Framebuffer, state: &AdjustState) -> (texts: Vec<TextItem>)
    requires
        old(framebuffer).wf(),
    ensures
        final(framebuffer).wf(),
        final(framebuffer)@ == rects_painted(old(framebuffer)@, Paint::Darken, frame_rects(*state)),
        texts@.len() == frame_texts(*state).len(),
        forall|i: int|
            0 <= i < texts@.len() ==> (#[trigger] texts@[i]).paint == Paint::Darken && item_view(
                texts@[i],
            ) == frame_texts(*state)[i],
{
    let ghost start = framebuffer@;
    let mut texts: Vec<TextItem> = Vec::new();
    push_legend(framebuffer, &mut texts, 240, "RST");
    let ghost fb1 = framebuffer@;
    push_legend(framebuffer, &mut texts, 378, "NEXT");
    let ghost fb2 = framebuffer@;
    push_legend(framebuffer, &mut texts, 447, "-");
    let ghost fb3 = framebuffer@;
    push_legend(framebuffer, &mut texts, 516, "+");
    let ghost fb4 = framebuffer@;
    let ghost t4 = texts@;
    push_field(&mut texts, AdjustField::Hours, state.time);
    push_field(&mut texts, AdjustField::Minutes, state.time);
    push_field(&mut texts, AdjustField::Days, state.time);
    push_field(&mut texts, AdjustField::Months, state.time);
    push_field(&mut texts, AdjustField::Years, state.time);
    push_field(&mut texts, AdjustField::Store, state.time);
    let (ux, uy) = position_of(state.field);
    framebuffer.rect(Paint::Darken, Rect { x: ux - 40, y: uy + 10, w: 80, h: 6 });
    if state.changed {
        texts.push(
            TextItem { paint: Paint::Darken, x: 480, y: 480, size: 50, text: "not saved".to_owned() },
        );
    }
    proof {
        let rs = frame_rects(*state);
        reveal_with_fuel(rects_painted, 6);
        assert(rs.drop_last().drop_last().drop_last().drop_last().drop_last() =~= Seq::<Rect>::empty());
        assert(rs.drop_last().drop_last().drop_last().drop_last() =~= seq![legend_bar(240)]);
        assert(rs.drop_last().drop_last().drop_last() =~= seq![legend_bar(240), legend_bar(378)]);
        assert(rs.drop_last().drop_last() =~= seq![
            legend_bar(240),
            legend_bar(378),
            legend_bar(447),
        ]);
        assert(rs.drop_last() =~= seq![
            legend_bar(240),
            legend_bar(378),
            legend_bar(447),
            legend_bar(516),
        ]);
        assert(rects_painted(start, Paint::Darken, rs.drop_last()) == fb4);
        assert(texts@.len() == frame_texts(*state).len());
        assert forall|i: int| 0 <= i < texts@.len() implies (#[trigger] texts@[i]).paint
            == Paint::Darken && item_view(texts@[i]) == frame_texts(*state)[i] by {}
    }
    texts
}

/// The texts of the clock face shown at start-up: a title, the time of day and
/// the date, all centered on the middle of the panel.
pub fn clock_face(time: u32) -> (texts: Vec<TextItem>)
    ensures
        texts@.len() == 3,
        forall|i: int| 0 <= i < 3 ==> (#[trigger] texts@[i]).paint == Paint::Darken,
        item_view(texts@[0]) == (480int, 96int, 90int, "Aikamme"@),
        strftime("%H:%M"@, time * 60) == Some(texts@[1].text@),
        item_view(texts@[1]).0 == 480 && item_view(texts@[1]).1 == 405 && item_view(texts@[1]).2
            == 454,
        strftime("%-d.%-m.%Y"@, time * 60) == Some(texts@[2].text@),
        item_view(texts@[2]).0 == 480 && item_view(texts@[2]).1 == 500 && item_view(texts@[2]).2
            == 90,
{
    proof {
        reveal_strlit("%H:%M");
        reveal_strlit("%-d.%-m.%Y");
    }
    let time_text = match format_counter(time, "%H:%M") {
        Some(s) => s,
        None => {
            proof {
                assert(is_simple_pattern("%H:%M"@));
            }
            String::new()
        },
    };
    let date_text = match format_counter(time, "%-d.%-m.%Y") {
        Some(s) => s,
        None => {
            proof {
                assert(is_simple_pattern("%-d.%-m.%Y"@));
            }
            String::new()
        },
    };
    let mut texts: Vec<TextItem> = Vec::new();
    texts.push(TextItem { paint: Paint::Darken, x: 480, y: 96, size: 90, text: "Aikamme".to_owned() });
    texts.push(TextItem { paint: Paint::Darken, x: 480, y: 405, size: 454, text: time_text });
    texts.push(TextItem { paint: Paint::Darken, x: 480, y: 500, size: 90, text: date_text });
    texts
}

/// Pause between two polls of the shared state or of a held button.
pub const POLL_MS: u32 = 10;

/// Polls without a change, while partial updates are on the panel, before
/// the panel is cleared and redrawn in full.
pub const STALE_POLLS: u32 = 500;

/// Polls of a held button before it counts as held down.
pub const HOLD_POLLS: u32 = 50;

/// Pause between repeated actions of a held button.
pub const REPEAT_MS: u32 = 200;

/// Pause between two rounds of the input loop.
pub const INPUT_PAUSE_MS: u32 = 1;

/// What the render task does after a poll of the shared state.
#[derive(Clone, Copy, Debug, PartialEq, Eq, Structural)]
pub enum RenderAction {
    /// Draw the shown state as a partial update against the previous frame.
    Redraw,
    /// Clear the panel quickly, blank the previous frame, then redraw.
    ClearAndRedraw,
    /// Poll again after `POLL_MS`.
    Wait,
}

/// The render task's view of the shared state: the state its frame shows,
/// whether partial updates have accumulated since the last full clear, and
/// how many polls in a row found nothing new.
#[derive(Clone, Copy, Debug, PartialEq, Eq, Structural)]
pub struct RenderTracker {
    pub shown: AdjustState,
    pub dirty: bool,
    pub idle_polls: u32,
}

impl RenderTracker {
    pub open spec fn wf(&self) -> bool {
        self.idle_polls < STALE_POLLS
    }

    /// The tracker of a render task that has just drawn `state` on a clear panel.
    pub fn new(state: AdjustState) -> (r: RenderTracker)
        ensures
            r == (RenderTracker { shown: state, dirty: false, idle_polls: 0 }),
            r.wf(),
    {
        RenderTracker { shown: state, dirty: false, idle_polls: 0 }
    }

    /// Decide what to do with a fresh snapshot of the shared state. A change
    /// is shown at once; after `STALE_POLLS` quiet polls with partial updates
    /// on the panel, it is cleared and redrawn.
    pub fn on_poll(&mut self, shared: AdjustState) -> (action: RenderAction)
        requires
            old(self).wf(),
        ensures
            final(self).wf(),
            shared != old(self).shown ==> action == RenderAction::Redraw && *final(self) == (
            RenderTracker { shown: shared, dirty: true, idle_polls: 0 }),
            shared == old(self).shown && old(self).dirty && old(self).idle_polls + 1
                >= STALE_POLLS ==> action == RenderAction::ClearAndRedraw && *final(self) == (
            RenderTracker { shown: shared, dirty: false, idle_polls: 0 }),
            shared == old(self).shown && old(self).dirty && old(self).idle_polls + 1 < STALE_POLLS
                ==> action == RenderAction::Wait && *final(self) == (RenderTracker {
                idle_polls: (old(self).idle_polls + 1) as u32,
                ..*old(self)
            }),
            shared == old(self).shown && !old(self).dirty ==> action == RenderAction::Wait
                && *final(self) == *old(self),
    {
        if shared != self.shown {
            self.shown = shared;
            self.dirty = true;
            self.idle_polls = 0;
            return RenderAction::Redraw;
        }
        if self.dirty {
            if self.idle_polls + 1 >= STALE_POLLS {
                self.dirty = false;
                self.idle_polls = 0;
                return RenderAction::ClearAndRedraw;
            }
            self.idle_polls = self.idle_polls + 1;
        }
        RenderAction::Wait
    }
}

/// Where a button press stands.
#[derive(Clone, Copy, Debug, PartialEq, Eq, Structural)]
pub enum LatchPhase {
    /// Not yet seen pressed.
    Idle,
    /// Fired once; `polls` polls have found it still held.
    Holding { polls: u32 },
    /// Held past `HOLD_POLLS` polls.
    Held,
}

/// One step of a button press: whether to fire the button's action, how long
/// to wait before the next reading, and whether the press is over.
#[derive(Clone, Copy, Debug, PartialEq, Eq, Structural)]
pub struct LatchStep {
    pub next: LatchPhase,
    pub fire: bool,
    pub delay_ms: u32,
    pub done: bool,
}

/// The step of a press in `phase` for a reading of the button. A press fires
/// once; a button released within `HOLD_POLLS` polls ends the press; one held
/// longer fires every `REPEAT_MS` when `repeat` is set, and is only waited out
/// otherwise.
pub open spec fn latch_step(phase: LatchPhase, pressed: bool, repeat: bool) -> LatchStep {
    match phase {
        LatchPhase::Idle => if pressed {
            LatchStep { next: LatchPhase::Holding { polls: 0 }, fire: true, delay_ms: 0, done: false }
        } else {
            LatchStep { next: LatchPhase::Idle, fire: false, delay_ms: 0, done: true }
        },
        LatchPhase::Holding { polls } => if !pressed {
            LatchStep { next: phase, fire: false, delay_ms: 0, done: true }
        } else if polls + 1 >= HOLD_POLLS {
            LatchStep { next: LatchPhase::Held, fire: false, delay_ms: POLL_MS, done: false }
        } else {
            LatchStep {
                next: LatchPhase::Holding { polls: (polls + 1) as u32 },
                fire: false,
                delay_ms: POLL_MS,
                done: false,
            }
        },
        LatchPhase::Held => if !pressed {
            LatchStep { next: phase, fire: false, delay_ms: 0, done: true }
        } else if repeat {
            LatchStep { next: phase, fire: true, delay_ms: REPEAT_MS, done: false }
        } else {
            LatchStep { next: phase, fire: false, delay_ms: POLL_MS, done: false }
        },
    }
}

pub open spec fn latch_phase_ok(phase: LatchPhase) -> bool {
    match phase {
        LatchPhase::Holding { polls } => polls < HOLD_POLLS,
        _ => true,
    }
}

/// Decide the next step of a button press from a reading of the button.
pub fn press_latch(phase: LatchPhase, pressed: bool, repeat: bool) -> (r: LatchStep)
    requires
        latch_phase_ok(phase),
    ensures
        r == latch_step(phase, pressed, repeat),
        latch_phase_ok(r.next),
{
    match phase {
        LatchPhase::Idle => if pressed {
            LatchStep { next: LatchPhase::Holding { polls: 0 }, fire: true, delay_ms: 0, done: false }
        } else {
            LatchStep { next: LatchPhase::Idle, fire: false, delay_ms: 0, done: true }
        },
        LatchPhase::Holding { polls } => if !pressed {
            LatchStep { next: phase, fire: false, delay_ms: 0, done: true }
        } else if polls + 1 >= HOLD_POLLS {
            LatchStep { next: LatchPhase::Held, fire: false, delay_ms: POLL_MS, done: false }
        } else {
            LatchStep {
                next: LatchPhase::Holding { polls: polls + 1 },
                fire: false,
                delay_ms: POLL_MS,
                done: false,
            }
        },
        LatchPhase::Held => if !pressed {
            LatchStep { next: phase, fire: false, delay_ms: 0, done: true }
        } else if repeat {
            LatchStep { next: phase, fire: true, delay_ms: REPEAT_MS, done: false }
        } else {
            LatchStep { next: phase, fire: false, delay_ms: POLL_MS, done: false }
        },
    }
}

} // verus!
