//! Touch gestures from evdev records: vertical scrolling, horizontal paging
//! and taps.
//!
//! The gesture recogniser is a state machine fed with the events decoded
//! from the bytes read off the touch device. Integer arithmetic that the
//! panel performs with plain operators follows the release build, where an
//! overflow wraps around; the specifications use `wrap32` for those steps.
use vstd::prelude::*;
use crate::arith::{
    abs, clamp, clamp_i32, div_trunc, sat32, saturating_mul_i32, saturating_sub_i32, signum,
    signum_i32, wrap32, wrapping_abs_i32, wrapping_add_i32, wrapping_sub_i32,
};

verus! {

pub const EV_SYN: u16 = 0x00;
pub const EV_KEY: u16 = 0x01;
pub const EV_ABS: u16 = 0x03;
pub const ABS_X: u16 = 0x00;
pub const ABS_Y: u16 = 0x01;
pub const ABS_MT_POSITION_X: u16 = 0x35;
pub const ABS_MT_POSITION_Y: u16 = 0x36;
pub const ABS_MT_TRACKING_ID: u16 = 0x39;
pub const BTN_TOUCH: u16 = 0x14a;
pub const SYN_REPORT: u16 = 0;
pub const AXIS_LOCK_DISTANCE: i32 = 8;
pub const AXIS_UNLOCK_MARGIN: i32 = 40;
pub const PAGE_SWIPE_PERCENT: i32 = 22;
pub const TAP_SLOP: i32 = 12;
/// Size of a kernel `input_event` record on 64-bit Linux: two `long`s of
/// timestamp, then `type: u16`, `code: u16` and `value: i32`.
pub const INPUT_EVENT_SIZE: usize = 24;
/// Size of a kernel `input_absinfo` record: six `i32`s.
pub const INPUT_ABSINFO_SIZE: u64 = 24;
/// Logical panel extent that horizontal deltas are scaled to.
pub const PANEL_WIDTH: i32 = 376;
/// Logical panel extent that vertical deltas are scaled to.
pub const PANEL_HEIGHT: i32 = 960;

/// Gesture axis: not decided yet.
pub const AXIS_NONE: u8 = 0;
/// Gesture axis: vertical scrolling.
pub const AXIS_VERTICAL: u8 = 1;
/// Gesture axis: horizontal paging.
pub const AXIS_HORIZONTAL: u8 = 2;

#[derive(Debug, Clone, Copy, PartialEq, Eq, Structural)]
pub enum InputEvent {
    AbsX(i32),
    AbsY(i32),
    TouchDown,
    TouchUp,
    TouchMove,
}

/// What one poll of the touch device produced.
#[derive(Debug, Clone, Copy)]
pub struct TouchUpdate {
    pub scroll_y: i32,
    pub scroll_finished: bool,
    pub page_delta: i32,
    pub swipe_x: Option<i32>,
    pub swipe_finished: bool,
    pub tap: Option<(i32, i32)>,
    pub touched: bool,
    pub touch_started: bool,
    pub touching: bool,
}

pub open spec fn empty_update() -> TouchUpdate {
    TouchUpdate {
        scroll_y: 0,
        scroll_finished: false,
        page_delta: 0,
        swipe_x: None,
        swipe_finished: false,
        tap: None,
        touched: false,
        touch_started: false,
        touching: false,
    }
}

impl Default for TouchUpdate {
    fn default() -> (u: Self)
        ensures
            u == empty_update(),
    {
        TouchUpdate {
            scroll_y: 0,
            scroll_finished: false,
            page_delta: 0,
            swipe_x: None,
            swipe_finished: false,
            tap: None,
            touched: false,
            touch_started: false,
            touching: false,
        }
    }
}

// ── Record decoding ────────────────────────────────────────

pub open spec fn le_u16(b: Seq<u8>, at: int) -> int {
    b[at] + 256 * b[at + 1]
}

pub open spec fn le_i32(b: Seq<u8>, at: int) -> int {
    let u = b[at] + 0x100 * b[at + 1] + 0x1_0000 * b[at + 2] + 0x100_0000 * b[at + 3];
    if u >= 0x8000_0000 {
        u - 0x1_0000_0000
    } else {
        u
    }
}

/// The event an evdev record stands for, if the gesture recogniser uses it.
pub open spec fn decode(kind: int, code: int, value: int) -> Option<InputEvent> {
    if kind == EV_ABS {
        if code == ABS_X || code == ABS_MT_POSITION_X {
            Some(InputEvent::AbsX(value as i32))
        } else if code == ABS_Y || code == ABS_MT_POSITION_Y {
            Some(InputEvent::AbsY(value as i32))
        } else if code == ABS_MT_TRACKING_ID {
            Some(if value < 0 { InputEvent::TouchUp } else { InputEvent::TouchDown })
        } else {
            None
        }
    } else if kind == EV_KEY && code == BTN_TOUCH {
        Some(if value == 1 { InputEvent::TouchDown } else { InputEvent::TouchUp })
    } else if kind == EV_SYN && code == SYN_REPORT {
        Some(InputEvent::TouchMove)
    } else {
        None
    }
}

/// The event of record `k` of `b`.
pub open spec fn record_event(b: Seq<u8>, k: int) -> Option<InputEvent> {
    let at = k * 24;
    decode(le_u16(b, at + 16), le_u16(b, at + 18), le_i32(b, at + 20))
}

/// The events of the first `n` records of `b`, in order.
pub open spec fn events_in(b: Seq<u8>, n: int) -> Seq<InputEvent>
    decreases n,
{
    if n <= 0 {
        seq![]
    } else {
        let prev = events_in(b, n - 1);
        match record_event(b, n - 1) {
            Some(e) => prev.push(e),
            None => prev,
        }
    }
}

/// The events of every whole record in `b`; a trailing partial record is ignored.
pub open spec fn events_of(b: Seq<u8>) -> Seq<InputEvent> {
    events_in(b, (b.len() / 24) as int)
}

fn read_u16(b: &[u8], at: usize) -> (r: u16)
    requires
        at + 2 <= b.len(),
    ensures
        r == le_u16(b@, at as int),
{
    b[at] as u16 + 256 * (b[at + 1] as u16)
}

fn read_i32(b: &[u8], at: usize) -> (r: i32)
    requires
        at + 4 <= b.len(),
    ensures
        r == le_i32(b@, at as int),
{
    let u: u64 = b[at] as u64 + 0x100 * (b[at + 1] as u64) + 0x1_0000 * (b[at + 2] as u64)
        + 0x100_0000 * (b[at + 3] as u64);
    if u >= 0x8000_0000 {
        (u as i64 - 0x1_0000_0000) as i32
    } else {
        u as i32
    }
}

fn decode_record(kind: u16, code: u16, value: i32) -> (r: Option<InputEvent>)
    ensures
        r == decode(kind as int, code as int, value as int),
{
    if kind == EV_ABS {
        if code == ABS_X || code == ABS_MT_POSITION_X {
            Some(InputEvent::AbsX(value))
        } else if code == ABS_Y || code == ABS_MT_POSITION_Y {
            Some(InputEvent::AbsY(value))
        } else if code == ABS_MT_TRACKING_ID {
            Some(
                if value < 0 {
                    InputEvent::TouchUp
                } else {
                    InputEvent::TouchDown
                },
            )
        } else {
            None
        }
    } else if kind == EV_KEY && code == BTN_TOUCH {
        Some(
            if value == 1 {
                InputEvent::TouchDown
            } else {
                InputEvent::TouchUp
            },
        )
    } else if kind == EV_SYN && code == SYN_REPORT {
        Some(InputEvent::TouchMove)
    } else {
        None
    }
}

/// Decodes the evdev records in `data` into gesture events.
pub fn parse_events(data: &[u8]) -> (events: Vec<InputEvent>)
    ensures
        events@ == events_of(data@),
{
    let mut events: Vec<InputEvent> = Vec::new();
    let count = data.len() / INPUT_EVENT_SIZE;
    let mut k: usize = 0;
    while k < count
        invariant
            count == data@.len() / 24,
            k <= count,
            events@ == events_in(data@, k as int),
        decreases count - k,
    {
        assert((k + 1) * 24 <= count * 24) by (nonlinear_arith)
            requires
                k < count,
        ;
        assert(count * 24 <= data.len()) by (nonlinear_arith)
            requires
                count == data.len() / 24,
        ;
        let at = k * INPUT_EVENT_SIZE;
        let kind = read_u16(data, at + 16);
        let code = read_u16(data, at + 18);
        let value = read_i32(data, at + 20);
        match decode_record(kind, code, value) {
            Some(e) => events.push(e),
            None => {},
        }
        k = k + 1;
    }
    events
}

// ── Scaling and axis decisions ─────────────────────────────

/// A device delta scaled to `extent` logical pixels: a non-zero device
/// motion never scales to zero.
pub open spec fn scaled_delta(value: int, minimum: int, maximum: int, extent: int) -> int {
    let span = sat32(maximum - minimum);
    let range = if span > 1 {
        span
    } else {
        1
    };
    let scaled = div_trunc(sat32(value * extent), range);
    if scaled == 0 && value != 0 {
        signum(value)
    } else {
        scaled
    }
}

/// A device coordinate mapped onto `0..extent` logical pixels.
pub open spec fn scaled_position(value: int, minimum: int, maximum: int, extent: int) -> int {
    clamp(
        scaled_delta(sat32(value - minimum), 0, wrap32(maximum - minimum), extent),
        0,
        sat32(extent - 1),
    )
}

pub open spec fn wabs(v: int) -> int {
    wrap32(abs(v))
}

pub open spec fn locks_horizontal(current_axis: int, dx: int, dy: int) -> bool {
    current_axis != AXIS_HORIZONTAL && wabs(dx) > AXIS_LOCK_DISTANCE && wabs(dx) > wabs(dy)
}

pub open spec fn unlocks_horizontal(dx: int, dy: int) -> bool {
    wabs(dy) > wrap32(wabs(dx) + AXIS_UNLOCK_MARGIN)
}

/// Scales a device delta on an axis spanning `minimum..=maximum` to `extent`
/// logical pixels.
pub fn scale_delta(value: i32, minimum: i32, maximum: i32, extent: i32) -> (r: i32)
    ensures
        r == scaled_delta(value as int, minimum as int, maximum as int, extent as int),
{
    let span = saturating_sub_i32(maximum, minimum);
    let range = if span > 1 {
        span
    } else {
        1
    };
    let scaled = saturating_mul_i32(value, extent) / range;
    if scaled == 0 && value != 0 {
        signum_i32(value)
    } else {
        scaled
    }
}

/// Maps a device coordinate to a pixel in `0..extent`.
pub fn scale_position(value: i32, minimum: i32, maximum: i32, extent: i32) -> (r: i32)
    requires
        extent >= 1,
    ensures
        r == scaled_position(value as int, minimum as int, maximum as int, extent as int),
        0 <= r < extent,
{
    clamp_i32(
        scale_delta(saturating_sub_i32(value, minimum), 0, wrapping_sub_i32(maximum, minimum), extent),
        0,
        saturating_sub_i32(extent, 1),
    )
}

/// Whether a gesture not yet horizontal becomes a horizontal page swipe.
pub fn should_lock_horizontal(current_axis: u8, dx: i32, dy: i32) -> (r: bool)
    ensures
        r == locks_horizontal(current_axis as int, dx as int, dy as int),
{
    let ax = wrapping_abs_i32(dx);
    current_axis != AXIS_HORIZONTAL && ax > AXIS_LOCK_DISTANCE && ax > wrapping_abs_i32(dy)
}

/// Whether a horizontally locked gesture is so clearly vertical that it
/// hands control back to scrolling.
pub fn should_unlock_horizontal(dx: i32, dy: i32) -> (r: bool)
    ensures
        r == unlocks_horizontal(dx as int, dy as int),
{
    wrapping_abs_i32(dy) > wrapping_add_i32(wrapping_abs_i32(dx), AXIS_UNLOCK_MARGIN)
}

// ── Gesture state machine ──────────────────────────────────

/// Gesture state of one touch device; the device calibration range is
/// `x_min..=x_max` by `y_min..=y_max`.
pub struct TouchInput {
    last_x: i32,
    last_y: i32,
    touching: bool,
    start_x: i32,
    start_y: i32,
    last_report_y: i32,
    gesture_axis: u8,
    needs_origin: bool,
    x_min: i32,
    x_max: i32,
    y_min: i32,
    y_max: i32,
}

/// The viewport sizes a poll works with: DRM reports them as 16-bit values.
pub open spec fn viewport_ok(width: int, height: int) -> bool {
    1 <= width <= 0xffff && 1 <= height <= 0xffff
}

/// The bounds every reported update keeps: a swipe offset within one
/// viewport width, a page change of at most one page and only with a
/// finished swipe, a finished swipe with its offset, a tap on the screen,
/// and a started touch counted as a touch.
pub open spec fn update_ok(u: TouchUpdate, w: int, h: int) -> bool {
    &&& (u.swipe_x matches Some(x) ==> -w <= x <= w)
    &&& -1 <= u.page_delta <= 1
    &&& (u.tap matches Some(p) ==> 0 <= p.0 < w && 0 <= p.1 < h)
    &&& (u.page_delta != 0 ==> u.swipe_finished)
    &&& (u.swipe_finished ==> u.swipe_x is Some)
    &&& (u.touch_started ==> u.touched)
}

impl TouchInput {
    pub closed spec fn is_touching(self) -> bool {
        self.touching
    }

    /// The device ranges `(x_min, x_max, y_min, y_max)`.
    pub closed spec fn calibration(self) -> (i32, i32, i32, i32) {
        (self.x_min, self.x_max, self.y_min, self.y_max)
    }

    pub closed spec fn axis(self) -> u8 {
        self.gesture_axis
    }

    /// Every state the recogniser reaches names one of the three axes.
    #[verifier::type_invariant]
    pub closed spec fn inv(self) -> bool {
        self.gesture_axis <= AXIS_HORIZONTAL
    }

    /// The last reported device coordinates `(x, y)`.
    pub closed spec fn position(self) -> (i32, i32) {
        (self.last_x, self.last_y)
    }

    /// Where the current gesture started, in device coordinates.
    pub closed spec fn origin(self) -> (i32, i32) {
        (self.start_x, self.start_y)
    }

    /// The finger is down but its first position report has not arrived,
    /// so the origin is not known yet.
    pub closed spec fn origin_pending(self) -> bool {
        self.needs_origin
    }

    /// The device `y` that the scroll reported so far reaches: the next
    /// vertical move scrolls by the distance from here.
    pub closed spec fn report_y(self) -> i32 {
        self.last_report_y
    }

    pub closed spec fn scaled_x(self, v: int) -> int {
        scaled_delta(v, self.x_min as int, self.x_max as int, PANEL_WIDTH as int)
    }

    pub closed spec fn scaled_y(self, v: int) -> int {
        scaled_delta(v, self.y_min as int, self.y_max as int, PANEL_HEIGHT as int)
    }

    /// A finger lifts: the gesture is classified as a page swipe, a tap or
    /// the end of a scroll, and the recogniser goes idle; an idle recogniser
    /// is only reset, and the update counts as touched either way.
    pub closed spec fn finished(self, w: int, h: int, u: TouchUpdate) -> (TouchInput, TouchUpdate) {
        if !self.touching {
            (
                TouchInput { touching: false, gesture_axis: AXIS_NONE, needs_origin: false, ..self },
                TouchUpdate { touched: true, ..u },
            )
        } else {
            self.released(w, h, u)
        }
    }

    /// A lifting finger classified; see `finished`.
    pub closed spec fn released(self, w: int, h: int, u: TouchUpdate) -> (TouchInput, TouchUpdate) {
        let (sx, sy) = if self.needs_origin {
            (self.last_x, self.last_y)
        } else {
            (self.start_x, self.start_y)
        };
        let dx = self.scaled_x(wrap32(self.last_x - sx));
        let dy = self.scaled_y(wrap32(self.last_y - sy));
        let u1 = if self.gesture_axis == AXIS_HORIZONTAL {
            TouchUpdate {
                swipe_x: Some(clamp(dx, -w, w) as i32),
                swipe_finished: true,
                page_delta: if wabs(dx) >= div_trunc(w * PAGE_SWIPE_PERCENT, 100) {
                    if dx < 0 {
                        1i32
                    } else {
                        -1i32
                    }
                } else {
                    u.page_delta
                },
                ..u
            }
        } else if wabs(dx) < TAP_SLOP && wabs(dy) < TAP_SLOP {
            TouchUpdate {
                tap: Some(
                    (
                        scaled_position(
                            self.last_x as int,
                            self.x_min as int,
                            self.x_max as int,
                            w,
                        ) as i32,
                        scaled_position(
                            self.last_y as int,
                            self.y_min as int,
                            self.y_max as int,
                            h,
                        ) as i32,
                    ),
                ),
                ..u
            }
        } else {
            TouchUpdate { scroll_finished: true, ..u }
        };
        (
            TouchInput {
                start_x: sx,
                start_y: sy,
                touching: false,
                gesture_axis: AXIS_NONE,
                needs_origin: false,
                ..self
            },
            TouchUpdate { touched: true, ..u1 },
        )
    }

    /// A finger moves while touching and the origin of the gesture is known.
    pub closed spec fn moved(self, w: int, u: TouchUpdate) -> (TouchInput, TouchUpdate) {
        let total_x = self.scaled_x(wrap32(self.last_x - self.start_x));
        let total_y = self.scaled_y(wrap32(self.last_y - self.start_y));
        let (axis, report_y) = if locks_horizontal(self.gesture_axis as int, total_x, total_y) {
            (AXIS_HORIZONTAL, self.last_report_y)
        } else if self.gesture_axis == AXIS_HORIZONTAL && unlocks_horizontal(total_x, total_y) {
            (AXIS_VERTICAL, self.start_y)
        } else {
            (self.gesture_axis, self.last_report_y)
        };
        if axis == AXIS_HORIZONTAL {
            (
                TouchInput { gesture_axis: axis, last_report_y: self.last_y, ..self },
                TouchUpdate { swipe_x: Some(clamp(total_x, -w, w) as i32), touched: true, ..u },
            )
        } else {
            (
                TouchInput {
                    gesture_axis: if wabs(total_y) >= TAP_SLOP {
                        AXIS_VERTICAL
                    } else {
                        axis
                    },
                    last_report_y: self.last_y,
                    ..self
                },
                TouchUpdate {
                    scroll_y: wrap32(u.scroll_y + self.scaled_y(wrap32(report_y - self.last_y))) as i32,
                    touched: true,
                    ..u
                },
            )
        }
    }

    /// How one event changes the recogniser and the update being collected.
    pub closed spec fn step(self, e: InputEvent, w: int, h: int, u: TouchUpdate) -> (TouchInput, TouchUpdate) {
        match e {
            InputEvent::AbsX(v) => (TouchInput { last_x: v, ..self }, u),
            InputEvent::AbsY(v) => (TouchInput { last_y: v, ..self }, u),
            InputEvent::TouchDown => if self.touching {
                (self, u)
            } else {
                (
                    TouchInput {
                        touching: true,
                        start_x: self.last_x,
                        start_y: self.last_y,
                        last_report_y: self.last_y,
                        gesture_axis: AXIS_NONE,
                        needs_origin: true,
                        ..self
                    },
                    TouchUpdate { touched: true, touch_started: true, ..u },
                )
            },
            InputEvent::TouchUp => if self.touching {
                self.finished(w, h, u)
            } else {
                (self, u)
            },
            InputEvent::TouchMove => if !self.touching {
                (self, u)
            } else if self.needs_origin {
                (
                    TouchInput {
                        start_x: self.last_x,
                        start_y: self.last_y,
                        last_report_y: self.last_y,
                        needs_origin: false,
                        ..self
                    },
                    TouchUpdate { touched: true, ..u },
                )
            } else {
                self.moved(w, u)
            },
        }
    }

    /// The events of `events`, applied in order.
    pub closed spec fn run(self, events: Seq<InputEvent>, w: int, h: int, u: TouchUpdate) -> (TouchInput, TouchUpdate)
        decreases events.len(),
    {
        if events.len() == 0 {
            (self, u)
        } else {
            let (s1, u1) = self.step(events[0], w, h, u);
            s1.run(events.drop_first(), w, h, u1)
        }
    }

    /// The events decoded from each chunk of bytes, applied in order.
    pub closed spec fn run_chunks(self, chunks: Seq<Seq<u8>>, w: int, h: int, u: TouchUpdate) -> (TouchInput, TouchUpdate)
        decreases chunks.len(),
    {
        if chunks.len() == 0 {
            (self, u)
        } else {
            let (s1, u1) = self.run(events_of(chunks[0]), w, h, u);
            s1.run_chunks(chunks.drop_first(), w, h, u1)
        }
    }

    /// The update a poll reports after all chunks were applied: the scroll
    /// is limited to half a viewport and the touching flag is the final one.
    pub closed spec fn polled(self, chunks: Seq<Seq<u8>>, w: int, h: int) -> (TouchInput, TouchUpdate) {
        let (s, u) = self.run_chunks(chunks, w, h, empty_update());
        (
            s,
            TouchUpdate {
                scroll_y: clamp(u.scroll_y as int, -div_trunc(h, 2), div_trunc(h, 2)) as i32,
                touching: s.touching,
                ..u
            },
        )
    }

    /// What a lifting finger does. The recogniser goes idle, keeps its last
    /// position and calibration, and the update counts as touched. A
    /// gesture locked horizontal is a finished swipe whose offset is the
    /// drag kept within one width, and a drag of at least 22% of the width
    /// changes page against its direction. Otherwise a drag shorter than the
    /// tap slop on both axes is a tap at the last position mapped onto the
    /// screen, and anything else ends a scroll. The drag runs from the
    /// gesture's origin, or from the last position when no position had been
    /// reported since the finger went down. An idle recogniser is only reset.
    /// A release event reaches this only while a finger is down.
    pub proof fn lemma_release(self, w: int, h: int, u: TouchUpdate)
        ensures
            ({
                let (s, r) = self.finished(w, h, u);
                let o = if self.origin_pending() {
                    self.position()
                } else {
                    self.origin()
                };
                let (x_min, x_max, y_min, y_max) = self.calibration();
                let dx = scaled_delta(
                    wrap32(self.position().0 - o.0),
                    x_min as int,
                    x_max as int,
                    PANEL_WIDTH as int,
                );
                let dy = scaled_delta(
                    wrap32(self.position().1 - o.1),
                    y_min as int,
                    y_max as int,
                    PANEL_HEIGHT as int,
                );
                &&& !s.is_touching() && s.axis() == AXIS_NONE && !s.origin_pending()
                &&& s.position() == self.position() && s.calibration() == self.calibration()
                &&& r.touched
                &&& !self.is_touching() ==> s.origin() == self.origin() && r == (TouchUpdate {
                    touched: true,
                    ..u
                })
                &&& self.is_touching() && self.axis() == AXIS_HORIZONTAL ==> s.origin() == o && r == (
                TouchUpdate {
                    swipe_x: Some(clamp(dx, -w, w) as i32),
                    swipe_finished: true,
                    page_delta: if wabs(dx) >= div_trunc(w * PAGE_SWIPE_PERCENT, 100) {
                        if dx < 0 {
                            1i32
                        } else {
                            -1i32
                        }
                    } else {
                        u.page_delta
                    },
                    touched: true,
                    ..u
                })
                &&& self.is_touching() && self.axis() != AXIS_HORIZONTAL && wabs(dx) < TAP_SLOP && wabs(
                    dy,
                ) < TAP_SLOP ==> s.origin() == o && r == (TouchUpdate {
                    tap: Some(
                        (
                            scaled_position(self.position().0 as int, x_min as int, x_max as int, w) as i32,
                            scaled_position(self.position().1 as int, y_min as int, y_max as int, h) as i32,
                        ),
                    ),
                    touched: true,
                    ..u
                })
                &&& self.is_touching() && self.axis() != AXIS_HORIZONTAL && !(wabs(dx) < TAP_SLOP && wabs(
                    dy,
                ) < TAP_SLOP) ==> s.origin() == o && r == (TouchUpdate {
                    scroll_finished: true,
                    touched: true,
                    ..u
                })
                &&& self.step(InputEvent::TouchUp, w, h, u) == if self.is_touching() {
                    self.finished(w, h, u)
                } else {
                    (self, u)
                }
            }),
    {
    }

    /// A move of a finger whose gesture origin is known. Afterwards the
    /// reference of the scroll is the position just reported, so the moves
    /// of one drag scroll by consecutive distances that add up to the drag.
    /// A move that leaves the gesture vertical adds to the scroll the scaled
    /// distance from the previous reference (from the origin when a
    /// horizontal lock is released) to the new position, and leaves the
    /// swipe offset alone; a move that leaves it horizontal reports the drag
    /// from the origin, kept within one width, and does not scroll.
    pub proof fn lemma_move(self, w: int, h: int, u: TouchUpdate)
        requires
            self.is_touching(),
            !self.origin_pending(),
        ensures
            ({
                let (s, r) = self.step(InputEvent::TouchMove, w, h, u);
                let (x_min, x_max, y_min, y_max) = self.calibration();
                let y = self.position().1;
                let previous = if self.axis() == AXIS_HORIZONTAL {
                    self.origin().1
                } else {
                    self.report_y()
                };
                &&& s.report_y() == y
                &&& s.position() == self.position() && s.origin() == self.origin()
                &&& s.is_touching() && !s.origin_pending() && r.touched
                &&& s.axis() != AXIS_HORIZONTAL ==> r.swipe_x == u.swipe_x && r.scroll_y == wrap32(
                    u.scroll_y + scaled_delta(
                        wrap32(previous - y),
                        y_min as int,
                        y_max as int,
                        PANEL_HEIGHT as int,
                    ),
                )
                &&& s.axis() == AXIS_HORIZONTAL ==> r.scroll_y == u.scroll_y && r.swipe_x == Some(
                    clamp(
                        scaled_delta(
                            wrap32(self.position().0 - self.origin().0),
                            x_min as int,
                            x_max as int,
                            PANEL_WIDTH as int,
                        ),
                        -w,
                        w,
                    ) as i32,
                )
            }),
    {
    }

    proof fn lemma_step_keeps(self, e: InputEvent, w: int, h: int, u: TouchUpdate)
        requires
            viewport_ok(w, h),
            self.inv(),
            update_ok(u, w, h),
        ensures
            self.step(e, w, h, u).0.inv(),
            update_ok(self.step(e, w, h, u).1, w, h),
    {
        if w >= 1 {
            assert(sat32(w - 1) == w - 1);
        }
        assert(sat32(h - 1) == h - 1);
    }

    proof fn lemma_run_keeps(self, events: Seq<InputEvent>, w: int, h: int, u: TouchUpdate)
        requires
            viewport_ok(w, h),
            self.inv(),
            update_ok(u, w, h),
        ensures
            self.run(events, w, h, u).0.inv(),
            update_ok(self.run(events, w, h, u).1, w, h),
        decreases events.len(),
    {
        if events.len() > 0 {
            self.lemma_step_keeps(events[0], w, h, u);
            let (s1, u1) = self.step(events[0], w, h, u);
            s1.lemma_run_keeps(events.drop_first(), w, h, u1);
        }
    }

    proof fn lemma_run_chunks_keeps(self, chunks: Seq<Seq<u8>>, w: int, h: int, u: TouchUpdate)
        requires
            viewport_ok(w, h),
            self.inv(),
            update_ok(u, w, h),
        ensures
            self.run_chunks(chunks, w, h, u).0.inv(),
            update_ok(self.run_chunks(chunks, w, h, u).1, w, h),
        decreases chunks.len(),
    {
        if chunks.len() > 0 {
            self.lemma_run_keeps(events_of(chunks[0]), w, h, u);
            let (s1, u1) = self.run(events_of(chunks[0]), w, h, u);
            s1.lemma_run_chunks_keeps(chunks.drop_first(), w, h, u1);
        }
    }

    /// An idle recogniser for a device calibrated to the given ranges.
    pub fn new(x_min: i32, x_max: i32, y_min: i32, y_max: i32) -> (t: Self)
        ensures
            !t.is_touching(),
            t.axis() == AXIS_NONE,
            t.inv(),
            t.calibration() == (x_min, x_max, y_min, y_max),
    {
        TouchInput {
            last_x: 0,
            last_y: 0,
            touching: false,
            start_x: 0,
            start_y: 0,
            last_report_y: 0,
            gesture_axis: AXIS_NONE,
            needs_origin: false,
            x_min,
            x_max,
            y_min,
            y_max,
        }
    }

    fn scale_x(&self, value: i32) -> (r: i32)
        ensures
            r == self.scaled_x(value as int),
    {
        scale_delta(value, self.x_min, self.x_max, PANEL_WIDTH)
    }

    fn scale_y(&self, value: i32) -> (r: i32)
        ensures
            r == self.scaled_y(value as int),
    {
        scale_delta(value, self.y_min, self.y_max, PANEL_HEIGHT)
    }

    fn finish_gesture(&mut self, width: i32, height: i32, update: &mut TouchUpdate)
        requires
            viewport_ok(width as int, height as int),
        ensures
            (*final(self), *final(update)) == old(self).finished(width as int, height as int, *old(update)),
    {
        proof {
            use_type_invariant(&*self);
        }
        if !self.touching {
            self.gesture_axis = AXIS_NONE;
            self.needs_origin = false;
            update.touched = true;
            return;
        }
        if self.needs_origin {
            self.start_x = self.last_x;
            self.start_y = self.last_y;
        }
        let dx = self.scale_x(wrapping_sub_i32(self.last_x, self.start_x));
        let dy = self.scale_y(wrapping_sub_i32(self.last_y, self.start_y));
        if self.gesture_axis == AXIS_HORIZONTAL {
            update.swipe_x = Some(clamp_i32(dx, -width, width));
            update.swipe_finished = true;
            if wrapping_abs_i32(dx) >= width * PAGE_SWIPE_PERCENT / 100 {
                update.page_delta = if dx < 0 {
                    1
                } else {
                    -1
                };
            }
        } else if wrapping_abs_i32(dx) < TAP_SLOP && wrapping_abs_i32(dy) < TAP_SLOP {
            update.tap = Some(
                (
                    scale_position(self.last_x, self.x_min, self.x_max, width),
                    scale_position(self.last_y, self.y_min, self.y_max, height),
                ),
            );
        } else {
            self.gesture_axis = AXIS_VERTICAL;
            update.scroll_finished = true;
        }
        self.touching = false;
        self.gesture_axis = AXIS_NONE;
        self.needs_origin = false;
        update.touched = true;
    }

    fn handle_move(&mut self, width: i32, update: &mut TouchUpdate)
        requires
            old(self).touching,
            !old(self).needs_origin,
            viewport_ok(width as int, 1),
        ensures
            (*final(self), *final(update)) == old(self).moved(width as int, *old(update)),
    {
        proof {
            use_type_invariant(&*self);
        }
        let total_x = self.scale_x(wrapping_sub_i32(self.last_x, self.start_x));
        let total_y = self.scale_y(wrapping_sub_i32(self.last_y, self.start_y));
        // Vertical motion starts immediately; only horizontal motion is
        // locked, and it may take over after a small vertical lead.
        if should_lock_horizontal(self.gesture_axis, total_x, total_y) {
            self.gesture_axis = AXIS_HORIZONTAL;
        } else if self.gesture_axis == AXIS_HORIZONTAL && should_unlock_horizontal(total_x, total_y) {
            // Locked horizontal by early jitter but clearly scrolling
            // vertically: hand control back to the vertical axis.
            self.gesture_axis = AXIS_VERTICAL;
            self.last_report_y = self.start_y;
        }
        if self.gesture_axis == AXIS_HORIZONTAL {
            update.swipe_x = Some(clamp_i32(total_x, -width, width));
        } else {
            let delta = self.scale_y(wrapping_sub_i32(self.last_report_y, self.last_y));
            update.scroll_y = wrapping_add_i32(update.scroll_y, delta);
            if wrapping_abs_i32(total_y) >= TAP_SLOP {
                self.gesture_axis = AXIS_VERTICAL;
            }
        }
        self.last_report_y = self.last_y;
        update.touched = true;
    }

    /// Applies one event.
    pub fn handle(&mut self, event: InputEvent, width: i32, height: i32, update: &mut TouchUpdate)
        requires
            viewport_ok(width as int, height as int),
        ensures
            (*final(self), *final(update)) == old(self).step(event, width as int, height as int, *old(update)),
    {
        proof {
            use_type_invariant(&*self);
        }
        match event {
            InputEvent::AbsX(value) => self.last_x = value,
            InputEvent::AbsY(value) => self.last_y = value,
            InputEvent::TouchDown => {
                if !self.touching {
                    self.touching = true;
                    self.start_x = self.last_x;
                    self.start_y = self.last_y;
                    self.last_report_y = self.last_y;
                    self.gesture_axis = AXIS_NONE;
                    self.needs_origin = true;
                    update.touched = true;
                    update.touch_started = true;
                }
            },
            InputEvent::TouchUp => {
                if self.touching {
                    self.finish_gesture(width, height, update);
                }
            },
            InputEvent::TouchMove => {
                if self.touching {
                    if self.needs_origin {
                        self.start_x = self.last_x;
                        self.start_y = self.last_y;
                        self.last_report_y = self.last_y;
                        self.needs_origin = false;
                        update.touched = true;
                    } else {
                        self.handle_move(width, update);
                    }
                }
            },
        }
    }

    /// Feeds the bytes of each read from the device, in order, through the
    /// recogniser and reports what the poll produced.
    pub fn poll(&mut self, reads: &Vec<Vec<u8>>, viewport_width: i32, viewport_height: i32) -> (update: TouchUpdate)
        requires
            viewport_ok(viewport_width as int, viewport_height as int),
        ensures
            (*final(self), update) == old(self).polled(
                reads@.map_values(|r: Vec<u8>| r@),
                viewport_width as int,
                viewport_height as int,
            ),
            -(viewport_height / 2) <= update.scroll_y <= viewport_height / 2,
            update.touching == final(self).is_touching(),
            update_ok(update, viewport_width as int, viewport_height as int),
            reads@.len() == 0 ==> *final(self) == *old(self) && update == (TouchUpdate {
                touching: old(self).is_touching(),
                ..empty_update()
            }),
    {
        proof {
            use_type_invariant(&*self);
        }
        let ghost chunks = reads@.map_values(|r: Vec<u8>| r@);
        let ghost s0 = *self;
        let mut update = TouchUpdate::default();
        let mut i: usize = 0;
        assert(chunks.skip(0) =~= chunks);
        while i < reads.len()
            invariant
                viewport_ok(viewport_width as int, viewport_height as int),
                chunks == reads@.map_values(|r: Vec<u8>| r@),
                i <= reads.len(),
                s0.run_chunks(chunks, viewport_width as int, viewport_height as int, empty_update())
                    == self.run_chunks(chunks.skip(i as int), viewport_width as int, viewport_height as int, update),
            decreases reads.len() - i,
        {
            let events = parse_events(reads[i].as_slice());
            let ghost s_before = *self;
            let ghost u_before = update;
            let mut j: usize = 0;
            assert(events@.skip(0) =~= events@);
            while j < events.len()
                invariant
                    viewport_ok(viewport_width as int, viewport_height as int),
                    j <= events.len(),
                    s_before.run(events@, viewport_width as int, viewport_height as int, u_before)
                        == self.run(events@.skip(j as int), viewport_width as int, viewport_height as int, update),
                decreases events.len() - j,
            {
                assert(events@.skip(j as int).drop_first() =~= events@.skip(j + 1));
                self.handle(events[j], viewport_width, viewport_height, &mut update);
                j = j + 1;
            }
            assert(events@.skip(j as int) =~= Seq::<InputEvent>::empty());
            assert(chunks.skip(i as int).drop_first() =~= chunks.skip(i + 1));
            assert(chunks.skip(i as int)[0] == reads@[i as int]@);
            i = i + 1;
        }
        assert(chunks.skip(i as int) =~= Seq::<Seq<u8>>::empty());
        proof {
            s0.lemma_run_chunks_keeps(chunks, viewport_width as int, viewport_height as int, empty_update());
            if reads@.len() == 0 {
                assert(chunks.len() == 0);
                assert(s0.run_chunks(chunks, viewport_width as int, viewport_height as int, empty_update())
                    == (s0, empty_update()));
            }
        }
        update.scroll_y = clamp_i32(update.scroll_y, -viewport_height / 2, viewport_height / 2);
        update.touching = self.touching;
        update
    }
}

// ── Device probing ─────────────────────────────────────────

/// Whether bit `code` is set in the little-endian bit array `bits`.
pub open spec fn bit_set(bits: Seq<u8>, code: int) -> bool {
    0 <= code / 8 < bits.len() && (bits[code / 8] as int / pow2_small(code % 8)) % 2 == 1
}

pub open spec fn pow2_small(n: int) -> int
    decreases n,
{
    if n <= 0 {
        1
    } else {
        2 * pow2_small(n - 1)
    }
}

/// Whether the bit for `code` is set in an evdev capability bitmap.
pub fn has_bit(bits: &[u8], code: u16) -> (r: bool)
    ensures
        r == bit_set(bits@, code as int),
{
    let index = (code / 8) as usize;
    if index < bits.len() {
        let value: u8 = bits[index];
        let shift: u8 = (code % 8) as u8;
        let r = value & (1u8 << shift) != 0;
        proof {
            reveal_with_fuel(pow2_small, 9);
            assert(r == ((value as int / pow2_small(shift as int)) % 2 == 1)) by {
                assert(shift < 8);
                if shift == 0 {
                    assert(value & (1u8 << 0u8) != 0 <==> value % 2 == 1) by (bit_vector);
                } else if shift == 1 {
                    assert(value & (1u8 << 1u8) != 0 <==> (value / 2) % 2 == 1) by (bit_vector);
                } else if shift == 2 {
                    assert(value & (1u8 << 2u8) != 0 <==> (value / 4) % 2 == 1) by (bit_vector);
                } else if shift == 3 {
                    assert(value & (1u8 << 3u8) != 0 <==> (value / 8) % 2 == 1) by (bit_vector);
                } else if shift == 4 {
                    assert(value & (1u8 << 4u8) != 0 <==> (value / 16) % 2 == 1) by (bit_vector);
                } else if shift == 5 {
                    assert(value & (1u8 << 5u8) != 0 <==> (value / 32) % 2 == 1) by (bit_vector);
                } else if shift == 6 {
                    assert(value & (1u8 << 6u8) != 0 <==> (value / 64) % 2 == 1) by (bit_vector);
                } else {
                    assert(value & (1u8 << 7u8) != 0 <==> (value / 128) % 2 == 1) by (bit_vector);
                }
            }
        }
        r
    } else {
        false
    }
}

/// Whether a device reports absolute positions on both axes, classic or
/// multitouch, given the result of the capability query and its bitmap.
pub fn has_abs_events(query_result: i32, bits: &[u8]) -> (r: bool)
    ensures
        r == (query_result >= 0 && ((bit_set(bits@, ABS_X as int) && bit_set(bits@, ABS_Y as int))
            || (bit_set(bits@, ABS_MT_POSITION_X as int) && bit_set(
            bits@,
            ABS_MT_POSITION_Y as int,
        )))),
{
    let classic = has_bit(bits, ABS_X) && has_bit(bits, ABS_Y);
    let multitouch = has_bit(bits, ABS_MT_POSITION_X) && has_bit(bits, ABS_MT_POSITION_Y);
    query_result >= 0 && (classic || multitouch)
}

/// The answer of one axis-range query: the query's result code and the
/// reported minimum and maximum.
#[derive(Debug, Clone, Copy)]
pub struct AxisProbe {
    pub result: i32,
    pub minimum: i32,
    pub maximum: i32,
}

pub open spec fn usable(p: AxisProbe) -> bool {
    p.result >= 0 && p.maximum > p.minimum
}

/// Whether an axis probe answered with a non-empty range.
pub fn probe_usable(p: AxisProbe) -> (r: bool)
    ensures
        r == usable(p),
{
    p.result >= 0 && p.maximum > p.minimum
}

/// The calibration range of an axis: the multitouch axis when it answers
/// with a non-empty range, else the classic axis under the same condition.
pub fn read_axis_range(multitouch: AxisProbe, classic: AxisProbe) -> (r: Option<(i32, i32)>)
    ensures
        r == if usable(multitouch) {
            Some((multitouch.minimum, multitouch.maximum))
        } else if usable(classic) {
            Some((classic.minimum, classic.maximum))
        } else {
            None
        },
{
    if multitouch.result >= 0 && multitouch.maximum > multitouch.minimum {
        Some((multitouch.minimum, multitouch.maximum))
    } else if classic.result >= 0 && classic.maximum > classic.minimum {
        Some((classic.minimum, classic.maximum))
    } else {
        None
    }
}

/// The default calibration range of an axis that reports none.
pub const DEFAULT_AXIS_MAX: i32 = 4095;

impl TouchInput {
    /// An idle recogniser for the axis ranges a device reported; an axis
    /// without a range gets `0..=4095`.
    pub fn from_ranges(x: Option<(i32, i32)>, y: Option<(i32, i32)>) -> (t: Self)
        ensures
            !t.is_touching(),
            t.inv(),
            t.calibration() == (
                match x {
                    Some(r) => r.0,
                    None => 0,
                },
                match x {
                    Some(r) => r.1,
                    None => DEFAULT_AXIS_MAX,
                },
                match y {
                    Some(r) => r.0,
                    None => 0,
                },
                match y {
                    Some(r) => r.1,
                    None => DEFAULT_AXIS_MAX,
                },
            ),
    {
        let (x_min, x_max) = match x {
            Some(r) => r,
            None => (0, DEFAULT_AXIS_MAX),
        };
        let (y_min, y_max) = match y {
            Some(r) => r,
            None => (0, DEFAULT_AXIS_MAX),
        };
        TouchInput::new(x_min, x_max, y_min, y_max)
    }
}

/// `EVIOCGBIT(event_type, length)`: the ioctl request that reads the
/// capability bitmap of an event type.
pub fn eviocgbit(event_type: usize, length: usize) -> (r: u64)
    requires
        event_type < 0xe0,
        length < 0x4000,
    ensures
        r == 0x8000_0000 + length * 0x1_0000 + 0x45 * 0x100 + 0x20 + event_type,
{
    let l = length as u64;
    let e = event_type as u64;
    let low: u64 = 0x20 + e;
    let r = 0x8000_0000u64 | (l << 16u64) | (0x45u64 << 8u64) | low;
    assert(r == 0x8000_0000 + l * 0x1_0000 + 0x4500 + low) by (bit_vector)
        requires
            r == 0x8000_0000u64 | (l << 16u64) | (0x45u64 << 8u64) | low,
            l < 0x4000,
            low < 0x100,
    ;
    r
}

/// `EVIOCGABS(axis)`: the ioctl request that reads an axis' `input_absinfo`.
pub fn eviocgabs(axis: u16) -> (r: u64)
    requires
        axis < 0xc0,
    ensures
        r == 0x8000_0000 + INPUT_ABSINFO_SIZE * 0x1_0000 + 0x45 * 0x100 + 0x40 + axis,
{
    let a = axis as u64;
    let low: u64 = 0x40 + a;
    let r = 0x8000_0000u64 | (INPUT_ABSINFO_SIZE << 16u64) | (0x45u64 << 8u64) | low;
    assert(r == 0x8000_0000 + 24 * 0x1_0000 + 0x4500 + low) by (bit_vector)
        requires
            r == 0x8000_0000u64 | (24u64 << 16u64) | (0x45u64 << 8u64) | low,
            low < 0x100,
    ;
    r
}

} // verus!
