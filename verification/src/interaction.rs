//! Scroll state and the decisions of the panel's event loop.
use vstd::prelude::*;
use crate::arith::{clamp, clamp_i32, sat32, saturating_add_i32};
use crate::view::{max_scroll, max_scroll_of, page_at, page_index, HitTarget, Overlay, Page, PageContent, PowerAction};

verus! {

/// Scrolls the current page by `delta`, kept within `0..=max_scroll`;
/// returns whether the offset changed.
pub fn apply_scroll(
    scroll: &mut [i32; 4],
    content: &PageContent,
    page: Page,
    viewport_height: u32,
    delta: i32,
) -> (changed: bool)
    requires
        content.fits(),
        viewport_height <= i32::MAX,
    ensures
        final(scroll)@ == old(scroll)@.update(
            page_index(page),
            clamp(
                sat32(old(scroll)@[page_index(page)] + delta),
                0,
                max_scroll_of(*content, page, viewport_height as int),
            ) as i32,
        ),
        changed == (final(scroll)@[page_index(page)] != old(scroll)@[page_index(page)]),
{
    let index = page.index();
    let maximum = max_scroll(content, page, viewport_height);
    let previous = scroll[index];
    scroll[index] = clamp_i32(saturating_add_i32(previous, delta), 0, maximum);
    scroll[index] != previous
}

/// Keeps every page's scroll offset within the page after its content
/// changed.
pub fn clamp_scrolls(scroll: &mut [i32; 4], content: &PageContent, viewport_height: u32)
    requires
        content.fits(),
        viewport_height <= i32::MAX,
    ensures
        forall|i: int|
            0 <= i < 4 ==> #[trigger] final(scroll)@[i] == (if old(scroll)@[i] < max_scroll_of(
                *content,
                page_at(i),
                viewport_height as int,
            ) {
                old(scroll)@[i] as int
            } else {
                max_scroll_of(*content, page_at(i), viewport_height as int)
            }),
{
    let ghost before = scroll@;
    let pages: [Page; 4] = [Page::Overview, Page::Services, Page::Vms, Page::Power];
    let mut i: usize = 0;
    while i < 4
        invariant
            content.fits(),
            viewport_height <= i32::MAX,
            i <= 4,
            pages@ == seq![Page::Overview, Page::Services, Page::Vms, Page::Power],
            forall|j: int| i <= j < 4 ==> scroll@[j] == before[j],
            forall|j: int|
                0 <= j < i ==> #[trigger] scroll@[j] == (if before[j] < max_scroll_of(
                    *content,
                    page_at(j),
                    viewport_height as int,
                ) {
                    before[j] as int
                } else {
                    max_scroll_of(*content, page_at(j), viewport_height as int)
                }),
        decreases 4 - i,
    {
        let maximum = max_scroll(content, pages[i], viewport_height);
        assert(pages@[i as int] == page_at(i as int));
        if scroll[i] > maximum {
            scroll[i] = maximum;
        }
        i = i + 1;
    }
}

/// What a tap on a target does: the power buttons open their confirmation,
/// cancel closes it, and confirm starts the action, which the loop then runs.
pub open spec fn tap_result(target: HitTarget) -> (Overlay, Option<PowerAction>) {
    match target {
        HitTarget::Reboot => (Overlay::Confirm(PowerAction::Reboot), None),
        HitTarget::Shutdown => (Overlay::Confirm(PowerAction::Shutdown), None),
        HitTarget::Cancel => (Overlay::Hidden, None),
        HitTarget::Confirm(action) => (Overlay::Executing(action), Some(action)),
    }
}

/// The overlay after a tap on `target`, and the power action to run.
pub fn tap_outcome(target: HitTarget) -> (r: (Overlay, Option<PowerAction>))
    ensures
        r == tap_result(target),
{
    match target {
        HitTarget::Reboot => (Overlay::Confirm(PowerAction::Reboot), None),
        HitTarget::Shutdown => (Overlay::Confirm(PowerAction::Shutdown), None),
        HitTarget::Cancel => (Overlay::Hidden, None),
        HitTarget::Confirm(action) => (Overlay::Executing(action), Some(action)),
    }
}

/// Where a released swipe animates to: back to rest when it does not change
/// page, else one viewport width off in the direction of the drag.
pub fn swipe_target_x(page_delta: i32, swipe_x: i32, width: u32) -> (r: i32)
    requires
        width <= i32::MAX,
    ensures
        r == if page_delta == 0 {
            0
        } else if swipe_x < 0 {
            -(width as int)
        } else {
            width as int
        },
{
    if page_delta == 0 {
        0
    } else if swipe_x < 0 {
        -(width as i32)
    } else {
        width as i32
    }
}

/// The page a screenshot shows, named by `services`, `vms` or `power`;
/// anything else is the overview.
pub fn page_for_name(name: Option<&str>) -> (r: Page)
    ensures
        r == match name {
            Some(n) => if n@ == "services"@ {
                Page::Services
            } else if n@ == "vms"@ {
                Page::Vms
            } else if n@ == "power"@ {
                Page::Power
            } else {
                Page::Overview
            },
            None => Page::Overview,
        },
{
    match name {
        Some(n) => {
            let n = crate::text::chars_of(n);
            if crate::text::equals(&n, "services") {
                Page::Services
            } else if crate::text::equals(&n, "vms") {
                Page::Vms
            } else if crate::text::equals(&n, "power") {
                Page::Power
            } else {
                Page::Overview
            }
        },
        None => Page::Overview,
    }
}

/// The overlay a screenshot shows, named by `reboot` or `shutdown`.
pub fn overlay_for_name(name: Option<&str>) -> (r: Overlay)
    ensures
        r == match name {
            Some(n) => if n@ == "reboot"@ {
                Overlay::Confirm(PowerAction::Reboot)
            } else if n@ == "shutdown"@ {
                Overlay::Confirm(PowerAction::Shutdown)
            } else {
                Overlay::Hidden
            },
            None => Overlay::Hidden,
        },
{
    match name {
        Some(n) => {
            let n = crate::text::chars_of(n);
            if crate::text::equals(&n, "reboot") {
                Overlay::Confirm(PowerAction::Reboot)
            } else if crate::text::equals(&n, "shutdown") {
                Overlay::Confirm(PowerAction::Shutdown)
            } else {
                Overlay::Hidden
            }
        },
        None => Overlay::Hidden,
    }
}

/// The `systemctl` verb of a power action.
pub fn power_command(action: PowerAction) -> (r: &'static str)
    ensures
        r@ == match action {
            PowerAction::Reboot => "reboot"@,
            PowerAction::Shutdown => "poweroff"@,
        },
{
    match action {
        PowerAction::Reboot => "reboot",
        PowerAction::Shutdown => "poweroff",
    }
}

/// The longest span a `Duration` holds, in nanoseconds.
pub const MAX_DURATION_NANOS: u128 = 18_446_744_073_709_551_615_999_999_999;

/// Counts one rendered frame of `elapsed` nanoseconds into the running
/// frame count, total and maximum.
pub fn record_render(elapsed: u128, frames: &mut u32, total: &mut u128, maximum: &mut u128)
    requires
        *old(frames) < u32::MAX,
        *old(total) + elapsed <= MAX_DURATION_NANOS,
    ensures
        *final(frames) == *old(frames) + 1,
        *final(total) == *old(total) + elapsed,
        *final(maximum) == if elapsed > *old(maximum) {
            elapsed
        } else {
            *old(maximum)
        },
{
    *frames = *frames + 1;
    *total = *total + elapsed;
    if elapsed > *maximum {
        *maximum = elapsed;
    }
}

/// What the idle part of the event loop repaints.
#[derive(Debug, Clone, Copy, PartialEq, Eq, Structural)]
pub enum Redraw {
    Nothing,
    /// The whole page, overlay included.
    Full,
    /// Only the cards whose values change with the fast samples.
    Dynamic,
}

/// The repaint once new samples arrived: nothing while a finger, a fling or
/// a page animation is active; a pending full redraw first; a pending
/// partial redraw only without a dialog, whose dimming it would break.
pub fn redraw_plan(busy: bool, full_pending: bool, dynamic_pending: bool, overlay: Overlay) -> (r: Redraw)
    ensures
        r == if busy {
            Redraw::Nothing
        } else if full_pending {
            Redraw::Full
        } else if dynamic_pending && overlay == Overlay::Hidden {
            Redraw::Dynamic
        } else {
            Redraw::Nothing
        },
{
    if busy {
        Redraw::Nothing
    } else if full_pending {
        Redraw::Full
    } else if dynamic_pending && overlay == Overlay::Hidden {
        Redraw::Dynamic
    } else {
        Redraw::Nothing
    }
}

/// Length of one pass of the event loop in milliseconds: close to the
/// panel's 56 Hz refresh while something moves, shorter when idle so a
/// touch is picked up quickly.
pub fn loop_period_ms(busy: bool) -> (r: u64)
    ensures
        r == if busy {
            18u64
        } else {
            8u64
        },
{
    if busy {
        18
    } else {
        8
    }
}

/// The two pages of a horizontal drag of `drag_x` pixels over a viewport
/// `width` pixels wide: the drag kept within one width, the neighbour that
/// slides in (the next page when dragging left, the previous one when
/// dragging right) and where that neighbour's left edge lies. No neighbour
/// shows while the drag is at rest.
pub fn swipe_pages(page: Page, drag_x: i32, width: i32) -> (r: Option<(i32, Page, i32)>)
    requires
        width >= 0,
    ensures
        ({
            let d = clamp(drag_x as int, -(width as int), width as int);
            match r {
                None => d == 0,
                Some((drag, next, next_x)) => {
                    &&& d != 0
                    &&& drag == d
                    &&& next == page_at((page_index(page) + if d < 0 {
                        1int
                    } else {
                        -1int
                    }) % 4)
                    &&& next_x == if d < 0 {
                        width + d
                    } else {
                        -width + d
                    }
                },
            }
        }),
{
    let drag = clamp_i32(drag_x, -width, width);
    if drag == 0 {
        return None;
    }
    let direction: i32 = if drag < 0 {
        1
    } else {
        -1
    };
    let next = page.shifted(direction);
    let next_x = if drag < 0 {
        width + drag
    } else {
        -width + drag
    };
    Some((drag, next, next_x))
}

} // verus!
