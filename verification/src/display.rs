//! Decisions of the DRM/KMS display backend: which device node to open, how
//! connectors are named, the request numbers of the DRM ioctls, which CRTC
//! drives the panel, the double-buffer flip chain, the page-flip events and
//! the schedule that keeps the DSI link alive.
use vstd::prelude::*;
use crate::metrics::owned;

verus! {

// ── Device node ────────────────────────────────────────────

/// The DRM node to open: `card1` when it exists, else `card0`.
pub fn find_drm_card(card1_exists: bool, card0_exists: bool) -> (r: Option<String>)
    ensures
        card1_exists ==> r is Some && r.unwrap()@ == "/dev/dri/card1"@,
        !card1_exists && card0_exists ==> r is Some && r.unwrap()@ == "/dev/dri/card0"@,
        !card1_exists && !card0_exists ==> r is None,
{
    if card1_exists {
        Some(owned("/dev/dri/card1"))
    } else if card0_exists {
        Some(owned("/dev/dri/card0"))
    } else {
        None
    }
}

// ── Connectors ─────────────────────────────────────────────

/// The kernel's name for a DRM connector type.
pub open spec fn connector_type(t: u32) -> Seq<char> {
    if t == 1 {
        "VGA"@
    } else if t == 2 {
        "DVI-I"@
    } else if t == 3 {
        "DVI-D"@
    } else if t == 4 {
        "DVI-A"@
    } else if t == 5 {
        "Composite"@
    } else if t == 6 {
        "SVIDEO"@
    } else if t == 7 {
        "LVDS"@
    } else if t == 10 {
        "DisplayPort"@
    } else if t == 11 {
        "HDMI-A"@
    } else if t == 12 {
        "HDMI-B"@
    } else if t == 13 {
        "TV"@
    } else if t == 14 {
        "eDP"@
    } else if t == 15 {
        "Virtual"@
    } else if t == 16 {
        "DSI"@
    } else if t == 17 {
        "DPI"@
    } else if t == 18 {
        "Writeback"@
    } else {
        "Unknown"@
    }
}

/// The name of connector type `t`.
pub fn connector_type_name(t: u32) -> (r: String)
    ensures
        r@ == connector_type(t),
{
    let name = match t {
        1 => "VGA",
        2 => "DVI-I",
        3 => "DVI-D",
        4 => "DVI-A",
        5 => "Composite",
        6 => "SVIDEO",
        7 => "LVDS",
        10 => "DisplayPort",
        11 => "HDMI-A",
        12 => "HDMI-B",
        13 => "TV",
        14 => "eDP",
        15 => "Virtual",
        16 => "DSI",
        17 => "DPI",
        18 => "Writeback",
        _ => "Unknown",
    };
    owned(name)
}

/// `DRM_MODE_CONNECTED`.
pub const CONNECTED: u32 = 1;

/// A connector can drive the panel when it is connected and reports a mode.
pub fn connector_usable(connection: u32, count_modes: u32) -> (r: bool)
    ensures
        r == (connection == CONNECTED && count_modes > 0),
{
    connection == CONNECTED && count_modes > 0
}

/// The CRTC for the chosen connector: the one its current encoder drives
/// (`0` when there is none), else the first CRTC of the card.
pub fn choose_crtc(encoder_crtc: u32, crtcs: &Vec<u32>) -> (r: Option<u32>)
    ensures
        encoder_crtc != 0 ==> r == Some(encoder_crtc),
        encoder_crtc == 0 && crtcs.len() > 0 ==> r == Some(crtcs@[0]),
        encoder_crtc == 0 && crtcs.len() == 0 ==> r is None,
{
    if encoder_crtc != 0 {
        Some(encoder_crtc)
    } else if crtcs.len() > 0 {
        Some(crtcs[0])
    } else {
        None
    }
}

// ── Request numbers ────────────────────────────────────────

/// The ioctl type letter of DRM requests, `'d'`.
pub const DRM_IOCTL_BASE: u64 = 0x64;

/// Direction bits of a read-write request.
pub const DRM_IOC_READWRITE: u64 = 0xC000_0000;

/// `DRM_IO(nr)`: a request without argument.
pub fn drm_io(nr: u8) -> (r: u64)
    ensures
        r == DRM_IOCTL_BASE * 256 + nr,
{
    DRM_IOCTL_BASE * 256 + nr as u64
}

/// `DRM_IOWR(nr, size)`: a read-write request whose argument is `size` bytes
/// (the size field holds 14 bits).
pub fn drm_iowr(nr: u8, size: u32) -> (r: u64)
    requires
        size < 0x4000,
    ensures
        r == DRM_IOC_READWRITE + size * 0x1_0000 + DRM_IOCTL_BASE * 256 + nr,
{
    DRM_IOC_READWRITE + size as u64 * 0x1_0000 + DRM_IOCTL_BASE * 256 + nr as u64
}

// ── Page flips ─────────────────────────────────────────────

/// Type of the DRM event that reports a completed page flip.
pub const EVENT_FLIP_COMPLETE: u32 = 1;

/// Size of the header of a DRM event (`type`, `length`).
pub const EVENT_HEADER_SIZE: usize = 8;

/// The little-endian `u32` at byte `at`.
pub open spec fn le_u32(b: Seq<u8>, at: int) -> int {
    b[at] + b[at + 1] * 0x100 + b[at + 2] * 0x1_0000 + b[at + 3] * 0x100_0000
}

/// The `k`-th whole 8-byte record of the buffer announces a completed flip.
pub open spec fn flip_record(b: Seq<u8>, k: int) -> bool {
    0 <= k && 8 * k + 8 <= b.len() && le_u32(b, 8 * k) == EVENT_FLIP_COMPLETE
}

/// Whether the bytes read from the DRM node, taken as consecutive 8-byte
/// event records (a trailing partial record ignored), hold a flip completion.
pub fn flip_completed(bytes: &[u8]) -> (r: bool)
    ensures
        r == exists|k: int| flip_record(bytes@, k),
{
    let mut i: usize = 0;
    let mut found = false;
    while i <= bytes.len() && bytes.len() - i >= 8
        invariant
            i % 8 == 0,
            i <= bytes.len(),
            found == exists|k: int| 0 <= k < i / 8 && #[trigger] flip_record(bytes@, k),
        decreases bytes.len() - i,
    {
        let hit = bytes[i] == 1 && bytes[i + 1] == 0 && bytes[i + 2] == 0 && bytes[i + 3] == 0;
        assert(hit == flip_record(bytes@, i as int / 8));
        if hit {
            found = true;
        }
        proof {
            if found {
                if !hit {
                    let k = choose|k: int| 0 <= k < i / 8 && #[trigger] flip_record(bytes@, k);
                    assert(0 <= k < (i + 8) / 8 && flip_record(bytes@, k));
                } else {
                    assert(flip_record(bytes@, i as int / 8));
                }
            } else {
                assert forall|k: int| 0 <= k < (i + 8) / 8 implies !#[trigger] flip_record(
                    bytes@,
                    k,
                ) by {
                    if k < i / 8 {
                    } else {
                        assert(k == i / 8);
                    }
                }
            }
        }
        i = i + 8;
    }
    proof {
        if !found {
            assert forall|k: int| !#[trigger] flip_record(bytes@, k) by {
                if 0 <= k && 8 * k + 8 <= bytes@.len() {
                    assert(k < i / 8);
                }
            }
        }
    }
    found
}

/// The two framebuffers of the display: the one on screen, the one drawn
/// into next, and whether a flip between them is still in flight.
pub struct FlipChain {
    pub front: u32,
    pub back: u32,
    pub pending: bool,
}

impl FlipChain {
    /// Two distinct buffers, `front` on screen, no flip in flight.
    pub fn new(front: u32, back: u32) -> (r: FlipChain)
        requires
            front != back,
        ensures
            r.front == front,
            r.back == back,
            !r.pending,
    {
        FlipChain { front, back, pending: false }
    }

    /// The buffer to present next; none while a flip is still in flight.
    pub fn next_flip(&self) -> (r: Option<u32>)
        ensures
            r == (if self.pending {
                None
            } else {
                Some(self.back)
            }),
    {
        if self.pending {
            None
        } else {
            Some(self.back)
        }
    }

    /// The flip of the back buffer was queued: it becomes the front buffer
    /// and the old front buffer is drawn into next.
    pub fn flip_queued(&mut self)
        requires
            !old(self).pending,
        ensures
            final(self).front == old(self).back,
            final(self).back == old(self).front,
            final(self).pending,
    {
        let front = self.front;
        self.front = self.back;
        self.back = front;
        self.pending = true;
    }

    /// The kernel reported the flip as complete.
    pub fn flip_done(&mut self)
        ensures
            final(self).front == old(self).front,
            final(self).back == old(self).back,
            !final(self).pending,
    {
        self.pending = false;
    }
}

// ── Link refresh ───────────────────────────────────────────

/// Interval of the light refresh (one SETCRTC), in milliseconds.
pub const LIGHT_INTERVAL_MS: u64 = 30_000;

/// Interval of the deep refresh (pipe off and on), in milliseconds.
pub const DEEP_INTERVAL_MS: u64 = 300_000;

/// A touch burst brings the light refresh forward, but not sooner than this
/// after the previous one, in milliseconds.
pub const KICK_MIN_MS: u64 = 10_000;

/// No deep refresh happens in the first ten minutes after start: a pipe
/// cycle shortly after boot can leave the DSI link dead.
pub const FIRST_DEEP_MS: u64 = 600_000;

/// Time from `since` to `now`, zero when `now` is earlier.
pub open spec fn elapsed(now: u64, since: u64) -> int {
    if now >= since {
        now - since
    } else {
        0
    }
}

/// The schedule of the display link refresher, over a millisecond clock.
pub struct LinkRefresh {
    pub last_refresh: u64,
    pub last_deep: u64,
}

impl LinkRefresh {
    /// Light refresh due at `now`: the interval passed, or a touch kick came
    /// at least ten seconds after the previous refresh.
    pub open spec fn light_due_at(self, now: u64, kick: bool) -> bool {
        elapsed(now, self.last_refresh) >= LIGHT_INTERVAL_MS || (kick && elapsed(
            now,
            self.last_refresh,
        ) >= KICK_MIN_MS)
    }

    /// Deep refresh due at `now`.
    pub open spec fn deep_due_at(self, now: u64) -> bool {
        elapsed(now, self.last_deep) >= DEEP_INTERVAL_MS
    }

    /// The schedule of a refresher started at `start`: the first deep
    /// refresh comes ten minutes after start.
    pub fn new(start: u64) -> (r: LinkRefresh)
        requires
            start <= u64::MAX - FIRST_DEEP_MS,
        ensures
            r.last_refresh == start,
            r.last_deep + DEEP_INTERVAL_MS == start + FIRST_DEEP_MS,
    {
        LinkRefresh { last_refresh: start, last_deep: start + (FIRST_DEEP_MS - DEEP_INTERVAL_MS) }
    }

    /// Whether a light refresh is due at `now`, given a touch kick.
    pub fn light_due(&self, now: u64, kick: bool) -> (r: bool)
        ensures
            r == self.light_due_at(now, kick),
    {
        let passed = if now >= self.last_refresh {
            now - self.last_refresh
        } else {
            0
        };
        passed >= LIGHT_INTERVAL_MS || (kick && passed >= KICK_MIN_MS)
    }

    /// Whether a deep refresh is due at `now`.
    pub fn deep_due(&self, now: u64) -> (r: bool)
        ensures
            r == self.deep_due_at(now),
    {
        let passed = if now >= self.last_deep {
            now - self.last_deep
        } else {
            0
        };
        passed >= DEEP_INTERVAL_MS
    }

    /// A light refresh finished at `at`.
    pub fn light_done(&mut self, at: u64)
        ensures
            final(self).last_refresh == at,
            final(self).last_deep == old(self).last_deep,
    {
        self.last_refresh = at;
    }

    /// A deep refresh finished at `at`; it counts as a light one too.
    pub fn deep_done(&mut self, at: u64)
        ensures
            final(self).last_refresh == at,
            final(self).last_deep == at,
    {
        self.last_deep = at;
        self.last_refresh = at;
    }
}

/// Until the first deep refresh, none is due earlier than ten minutes after
/// the start of the refresher, whatever light refreshes happened meanwhile.
pub proof fn lemma_first_deep_waits(s: LinkRefresh, start: u64, now: u64)
    requires
        s.last_deep + DEEP_INTERVAL_MS == start + FIRST_DEEP_MS,
        s.deep_due_at(now),
    ensures
        now >= start + FIRST_DEEP_MS,
{
}

/// A light refresh is never due sooner than ten seconds after the previous
/// one, kick or not.
pub proof fn lemma_light_spacing(s: LinkRefresh, now: u64, kick: bool)
    requires
        s.light_due_at(now, kick),
    ensures
        now >= s.last_refresh + KICK_MIN_MS,
{
}

} // verus!
