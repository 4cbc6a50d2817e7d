//! Page model of the panel: the four pages, the power-confirmation overlay,
//! the scrollable layout and the touch targets.
use vstd::prelude::*;
use crate::text::{chars_of, contains, has_prefix, has_sub, spells, spells_word, starts_with};

verus! {

pub const BG: u32 = 0x000A0E14;
pub const CARD: u32 = 0x00151B26;
pub const CARD_ALT: u32 = 0x001C2532;
pub const LINE: u32 = 0x002A3441;
pub const TEXT: u32 = 0x00E6EDF3;
pub const DIM: u32 = 0x007D8896;
pub const GREEN: u32 = 0x003FB950;
pub const YELLOW: u32 = 0x00E3B341;
pub const ORANGE: u32 = 0x00F0883E;
pub const RED: u32 = 0x00F85149;
pub const BLUE: u32 = 0x0058A6FF;
pub const PURPLE: u32 = 0x00BC8CFF;
pub const CYAN: u32 = 0x0039D2C0;

pub const PAGE_PADDING_X: i32 = 14;
pub const PAGE_WIDTH: i32 = 348;
pub const HEADER_Y: i32 = 16;
pub const GAUGES_Y: i32 = 92;
pub const GAUGE_HEIGHT: i32 = 204;
pub const NETWORK_Y: i32 = 310;
pub const NETWORK_HEIGHT: i32 = 174;
pub const NETWORK_SPEED_Y: i32 = 59;
pub const NETWORK_SPEED_HEIGHT: i32 = 46;
pub const NETWORK_DIVIDER_Y: i32 = 115;
pub const NETWORK_IP_Y: i32 = 124;
pub const NETWORK_IP_HEIGHT: i32 = 34;
pub const STORAGE_Y: i32 = 498;
pub const DISK_ROW_WITH_USAGE: i32 = 182;
pub const DISK_ROW_WITHOUT_USAGE: i32 = 130;

pub const SERVICES_Y: i32 = 92;
pub const BLOCK_BASE_HEIGHT: i32 = 80;
pub const SERVICE_ROW_HEIGHT: i32 = 64;
pub const DOCKER_ROW_HEIGHT: i32 = 93;
pub const VM_ROW_HEIGHT: i32 = 93;
pub const POWER_BLOCK_HEIGHT: i32 = 294;
pub const BLOCK_GAP: i32 = 14;
/// Empty space kept below the last block of a page.
pub const PAGE_BOTTOM_MARGIN: i32 = 70;
/// Height of the storage block without any disk row.
pub const STORAGE_BASE_HEIGHT: i32 = 80;

pub const MODAL_BUTTON_Y: i32 = 498;

#[derive(Debug, Clone, Copy, PartialEq, Eq, Structural)]
pub enum Page {
    Overview,
    Services,
    Vms,
    Power,
}

pub open spec fn page_at(i: int) -> Page {
    if i == 0 {
        Page::Overview
    } else if i == 1 {
        Page::Services
    } else if i == 2 {
        Page::Vms
    } else {
        Page::Power
    }
}

pub open spec fn page_index(p: Page) -> int {
    match p {
        Page::Overview => 0,
        Page::Services => 1,
        Page::Vms => 2,
        Page::Power => 3,
    }
}

impl Page {
    /// The page `delta` pages further on, wrapping around the four pages in
    /// both directions.
    pub fn shifted(self, delta: i32) -> (r: Self)
        requires
            page_index(self) + delta <= i32::MAX,
        ensures
            r == page_at((page_index(self) + delta) % 4),
    {
        if delta == 0 {
            assert(page_at(page_index(self) % 4) == self);
            self
        } else {
            let position = self.index() as i32 + delta;
            let wrapped = position % 4;
            let wrapped = if wrapped < 0 {
                wrapped + 4
            } else {
                wrapped
            };
            assert(wrapped == (page_index(self) + delta) % 4);
            if wrapped == 0 {
                Page::Overview
            } else if wrapped == 1 {
                Page::Services
            } else if wrapped == 2 {
                Page::Vms
            } else {
                Page::Power
            }
        }
    }

    /// Position of the page among the four, which indexes per-page state.
    pub fn index(self) -> (r: usize)
        ensures
            r == page_index(self),
            r < 4,
            page_at(r as int) == self,
    {
        match self {
            Page::Overview => 0,
            Page::Services => 1,
            Page::Vms => 2,
            Page::Power => 3,
        }
    }
}

/// Pages wrap around in both directions: shifting by `delta` and then by
/// `-delta` comes back to the same page, and four pages on is the same page.
pub proof fn lemma_pages_wrap(p: Page, delta: int)
    ensures
        0 <= (page_index(p) + delta) % 4 < 4,
        page_at((page_index(page_at((page_index(p) + delta) % 4)) - delta) % 4) == p,
        page_at((page_index(p) + 4) % 4) == p,
        page_at(page_index(p)) == p,
{
    let q = (page_index(p) + delta) % 4;
    assert(page_index(page_at(q)) == q);
    assert(((page_index(p) + delta) % 4 - delta) % 4 == page_index(p) % 4) by {
        vstd::arithmetic::div_mod::lemma_mod_sub_multiples_vanish(page_index(p) + delta - delta, 4);
        vstd::arithmetic::div_mod::lemma_add_mod_noop(page_index(p) + delta, -delta, 4);
        vstd::arithmetic::div_mod::lemma_mod_twice(page_index(p) + delta, 4);
    }
}

#[derive(Debug, Clone, Copy, PartialEq, Eq, Structural)]
pub enum PowerAction {
    Reboot,
    Shutdown,
}

#[derive(Debug, Clone, Copy, PartialEq, Eq, Structural)]
pub enum Overlay {
    /// No overlay is shown.
    Hidden,
    Confirm(PowerAction),
    Executing(PowerAction),
}

#[derive(Debug, Clone, Copy, PartialEq, Eq, Structural)]
pub enum HitTarget {
    Reboot,
    Shutdown,
    Cancel,
    Confirm(PowerAction),
}

// ── Layout ─────────────────────────────────────────────────

/// What the page layout depends on: for each disk whether it shows a
/// capacity bar (it has mounted filesystems), and the number of services,
/// containers and virtual machines.
#[derive(Debug, Clone)]
pub struct PageContent {
    pub disk_has_usage: Vec<bool>,
    pub services: usize,
    pub docker: usize,
    pub vms: usize,
}

/// The largest list length the layout handles within `i32` pixel offsets.
pub const MAX_ROWS: usize = 5_000_000;

impl PageContent {
    /// Content with no disk, service, container or virtual machine.
    pub fn empty() -> (c: Self)
        ensures
            c.disk_has_usage@.len() == 0,
            c.services == 0 && c.docker == 0 && c.vms == 0,
    {
        PageContent { disk_has_usage: Vec::new(), services: 0, docker: 0, vms: 0 }
    }

    pub open spec fn fits(self) -> bool {
        &&& self.disk_has_usage@.len() <= MAX_ROWS
        &&& self.services <= MAX_ROWS
        &&& self.docker <= MAX_ROWS
        &&& self.vms <= MAX_ROWS
    }
}

impl Default for PageContent {
    fn default() -> (c: Self)
        ensures
            c.disk_has_usage@.len() == 0,
            c.services == 0 && c.docker == 0 && c.vms == 0,
    {
        PageContent::empty()
    }
}

pub open spec fn row_height(with_usage: bool) -> int {
    if with_usage {
        DISK_ROW_WITH_USAGE as int
    } else {
        DISK_ROW_WITHOUT_USAGE as int
    }
}

pub open spec fn rows_height(rows: Seq<bool>) -> int
    decreases rows.len(),
{
    if rows.len() == 0 {
        0
    } else {
        rows_height(rows.drop_last()) + row_height(rows.last())
    }
}

pub open spec fn storage_h(c: PageContent) -> int {
    STORAGE_BASE_HEIGHT + rows_height(c.disk_has_usage@)
}

/// A block of `n` rows; an empty block keeps the height of one row for its
/// placeholder text.
pub open spec fn block_h(n: int, row: int) -> int {
    BLOCK_BASE_HEIGHT + (if n > 1 {
        n
    } else {
        1
    }) * row
}

pub open spec fn docker_y(c: PageContent) -> int {
    SERVICES_Y + block_h(c.services as int, SERVICE_ROW_HEIGHT as int) + BLOCK_GAP
}

/// Height of the whole scrollable content of a page.
pub open spec fn content_h(c: PageContent, page: Page) -> int {
    match page {
        Page::Overview => STORAGE_Y + storage_h(c) + PAGE_BOTTOM_MARGIN,
        Page::Services => docker_y(c) + block_h(c.docker as int, DOCKER_ROW_HEIGHT as int)
            + PAGE_BOTTOM_MARGIN,
        Page::Vms => SERVICES_Y + block_h(c.vms as int, VM_ROW_HEIGHT as int) + PAGE_BOTTOM_MARGIN,
        Page::Power => SERVICES_Y + POWER_BLOCK_HEIGHT + PAGE_BOTTOM_MARGIN,
    }
}

/// How far a page scrolls in a viewport of height `h`.
pub open spec fn max_scroll_of(c: PageContent, page: Page, h: int) -> int {
    if content_h(c, page) - h > 0 {
        content_h(c, page) - h
    } else {
        0
    }
}

pub proof fn lemma_rows_height_bounds(rows: Seq<bool>)
    ensures
        DISK_ROW_WITHOUT_USAGE * rows.len() <= rows_height(rows) <= DISK_ROW_WITH_USAGE * rows.len(),
    decreases rows.len(),
{
    if rows.len() > 0 {
        lemma_rows_height_bounds(rows.drop_last());
    }
}

/// Height of a disk row.
pub fn disk_row_height(with_usage: bool) -> (r: i32)
    ensures
        r == row_height(with_usage),
{
    if with_usage {
        DISK_ROW_WITH_USAGE
    } else {
        DISK_ROW_WITHOUT_USAGE
    }
}

/// Height of the storage card: its header and one row per disk.
pub fn storage_height(content: &PageContent) -> (r: i32)
    requires
        content.fits(),
    ensures
        r == storage_h(*content),
{
    let rows = &content.disk_has_usage;
    let mut total: i32 = STORAGE_BASE_HEIGHT;
    let mut i: usize = 0;
    while i < rows.len()
        invariant
            rows == &content.disk_has_usage,
            rows.len() <= MAX_ROWS,
            i <= rows.len(),
            total == STORAGE_BASE_HEIGHT + rows_height(rows@.take(i as int)),
        decreases rows.len() - i,
    {
        proof {
            lemma_rows_height_bounds(rows@.take(i as int));
            assert(rows@.take(i + 1).drop_last() =~= rows@.take(i as int));
        }
        total = total + disk_row_height(rows[i]);
        i = i + 1;
    }
    assert(rows@.take(i as int) =~= rows@);
    total
}

/// Height of a block of `n` rows `row` pixels high; an empty block keeps
/// one row for its placeholder.
pub fn block_height(n: usize, row: i32) -> (r: i32)
    requires
        n <= MAX_ROWS,
        0 < row <= 100,
    ensures
        r == block_h(n as int, row as int),
{
    let count: i32 = if n > 1 {
        n as i32
    } else {
        1
    };
    assert(count * row <= 500_000_000) by (nonlinear_arith)
        requires
            1 <= count <= 5_000_000,
            0 < row <= 100,
    ;
    BLOCK_BASE_HEIGHT + count * row
}

/// Top of the services block and of the Docker block of the services page.
pub fn service_layout(content: &PageContent) -> (r: (i32, i32))
    requires
        content.fits(),
    ensures
        r == (SERVICES_Y, docker_y(*content) as i32),
{
    (SERVICES_Y, SERVICES_Y + block_height(content.services, SERVICE_ROW_HEIGHT) + BLOCK_GAP)
}

/// Height of the virtual-machine block.
pub fn vms_block_height(content: &PageContent) -> (r: i32)
    requires
        content.fits(),
    ensures
        r == block_h(content.vms as int, VM_ROW_HEIGHT as int),
{
    block_height(content.vms, VM_ROW_HEIGHT)
}

/// Height of the scrollable content of a page.
pub fn content_height(content: &PageContent, page: Page) -> (r: i32)
    requires
        content.fits(),
    ensures
        r == content_h(*content, page),
        0 <= r <= 1_000_000_000,
{
    proof {
        lemma_rows_height_bounds(content.disk_has_usage@);
    }
    match page {
        Page::Overview => STORAGE_Y + storage_height(content) + PAGE_BOTTOM_MARGIN,
        Page::Services => service_layout(content).1 + block_height(content.docker, DOCKER_ROW_HEIGHT)
            + PAGE_BOTTOM_MARGIN,
        Page::Vms => SERVICES_Y + vms_block_height(content) + PAGE_BOTTOM_MARGIN,
        Page::Power => SERVICES_Y + POWER_BLOCK_HEIGHT + PAGE_BOTTOM_MARGIN,
    }
}

/// How far `page` scrolls in a viewport `viewport_height` pixels high.
pub fn max_scroll(content: &PageContent, page: Page, viewport_height: u32) -> (r: i32)
    requires
        content.fits(),
        viewport_height <= i32::MAX,
    ensures
        r == max_scroll_of(*content, page, viewport_height as int),
        r >= 0,
{
    let overflow = content_height(content, page) - viewport_height as i32;
    if overflow > 0 {
        overflow
    } else {
        0
    }
}

/// Whether rows `y..y + height` overlap a viewport `viewport_height` high.
pub fn visible(viewport_height: u32, y: i32, height: i32) -> (r: bool)
    requires
        viewport_height <= i32::MAX,
    ensures
        r == (y < viewport_height && crate::arith::sat32(y + height) > 0),
{
    y < viewport_height as i32 && crate::arith::saturating_add_i32(y, height) > 0
}

// ── Touch targets ──────────────────────────────────────────

pub open spec fn in_rect(x: int, y: int, left: int, top: int, width: int, height: int) -> bool {
    x >= left && x < left + width && y >= top && y < top + height
}

/// Whether `(x, y)` lies in the rectangle at `(left, top)` of the given size.
pub fn inside(x: i32, y: i32, left: i32, top: i32, width: i32, height: i32) -> (r: bool)
    ensures
        r == in_rect(x as int, y as int, left as int, top as int, width as int, height as int),
{
    let (x, y, left, top) = (x as i64, y as i64, left as i64, top as i64);
    x >= left && x < left + width as i64 && y >= top && y < top + height as i64
}

/// Cancel button of the confirmation dialog.
pub open spec fn on_cancel(x: int, y: int) -> bool {
    in_rect(x, y, 46, MODAL_BUTTON_Y as int, 136, 84)
}

/// Confirm button of the confirmation dialog.
pub open spec fn on_confirm(x: int, y: int) -> bool {
    in_rect(x, y, 195, MODAL_BUTTON_Y as int, 135, 84)
}

/// What a tap at `(x, y)` hits: only the two dialog buttons while a
/// confirmation is open, only the two power buttons on the power page, and
/// nothing otherwise.
pub open spec fn hit_of(page: Page, scroll_y: int, overlay: Overlay, x: int, y: int) -> Option<HitTarget> {
    match overlay {
        Overlay::Confirm(action) => if on_cancel(x, y) {
            Some(HitTarget::Cancel)
        } else if on_confirm(x, y) {
            Some(HitTarget::Confirm(action))
        } else {
            None
        },
        Overlay::Executing(_) => None,
        Overlay::Hidden => if page != Page::Power {
            None
        } else {
            let power_y = SERVICES_Y - scroll_y;
            if in_rect(x, y, 30, power_y + 59, 316, 96) {
                Some(HitTarget::Reboot)
            } else if in_rect(x, y, 30, power_y + 167, 316, 96) {
                Some(HitTarget::Shutdown)
            } else {
                None
            }
        },
    }
}

/// While a confirmation is open only its two buttons can be hit, the
/// confirm button carrying the action being confirmed; while a power action
/// executes nothing can be hit.
pub proof fn lemma_modal_targets(page: Page, scroll_y: int, action: PowerAction, x: int, y: int)
    ensures
        match hit_of(page, scroll_y, Overlay::Confirm(action), x, y) {
            Some(t) => t == HitTarget::Cancel || t == HitTarget::Confirm(action),
            None => true,
        },
        hit_of(page, scroll_y, Overlay::Executing(action), x, y) is None,
{
}

/// The power buttons exist only on the power page: with no overlay, a tap
/// on any other page hits nothing, wherever it lands and however the page
/// is scrolled.
pub proof fn lemma_buttons_only_on_power_page(page: Page, scroll_y: int, x: int, y: int)
    requires
        page != Page::Power,
    ensures
        hit_of(page, scroll_y, Overlay::Hidden, x, y) is None,
{
}

/// The touch target under a tap.
pub fn hit_test(
    _content: &PageContent,
    page: Page,
    scroll_y: i32,
    overlay: Overlay,
    x: i32,
    y: i32,
) -> (r: Option<HitTarget>)
    ensures
        r == hit_of(page, scroll_y as int, overlay, x as int, y as int),
        overlay == Overlay::Hidden && page != Page::Power ==> r is None,
{
    match overlay {
        Overlay::Confirm(action) => {
            if inside(x, y, 46, MODAL_BUTTON_Y, 136, 84) {
                return Some(HitTarget::Cancel);
            }
            if inside(x, y, 195, MODAL_BUTTON_Y, 135, 84) {
                return Some(HitTarget::Confirm(action));
            }
            return None;
        },
        Overlay::Executing(_) => {
            return None;
        },
        Overlay::Hidden => {},
    }
    if page != Page::Power {
        return None;
    }
    let power_y = SERVICES_Y as i64 - scroll_y as i64;
    let (x, y) = (x as i64, y as i64);
    if x >= 30 && x < 30 + 316 && y >= power_y + 59 && y < power_y + 59 + 96 {
        Some(HitTarget::Reboot)
    } else if x >= 30 && x < 30 + 316 && y >= power_y + 167 && y < power_y + 167 + 96 {
        Some(HitTarget::Shutdown)
    } else {
        None
    }
}

// ── Network choice ─────────────────────────────────────────

/// What the panel knows of a network interface when it picks the one to show.
#[derive(Debug, Clone)]
pub struct NetworkLink {
    pub name: String,
    pub is_up: bool,
    pub rx_bytes: i64,
    pub tx_bytes: i64,
    pub ipv4: Vec<String>,
}

/// An interface is shown when it is up, has an IPv4 address and is not a
/// loopback, a VM tap (`vnet*`) or an Open vSwitch port.
pub open spec fn shown(n: NetworkLink) -> bool {
    &&& n.is_up
    &&& n.ipv4@.len() > 0
    &&& !has_prefix(n.name@, "lo"@)
    &&& !has_prefix(n.name@, "vnet"@)
    &&& !has_sub(n.name@, "ovs"@)
}

pub open spec fn traffic(n: NetworkLink) -> int {
    n.rx_bytes + n.tx_bytes
}

/// `i` is the shown interface with the most traffic, the last one among equals.
pub open spec fn is_pick(nets: Seq<NetworkLink>, i: int) -> bool {
    &&& 0 <= i < nets.len()
    &&& shown(nets[i])
    &&& forall|j: int| 0 <= j < nets.len() && shown(#[trigger] nets[j]) ==> traffic(nets[j]) <= traffic(nets[i])
    &&& forall|j: int| i < j < nets.len() && shown(#[trigger] nets[j]) ==> traffic(nets[j]) < traffic(nets[i])
}

/// The chosen interface is the busiest shown one: no shown interface has
/// received and transmitted more bytes together, and every later shown one
/// has strictly fewer.
pub proof fn lemma_pick_is_busiest(nets: Seq<NetworkLink>, i: int)
    requires
        is_pick(nets, i),
    ensures
        forall|j: int|
            0 <= j < nets.len() && shown(#[trigger] nets[j]) ==> nets[j].rx_bytes + nets[j].tx_bytes
                <= nets[i].rx_bytes + nets[i].tx_bytes,
        forall|j: int|
            i < j < nets.len() && shown(#[trigger] nets[j]) ==> nets[j].rx_bytes + nets[j].tx_bytes
                < nets[i].rx_bytes + nets[i].tx_bytes,
{
}

fn is_shown(n: &NetworkLink) -> (r: bool)
    ensures
        r == shown(*n),
{
    if !n.is_up || n.ipv4.len() == 0 {
        return false;
    }
    let name = chars_of(n.name.as_str());
    !starts_with(&name, "lo") && !starts_with(&name, "vnet") && !contains(&name, "ovs")
}

/// The interface the network card shows; traffic is summed without overflow.
pub fn pick_net(networks: &Vec<NetworkLink>) -> (r: Option<usize>)
    ensures
        match r {
            Some(i) => is_pick(networks@, i as int) && forall|j: int|
                0 <= j < networks@.len() && shown(#[trigger] networks@[j]) ==> networks@[j].rx_bytes
                    + networks@[j].tx_bytes <= networks@[i as int].rx_bytes + networks@[i as int].tx_bytes,
            None => forall|j: int| 0 <= j < networks@.len() ==> !shown(#[trigger] networks@[j]),
        },
{
    let mut best: Option<usize> = None;
    let mut best_traffic: i128 = 0;
    let mut i: usize = 0;
    while i < networks.len()
        invariant
            i <= networks.len(),
            match best {
                Some(b) => b < i && shown(networks@[b as int]) && best_traffic == traffic(networks@[b as int])
                    && (forall|j: int| 0 <= j < i && shown(#[trigger] networks@[j]) ==> traffic(networks@[j]) <= best_traffic)
                    && (forall|j: int| b < j < i && shown(#[trigger] networks@[j]) ==> traffic(networks@[j]) < best_traffic),
                None => forall|j: int| 0 <= j < i ==> !shown(#[trigger] networks@[j]),
            },
        decreases networks.len() - i,
    {
        let n = &networks[i];
        if is_shown(n) {
            let t = n.rx_bytes as i128 + n.tx_bytes as i128;
            match best {
                Some(_) => {
                    if t >= best_traffic {
                        best = Some(i);
                        best_traffic = t;
                    }
                },
                None => {
                    best = Some(i);
                    best_traffic = t;
                },
            }
        }
        i = i + 1;
    }
    best
}

// ── Labels and badges ──────────────────────────────────────

/// The kind badge of a disk row: label, background and text colour.
pub open spec fn disk_badge_of(disk_type: Seq<char>, role: Seq<char>) -> (Seq<char>, u32, u32) {
    if disk_type == "emmc"@ {
        ("eMMC"@, 0x001A2A3A, BLUE)
    } else if role == "ssd"@ || disk_type == "nvme"@ || disk_type == "ssd"@ {
        ("SSD"@, 0x001A3A2A, GREEN)
    } else if role == "hdd"@ {
        ("HDD"@, 0x003A2A1A, ORANGE)
    } else {
        ("DISK"@, 0x001A3A2A, GREEN)
    }
}

/// The kind badge of a disk of kind `disk_type` and role `role`.
pub fn disk_badge(disk_type: &str, role: &str) -> (r: (&'static str, u32, u32))
    ensures
        (r.0@, r.1, r.2) == disk_badge_of(disk_type@, role@),
{
    let kind = chars_of(disk_type);
    let role = chars_of(role);
    if crate::text::equals(&kind, "emmc") {
        ("eMMC", 0x001A2A3A, BLUE)
    } else if crate::text::equals(&role, "ssd") || crate::text::equals(&kind, "nvme")
        || crate::text::equals(&kind, "ssd") {
        ("SSD", 0x001A3A2A, GREEN)
    } else if crate::text::equals(&role, "hdd") {
        ("HDD", 0x003A2A1A, ORANGE)
    } else {
        ("DISK", 0x001A3A2A, GREEN)
    }
}

/// The health badge of a disk: `PASSED` (in any ASCII case) is normal,
/// `WARNING` asks for attention, anything else is an alarm.
pub open spec fn health_badge_of(health: Seq<char>) -> (Seq<char>, u32, u32) {
    if spells(health, "passed"@) {
        ("正常"@, 0x0014331C, GREEN)
    } else if spells(health, "warning"@) {
        ("注意"@, 0x003A3417, YELLOW)
    } else {
        ("告警"@, 0x003A1717, RED)
    }
}

/// The health badge of a disk with health verdict `health`.
pub fn health_badge(health: &str) -> (r: (&'static str, u32, u32))
    ensures
        (r.0@, r.1, r.2) == health_badge_of(health@),
{
    let h = chars_of(health);
    if spells_word(&h, 0, "passed") {
        assert(h@.skip(0) =~= h@);
        ("正常", 0x0014331C, GREEN)
    } else if spells_word(&h, 0, "warning") {
        assert(h@.skip(0) =~= h@);
        ("注意", 0x003A3417, YELLOW)
    } else {
        assert(h@.skip(0) =~= h@);
        ("告警", 0x003A1717, RED)
    }
}

/// A container or virtual machine runs when its state reads `running` in
/// any ASCII case.
pub fn is_running(state: &str) -> (r: bool)
    ensures
        r == spells(state@, "running"@),
{
    let s = chars_of(state);
    assert(s@.skip(0) =~= s@);
    spells_word(&s, 0, "running")
}

/// The title of a disk row: its model, or its device name when the model
/// is blank.
pub fn disk_title<'a>(model: &'a str, name: &'a str) -> (r: &'a str)
    ensures
        r@ == if crate::text::trimmed(model@).len() == 0 {
            name@
        } else {
            model@
        },
{
    if crate::text::trim(&chars_of(model)).len() == 0 {
        name
    } else {
        model
    }
}

/// The two lines of the power dialog; none without a dialog.
pub open spec fn overlay_lines_of(overlay: Overlay) -> Option<(Seq<char>, Seq<char>)> {
    match overlay {
        Overlay::Confirm(PowerAction::Reboot) => Some(("确定重启 NAS?"@, "服务将暂时中断。"@)),
        Overlay::Confirm(PowerAction::Shutdown) => Some(("确定关闭 NAS?"@, "需手动开机恢复。"@)),
        Overlay::Executing(PowerAction::Reboot) => Some(("重启中..."@, ""@)),
        Overlay::Executing(PowerAction::Shutdown) => Some(("关机中..."@, ""@)),
        Overlay::Hidden => None,
    }
}

/// The text of the power dialog.
pub fn overlay_lines(overlay: Overlay) -> (r: Option<(&'static str, &'static str)>)
    ensures
        match r {
            Some(l) => overlay_lines_of(overlay) == Some((l.0@, l.1@)),
            None => overlay_lines_of(overlay) is None,
        },
{
    match overlay {
        Overlay::Confirm(PowerAction::Reboot) => Some(("确定重启 NAS?", "服务将暂时中断。")),
        Overlay::Confirm(PowerAction::Shutdown) => Some(("确定关闭 NAS?", "需手动开机恢复。")),
        Overlay::Executing(PowerAction::Reboot) => Some(("重启中...", "")),
        Overlay::Executing(PowerAction::Shutdown) => Some(("关机中...", "")),
        Overlay::Hidden => None,
    }
}

/// The page indicator dot of page `index`: its left edge and width, wide
/// for the current page.
pub fn page_dot(index: usize, page: Page) -> (r: (i32, u32, bool))
    requires
        index < 4,
    ensures
        r.2 == (index == page_index(page)),
        r.0 == 146 + index * 18,
        r.1 == (if r.2 {
            30u32
        } else {
            12u32
        }),
{
    let active = index == page.index();
    (146 + index as i32 * 18, if active {
        30
    } else {
        12
    }, active)
}

// ── Fitting text ───────────────────────────────────────────

/// How many leading characters of a text too wide for `maximum` are kept
/// before an ellipsis: `prefix_widths[j]` is the width of the first `j + 1`
/// characters; characters are taken while the prefix and the ellipsis fit.
/// No cut when the whole text fits.
pub fn fit_length(full_width: u32, prefix_widths: &Vec<u32>, suffix_width: u32, maximum: u32) -> (r: Option<usize>)
    requires
        forall|j: int| 0 <= j < prefix_widths@.len() ==> prefix_widths@[j] + suffix_width <= u32::MAX,
    ensures
        match r {
            None => full_width <= maximum,
            Some(k) => {
                &&& full_width > maximum
                &&& k <= prefix_widths@.len()
                &&& forall|j: int| 0 <= j < k ==> prefix_widths@[j] + suffix_width <= maximum
                &&& k < prefix_widths@.len() ==> prefix_widths@[k as int] + suffix_width > maximum
            },
        },
{
    if full_width <= maximum {
        return None;
    }
    let mut k: usize = 0;
    while k < prefix_widths.len() && prefix_widths[k] + suffix_width <= maximum
        invariant
            k <= prefix_widths@.len(),
            forall|j: int| 0 <= j < prefix_widths@.len() ==> prefix_widths@[j] + suffix_width <= u32::MAX,
            forall|j: int| 0 <= j < k ==> prefix_widths@[j] + suffix_width <= maximum,
        decreases prefix_widths.len() - k,
    {
        k = k + 1;
    }
    Some(k)
}

} // verus!
