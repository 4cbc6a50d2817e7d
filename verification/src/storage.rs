//! Disk details for the storage card: what `smartctl -H -A` reports, and
//! which mountpoints lie on which disk according to the `lsblk` device tree.
use vstd::prelude::*;
use crate::metrics::owned;
use crate::text::{
    chars_of, contains, float_literal, has_prefix, has_sub, is_float_literal, lines, lines_of,
    remove_all, remove_char, split_char, split_pieces, starts_with, string_of, strip_suffixes,
    trim, trim_end_char, trimmed, views, words, words_of, text_lt, text_less,
    lemma_text_lt_total, lemma_text_lt_transitive,
};

verus! {

// ── SMART report ───────────────────────────────────────────

/// What std's `str::to_lowercase` returns for a text: a function of the
/// text alone, by the Unicode lowercase mapping.
pub uninterp spec fn lowercase(s: Seq<char>) -> Seq<char>;

/// `str::to_lowercase`.
#[verifier::external_body]
fn to_lowercase(s: &str) -> (r: String)
    ensures
        r@ == lowercase(s@),
{
    s.to_lowercase()
}

/// The values the storage card takes from a SMART report. Numbers are kept
/// as the text that was found, which `f64::from_str` accepts.
pub struct SmartReport {
    pub health: Option<String>,
    pub temperature: Option<String>,
    pub power_on_hours: Option<String>,
    pub percent_used: Option<String>,
    pub reallocated_sectors: Option<String>,
}

pub type SmartView = (
    Option<Seq<char>>,
    Option<Seq<char>>,
    Option<Seq<char>>,
    Option<Seq<char>>,
    Option<Seq<char>>,
);

pub open spec fn text_opt(o: Option<String>) -> Option<Seq<char>> {
    match o {
        Some(s) => Some(s@),
        None => None,
    }
}

pub open spec fn smart_view(r: SmartReport) -> SmartView {
    (
        text_opt(r.health),
        text_opt(r.temperature),
        text_opt(r.power_on_hours),
        text_opt(r.percent_used),
        text_opt(r.reallocated_sectors),
    )
}

/// The raw value of an ATA attribute line: its last word before any `(`,
/// commas removed.
pub open spec fn raw_token(line: Seq<char>) -> Option<Seq<char>> {
    let ws = words_of(split_pieces(line, '(')[0]);
    if ws.len() == 0 {
        None
    } else {
        Some(remove_all(ws.last(), seq![',']))
    }
}

/// `t` when it is a number.
pub open spec fn number(t: Option<Seq<char>>) -> Option<Seq<char>> {
    match t {
        Some(v) => if float_literal(v) {
            Some(v)
        } else {
            None
        },
        None => None,
    }
}

/// The text after the first `:` of `s`, trimmed.
pub open spec fn after_colon(s: Seq<char>) -> Option<Seq<char>> {
    let ps = split_pieces(s, ':');
    if ps.len() > 1 {
        Some(trimmed(ps[1]))
    } else {
        None
    }
}

pub open spec fn keep(new: Option<Seq<char>>, old: Option<Seq<char>>) -> Option<Seq<char>> {
    match new {
        Some(v) => Some(v),
        None => old,
    }
}

/// What one line of the report changes, given the line in lowercase:
/// the overall health verdict; the temperature from an NVMe header line or
/// ATA attribute 194; the NVMe percentage used; the power-on hours from
/// ATA attribute 9 or the NVMe header line; the raw value of ATA attribute
/// 5. A value that is not a number leaves the field as it was.
pub open spec fn smart_step(r: SmartView, line: Seq<char>, low: Seq<char>) -> SmartView {
    if has_sub(low, "overall-health"@) {
        if has_sub(low, "passed"@) {
            (Some("PASSED"@), r.1, r.2, r.3, r.4)
        } else if has_sub(low, "failed"@) {
            (Some("FAILED"@), r.1, r.2, r.3, r.4)
        } else {
            r
        }
    } else if has_prefix(low, "temperature:"@) {
        let ws = words_of(line);
        let t = if ws.len() > 1 {
            number(Some(ws[1]))
        } else {
            None
        };
        (r.0, keep(t, r.1), r.2, r.3, r.4)
    } else if has_sub(low, "temperature_celsius"@) {
        (r.0, keep(number(raw_token(line)), r.1), r.2, r.3, r.4)
    } else if has_sub(low, "percentage used:"@) {
        let t = match after_colon(low) {
            Some(v) => number(Some(strip_suffixes(v, seq!['%']))),
            None => None,
        };
        (r.0, r.1, r.2, keep(t, r.3), r.4)
    } else if has_sub(low, "power_on_hours"@) {
        (r.0, r.1, keep(number(raw_token(line)), r.2), r.3, r.4)
    } else if has_prefix(low, "power on hours:"@) {
        let t = match after_colon(low) {
            Some(v) => number(Some(remove_all(v, seq![',']))),
            None => None,
        };
        (r.0, r.1, keep(t, r.2), r.3, r.4)
    } else if has_sub(low, "reallocated_sector"@) {
        (r.0, r.1, r.2, r.3, keep(number(raw_token(line)), r.4))
    } else {
        r
    }
}

/// The report of the lines of `smartctl -H -A` output.
pub open spec fn smart_report(lines: Seq<Seq<char>>) -> SmartView
    decreases lines.len(),
{
    if lines.len() == 0 {
        (None, None, None, None, None)
    } else {
        smart_step(smart_report(lines.drop_last()), lines.last(), lowercase(lines.last()))
    }
}

fn number_of(v: Vec<char>) -> (r: Option<String>)
    ensures
        text_opt(r) == number(Some(v@)),
{
    if is_float_literal(&v) {
        Some(string_of(v.as_slice()))
    } else {
        None
    }
}

fn raw_value(line: &Vec<char>) -> (r: Option<String>)
    ensures
        text_opt(r) == number(raw_token(line@)),
{
    let pieces = split_char(line, '(');
    assert(split_pieces(line@, '(').len() >= 1);
    assert(pieces@.len() == views(pieces@).len());
    assert(views(pieces@)[0] == pieces@[0]@);
    let ws = words(&pieces[0]);
    if ws.len() == 0 {
        return None;
    }
    assert(views(ws@).last() == ws@[ws.len() - 1]@);
    let t = crate::text::remove_all_str(&ws[ws.len() - 1], ",");
    proof {
        reveal_strlit(",");
        assert(","@ =~= seq![',']);
    }
    number_of(t)
}

fn value_after_colon(low: &Vec<char>) -> (r: Option<Vec<char>>)
    ensures
        match r {
            Some(v) => after_colon(low@) == Some(v@),
            None => after_colon(low@) is None,
        },
{
    let ps = split_char(low, ':');
    if ps.len() > 1 {
        assert(views(ps@)[1] == ps@[1]@);
        Some(trim(&ps[1]))
    } else {
        None
    }
}

impl SmartReport {
    /// A report with nothing found.
    pub fn empty() -> (r: SmartReport)
        ensures
            smart_view(r) == (
                None::<Seq<char>>,
                None::<Seq<char>>,
                None::<Seq<char>>,
                None::<Seq<char>>,
                None::<Seq<char>>,
            ),
    {
        SmartReport {
            health: None,
            temperature: None,
            power_on_hours: None,
            percent_used: None,
            reallocated_sectors: None,
        }
    }

    /// Takes one line of the report into account, given the line and its
    /// lowercase form.
    pub fn take_line(&mut self, line: &str, low: &str)
        ensures
            smart_view(*final(self)) == smart_step(smart_view(*old(self)), line@, low@),
    {
        let line = chars_of(line);
        let low = chars_of(low);
        if contains(&low, "overall-health") {
            if contains(&low, "passed") {
                self.health = Some(owned("PASSED"));
            } else if contains(&low, "failed") {
                self.health = Some(owned("FAILED"));
            }
        } else if starts_with(&low, "temperature:") {
            let ws = words(&line);
            if ws.len() > 1 {
                assert(views(ws@)[1] == ws@[1]@);
                let t = number_of(crate::text::slice_chars(&ws[1], 0, ws[1].len()));
                assert(ws@[1]@.subrange(0, ws@[1]@.len() as int) =~= ws@[1]@);
                if t.is_some() {
                    self.temperature = t;
                }
            }
        } else if contains(&low, "temperature_celsius") {
            let t = raw_value(&line);
            if t.is_some() {
                self.temperature = t;
            }
        } else if contains(&low, "percentage used:") {
            match value_after_colon(&low) {
                Some(v) => {
                    let t = number_of(trim_end_char(&v, '%'));
                    if t.is_some() {
                        self.percent_used = t;
                    }
                },
                None => {},
            }
        } else if contains(&low, "power_on_hours") {
            let t = raw_value(&line);
            if t.is_some() {
                self.power_on_hours = t;
            }
        } else if starts_with(&low, "power on hours:") {
            match value_after_colon(&low) {
                Some(v) => {
                    let t = number_of(crate::text::remove_all_str(&v, ","));
                    proof {
                        reveal_strlit(",");
                        assert(","@ =~= seq![',']);
                    }
                    if t.is_some() {
                        self.power_on_hours = t;
                    }
                },
                None => {},
            }
        } else if contains(&low, "reallocated_sector") {
            let t = raw_value(&line);
            if t.is_some() {
                self.reallocated_sectors = t;
            }
        }
    }
}

/// The SMART values of a disk from the output of `smartctl -H -A`.
pub fn parse_smart(out: &str) -> (r: SmartReport)
    ensures
        smart_view(r) == smart_report(lines_of(out@)),
{
    let ls = lines(&chars_of(out));
    let mut report = SmartReport::empty();
    let mut i: usize = 0;
    while i < ls.len()
        invariant
            i <= ls.len(),
            views(ls@) == lines_of(out@),
            smart_view(report) == smart_report(views(ls@).take(i as int)),
        decreases ls.len() - i,
    {
        assert(views(ls@).take(i + 1).drop_last() =~= views(ls@).take(i as int));
        assert(views(ls@).take(i + 1).last() == ls@[i as int]@);
        let line = string_of(ls[i].as_slice());
        let low = to_lowercase(line.as_str());
        report.take_line(line.as_str(), low.as_str());
        i = i + 1;
    }
    assert(views(ls@).take(i as int) =~= views(ls@));
    report
}

// ── Mountpoints by disk ────────────────────────────────────

/// A node of the tree `lsblk -J -o NAME,TYPE,MOUNTPOINT` prints.
pub struct BlockDevice {
    pub name: String,
    pub device_type: String,
    pub mountpoint: Option<String>,
    pub children: Vec<BlockDevice>,
}

/// The (mountpoint, disk) pairs of a device and its descendants, in
/// depth-first order: a mounted device lies on the nearest enclosing
/// device of type `disk`, itself included; mounts outside any disk count
/// for none.
pub open spec fn device_mounts(d: BlockDevice, disk: Option<Seq<char>>) -> Seq<(Seq<char>, Seq<char>)>
    decreases d, 1int,
{
    let on = if d.device_type@ == "disk"@ {
        Some(d.name@)
    } else {
        disk
    };
    let own = match (d.mountpoint, on) {
        (Some(m), Some(n)) => seq![(m@, n)],
        _ => seq![],
    };
    own + forest_mounts(d.children@, on)
}

pub open spec fn forest_mounts(ds: Seq<BlockDevice>, disk: Option<Seq<char>>) -> Seq<(Seq<char>, Seq<char>)>
    decreases ds, 0int,
{
    if ds.len() == 0 {
        seq![]
    } else {
        device_mounts(ds[0], disk) + forest_mounts(ds.subrange(1, ds.len() as int), disk)
    }
}

/// The mountpoints of a device tree collected in order.
fn collect_mounts(d: &BlockDevice, disk: Option<&str>, out: &mut Vec<(String, String)>)
    ensures
        pair_views(final(out)@) == pair_views(old(out)@) + device_mounts(
            *d,
            match disk {
                Some(n) => Some(n@),
                None => None,
            },
        ),
    decreases d,
{
    let on: Option<&str> = if crate::text::equals(&chars_of(d.device_type.as_str()), "disk") {
        Some(d.name.as_str())
    } else {
        disk
    };
    let ghost on_view: Option<Seq<char>> = match on {
        Some(n) => Some(n@),
        None => None,
    };
    match (&d.mountpoint, on) {
        (Some(m), Some(n)) => {
            let ghost before = out@;
            out.push((m.clone(), owned(n)));
            assert(pair_views(out@) =~= pair_views(before) + seq![(m@, n@)]);
        },
        _ => {},
    }
    let ghost mid = pair_views(out@);
    let mut i: usize = 0;
    while i < d.children.len()
        invariant
            i <= d.children.len(),
            on_view == match on {
                Some(n) => Some(n@),
                None => None,
            },
            pair_views(out@) == mid + forest_mounts(d.children@.take(i as int), on_view),
        decreases d.children.len() - i,
    {
        assert(decreases_to!(d => d.children));
        collect_mounts(&d.children[i], on, out);
        proof {
            lemma_forest_push(d.children@.take(i as int), d.children@[i as int], on_view);
            assert(d.children@.take(i + 1) =~= d.children@.take(i as int).push(d.children@[i as int]));
            assert(pair_views(out@) =~= mid + forest_mounts(d.children@.take(i + 1), on_view));
        }
        i = i + 1;
    }
    assert(d.children@.take(i as int) =~= d.children@);
}

pub open spec fn pair_views(v: Seq<(String, String)>) -> Seq<(Seq<char>, Seq<char>)> {
    v.map_values(|p: (String, String)| (p.0@, p.1@))
}

/// Appending a device to a forest appends its mounts.
proof fn lemma_forest_push(ds: Seq<BlockDevice>, d: BlockDevice, disk: Option<Seq<char>>)
    ensures
        forest_mounts(ds.push(d), disk) == forest_mounts(ds, disk) + device_mounts(d, disk),
    decreases ds.len(),
{
    if ds.len() == 0 {
        assert(ds.push(d).subrange(1, 1) =~= Seq::<BlockDevice>::empty());
        assert(forest_mounts(Seq::<BlockDevice>::empty(), disk) =~= Seq::<(Seq<char>, Seq<char>)>::empty());
        assert(forest_mounts(ds.push(d), disk) =~= device_mounts(d, disk));
        assert(forest_mounts(ds, disk) =~= Seq::<(Seq<char>, Seq<char>)>::empty());
    } else {
        let rest = ds.subrange(1, ds.len() as int);
        lemma_forest_push(rest, d, disk);
        assert(ds.push(d).subrange(1, ds.len() as int + 1) =~= rest.push(d));
        assert(ds.push(d)[0] == ds[0]);
    }
}

/// A mountpoint and the disks it lies on, in the order first seen.
pub struct MountDisks {
    pub mount: String,
    pub disks: Vec<String>,
}

pub type MountEntry = (Seq<char>, Seq<Seq<char>>);

pub open spec fn texts(v: Seq<String>) -> Seq<Seq<char>> {
    v.map_values(|s: String| s@)
}

pub open spec fn mount_view(e: MountDisks) -> MountEntry {
    (e.mount@, texts(e.disks@))
}

pub open spec fn map_view(v: Seq<MountDisks>) -> Seq<MountEntry> {
    v.map_values(|e: MountDisks| mount_view(e))
}

/// Index of the entry for mountpoint `m`, or -1.
pub open spec fn entry_index(map: Seq<MountEntry>, m: Seq<char>) -> int
    decreases map.len(),
{
    if map.len() == 0 {
        -1
    } else if entry_index(map.drop_last(), m) >= 0 {
        entry_index(map.drop_last(), m)
    } else if map.last().0 == m {
        map.len() - 1
    } else {
        -1
    }
}

/// The map with disk `p.1` recorded for mountpoint `p.0`.
pub open spec fn add_mount(map: Seq<MountEntry>, p: (Seq<char>, Seq<char>)) -> Seq<MountEntry> {
    let i = entry_index(map, p.0);
    if i < 0 {
        map.push((p.0, seq![p.1]))
    } else if map[i].1.contains(p.1) {
        map
    } else {
        map.update(i, (p.0, map[i].1.push(p.1)))
    }
}

/// The mountpoints of the pairs in first-seen order, each with its disks
/// in first-seen order, without repetition.
pub open spec fn mount_map(pairs: Seq<(Seq<char>, Seq<char>)>) -> Seq<MountEntry>
    decreases pairs.len(),
{
    if pairs.len() == 0 {
        seq![]
    } else {
        add_mount(mount_map(pairs.drop_last()), pairs.last())
    }
}

proof fn lemma_entry_index(map: Seq<MountEntry>, m: Seq<char>)
    ensures
        -1 <= entry_index(map, m) < map.len(),
        entry_index(map, m) >= 0 ==> map[entry_index(map, m)].0 == m && forall|j: int|
            0 <= j < entry_index(map, m) ==> (#[trigger] map[j]).0 != m,
        entry_index(map, m) < 0 ==> forall|j: int| 0 <= j < map.len() ==> (#[trigger] map[j]).0 != m,
    decreases map.len(),
{
    if map.len() > 0 {
        lemma_entry_index(map.drop_last(), m);
        assert forall|j: int| 0 <= j < map.len() - 1 implies map.drop_last()[j] == #[trigger] map[j] by {}
    }
}

fn find_entry(map: &Vec<MountDisks>, m: &String) -> (r: Option<usize>)
    ensures
        match r {
            Some(i) => i < map.len() && entry_index(map_view(map@), m@) == i,
            None => entry_index(map_view(map@), m@) < 0,
        },
{
    let ghost mv = map_view(map@);
    proof {
        lemma_entry_index(mv, m@);
    }
    let mut i: usize = 0;
    while i < map.len()
        invariant
            i <= map.len(),
            mv == map_view(map@),
            forall|j: int| 0 <= j < i ==> (#[trigger] mv[j]).0 != m@,
        decreases map.len() - i,
    {
        assert(mv[i as int] == mount_view(map@[i as int]));
        if map[i].mount == *m {
            proof {
                lemma_entry_index(mv, m@);
                let e = entry_index(mv, m@);
                if e < 0 {
                    assert(mv[i as int].0 == m@);
                } else if e < i {
                } else if e > i {
                    assert(mv[i as int].0 == m@);
                }
            }
            return Some(i);
        }
        i = i + 1;
    }
    None
}

fn contains_text(v: &Vec<String>, t: &String) -> (r: bool)
    ensures
        r == texts(v@).contains(t@),
{
    let mut i: usize = 0;
    while i < v.len()
        invariant
            i <= v.len(),
            forall|j: int| 0 <= j < i ==> (#[trigger] texts(v@)[j]) != t@,
        decreases v.len() - i,
    {
        if v[i] == *t {
            assert(texts(v@)[i as int] == t@);
            return true;
        }
        i = i + 1;
    }
    false
}

/// For each mountpoint of the device tree, the disks it lies on.
pub fn mount_disk_map(devices: &Vec<BlockDevice>) -> (r: Vec<MountDisks>)
    ensures
        map_view(r@) == mount_map(forest_mounts(devices@, None)),
        forall|i: int|
            0 <= i < devices@.len() && (#[trigger] devices@[i]).device_type@ == "disk"@
                && devices@[i].mountpoint is Some ==> mounted_on(
                map_view(r@),
                devices@[i].name@,
                devices@[i].mountpoint->0@,
            ),
{
    let mut pairs: Vec<(String, String)> = Vec::new();
    let mut i: usize = 0;
    while i < devices.len()
        invariant
            i <= devices.len(),
            pair_views(pairs@) == forest_mounts(devices@.take(i as int), None),
        decreases devices.len() - i,
    {
        collect_mounts(&devices[i], None, &mut pairs);
        proof {
            lemma_forest_push(devices@.take(i as int), devices@[i as int], None);
            assert(devices@.take(i + 1) =~= devices@.take(i as int).push(devices@[i as int]));
        }
        i = i + 1;
    }
    assert(devices@.take(i as int) =~= devices@);
    let ghost all = pair_views(pairs@);
    let mut map: Vec<MountDisks> = Vec::new();
    let mut k: usize = 0;
    while k < pairs.len()
        invariant
            k <= pairs.len(),
            all == pair_views(pairs@),
            map_view(map@) == mount_map(all.take(k as int)),
        decreases pairs.len() - k,
    {
        assert(all.take(k + 1).drop_last() =~= all.take(k as int));
        assert(all.take(k + 1).last() == (pairs@[k as int].0@, pairs@[k as int].1@));
        let ghost before = map_view(map@);
        match find_entry(&map, &pairs[k].0) {
            None => {
                let mut disks: Vec<String> = Vec::new();
                disks.push(pairs[k].1.clone());
                map.push(MountDisks { mount: pairs[k].0.clone(), disks });
                assert(texts(disks@) =~= seq![pairs@[k as int].1@]);
                assert(map_view(map@) =~= before.push((pairs@[k as int].0@, seq![pairs@[k as int].1@])));
            },
            Some(e) => {
                assert(before[e as int] == mount_view(map@[e as int]));
                if !contains_text(&map[e].disks, &pairs[k].1) {
                    let ghost old_disks = map@[e as int].disks@;
                    let mut entry = MountDisks { mount: String::new(), disks: Vec::new() };
                    std::mem::swap(&mut entry, &mut map[e]);
                    entry.disks.push(pairs[k].1.clone());
                    assert(texts(entry.disks@) =~= texts(old_disks).push(pairs@[k as int].1@));
                    let ghost mid = map@;
                    map.set(e, entry);
                    proof {
                        lemma_entry_index(before, pairs@[k as int].0@);
                    }
                    assert(map_view(map@) =~= before.update(
                        e as int,
                        (pairs@[k as int].0@, before[e as int].1.push(pairs@[k as int].1@)),
                    ));
                } else {
                    proof {
                        lemma_entry_index(before, pairs@[k as int].0@);
                    }
                }
            },
        }
        k = k + 1;
    }
    assert(all.take(k as int) =~= all);
    proof {
        assert forall|i: int|
            0 <= i < devices@.len() && (#[trigger] devices@[i]).device_type@ == "disk"@
                && devices@[i].mountpoint is Some implies mounted_on(
            map_view(map@),
            devices@[i].name@,
            devices@[i].mountpoint->0@,
        ) by {
            lemma_whole_disk_mount(devices@, i, devices@[i].mountpoint->0);
        }
    }
    map
}

proof fn lemma_insert_contains(s: Seq<Seq<char>>, p: int, v: Seq<char>)
    requires
        0 <= p <= s.len(),
    ensures
        forall|x: Seq<char>| #[trigger] s.insert(p, v).contains(x) <==> s.contains(x) || x == v,
{
    let t = s.insert(p, v);
    assert forall|x: Seq<char>| #[trigger] t.contains(x) <==> s.contains(x) || x == v by {
        if t.contains(x) {
            let i = choose|i: int| 0 <= i < t.len() && t[i] == x;
            if i < p {
                assert(s[i] == x);
            } else if i > p {
                assert(s[i - 1] == x);
            }
        }
        if s.contains(x) {
            let i = choose|i: int| 0 <= i < s.len() && s[i] == x;
            if i < p {
                assert(t[i] == x);
            } else {
                assert(t[i + 1] == x);
            }
        }
        if x == v {
            assert(t[p] == v);
        }
    }
}

/// A mounted device of type `disk` lies on itself: its own mountpoint is
/// recorded on its own name, whatever disk encloses it.
pub proof fn lemma_disk_own_mount(d: BlockDevice, disk: Option<Seq<char>>, m: String)
    requires
        d.device_type@ == "disk"@,
        d.mountpoint == Some(m),
    ensures
        device_mounts(d, disk).contains((m@, d.name@)),
{
    assert(device_mounts(d, disk)[0] == (m@, d.name@));
}

/// The mounts of a device are among those of every forest holding it.
proof fn lemma_forest_contains(ds: Seq<BlockDevice>, disk: Option<Seq<char>>, i: int, p: (Seq<char>, Seq<char>))
    requires
        0 <= i < ds.len(),
        device_mounts(ds[i], disk).contains(p),
    ensures
        forest_mounts(ds, disk).contains(p),
    decreases ds.len(),
{
    let head = device_mounts(ds[0], disk);
    let rest = ds.subrange(1, ds.len() as int);
    if i == 0 {
        let k = choose|k: int| 0 <= k < head.len() && head[k] == p;
        assert(forest_mounts(ds, disk)[k] == p);
    } else {
        assert(rest[i - 1] == ds[i]);
        lemma_forest_contains(rest, disk, i - 1, p);
        let tail = forest_mounts(rest, disk);
        let k = choose|k: int| 0 <= k < tail.len() && tail[k] == p;
        assert(forest_mounts(ds, disk)[head.len() + k] == p);
    }
}

/// Recording a pair keeps every disk already recorded for a mountpoint.
proof fn lemma_add_mount_keeps(map: Seq<MountEntry>, p: (Seq<char>, Seq<char>), m: Seq<char>, disk: Seq<char>)
    requires
        mounted_on(map, disk, m),
    ensures
        mounted_on(add_mount(map, p), disk, m),
{
    let k = choose|k: int| 0 <= k < map.len() && (#[trigger] map[k]).0 == m && map[k].1.contains(disk);
    lemma_entry_index(map, p.0);
    let i = entry_index(map, p.0);
    let next = add_mount(map, p);
    if i < 0 {
        assert(next[k] == map[k]);
    } else if map[i].1.contains(p.1) {
        assert(next[k] == map[k]);
    } else if k != i {
        assert(next[k] == map[k]);
    } else {
        let j = choose|j: int| 0 <= j < map[k].1.len() && map[k].1[j] == disk;
        assert(next[k].1[j] == disk);
        assert(next[k].0 == m);
    }
}

/// Every recorded pair can be found in the map: its mountpoint has an
/// entry listing its disk.
proof fn lemma_mount_map_has(pairs: Seq<(Seq<char>, Seq<char>)>, p: (Seq<char>, Seq<char>))
    requires
        pairs.contains(p),
    ensures
        mounted_on(mount_map(pairs), p.1, p.0),
    decreases pairs.len(),
{
    let prev = pairs.drop_last();
    let map = mount_map(prev);
    if pairs.last() == p {
        lemma_entry_index(map, p.0);
        let i = entry_index(map, p.0);
        let next = add_mount(map, p);
        if i < 0 {
            assert(next[map.len() as int] == (p.0, seq![p.1]));
            assert(next[map.len() as int].1[0] == p.1);
        } else if map[i].1.contains(p.1) {
            assert(next[i] == map[i]);
        } else {
            assert(next[i].1[map[i].1.len() as int] == p.1);
        }
    } else {
        let k = choose|k: int| 0 <= k < pairs.len() && pairs[k] == p;
        assert(k < pairs.len() - 1);
        assert(prev[k] == p);
        lemma_mount_map_has(prev, p);
        lemma_add_mount_keeps(map, pairs.last(), p.0, p.1);
    }
}

/// A top-level disk of the device tree that is mounted itself (a
/// filesystem on the whole disk) is listed among the mountpoints of that
/// disk.
pub proof fn lemma_whole_disk_mount(devices: Seq<BlockDevice>, i: int, m: String)
    requires
        0 <= i < devices.len(),
        devices[i].device_type@ == "disk"@,
        devices[i].mountpoint == Some(m),
    ensures
        mounted_on(mount_map(forest_mounts(devices, None)), devices[i].name@, m@),
{
    lemma_disk_own_mount(devices[i], None, m);
    lemma_forest_contains(devices, None, i, (m@, devices[i].name@));
    lemma_mount_map_has(forest_mounts(devices, None), (m@, devices[i].name@));
}

/// Strictly ascending in the order of `String`s.
pub open spec fn ascending(v: Seq<Seq<char>>) -> bool {
    forall|i: int, j: int| 0 <= i < j < v.len() ==> text_lt(#[trigger] v[i], #[trigger] v[j])
}

/// Mountpoint `m` lies on `disk` according to the map.
pub open spec fn mounted_on(map: Seq<MountEntry>, disk: Seq<char>, m: Seq<char>) -> bool {
    exists|i: int| 0 <= i < map.len() && (#[trigger] map[i]).0 == m && map[i].1.contains(disk)
}

/// The mountpoints that lie on `disk`, in ascending order.
pub fn disk_mountpoints(map: &Vec<MountDisks>, disk: &str) -> (r: Vec<String>)
    ensures
        ascending(texts(r@)),
        forall|m: Seq<char>| #[trigger] texts(r@).contains(m) <==> mounted_on(map_view(map@), disk@, m),
{
    let ghost mv = map_view(map@);
    let target = owned(disk);
    let mut r: Vec<String> = Vec::new();
    let mut e: usize = 0;
    while e < map.len()
        invariant
            e <= map.len(),
            mv == map_view(map@),
            target@ == disk@,
            ascending(texts(r@)),
            forall|m: Seq<char>|
                #[trigger] texts(r@).contains(m) <==> mounted_on(mv.take(e as int), disk@, m),
        decreases map.len() - e,
    {
        let ghost before = texts(r@);
        assert(mv[e as int] == mount_view(map@[e as int]));
        let hit = contains_text(&map[e].disks, &target);
        if hit {
            let m = &map[e].mount;
            let mc = chars_of(m.as_str());
            let mut p: usize = 0;
            while p < r.len() && text_less(&chars_of(r[p].as_str()), &mc)
                invariant
                    p <= r.len(),
                    mc@ == m@,
                    forall|i: int| 0 <= i < p ==> text_lt(#[trigger] texts(r@)[i], m@),
                decreases r.len() - p,
            {
                p = p + 1;
            }
            if p < r.len() && r[p] == *m {
                assert(before[p as int] == m@);
                assert(before.contains(m@));
            } else {
                proof {
                    if p < r.len() {
                        assert(!text_lt(before[p as int], m@));
                        lemma_text_lt_total(before[p as int], m@);
                    }
                }
                r.insert(p, m.clone());
                proof {
                    let now = texts(r@);
                    assert(now =~= before.insert(p as int, m@));
                    lemma_insert_contains(before, p as int, m@);
                    assert forall|i: int, j: int| 0 <= i < j < now.len() implies text_lt(
                        #[trigger] now[i],
                        #[trigger] now[j],
                    ) by {
                        if j == p {
                        } else if i == p {
                            assert(now[j] == before[j - 1]);
                            if j - 1 > p {
                                lemma_text_lt_transitive(m@, before[p as int], before[j - 1]);
                            }
                        } else if i < p && j > p {
                            assert(now[j] == before[j - 1]);
                        } else if i > p {
                            assert(now[i] == before[i - 1] && now[j] == before[j - 1]);
                        }
                    }
                }
            }
        }
        proof {
            let now = texts(r@);
            assert(forall|x: Seq<char>|
                #[trigger] now.contains(x) <==> before.contains(x) || (hit && x == mv[e as int].0));
            assert forall|m: Seq<char>| #[trigger] now.contains(m) <==> mounted_on(
                mv.take(e + 1),
                disk@,
                m,
            ) by {
                if mounted_on(mv.take(e + 1), disk@, m) {
                    let i = choose|i: int|
                        0 <= i < e + 1 && (#[trigger] mv.take(e + 1)[i]).0 == m && mv.take(
                            e + 1,
                        )[i].1.contains(disk@);
                    if i < e {
                        assert(mv.take(e as int)[i] == mv.take(e + 1)[i]);
                        assert(mounted_on(mv.take(e as int), disk@, m));
                    }
                }
                if mounted_on(mv.take(e as int), disk@, m) {
                    let i = choose|i: int|
                        0 <= i < e && (#[trigger] mv.take(e as int)[i]).0 == m && mv.take(
                            e as int,
                        )[i].1.contains(disk@);
                    assert(mv.take(e + 1)[i] == mv.take(e as int)[i]);
                }
                assert(mv.take(e + 1)[e as int] == mv[e as int]);
            }
        }
        e = e + 1;
    }
    assert(mv.take(e as int) =~= mv);
    r
}

} // verus!
