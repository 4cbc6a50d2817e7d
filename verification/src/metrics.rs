//! System metrics: the data model the panel shows and the parsers of the
//! text that `/proc`, `/sys` and the system commands produce.
use vstd::prelude::*;
use crate::text::{
    all_ascii_digits, all_digits_from, chars_of, contains, ends_with, equals, has_prefix,
    has_sub, has_suffix, joined, join_spaced, last_index_of, lines, lines_of, rfind_char,
    slice_chars, split_char, split_pieces, starts_with, string_of, strip_prefixes,
    strip_trailing_digits, trim, trim_start_matches, trim_trailing_digits, trimmed, views, words,
    words_of,
};

verus! {

/// An owned copy of a string slice.
pub fn owned(s: &str) -> (r: String)
    ensures
        r@ == s@,
{
    s.to_owned()
}

// ── Block devices ──────────────────────────────────────────

/// The whole-disk name of a block device path: `/dev/` prefixes dropped,
/// then an NVMe or MMC partition suffix `p<digits>`, or trailing digits of
/// other names, removed.
pub open spec fn base_disk(source: Seq<char>) -> Seq<char> {
    let name = strip_prefixes(source, "/dev/"@);
    if has_prefix(name, "nvme"@) || has_prefix(name, "mmcblk"@) {
        let k = last_index_of(name, 'p');
        if k >= 0 && all_ascii_digits(name.skip(k + 1)) {
            name.take(k)
        } else {
            name
        }
    } else {
        strip_trailing_digits(name)
    }
}

/// The disk a device such as `/dev/nvme0n1p3` or `/dev/sda1` belongs to.
pub fn base_disk_name(source: &str) -> (r: String)
    ensures
        r@ == base_disk(source@),
{
    let source = chars_of(source);
    let name = trim_start_matches(&source, "/dev/");
    if starts_with(&name, "nvme") || starts_with(&name, "mmcblk") {
        match rfind_char(&name, 'p') {
            Some(k) => {
                if all_digits_from(&name, k + 1) {
                    return string_of(slice_chars(&name, 0, k).as_slice());
                }
            },
            None => {},
        }
        return string_of(name.as_slice());
    }
    string_of(trim_trailing_digits(&name).as_slice())
}

/// Role of a disk: the system disk holds the root filesystem.
pub open spec fn disk_role(name: Seq<char>, system_dev: Seq<char>) -> Seq<char> {
    if system_dev.len() > 0 && has_prefix(name, system_dev) {
        "system"@
    } else if has_prefix(name, "nvme"@) {
        "ssd"@
    } else if has_prefix(name, "sd"@) {
        "hdd"@
    } else {
        "other"@
    }
}

/// Kind of a disk: `emmc` for MMC devices, `nvme` for NVMe, else `disk`.
pub open spec fn disk_kind(name: Seq<char>, system_dev: Seq<char>) -> Seq<char> {
    if system_dev.len() > 0 && has_prefix(name, system_dev) {
        if has_prefix(name, "mmc"@) {
            "emmc"@
        } else {
            "disk"@
        }
    } else if has_prefix(name, "nvme"@) {
        "nvme"@
    } else if has_prefix(name, "sd"@) {
        "disk"@
    } else if has_prefix(name, "mmc"@) {
        "emmc"@
    } else {
        "disk"@
    }
}

/// Role and kind of the disk `name` given the system disk.
pub fn classify_disk(name: &str, system_dev: &str) -> (r: (&'static str, String))
    ensures
        r.0@ == disk_role(name@, system_dev@),
        r.1@ == disk_kind(name@, system_dev@),
{
    let name = chars_of(name);
    let system = chars_of(system_dev);
    let sys = string_of(system.as_slice());
    if system.len() > 0 && starts_with(&name, sys.as_str()) {
        let kind = if starts_with(&name, "mmc") {
            "emmc"
        } else {
            "disk"
        };
        ("system", owned(kind))
    } else if starts_with(&name, "nvme") {
        ("ssd", owned("nvme"))
    } else if starts_with(&name, "sd") {
        ("hdd", owned("disk"))
    } else if starts_with(&name, "mmc") {
        ("other", owned("emmc"))
    } else {
        ("other", owned("disk"))
    }
}

/// A whole disk listed by `lsblk -dn -o NAME,SIZE,TYPE,MODEL`, classified.
#[derive(Debug, Clone)]
pub struct DiskEntry {
    pub name: String,
    pub size: String,
    pub model: String,
    pub role: String,
    pub disk_type: String,
}

/// The text fields of a listed disk: name, size, model, role and kind.
pub type DiskRecord = (Seq<char>, Seq<char>, Seq<char>, Seq<char>, Seq<char>);

pub open spec fn entry_record(e: DiskEntry) -> DiskRecord {
    (e.name@, e.size@, e.model@, e.role@, e.disk_type@)
}

impl DiskEntry {
    /// A copy of the entry.
    pub fn duplicate(&self) -> (r: DiskEntry)
        ensures
            entry_record(r) == entry_record(*self),
    {
        DiskEntry {
            name: self.name.clone(),
            size: self.size.clone(),
            model: self.model.clone(),
            role: self.role.clone(),
            disk_type: self.disk_type.clone(),
        }
    }
}

/// The disk a line of the listing describes: lines of a type other than
/// `disk`, MMC boot partitions and RPMB areas are skipped; a disk without a
/// model is titled by its name.
pub open spec fn listed_disk(line: Seq<char>, system_dev: Seq<char>) -> Option<DiskRecord> {
    let parts = words_of(line);
    if parts.len() < 3 || parts[2] != "disk"@ {
        None
    } else {
        let name = parts[0];
        if (has_prefix(name, "mmcblk"@) && has_sub(name, "boot"@)) || has_suffix(name, "rpmb"@) {
            None
        } else {
            Some(
                (
                    name,
                    parts[1],
                    if parts.len() > 3 {
                        joined(parts.skip(3), seq![' '])
                    } else {
                        name
                    },
                    disk_role(name, system_dev),
                    disk_kind(name, system_dev),
                ),
            )
        }
    }
}

pub open spec fn listed_disks(lines: Seq<Seq<char>>, system_dev: Seq<char>) -> Seq<DiskRecord>
    decreases lines.len(),
{
    if lines.len() == 0 {
        seq![]
    } else {
        let prev = listed_disks(lines.drop_last(), system_dev);
        match listed_disk(lines.last(), system_dev) {
            Some(d) => prev.push(d),
            None => prev,
        }
    }
}

/// Display order of a role: system, then SSDs, then HDDs, then the rest.
pub open spec fn role_rank(role: Seq<char>) -> int {
    if role == "system"@ {
        0
    } else if role == "ssd"@ {
        1
    } else if role == "hdd"@ {
        2
    } else {
        3
    }
}

/// The disks ordered by role rank, keeping the listing order within a rank.
pub open spec fn by_role(disks: Seq<DiskRecord>) -> Seq<DiskRecord> {
    disks.filter(|d: DiskRecord| role_rank(d.3) == 0) + disks.filter(
        |d: DiskRecord| role_rank(d.3) == 1,
    ) + disks.filter(|d: DiskRecord| role_rank(d.3) == 2) + disks.filter(
        |d: DiskRecord| role_rank(d.3) == 3,
    )
}

/// The disks the storage card lists, from the `lsblk` listing and the
/// source device of `/` reported by `findmnt`.
pub open spec fn disk_inventory_of(listing: Seq<char>, root_source: Seq<char>) -> Seq<DiskRecord> {
    by_role(listed_disks(lines_of(listing), base_disk(trimmed(root_source))))
}

fn rank_of(role: &str) -> (r: u8)
    ensures
        r == role_rank(role@),
{
    let c = chars_of(role);
    if equals(&c, "system") {
        0
    } else if equals(&c, "ssd") {
        1
    } else if equals(&c, "hdd") {
        2
    } else {
        3
    }
}

fn parse_disk_line(line: &Vec<char>, system_dev: &str) -> (r: Option<DiskEntry>)
    ensures
        match r {
            Some(e) => listed_disk(line@, system_dev@) == Some(entry_record(e)),
            None => listed_disk(line@, system_dev@) is None,
        },
{
    let parts = words(line);
    if parts.len() < 3 || !equals(&parts[2], "disk") {
        return None;
    }
    let name = &parts[0];
    if (starts_with(name, "mmcblk") && contains(name, "boot")) || ends_with(name, "rpmb") {
        return None;
    }
    let model = if parts.len() > 3 {
        join_spaced(&parts, 3)
    } else {
        slice_chars(name, 0, name.len())
    };
    let name_s = string_of(name.as_slice());
    let (role, kind) = classify_disk(name_s.as_str(), system_dev);
    Some(
        DiskEntry {
            name: name_s,
            size: string_of(parts[1].as_slice()),
            model: string_of(model.as_slice()),
            role: owned(role),
            disk_type: kind,
        },
    )
}

/// The disks the storage card lists: the whole disks of the `lsblk`
/// listing, classified against the disk holding `/`, ordered by role.
pub fn disk_inventory(listing: &str, root_source: &str) -> (r: Vec<DiskEntry>)
    ensures
        r@.map_values(|e: DiskEntry| entry_record(e)) == disk_inventory_of(listing@, root_source@),
{
    let root = trim(&chars_of(root_source));
    let system_dev = base_disk_name(string_of(root.as_slice()).as_str());
    let ls = lines(&chars_of(listing));
    let mut found: Vec<DiskEntry> = Vec::new();
    let mut i: usize = 0;
    while i < ls.len()
        invariant
            i <= ls.len(),
            views(ls@) == lines_of(listing@),
            system_dev@ == base_disk(trimmed(root_source@)),
            found@.map_values(|e: DiskEntry| entry_record(e)) == listed_disks(
                views(ls@).take(i as int),
                system_dev@,
            ),
        decreases ls.len() - i,
    {
        let ghost pre = views(ls@).take(i as int);
        assert(views(ls@).take(i + 1).drop_last() =~= pre);
        assert(views(ls@).take(i + 1).last() == ls@[i as int]@);
        match parse_disk_line(&ls[i], system_dev.as_str()) {
            Some(e) => {
                found.push(e);
                assert(found@.map_values(|e: DiskEntry| entry_record(e)) =~= listed_disks(
                    views(ls@).take(i + 1),
                    system_dev@,
                ));
            },
            None => {},
        }
        i = i + 1;
    }
    assert(views(ls@).take(i as int) =~= views(ls@));
    let ghost all = found@.map_values(|e: DiskEntry| entry_record(e));
    let mut ordered: Vec<DiskEntry> = Vec::new();
    let mut rank: u8 = 0;
    while rank < 4
        invariant
            rank <= 4,
            all == found@.map_values(|e: DiskEntry| entry_record(e)),
            ordered@.map_values(|e: DiskEntry| entry_record(e)) == (if rank == 0 {
                Seq::<DiskRecord>::empty()
            } else if rank == 1 {
                all.filter(|d: DiskRecord| role_rank(d.3) == 0)
            } else if rank == 2 {
                all.filter(|d: DiskRecord| role_rank(d.3) == 0) + all.filter(|d: DiskRecord| role_rank(d.3) == 1)
            } else if rank == 3 {
                all.filter(|d: DiskRecord| role_rank(d.3) == 0) + all.filter(|d: DiskRecord| role_rank(d.3) == 1)
                    + all.filter(|d: DiskRecord| role_rank(d.3) == 2)
            } else {
                by_role(all)
            }),
        decreases 4 - rank,
    {
        let ghost before = ordered@.map_values(|e: DiskEntry| entry_record(e));
        let mut j: usize = 0;
        while j < found.len()
            invariant
                j <= found.len(),
                rank < 4,
                all == found@.map_values(|e: DiskEntry| entry_record(e)),
                ordered@.map_values(|e: DiskEntry| entry_record(e)) == before + all.take(j as int).filter(
                    |d: DiskRecord| role_rank(d.3) == rank,
                ),
            decreases found.len() - j,
        {
            proof {
                reveal_with_fuel(Seq::<DiskRecord>::filter, 1);
                assert(all.take(j + 1).drop_last() =~= all.take(j as int));
            }
            assert(all[j as int] == entry_record(found@[j as int]));
            assert(all.take(j + 1).last() == all[j as int]);
            if rank_of(found[j].role.as_str()) == rank {
                let ghost old_ordered = ordered@;
                ordered.push(found[j].duplicate());
                assert(ordered@.map_values(|e: DiskEntry| entry_record(e)) =~= old_ordered.map_values(
                    |e: DiskEntry| entry_record(e),
                ).push(all[j as int]));
                assert(ordered@.map_values(|e: DiskEntry| entry_record(e)) =~= before + all.take(j + 1).filter(
                    |d: DiskRecord| role_rank(d.3) == rank,
                ));
            } else {
                assert(all.take(j + 1).filter(|d: DiskRecord| role_rank(d.3) == rank) =~= all.take(j as int).filter(
                    |d: DiskRecord| role_rank(d.3) == rank,
                ));
            }
            j = j + 1;
        }
        assert(all.take(j as int) =~= all);
        rank = rank + 1;
    }
    ordered
}

// ── Docker, virtual machines, services ─────────────────────

#[derive(Debug, Clone)]
pub struct DockerContainer {
    pub names: String,
    pub state: String,
}

#[derive(Debug, Clone)]
pub struct VirtualMachine {
    pub id: String,
    pub name: String,
    pub state: String,
}

#[derive(Debug, Clone)]
pub struct ServiceStatus {
    pub name: String,
    pub active: bool,
}

/// A line `<names>\t<state>[\t...]` of `docker ps -a --format`.
pub open spec fn docker_row(line: Seq<char>) -> Option<(Seq<char>, Seq<char>)> {
    let p = split_pieces(line, '\t');
    if p.len() >= 2 {
        Some((p[0], p[1]))
    } else {
        None
    }
}

pub open spec fn docker_rows(lines: Seq<Seq<char>>) -> Seq<(Seq<char>, Seq<char>)>
    decreases lines.len(),
{
    if lines.len() == 0 {
        seq![]
    } else {
        let prev = docker_rows(lines.drop_last());
        match docker_row(lines.last()) {
            Some(r) => prev.push(r),
            None => prev,
        }
    }
}

pub open spec fn container_view(c: DockerContainer) -> (Seq<char>, Seq<char>) {
    (c.names@, c.state@)
}

/// The containers listed by `docker ps -a --format '{{.Names}}\t{{.State}}'`.
pub fn read_docker(output: &str) -> (r: Vec<DockerContainer>)
    ensures
        r@.map_values(|c: DockerContainer| container_view(c)) == docker_rows(lines_of(output@)),
{
    let ls = lines(&chars_of(output));
    let mut found: Vec<DockerContainer> = Vec::new();
    let mut i: usize = 0;
    while i < ls.len()
        invariant
            i <= ls.len(),
            views(ls@) == lines_of(output@),
            found@.map_values(|c: DockerContainer| container_view(c)) == docker_rows(views(ls@).take(i as int)),
        decreases ls.len() - i,
    {
        assert(views(ls@).take(i + 1).drop_last() =~= views(ls@).take(i as int));
        assert(views(ls@).take(i + 1).last() == ls@[i as int]@);
        let parts = split_char(&ls[i], '\t');
        if parts.len() >= 2 {
            let c = DockerContainer {
                names: string_of(parts[0].as_slice()),
                state: string_of(parts[1].as_slice()),
            };
            let ghost before = found@;
            found.push(c);
            assert(found@.map_values(|c: DockerContainer| container_view(c)) =~= before.map_values(
                |c: DockerContainer| container_view(c),
            ).push(container_view(c)));
        }
        i = i + 1;
    }
    assert(views(ls@).take(i as int) =~= views(ls@));
    found
}

/// A row `<id> <name> <state...>` of `virsh list --all`.
pub open spec fn vm_row(line: Seq<char>) -> Option<(Seq<char>, Seq<char>, Seq<char>)> {
    let p = words_of(line);
    if line.len() > 0 && p.len() >= 3 {
        Some((p[0], p[1], joined(p.skip(2), seq![' '])))
    } else {
        None
    }
}

pub open spec fn vm_rows(lines: Seq<Seq<char>>) -> Seq<(Seq<char>, Seq<char>, Seq<char>)>
    decreases lines.len(),
{
    if lines.len() == 0 {
        seq![]
    } else {
        let prev = vm_rows(lines.drop_last());
        match vm_row(lines.last()) {
            Some(r) => prev.push(r),
            None => prev,
        }
    }
}

/// The rows of a listing below its two header lines.
pub open spec fn vm_listing(lines: Seq<Seq<char>>) -> Seq<(Seq<char>, Seq<char>, Seq<char>)> {
    if lines.len() <= 2 {
        seq![]
    } else {
        vm_rows(lines.skip(2))
    }
}

pub open spec fn vm_view(v: VirtualMachine) -> (Seq<char>, Seq<char>, Seq<char>) {
    (v.id@, v.name@, v.state@)
}

/// The virtual machines listed by `virsh list --all`, below its two header lines.
pub fn read_vms(output: &str) -> (r: Vec<VirtualMachine>)
    ensures
        r@.map_values(|v: VirtualMachine| vm_view(v)) == vm_listing(lines_of(output@)),
{
    let ls = lines(&chars_of(output));
    let mut found: Vec<VirtualMachine> = Vec::new();
    let mut i: usize = 2;
    if ls.len() <= 2 {
        return found;
    }
    assert(views(ls@).subrange(2, 2) =~= Seq::<Seq<char>>::empty());
    while i < ls.len()
        invariant
            2 <= i <= ls.len(),
            views(ls@) == lines_of(output@),
            found@.map_values(|v: VirtualMachine| vm_view(v)) == vm_rows(views(ls@).subrange(2, i as int)),
        decreases ls.len() - i,
    {
        assert(views(ls@).subrange(2, i + 1).drop_last() =~= views(ls@).subrange(2, i as int));
        assert(views(ls@).subrange(2, i + 1).last() == ls@[i as int]@);
        if ls[i].len() > 0 {
            let parts = words(&ls[i]);
            if parts.len() >= 3 {
                let v = VirtualMachine {
                    id: string_of(parts[0].as_slice()),
                    name: string_of(parts[1].as_slice()),
                    state: string_of(join_spaced(&parts, 2).as_slice()),
                };
                let ghost before = found@;
                found.push(v);
                assert(found@.map_values(|v: VirtualMachine| vm_view(v)) =~= before.map_values(
                    |v: VirtualMachine| vm_view(v),
                ).push(vm_view(v)));
            }
        }
        i = i + 1;
    }
    assert(views(ls@).subrange(2, i as int) =~= lines_of(output@).skip(2));
    found
}

/// The systemd units whose state the services card shows, in order.
pub fn monitored_services() -> (r: Vec<&'static str>)
    ensures
        r@.len() == 5,
        r@[0]@ == "docker.service"@,
        r@[1]@ == "libvirtd.service"@,
        r@[2]@ == "containerd.service"@,
        r@[3]@ == "NetworkManager.service"@,
        r@[4]@ == "cron.service"@,
{
    let mut r: Vec<&'static str> = Vec::new();
    r.push("docker.service");
    r.push("libvirtd.service");
    r.push("containerd.service");
    r.push("NetworkManager.service");
    r.push("cron.service");
    r
}

/// The state of a unit from what `systemctl is-active <unit>` printed: the
/// unit is named without its `.service` suffixes and is active when the
/// answer is exactly `active`.
pub fn service_status(unit: &str, is_active_output: &str) -> (r: ServiceStatus)
    ensures
        r.name@ == crate::text::strip_suffixes(unit@, ".service"@),
        r.active == (trimmed(is_active_output@) == "active"@),
{
    let name = crate::text::trim_end_matches(&chars_of(unit), ".service");
    let answer = trim(&chars_of(is_active_output));
    ServiceStatus { name: string_of(name.as_slice()), active: equals(&answer, "active") }
}

/// The services card: one status per monitored unit, from the answers of
/// `systemctl is-active` in the order of `monitored_services`.
pub fn read_services(answers: &Vec<String>) -> (r: Vec<ServiceStatus>)
    requires
        answers.len() == 5,
    ensures
        r.len() == 5,
        forall|i: int|
            0 <= i < 5 ==> (#[trigger] r@[i]).active == (trimmed(answers@[i]@) == "active"@),
        r@[0].name@ == "docker"@,
        r@[1].name@ == "libvirtd"@,
        r@[2].name@ == "containerd"@,
        r@[3].name@ == "NetworkManager"@,
        r@[4].name@ == "cron"@,
{
    let units = monitored_services();
    let mut r: Vec<ServiceStatus> = Vec::new();
    let mut i: usize = 0;
    while i < 5
        invariant
            i <= 5,
            answers.len() == 5,
            units@.len() == 5,
            r@.len() == i,
            forall|j: int| 0 <= j < i ==> #[trigger] r@[j].name@ == crate::text::strip_suffixes(units@[j]@, ".service"@),
            forall|j: int| 0 <= j < i ==> (#[trigger] r@[j]).active == (trimmed(answers@[j]@) == "active"@),
        decreases 5 - i,
    {
        r.push(service_status(units[i], answers[i].as_str()));
        i = i + 1;
    }
    proof {
        reveal_strlit("docker.service");
        reveal_strlit("libvirtd.service");
        reveal_strlit("containerd.service");
        reveal_strlit("NetworkManager.service");
        reveal_strlit("cron.service");
        reveal_strlit("docker");
        reveal_strlit("libvirtd");
        reveal_strlit("containerd");
        reveal_strlit("NetworkManager");
        reveal_strlit("cron");
        reveal_strlit(".service");
        assert(units@[0]@ =~= "docker"@ + ".service"@);
        assert(units@[1]@ =~= "libvirtd"@ + ".service"@);
        assert(units@[2]@ =~= "containerd"@ + ".service"@);
        assert(units@[3]@ =~= "NetworkManager"@ + ".service"@);
        assert(units@[4]@ =~= "cron"@ + ".service"@);
        crate::text::lemma_strip_service(units@[0]@, "docker"@);
        crate::text::lemma_strip_service(units@[1]@, "libvirtd"@);
        crate::text::lemma_strip_service(units@[2]@, "containerd"@);
        crate::text::lemma_strip_service(units@[3]@, "NetworkManager"@);
        crate::text::lemma_strip_service(units@[4]@, "cron"@);
    }
    r
}

// ── Network addresses ──────────────────────────────────────

/// Position of the first occurrence of `p` in `s`, or -1.
pub open spec fn first_index(s: Seq<char>, p: Seq<char>) -> int
    decreases s.len(),
{
    if has_prefix(s, p) {
        0
    } else if s.len() == 0 {
        -1
    } else {
        let r = first_index(s.drop_first(), p);
        if r < 0 {
            -1
        } else {
            r + 1
        }
    }
}

pub proof fn lemma_first_index(s: Seq<char>, p: Seq<char>, i: int)
    requires
        crate::text::occurs_at(s, p, i),
        forall|j: int| 0 <= j < i ==> !crate::text::occurs_at(s, p, j),
    ensures
        first_index(s, p) == i,
    decreases s.len(),
{
    if i == 0 {
        assert(s.take(p.len() as int) =~= s.subrange(0, p.len() as int));
    } else {
        assert(!has_prefix(s, p)) by {
            if has_prefix(s, p) {
                assert(s.take(p.len() as int) =~= s.subrange(0, p.len() as int));
                assert(crate::text::occurs_at(s, p, 0));
            }
        }
        let t = s.drop_first();
        assert(t.subrange(i - 1, i - 1 + p.len()) =~= s.subrange(i, i + p.len()));
        assert forall|j: int| 0 <= j < i - 1 implies !crate::text::occurs_at(t, p, j) by {
            assert(t.subrange(j, j + p.len()) =~= s.subrange(j + 1, j + 1 + p.len()));
            assert(!crate::text::occurs_at(s, p, j + 1));
        }
        lemma_first_index(t, p, i - 1);
    }
}

pub proof fn lemma_first_index_none(s: Seq<char>, p: Seq<char>)
    requires
        !has_sub(s, p),
    ensures
        first_index(s, p) == -1,
    decreases s.len(),
{
    assert(!has_prefix(s, p)) by {
        if has_prefix(s, p) {
            assert(s.take(p.len() as int) =~= s.subrange(0, p.len() as int));
            assert(crate::text::occurs_at(s, p, 0));
        }
    }
    if s.len() > 0 {
        let t = s.drop_first();
        assert(!has_sub(t, p)) by {
            if has_sub(t, p) {
                let j = choose|j: int| crate::text::occurs_at(t, p, j);
                assert(t.subrange(j, j + p.len()) =~= s.subrange(j + 1, j + 1 + p.len()));
                assert(crate::text::occurs_at(s, p, j + 1));
            }
        }
        lemma_first_index_none(t, p);
    }
}

/// Length of the address that starts `rest`: up to the first white space or `/`.
pub open spec fn address_end(rest: Seq<char>) -> int
    decreases rest.len(),
{
    if rest.len() == 0 {
        -1
    } else if crate::text::is_space(rest[0]) || rest[0] == '/' {
        0
    } else {
        let r = address_end(rest.drop_first());
        if r < 0 {
            -1
        } else {
            r + 1
        }
    }
}

/// The IPv4 address on a line `<n>: <iface> inet <address>/<prefix> ...` of
/// `ip -4 -o addr show`.
pub open spec fn address_of(line: Seq<char>) -> Option<Seq<char>> {
    let at = first_index(line, "inet "@);
    if at < 0 {
        None
    } else {
        let rest = line.skip(at + 5);
        let end = address_end(rest);
        if end < 0 {
            None
        } else {
            Some(rest.take(end))
        }
    }
}

pub open spec fn addresses(lines: Seq<Seq<char>>) -> Seq<Seq<char>>
    decreases lines.len(),
{
    if lines.len() == 0 {
        seq![]
    } else {
        let prev = addresses(lines.drop_last());
        match address_of(lines.last()) {
            Some(a) => prev.push(a),
            None => prev,
        }
    }
}

fn find_address_end(s: &Vec<char>, from: usize) -> (r: Option<usize>)
    requires
        from <= s.len(),
    ensures
        match r {
            Some(k) => from <= k < s.len() && k - from == address_end(s@.skip(from as int)),
            None => address_end(s@.skip(from as int)) < 0,
        },
    decreases s.len() - from,
{
    if from == s.len() {
        return None;
    }
    assert(s@.skip(from as int)[0] == s@[from as int]);
    assert(s@.skip(from as int).drop_first() =~= s@.skip(from + 1));
    if crate::text::is_whitespace(s[from]) || s[from] == '/' {
        Some(from)
    } else {
        find_address_end(s, from + 1)
    }
}

/// The IPv4 addresses `ip -4 -o addr show <iface>` lists.
pub fn read_iface_ips(output: &str) -> (r: Vec<String>)
    ensures
        r@.map_values(|a: String| a@) == addresses(lines_of(output@)),
{
    let ls = lines(&chars_of(output));
    let mut ips: Vec<String> = Vec::new();
    let mut i: usize = 0;
    while i < ls.len()
        invariant
            i <= ls.len(),
            views(ls@) == lines_of(output@),
            ips@.map_values(|a: String| a@) == addresses(views(ls@).take(i as int)),
        decreases ls.len() - i,
    {
        assert(views(ls@).take(i + 1).drop_last() =~= views(ls@).take(i as int));
        assert(views(ls@).take(i + 1).last() == ls@[i as int]@);
        let line = &ls[i];
        match crate::text::find(line, "inet ") {
            Some(at) => {
                proof {
                    reveal_strlit("inet ");
                    lemma_first_index(line@, "inet "@, at as int);
                }
                let n = line.len();
                assert(at + 5 <= n);
                let start = at + 5;
                match find_address_end(line, start) {
                    Some(end) => {
                        let ip = string_of(slice_chars(line, start, end).as_slice());
                        assert(ip@ =~= line@.skip(start as int).take(end - start));
                        let ghost before = ips@;
                        ips.push(ip);
                        assert(ips@.map_values(|a: String| a@) =~= before.map_values(|a: String| a@).push(ip@));
                    },
                    None => {},
                }
            },
            None => {
                proof {
                    lemma_first_index_none(line@, "inet "@);
                }
            },
        }
        i = i + 1;
    }
    assert(views(ls@).take(i as int) =~= views(ls@));
    ips
}

// ── Uptime, host name, GPU ─────────────────────────────────

#[derive(Debug, Clone, Copy)]
pub struct UptimeData {
    pub days: u64,
    pub hours: u64,
    pub minutes: u64,
}

impl Default for UptimeData {
    fn default() -> (u: Self)
        ensures
            u.days == 0 && u.hours == 0 && u.minutes == 0,
    {
        UptimeData { days: 0, hours: 0, minutes: 0 }
    }
}

/// Whole days, hours of the day and minutes of the hour of an uptime.
pub fn uptime_from_seconds(secs: u64) -> (u: UptimeData)
    ensures
        u.days == secs / 86400,
        u.hours == (secs % 86400) / 3600,
        u.minutes == (secs % 3600) / 60,
        u.days * 86400 + u.hours * 3600 + u.minutes * 60 <= secs < u.days * 86400 + u.hours * 3600
            + u.minutes * 60 + 60,
{
    let u = UptimeData { days: secs / 86400, hours: (secs % 86400) / 3600, minutes: (secs % 3600) / 60 };
    assert(u.days * 86400 + u.hours * 3600 + u.minutes * 60 <= secs < u.days * 86400 + u.hours * 3600
        + u.minutes * 60 + 60) by (nonlinear_arith)
        requires
            u.days == secs / 86400,
            u.hours == (secs % 86400) / 3600,
            u.minutes == (secs % 3600) / 60,
    ;
    u
}

/// The host name from the contents of `/etc/hostname`, or `nas` when the
/// file cannot be read.
pub fn hostname_from(contents: Option<&str>) -> (r: String)
    ensures
        r@ == match contents {
            Some(c) => trimmed(c@),
            None => "nas"@,
        },
{
    match contents {
        Some(c) => string_of(trim(&chars_of(c)).as_slice()),
        None => owned("nas"),
    }
}

/// A network interface is up when its `operstate` file reads `up`; an
/// unreadable file counts as down.
pub fn link_is_up(operstate: Option<&str>) -> (r: bool)
    ensures
        r == match operstate {
            Some(c) => trimmed(c@) == "up"@,
            None => false,
        },
{
    match operstate {
        Some(c) => equals(&trim(&chars_of(c)), "up"),
        None => false,
    }
}

/// The first line of `/proc/stat` that begins with `cpu `, the line of the
/// aggregate CPU times.
pub open spec fn first_cpu_line(lines: Seq<Seq<char>>) -> Option<Seq<char>>
    decreases lines.len(),
{
    if lines.len() == 0 {
        None
    } else if has_prefix(lines[0], "cpu "@) {
        Some(lines[0])
    } else {
        first_cpu_line(lines.drop_first())
    }
}

/// The fields of the aggregate CPU line after its label that are numbers.
pub open spec fn cpu_fields(line: Seq<char>) -> Seq<Seq<char>> {
    let ws = words_of(line);
    if ws.len() == 0 {
        seq![]
    } else {
        ws.skip(1).filter(|w: Seq<char>| crate::text::float_literal(w))
    }
}

/// The CPU time counters of `/proc/stat`, as the text of each number, or
/// none when there is no aggregate line.
pub fn cpu_time_fields(stat: &str) -> (r: Option<Vec<String>>)
    ensures
        match r {
            Some(v) => first_cpu_line(lines_of(stat@)) matches Some(l) && crate::storage::texts(v@)
                == cpu_fields(l),
            None => first_cpu_line(lines_of(stat@)) is None,
        },
{
    let ls = lines(&chars_of(stat));
    let ghost all = views(ls@);
    let mut i: usize = 0;
    assert(all.skip(0) =~= all);
    while i < ls.len()
        invariant
            i <= ls.len(),
            all == views(ls@),
            all == lines_of(stat@),
            first_cpu_line(all) == first_cpu_line(all.skip(i as int)),
        decreases ls.len() - i,
    {
        assert(all.skip(i as int)[0] == ls@[i as int]@);
        if starts_with(&ls[i], "cpu ") {
            let ws = words(&ls[i]);
            let ghost wv = views(ws@);
            let mut out: Vec<String> = Vec::new();
            if ws.len() == 0 {
                assert(crate::storage::texts(out@) =~= Seq::<Seq<char>>::empty());
                return Some(out);
            }
            let mut k: usize = 1;
            assert(wv.skip(1).take(0) =~= Seq::<Seq<char>>::empty());
            while k < ws.len()
                invariant
                    1 <= k <= ws.len(),
                    wv == views(ws@),
                    crate::storage::texts(out@) == wv.skip(1).take(k - 1).filter(
                        |w: Seq<char>| crate::text::float_literal(w),
                    ),
                decreases ws.len() - k,
            {
                proof {
                    reveal_with_fuel(Seq::<Seq<char>>::filter, 1);
                    assert(wv.skip(1).take(k as int).drop_last() =~= wv.skip(1).take(k - 1));
                    assert(wv.skip(1).take(k as int).last() == ws@[k as int]@);
                }
                if crate::text::is_float_literal(&ws[k]) {
                    let ghost before = out@;
                    out.push(string_of(ws[k].as_slice()));
                    assert(crate::storage::texts(out@) =~= crate::storage::texts(before).push(
                        ws@[k as int]@,
                    ));
                }
                k = k + 1;
            }
            assert(wv.skip(1).take(k - 1) =~= wv.skip(1));
            return Some(out);
        }
        assert(all.skip(i as int).drop_first() =~= all.skip(i + 1));
        i = i + 1;
    }
    None
}

#[derive(Debug, Clone, Copy)]
pub struct GpuData {
    pub freq_mhz: Option<u32>,
}

impl Default for GpuData {
    fn default() -> (g: Self)
        ensures
            g.freq_mhz is None,
    {
        GpuData { freq_mhz: None }
    }
}

/// The GPU clock from the contents of `gt_cur_freq_mhz`, when they are a number.
pub fn gpu_from(contents: Option<&str>) -> (g: GpuData)
    ensures
        match contents {
            Some(c) => match crate::text::int_literal(trimmed(c@), 10, 0, u32::MAX as int) {
                Some(v) => g.freq_mhz == Some(v as u32),
                None => g.freq_mhz is None,
            },
            None => g.freq_mhz is None,
        },
{
    match contents {
        Some(c) => GpuData { freq_mhz: crate::text::parse_u32(&trim(&chars_of(c))) },
        None => GpuData { freq_mhz: None },
    }
}

// ── Memory and network counters ────────────────────────────

pub open spec fn i64_literal(s: Seq<char>) -> Option<int> {
    crate::text::int_literal(s, 10, i64::MIN as int, i64::MAX as int)
}

/// A line `<key>: <value> kB` of `/proc/meminfo`, when its value is a number.
pub open spec fn meminfo_entry(line: Seq<char>) -> Option<(Seq<char>, int)> {
    let k = crate::text::index_of(line, ':');
    if k >= line.len() {
        None
    } else {
        let key = trimmed(line.take(k));
        let value = trimmed(crate::text::remove_all(trimmed(line.skip(k + 1)), " kB"@));
        match i64_literal(value) {
            Some(n) => Some((key, n)),
            None => None,
        }
    }
}

pub open spec fn meminfo_entries(lines: Seq<Seq<char>>) -> Seq<(Seq<char>, int)>
    decreases lines.len(),
{
    if lines.len() == 0 {
        seq![]
    } else {
        let prev = meminfo_entries(lines.drop_last());
        match meminfo_entry(lines.last()) {
            Some(e) => prev.push(e),
            None => prev,
        }
    }
}

/// The value a key-value listing holds for `key`: its last entry.
pub open spec fn lookup(entries: Seq<(Seq<char>, int)>, key: Seq<char>) -> Option<int>
    decreases entries.len(),
{
    if entries.len() == 0 {
        None
    } else if entries.last().0 == key {
        Some(entries.last().1)
    } else {
        lookup(entries.drop_last(), key)
    }
}

pub open spec fn entry_view(e: (String, i64)) -> (Seq<char>, int) {
    (e.0@, e.1 as int)
}

fn split_key_value(line: &Vec<char>) -> (r: Option<(Vec<char>, Vec<char>)>)
    ensures
        ({
            let k = crate::text::index_of(line@, ':');
            match r {
                Some(kv) => k < line@.len() && kv.0@ == line@.take(k) && kv.1@ == line@.skip(k + 1),
                None => k >= line@.len(),
            }
        }),
{
    let k = crate::text::find_char(line, 0, ':');
    assert(line@.skip(0) =~= line@);
    if k == line.len() {
        None
    } else {
        assert(line@.subrange(0, k as int) =~= line@.take(k as int));
        assert(line@.subrange(k + 1, line.len() as int) =~= line@.skip(k + 1));
        Some((slice_chars(line, 0, k), slice_chars(line, k + 1, line.len())))
    }
}

/// The numeric entries of `/proc/meminfo`, in order.
pub fn read_meminfo(contents: &str) -> (r: Vec<(String, i64)>)
    ensures
        r@.map_values(|e: (String, i64)| entry_view(e)) == meminfo_entries(lines_of(contents@)),
{
    let ls = lines(&chars_of(contents));
    let mut found: Vec<(String, i64)> = Vec::new();
    let mut i: usize = 0;
    while i < ls.len()
        invariant
            i <= ls.len(),
            views(ls@) == lines_of(contents@),
            found@.map_values(|e: (String, i64)| entry_view(e)) == meminfo_entries(views(ls@).take(i as int)),
        decreases ls.len() - i,
    {
        assert(views(ls@).take(i + 1).drop_last() =~= views(ls@).take(i as int));
        assert(views(ls@).take(i + 1).last() == ls@[i as int]@);
        match split_key_value(&ls[i]) {
            Some((key, rest)) => {
                let value = trim(&crate::text::remove_all_str(&trim(&rest), " kB"));
                match crate::text::parse_i64(&value) {
                    Some(n) => {
                        let e = (string_of(trim(&key).as_slice()), n);
                        let ghost before = found@;
                        found.push(e);
                        assert(found@.map_values(|e: (String, i64)| entry_view(e)) =~= before.map_values(
                            |e: (String, i64)| entry_view(e),
                        ).push(entry_view(e)));
                    },
                    None => {},
                }
            },
            None => {},
        }
        i = i + 1;
    }
    assert(views(ls@).take(i as int) =~= views(ls@));
    found
}

fn find_entry(entries: &Vec<(String, i64)>, key: &str) -> (r: Option<i64>)
    ensures
        match r {
            Some(v) => lookup(entries@.map_values(|e: (String, i64)| entry_view(e)), key@) == Some(v as int),
            None => lookup(entries@.map_values(|e: (String, i64)| entry_view(e)), key@) is None,
        },
{
    let ghost all = entries@.map_values(|e: (String, i64)| entry_view(e));
    let mut j: usize = entries.len();
    assert(all.take(j as int) =~= all);
    while j > 0
        invariant
            j <= entries.len(),
            all == entries@.map_values(|e: (String, i64)| entry_view(e)),
            lookup(all, key@) == lookup(all.take(j as int), key@),
        decreases j,
    {
        let k = chars_of(entries[j - 1].0.as_str());
        assert(all.take(j as int).last() == entry_view(entries@[j - 1]));
        if equals(&k, key) {
            return Some(entries[j - 1].1);
        }
        assert(all.take(j as int).drop_last() =~= all.take(j - 1));
        j = j - 1;
    }
    None
}

pub open spec fn or_zero(v: Option<int>) -> int {
    match v {
        Some(x) => x,
        None => 0,
    }
}

pub open spec fn sat64(v: int) -> int {
    if v > i64::MAX {
        i64::MAX as int
    } else if v < i64::MIN {
        i64::MIN as int
    } else {
        v
    }
}

/// Available memory: `MemAvailable`, or free plus buffers plus page cache on
/// kernels that do not report it.
pub open spec fn available_kb(entries: Seq<(Seq<char>, int)>) -> int {
    let avail = or_zero(lookup(entries, "MemAvailable"@));
    if avail > 0 {
        avail
    } else {
        or_zero(lookup(entries, "MemFree"@)) + or_zero(lookup(entries, "Buffers"@)) + or_zero(
            lookup(entries, "Cached"@),
        )
    }
}

/// Total and used memory in kB from the entries of `/proc/meminfo`.
pub fn memory_kb(entries: &Vec<(String, i64)>) -> (r: (i64, i64))
    ensures
        ({
            let e = entries@.map_values(|e: (String, i64)| entry_view(e));
            r.0 == or_zero(lookup(e, "MemTotal"@)) && r.1 == sat64(r.0 - available_kb(e))
        }),
{
    let total = match find_entry(entries, "MemTotal") {
        Some(v) => v,
        None => 0,
    };
    let avail = match find_entry(entries, "MemAvailable") {
        Some(v) => v,
        None => 0,
    };
    let avail: i128 = if avail > 0 {
        avail as i128
    } else {
        let free = match find_entry(entries, "MemFree") {
            Some(v) => v,
            None => 0,
        };
        let buffers = match find_entry(entries, "Buffers") {
            Some(v) => v,
            None => 0,
        };
        let cached = match find_entry(entries, "Cached") {
            Some(v) => v,
            None => 0,
        };
        free as i128 + buffers as i128 + cached as i128
    };
    let used = total as i128 - avail;
    let used: i64 = if used > i64::MAX as i128 {
        i64::MAX
    } else if used < i64::MIN as i128 {
        i64::MIN
    } else {
        used as i64
    };
    (total, used)
}

/// A line `<iface>: <rx bytes> ... <tx bytes> ...` of `/proc/net/dev`; a
/// counter that is not a number reads as 0.
pub open spec fn net_dev_entry(line: Seq<char>) -> Option<(Seq<char>, int, int)> {
    let k = crate::text::index_of(line, ':');
    if k >= line.len() {
        None
    } else {
        let fields = words_of(line.skip(k + 1));
        if fields.len() < 9 {
            None
        } else {
            Some((trimmed(line.take(k)), or_zero(i64_literal(fields[0])), or_zero(i64_literal(fields[8]))))
        }
    }
}

pub open spec fn net_dev_entries(lines: Seq<Seq<char>>) -> Seq<(Seq<char>, int, int)>
    decreases lines.len(),
{
    if lines.len() == 0 {
        seq![]
    } else {
        let prev = net_dev_entries(lines.drop_last());
        match net_dev_entry(lines.last()) {
            Some(e) => prev.push(e),
            None => prev,
        }
    }
}

pub open spec fn counter_view(e: (String, i64, i64)) -> (Seq<char>, int, int) {
    (e.0@, e.1 as int, e.2 as int)
}

fn i64_or_zero(s: &Vec<char>) -> (r: i64)
    ensures
        r == or_zero(i64_literal(s@)),
{
    match crate::text::parse_i64(s) {
        Some(v) => v,
        None => 0,
    }
}

/// The received and transmitted byte counters of each interface in
/// `/proc/net/dev`, in order.
pub fn read_net_dev(contents: &str) -> (r: Vec<(String, i64, i64)>)
    ensures
        r@.map_values(|e: (String, i64, i64)| counter_view(e)) == net_dev_entries(lines_of(contents@)),
{
    let ls = lines(&chars_of(contents));
    let mut found: Vec<(String, i64, i64)> = Vec::new();
    let mut i: usize = 0;
    while i < ls.len()
        invariant
            i <= ls.len(),
            views(ls@) == lines_of(contents@),
            found@.map_values(|e: (String, i64, i64)| counter_view(e)) == net_dev_entries(
                views(ls@).take(i as int),
            ),
        decreases ls.len() - i,
    {
        assert(views(ls@).take(i + 1).drop_last() =~= views(ls@).take(i as int));
        assert(views(ls@).take(i + 1).last() == ls@[i as int]@);
        match split_key_value(&ls[i]) {
            Some((name, rest)) => {
                let fields = words(&rest);
                if fields.len() >= 9 {
                    let e = (string_of(trim(&name).as_slice()), i64_or_zero(&fields[0]), i64_or_zero(&fields[8]));
                    let ghost before = found@;
                    found.push(e);
                    assert(found@.map_values(|e: (String, i64, i64)| counter_view(e)) =~= before.map_values(
                        |e: (String, i64, i64)| counter_view(e),
                    ).push(counter_view(e)));
                }
            },
            None => {},
        }
        i = i + 1;
    }
    assert(views(ls@).take(i as int) =~= views(ls@));
    found
}

// ── eMMC wear ──────────────────────────────────────────────

/// The value of a token `0x<hex>` of an EXT_CSD `life_time` file.
pub open spec fn life_token(tok: Seq<char>) -> Option<int> {
    crate::text::int_literal(strip_prefixes(tok, "0x"@), 16, 0, u32::MAX as int)
}

/// The largest estimate among the tokens, 0 when none parses.
pub open spec fn worst_estimate(toks: Seq<Seq<char>>) -> int
    decreases toks.len(),
{
    if toks.len() == 0 {
        0
    } else {
        let prev = worst_estimate(toks.drop_last());
        match life_token(toks.last()) {
            Some(v) => if v > prev {
                v
            } else {
                prev
            },
            None => prev,
        }
    }
}

/// Percentage of rated life consumed: estimate `n` (0x0..=0xB) stands for
/// `n * 10 ..= (n + 1) * 10`; a larger estimate gives no range.
pub open spec fn life_range_of(text: Seq<char>) -> Option<(u32, u32)> {
    let w = worst_estimate(words_of(text));
    if w <= 0x0B {
        Some(((w * 10) as u32, ((w + 1) * 10) as u32))
    } else {
        None
    }
}

/// The consumed-life range from the contents of the eMMC `life_time` file.
pub fn emmc_life_range(life_time: &str) -> (r: Option<(u32, u32)>)
    ensures
        r == life_range_of(life_time@),
{
    let toks = words(&chars_of(life_time));
    let mut worst: u32 = 0;
    let mut i: usize = 0;
    while i < toks.len()
        invariant
            i <= toks.len(),
            worst == worst_estimate(views(toks@).take(i as int)),
        decreases toks.len() - i,
    {
        assert(views(toks@).take(i + 1).drop_last() =~= views(toks@).take(i as int));
        assert(views(toks@).take(i + 1).last() == toks@[i as int]@);
        let digits = trim_start_matches(&toks[i], "0x");
        match crate::text::parse_hex_u32(&digits) {
            Some(v) => {
                if v > worst {
                    worst = v;
                }
            },
            None => {},
        }
        i = i + 1;
    }
    assert(views(toks@).take(i as int) =~= views(toks@));
    if worst <= 0x0B {
        Some((worst * 10, (worst + 1) * 10))
    } else {
        None
    }
}

/// The health flag from the contents of the eMMC `pre_eol_info` file:
/// 0x01 normal, 0x02 warning, 0x03 urgent; any other value keeps `prior`.
pub fn emmc_health(pre_eol_info: &str, prior: Option<String>) -> (r: Option<String>)
    ensures
        ({
            let v = trimmed(pre_eol_info@);
            match r {
                Some(h) => if v == "0x01"@ || v == "0x1"@ {
                    h@ == "PASSED"@
                } else if v == "0x02"@ || v == "0x2"@ {
                    h@ == "WARNING"@
                } else if v == "0x03"@ || v == "0x3"@ {
                    h@ == "FAILED"@
                } else {
                    prior == Some(h)
                },
                None => !(v == "0x01"@ || v == "0x1"@ || v == "0x02"@ || v == "0x2"@ || v == "0x03"@
                    || v == "0x3"@) && prior is None,
            }
        }),
{
    let v = trim(&chars_of(pre_eol_info));
    if equals(&v, "0x01") || equals(&v, "0x1") {
        Some(owned("PASSED"))
    } else if equals(&v, "0x02") || equals(&v, "0x2") {
        Some(owned("WARNING"))
    } else if equals(&v, "0x03") || equals(&v, "0x3") {
        Some(owned("FAILED"))
    } else {
        prior
    }
}

/// The title of an eMMC disk: `lsblk` gives MMC devices no model, so when
/// the model is just the device name the part number from sysfs is used.
pub fn emmc_model(model: &str, name: &str, part_number: Option<&str>) -> (r: String)
    ensures
        r@ == if model@ == name@ {
            match part_number {
                Some(p) => if trimmed(p@).len() > 0 {
                    trimmed(p@)
                } else {
                    model@
                },
                None => model@,
            }
        } else {
            model@
        },
{
    let m = chars_of(model);
    if equals(&m, name) {
        match part_number {
            Some(p) => {
                let t = trim(&chars_of(p));
                if t.len() > 0 {
                    return string_of(t.as_slice());
                }
            },
            None => {},
        }
    }
    owned(model)
}

} // verus!
