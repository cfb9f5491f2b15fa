//! Drive classification and resource tuning.
//!
//! The classifier picks the mount that owns a path (longest matching
//! prefix, later ties winning) and maps its filesystem tag and reported
//! kind to a drive type; network filesystems are recognized by tag. The
//! governor turns a drive type, the available threads, and the process's
//! file-descriptor budget into a worker count and a walk mode, and the
//! network-probe rules turn measured IOPS and latency into a cached label
//! and a worker count.

use vstd::prelude::*;

use crate::chars::{chars_eq_str, chars_of, chars_start_with, starts_with_spec, string_of};

verus! {

/// Drive type for performance tuning.
#[derive(Clone, Copy, Debug, PartialEq, Eq, Structural)]
pub enum DriveType {
    SSD,
    HDD,
    Network,
    Unknown,
}

/// Thread limits for drive-type-based tuning.
#[derive(Clone, Copy, Debug)]
pub struct WorkerThreadLimits {
    /// Available threads (from the global thread pool).
    pub all_threads: usize,
    /// Max threads for a spinning disk.
    pub hdd_max: usize,
    /// Floor / minimum for network or unknown drives.
    pub floor: usize,
    /// Max threads when the drive type is unknown.
    pub unknown_max: usize,
    /// Max threads for a fast network mount.
    pub network_max: usize,
}

impl WorkerThreadLimits {
    pub const HDD_THREADS: usize = 4;

    pub const FLOOR_THREADS: usize = 2;

    pub const UNKNOWN_MAX_THREADS: usize = 8;

    pub const NETWORK_MAX_THREADS: usize = 12;
}

impl Default for WorkerThreadLimits {
    /// The standard limits, with no available-thread count filled in.
    fn default() -> (r: WorkerThreadLimits)
        ensures
            r.all_threads == 0,
            r.hdd_max == WorkerThreadLimits::HDD_THREADS,
            r.floor == WorkerThreadLimits::FLOOR_THREADS,
            r.unknown_max == WorkerThreadLimits::UNKNOWN_MAX_THREADS,
            r.network_max == WorkerThreadLimits::NETWORK_MAX_THREADS,
    {
        WorkerThreadLimits {
            all_threads: 0,
            hdd_max: WorkerThreadLimits::HDD_THREADS,
            floor: WorkerThreadLimits::FLOOR_THREADS,
            unknown_max: WorkerThreadLimits::UNKNOWN_MAX_THREADS,
            network_max: WorkerThreadLimits::NETWORK_MAX_THREADS,
        }
    }
}

/// Relies on rayon::current_num_threads: the number of threads of the
/// current thread pool.
#[verifier::external_body]
fn rayon_threads() -> usize {
    rayon::current_num_threads()
}

impl WorkerThreadLimits {
    /// The standard limits, with `all_threads` filled from the global
    /// thread pool.
    pub fn current() -> (r: WorkerThreadLimits)
        ensures
            r.hdd_max == WorkerThreadLimits::HDD_THREADS,
            r.floor == WorkerThreadLimits::FLOOR_THREADS,
            r.unknown_max == WorkerThreadLimits::UNKNOWN_MAX_THREADS,
            r.network_max == WorkerThreadLimits::NETWORK_MAX_THREADS,
    {
        let threads = rayon_threads();
        WorkerThreadLimits {
            all_threads: threads,
            hdd_max: WorkerThreadLimits::HDD_THREADS,
            floor: WorkerThreadLimits::FLOOR_THREADS,
            unknown_max: WorkerThreadLimits::UNKNOWN_MAX_THREADS,
            network_max: WorkerThreadLimits::NETWORK_MAX_THREADS,
        }
    }
}

impl DriveType {
    /// The worker thread count for this drive type: everything for an SSD,
    /// a small cap for a spinning disk, the floor for a network mount, and
    /// the floor when the drive kind is unknown.
    pub fn worker_threads(&self, available_threads: usize) -> (r: usize)
        ensures
            *self is SSD ==> r == available_threads,
            *self is HDD ==> r == if available_threads <= WorkerThreadLimits::HDD_THREADS {
                available_threads
            } else {
                WorkerThreadLimits::HDD_THREADS
            },
            *self is Network ==> r == WorkerThreadLimits::FLOOR_THREADS,
            *self is Unknown ==> r == if available_threads
                <= WorkerThreadLimits::FLOOR_THREADS {
                available_threads
            } else {
                WorkerThreadLimits::FLOOR_THREADS
            },
    {
        match self {
            DriveType::SSD => available_threads,
            DriveType::HDD => {
                if available_threads <= WorkerThreadLimits::HDD_THREADS {
                    available_threads
                } else {
                    WorkerThreadLimits::HDD_THREADS
                }
            },
            DriveType::Network => WorkerThreadLimits::FLOOR_THREADS,
            DriveType::Unknown => {
                if available_threads <= WorkerThreadLimits::FLOOR_THREADS {
                    available_threads
                } else {
                    WorkerThreadLimits::FLOOR_THREADS
                }
            },
        }
    }

    pub fn is_hdd(&self) -> (r: bool)
        ensures
            r == (*self is HDD),
    {
        match self {
            DriveType::HDD => true,
            _ => false,
        }
    }

    pub fn is_ssd(&self) -> (r: bool)
        ensures
            r == (*self is SSD),
    {
        match self {
            DriveType::SSD => true,
            _ => false,
        }
    }

    pub fn is_network(&self) -> (r: bool)
        ensures
            r == (*self is Network),
    {
        match self {
            DriveType::Network => true,
            _ => false,
        }
    }

    /// Parse a cached disk-type label (e.g. "Network+HDD", "Network+SSD").
    pub fn from_disk_type_str(s: &str) -> (r: DriveType)
        ensures
            contains_seq(s@, "HDD"@) ==> r is HDD,
            !contains_seq(s@, "HDD"@) && contains_seq(s@, "SSD"@) ==> r is SSD,
            !contains_seq(s@, "HDD"@) && !contains_seq(s@, "SSD"@) ==> r is Unknown,
    {
        let v = chars_of(s);
        if contains_sub_str(&v, "HDD") {
            DriveType::HDD
        } else if contains_sub_str(&v, "SSD") {
            DriveType::SSD
        } else {
            DriveType::Unknown
        }
    }
}

/// `needle` occurs contiguously somewhere in `hay`.
pub open spec fn contains_seq(hay: Seq<char>, needle: Seq<char>) -> bool {
    exists|i: int|
        0 <= i && i + needle.len() <= hay.len() && #[trigger] hay.subrange(i, i + needle.len())
            == needle
}

/// Whether `needle` matches `hay` at offset `i`.
fn match_at(hay: &Vec<char>, needle: &Vec<char>, i: usize) -> (r: bool)
    requires
        i + needle@.len() <= hay@.len(),
    ensures
        r == (hay@.subrange(i as int, i as int + needle@.len() as int) == needle@),
{
    let hay_len = hay.len();
    let mut k: usize = 0;
    while k < needle.len()
        invariant
            hay_len == hay@.len(),
            i + needle@.len() <= hay@.len(),
            k <= needle@.len(),
            forall|l: int| 0 <= l < k ==> hay@[i + l] == needle@[l],
        decreases needle@.len() - k,
    {
        if hay[i + k] != needle[k] {
            assert(hay@.subrange(i as int, i as int + needle@.len() as int)[k as int]
                != needle@[k as int]);
            return false;
        }
        k = k + 1;
    }
    assert(hay@.subrange(i as int, i as int + needle@.len() as int) =~= needle@);
    true
}

/// Whether the characters of `needle` occur contiguously in `hay`.
pub fn contains_sub(hay: &Vec<char>, needle: &Vec<char>) -> (r: bool)
    ensures
        r == contains_seq(hay@, needle@),
{
    if needle.len() == 0 {
        assert(hay@.subrange(0, 0 + needle@.len() as int) =~= needle@);
        return true;
    }
    if needle.len() > hay.len() {
        assert(!contains_seq(hay@, needle@));
        return false;
    }
    let limit = hay.len() - needle.len();
    let mut i: usize = 0;
    while i <= limit
        invariant
            1 <= needle@.len() <= hay@.len(),
            limit == hay@.len() - needle@.len(),
            limit < hay@.len(),
            hay@.len() <= usize::MAX,
            i <= limit + 1,
            forall|j: int|
                0 <= j < i ==> #[trigger] hay@.subrange(j, j + needle@.len()) != needle@,
        decreases limit + 1 - i,
    {
        if match_at(hay, needle, i) {
            assert(hay@.subrange(i as int, i as int + needle@.len() as int) == needle@);
            return true;
        }
        i = i + 1;
    }
    assert forall|j: int| 0 <= j && j + needle@.len() <= hay@.len() implies #[trigger] hay@.subrange(
        j,
        j + needle@.len(),
    ) != needle@ by {
        assert(j <= limit);
    }
    false
}

/// Whether the characters of the literal `needle` occur in `hay`.
fn contains_sub_str(hay: &Vec<char>, needle: &str) -> (r: bool)
    ensures
        r == contains_seq(hay@, needle@),
{
    contains_sub(hay, &chars_of(needle))
}

/// The ASCII-lowercase image of a character.
pub open spec fn ascii_lower_char(c: char) -> char {
    if 'A' <= c <= 'Z' {
        ((c as u8) + 32) as char
    } else {
        c
    }
}

/// The ASCII-lowercase image of a string.
pub open spec fn ascii_lower(s: Seq<char>) -> Seq<char> {
    s.map_values(|c: char| ascii_lower_char(c))
}

/// Lowercase the ASCII letters of a string.
pub fn to_ascii_lower(s: &str) -> (r: Vec<char>)
    ensures
        r@ == ascii_lower(s@),
{
    let v = chars_of(s);
    let mut out: Vec<char> = Vec::new();
    let mut i: usize = 0;
    while i < v.len()
        invariant
            v@ == s@,
            i <= v@.len(),
            out@ == ascii_lower(s@.subrange(0, i as int)),
        decreases v@.len() - i,
    {
        let c = v[i];
        if 'A' <= c && c <= 'Z' {
            out.push(((c as u8) + 32) as char);
        } else {
            out.push(c);
        }
        assert(out@ =~= ascii_lower(s@.subrange(0, i + 1 as int)));
        i = i + 1;
    }
    assert(s@.subrange(0, s@.len() as int) =~= s@);
    out
}

/// A filesystem tag names network storage when its lowercase form contains
/// one of the network filesystem names.
pub open spec fn network_fs_spec(fs_type: Seq<char>) -> bool {
    let lower = ascii_lower(fs_type);
    ||| contains_seq(lower, "nfs"@)
    ||| contains_seq(lower, "smb"@)
    ||| contains_seq(lower, "cifs"@)
    ||| contains_seq(lower, "smbfs"@)
    ||| contains_seq(lower, "afp"@)
    ||| contains_seq(lower, "afpfs"@)
    ||| contains_seq(lower, "webdav"@)
}

/// Check if a filesystem tag indicates network storage.
pub fn is_network_fs(fs_type: &str) -> (r: bool)
    ensures
        r == network_fs_spec(fs_type@),
{
    let lower = to_ascii_lower(fs_type);
    contains_sub_str(&lower, "nfs") || contains_sub_str(&lower, "smb") || contains_sub_str(
        &lower,
        "cifs",
    ) || contains_sub_str(&lower, "smbfs") || contains_sub_str(&lower, "afp") || contains_sub_str(
        &lower,
        "afpfs",
    ) || contains_sub_str(&lower, "webdav")
}

/// Check if a mount point names a network share (`\\server\share` or
/// `//server/share`).
pub fn is_network_mount(mount: &str) -> (r: bool)
    ensures
        r == (starts_with_spec(mount@, "\\\\"@) || starts_with_spec(mount@, "//"@)),
{
    let v = chars_of(mount);
    chars_start_with(&v, &chars_of("\\\\")) || chars_start_with(&v, &chars_of("//"))
}


/// What the OS reports about the device behind a mount.
#[derive(Clone, Copy, Debug, PartialEq, Eq, Structural)]
pub enum MountKind {
    Hdd,
    Ssd,
    Other,
}

/// One mount point as enumerated by the OS: where it is mounted, its
/// filesystem tag, the device name, and the reported device kind.
#[derive(Clone, Debug)]
pub struct MountInfo {
    pub mount_point: String,
    pub fs_type: String,
    pub device_name: String,
    pub kind: MountKind,
}

/// The outcome of classifying a path against the mount table: either a
/// drive type, or the device whose rotational flag must be read to decide
/// between HDD and SSD.
#[derive(Clone, Debug)]
pub enum MountClassification {
    Decided(DriveType),
    CheckRotational(String),
}

/// A mount owns a path when its mount point is a textual prefix of it.
pub open spec fn mount_matches(path: Seq<char>, m: MountInfo) -> bool {
    starts_with_spec(path, m.mount_point@)
}

/// What one mount's tags say about its drive: a network filesystem tag or a
/// `\\\\server` / `//server` mount point wins, then the reported device
/// kind; an unknown kind defers to the device's rotational flag.
pub open spec fn resolve_mount_spec(m: MountInfo) -> MountClassification {
    if network_fs_spec(m.fs_type@) || starts_with_spec(m.mount_point@, "\\\\"@)
        || starts_with_spec(m.mount_point@, "//"@) {
        MountClassification::Decided(DriveType::Network)
    } else {
        match m.kind {
            MountKind::Hdd => MountClassification::Decided(DriveType::HDD),
            MountKind::Ssd => MountClassification::Decided(DriveType::SSD),
            MountKind::Other => MountClassification::CheckRotational(m.device_name),
        }
    }
}

/// Classify a path against the mount table: among the mounts whose mount
/// point is a prefix of the path, the one with the longest mount point wins
/// (the last such when tied); with no owning mount the drive is unknown.
pub fn classify_from_mounts(path: &str, mounts: &Vec<MountInfo>) -> (r: MountClassification)
    ensures
        (forall|j: int| 0 <= j < mounts@.len() ==> !mount_matches(path@, #[trigger] mounts@[j]))
            ==> r == MountClassification::Decided(DriveType::Unknown),
        (exists|j: int| 0 <= j < mounts@.len() && mount_matches(path@, #[trigger] mounts@[j]))
            ==> exists|b: int|
            {
                &&& 0 <= b < mounts@.len()
                &&& mount_matches(path@, #[trigger] mounts@[b])
                &&& forall|j: int|
                    0 <= j < mounts@.len() && mount_matches(path@, #[trigger] mounts@[j])
                        ==> mounts@[j].mount_point@.len() <= mounts@[b].mount_point@.len() && (j > b
                        ==> mounts@[j].mount_point@.len() < mounts@[b].mount_point@.len())
                &&& r == resolve_mount_spec(mounts@[b])
            },
{
    let p = chars_of(path);
    let mut best: Option<usize> = None;
    let mut best_len: usize = 0;
    let mut i: usize = 0;
    while i < mounts.len()
        invariant
            p@ == path@,
            i <= mounts@.len(),
            match best {
                Some(b) => {
                    &&& b < i
                    &&& mount_matches(path@, mounts@[b as int])
                    &&& best_len == mounts@[b as int].mount_point@.len()
                    &&& forall|j: int|
                        0 <= j < i && mount_matches(path@, #[trigger] mounts@[j])
                            ==> mounts@[j].mount_point@.len() <= best_len && (j > b
                            ==> mounts@[j].mount_point@.len() < best_len)
                },
                None => forall|j: int|
                    0 <= j < i ==> !mount_matches(path@, #[trigger] mounts@[j]),
            },
        decreases mounts@.len() - i,
    {
        let m = &mounts[i];
        let mp = chars_of(m.mount_point.as_str());
        if chars_start_with(&p, &mp) {
            let take = match best {
                Some(_) => mp.len() >= best_len,
                None => true,
            };
            if take {
                best = Some(i);
                best_len = mp.len();
            }
        }
        i = i + 1;
    }
    match best {
        Some(b) => {
            let m = &mounts[b];
            if is_network_fs(m.fs_type.as_str()) || is_network_mount(m.mount_point.as_str()) {
                MountClassification::Decided(DriveType::Network)
            } else {
                match m.kind {
                    MountKind::Hdd => MountClassification::Decided(DriveType::HDD),
                    MountKind::Ssd => MountClassification::Decided(DriveType::SSD),
                    MountKind::Other => MountClassification::CheckRotational(
                        clone_string(&m.device_name),
                    ),
                }
            }
        },
        None => MountClassification::Decided(DriveType::Unknown),
    }
}

/// Copy a string.
fn clone_string(s: &String) -> (r: String)
    ensures
        r == *s,
{
    s.clone()
}

/// Map the contents of a device's rotational flag (as read from the OS,
/// trimmed) to a drive type: `1` means a spinning disk, anything else a
/// solid-state one.
pub fn rotational_to_drive(flag: &str) -> (r: DriveType)
    ensures
        flag@ == "1"@ ==> r is HDD,
        flag@ != "1"@ ==> r is SSD,
{
    let v = chars_of(flag);
    if chars_eq_str(&v, "1") {
        DriveType::HDD
    } else {
        DriveType::SSD
    }
}

/// The base device of a partition name: an `nvme...` name is cut before its
/// first `p`-digit partition suffix, any other name loses its trailing
/// digits.
pub open spec fn base_device_spec(dev: Seq<char>) -> Seq<char>
    decreases dev.len(),
{
    if starts_with_spec(dev, "nvme"@) {
        nvme_base_spec(dev, 4)
    } else if dev.len() > 0 && '0' <= dev[dev.len() - 1] <= '9' {
        base_device_spec(dev.drop_last())
    } else {
        dev
    }
}

/// The prefix of an nvme device name up to (not including) the first `p` at
/// or after position `from`.
pub open spec fn nvme_base_spec(dev: Seq<char>, from: int) -> Seq<char>
    decreases dev.len() - from,
{
    if from < 0 || from >= dev.len() {
        dev
    } else if dev[from] == 'p' {
        dev.subrange(0, from)
    } else {
        nvme_base_spec(dev, from + 1)
    }
}

/// Strip the partition suffix from a device name: `sda1` becomes `sda`,
/// `nvme0n1p1` becomes `nvme0n1`.
pub fn base_device_name(dev: &str) -> (r: String)
    ensures
        r@ == base_device_spec(dev@),
{
    let v = chars_of(dev);
    proof {
        reveal_strlit("nvme");
    }
    if chars_start_with(&v, &chars_of("nvme")) {
        let mut from: usize = 4;
        while from < v.len() && v[from] != 'p'
            invariant
                v@ == dev@,
                4 <= from <= v@.len(),
                nvme_base_spec(dev@, 4) == nvme_base_spec(dev@, from as int),
            decreases v@.len() - from,
        {
            from = from + 1;
        }
        let mut out: Vec<char> = Vec::new();
        let mut i: usize = 0;
        while i < from
            invariant
                v@ == dev@,
                from <= v@.len(),
                i <= from,
                out@ == dev@.subrange(0, i as int),
            decreases from - i,
        {
            out.push(v[i]);
            assert(out@ =~= dev@.subrange(0, i + 1 as int));
            i = i + 1;
        }
        if from == v.len() {
            assert(out@ =~= dev@);
        }
        string_of(&out)
    } else {
        let mut end: usize = v.len();
        assert(dev@.subrange(0, dev@.len() as int) =~= dev@);
        while end > 0 && '0' <= v[end - 1] && v[end - 1] <= '9'
            invariant
                v@ == dev@,
                end <= v@.len(),
                base_device_spec(dev@) == base_device_spec(dev@.subrange(0, end as int)),
                !starts_with_spec(dev@.subrange(0, end as int), "nvme"@),
            decreases end,
        {
            proof {
                reveal_strlit("nvme");
                let cur = dev@.subrange(0, end as int);
                let shorter = dev@.subrange(0, end - 1);
                assert(cur.drop_last() =~= shorter);
                assert(!starts_with_spec(shorter, "nvme"@)) by {
                    if starts_with_spec(shorter, "nvme"@) {
                        assert(shorter.len() >= 4);
                        assert(cur.subrange(0, 4) =~= shorter.subrange(0, 4));
                        assert(starts_with_spec(cur, "nvme"@));
                    }
                }
            }
            end = end - 1;
        }
        let mut out: Vec<char> = Vec::new();
        let mut i: usize = 0;
        while i < end
            invariant
                v@ == dev@,
                end <= v@.len(),
                i <= end,
                out@ == dev@.subrange(0, i as int),
            decreases end - i,
        {
            out.push(v[i]);
            assert(out@ =~= dev@.subrange(0, i + 1 as int));
            i = i + 1;
        }
        proof {
            let cur = dev@.subrange(0, end as int);
            if end == 0 {
                assert(cur =~= Seq::<char>::empty());
            } else {
                assert(cur[end - 1] == dev@[end - 1]);
            }
            assert(base_device_spec(cur) == cur);
        }
        string_of(&out)
    }
}


/// Network probe tuning constants.
pub struct ProbeConsts;

impl ProbeConsts {
    /// Number of small files the probe writes and reads back.
    pub const NUM_FILES: usize = 50;

    /// Size of each probe file (bytes).
    pub const FILE_SIZE: usize = 1024;

    /// Measured IOPS below this mean a spinning disk behind the mount.
    pub const IOPS_HDD_THRESHOLD: u64 = 150;

    /// Number of stat calls for the latency measurement.
    pub const NUM_LATENCY_SAMPLES: usize = 20;

    /// Average latency above this (microseconds) is high.
    pub const LATENCY_HIGH_US: u64 = 10000;

    /// Average latency above this (microseconds) is raised.
    pub const LATENCY_MED_US: u64 = 5000;
}

/// A cached probe record: the permanent disk-type label with the measured
/// IOPS, and when it was taken. The per-run latency is measured fresh.
#[derive(Clone, Debug)]
pub struct DiskTypeRecord {
    pub drive_type: String,
    pub random_iops: u64,
    pub tested_at: u64,
}

/// The disk-type label the probe stores for a network mount: spinning
/// behavior below the IOPS threshold, solid-state at or above it.
pub fn probe_disk_label(iops: u64) -> (r: String)
    ensures
        iops < ProbeConsts::IOPS_HDD_THRESHOLD ==> r@ == "Network+HDD"@,
        iops >= ProbeConsts::IOPS_HDD_THRESHOLD ==> r@ == "Network+SSD"@,
{
    if iops < ProbeConsts::IOPS_HDD_THRESHOLD {
        String::from_str("Network+HDD")
    } else {
        String::from_str("Network+SSD")
    }
}

/// The worker count a probed network mount gets, from the disk behavior and
/// the measured latency (microseconds): spinning disks get the floor under
/// high latency, one below their cap under raised latency, and their cap
/// otherwise; solid-state mounts get the spinning cap, the unknown cap, and
/// the network cap on the same ladder.
pub fn calculate_workers(is_hdd: bool, latency_us: u64, limits: &WorkerThreadLimits) -> (r: usize)
    ensures
        is_hdd && latency_us > ProbeConsts::LATENCY_HIGH_US ==> r == limits.floor,
        is_hdd && latency_us <= ProbeConsts::LATENCY_HIGH_US && latency_us
            > ProbeConsts::LATENCY_MED_US ==> r == if limits.hdd_max >= 1 {
            (limits.hdd_max - 1) as int
        } else {
            0int
        },
        is_hdd && latency_us <= ProbeConsts::LATENCY_MED_US ==> r == limits.hdd_max,
        !is_hdd && latency_us > ProbeConsts::LATENCY_HIGH_US ==> r == limits.hdd_max,
        !is_hdd && latency_us <= ProbeConsts::LATENCY_HIGH_US && latency_us
            > ProbeConsts::LATENCY_MED_US ==> r == limits.unknown_max,
        !is_hdd && latency_us <= ProbeConsts::LATENCY_MED_US ==> r == limits.network_max,
{
    if is_hdd {
        if latency_us > ProbeConsts::LATENCY_HIGH_US {
            limits.floor
        } else if latency_us > ProbeConsts::LATENCY_MED_US {
            if limits.hdd_max >= 1 {
                limits.hdd_max - 1
            } else {
                0
            }
        } else {
            limits.hdd_max
        }
    } else {
        if latency_us > ProbeConsts::LATENCY_HIGH_US {
            limits.hdd_max
        } else if latency_us > ProbeConsts::LATENCY_MED_US {
            limits.unknown_max
        } else {
            limits.network_max
        }
    }
}

/// Apply a disk-type label and a fresh latency measurement to get the
/// worker count and walk mode for a network mount: the matrix above for the
/// count, and a parallel walk only for a solid-state label.
pub fn network_tuning_from_label(label: &str, latency_us: u64, limits: &WorkerThreadLimits) -> (r:
    (usize, bool))
    ensures
        r.1 == contains_seq(label@, "SSD"@),
        contains_seq(label@, "HDD"@) && latency_us > ProbeConsts::LATENCY_HIGH_US ==> r.0
            == limits.floor,
        contains_seq(label@, "HDD"@) && latency_us <= ProbeConsts::LATENCY_HIGH_US && latency_us
            > ProbeConsts::LATENCY_MED_US && limits.hdd_max >= 1 ==> r.0 == (limits.hdd_max
            - 1) as int,
        contains_seq(label@, "HDD"@) && latency_us <= ProbeConsts::LATENCY_MED_US ==> r.0
            == limits.hdd_max,
        !contains_seq(label@, "HDD"@) && latency_us > ProbeConsts::LATENCY_HIGH_US ==> r.0
            == limits.hdd_max,
        !contains_seq(label@, "HDD"@) && latency_us <= ProbeConsts::LATENCY_HIGH_US && latency_us
            > ProbeConsts::LATENCY_MED_US ==> r.0 == limits.unknown_max,
        !contains_seq(label@, "HDD"@) && latency_us <= ProbeConsts::LATENCY_MED_US ==> r.0
            == limits.network_max,
{
    let drive = DriveType::from_disk_type_str(label);
    let is_hdd = drive.is_hdd();
    let workers = calculate_workers(is_hdd, latency_us, limits);
    let v = chars_of(label);
    let parallel = contains_sub(&v, &chars_of("SSD"));
    (workers, parallel)
}

/// The worker count and walk mode for a drive type: an SSD takes every
/// available thread and a parallel walk; a spinning disk a small cap and a
/// serial walk; a network mount its probe result (or every thread, serial,
/// when the probe failed); an unknown drive the floor and a serial walk.
pub fn tuning_for_drive(
    drive_type: DriveType,
    available_threads: usize,
    probe: Option<(usize, bool)>,
    limits: &WorkerThreadLimits,
) -> (r: (usize, bool))
    ensures
        drive_type is SSD ==> r == (available_threads, true),
        drive_type is HDD ==> r.0 == if available_threads <= limits.hdd_max {
            available_threads as int
        } else {
            limits.hdd_max as int
        } && r.1 == false,
        drive_type is Network ==> r == match probe {
            Some(p) => p,
            None => (available_threads, false),
        },
        drive_type is Unknown ==> r.0 == if available_threads <= limits.floor {
            available_threads as int
        } else {
            limits.floor as int
        } && r.1 == false,
{
    match drive_type {
        DriveType::SSD => (available_threads, true),
        DriveType::HDD => {
            if available_threads <= limits.hdd_max {
                (available_threads, false)
            } else {
                (limits.hdd_max, false)
            }
        },
        DriveType::Network => match probe {
            Some(p) => p,
            None => (available_threads, false),
        },
        DriveType::Unknown => {
            if available_threads <= limits.floor {
                (available_threads, false)
            } else {
                (limits.floor, false)
            }
        },
    }
}

/// Estimated file descriptors used per walk worker.
pub const FDS_PER_WORKER: usize = 10;

/// The worker cap a soft file-descriptor limit yields: four fifths of the
/// limit (clamped to the address space), ten descriptors per worker, and at
/// least one worker.
pub open spec fn fd_workers_spec(limit: int) -> int {
    let clamped = if limit > usize::MAX {
        usize::MAX as int
    } else {
        limit
    };
    let usable = clamped * 4 / 5;
    if usable < FDS_PER_WORKER as int {
        1
    } else {
        usable / (FDS_PER_WORKER as int)
    }
}

/// Suggested max parallelism so the walk stays under about four fifths of
/// the process's open-file limit. `None` when no limit is available (the
/// caller keeps its default).
pub fn max_workers_by_fd_limit(limit: Option<u64>) -> (r: Option<usize>)
    ensures
        match limit {
            Some(l) => r == Some((fd_workers_spec(l as int) as usize)),
            None => r is None,
        },
{
    match limit {
        None => None,
        Some(l) => {
            let clamped: usize = if l > usize::MAX as u64 {
                usize::MAX
            } else {
                l as usize
            };
            let usable = clamped / 5 * 4 + clamped % 5 * 4 / 5;
            assert(usable == clamped as int * 4 / 5) by {
                assert(clamped as int * 4 / 5 == (clamped as int / 5 * 5 + clamped as int % 5) * 4
                    / 5) by {
                    assert(clamped as int / 5 * 5 + clamped as int % 5 == clamped as int);
                }
                assert((clamped as int / 5 * 5 + clamped as int % 5) * 4 / 5 == clamped as int / 5
                    * 4 + clamped as int % 5 * 4 / 5) by (nonlinear_arith);
            }
            if usable < FDS_PER_WORKER {
                Some(1)
            } else {
                Some(usable / FDS_PER_WORKER)
            }
        },
    }
}

/// Cap a requested worker count by the FD budget, when one is known.
pub fn determine_threads_given_fd_limit(requested: usize, fd_cap: Option<usize>) -> (r: usize)
    ensures
        r == match fd_cap {
            Some(c) => if c < requested {
                c as int
            } else {
                requested as int
            },
            None => requested as int,
        },
{
    match fd_cap {
        Some(c) => {
            if c < requested {
                c
            } else {
                requested
            }
        },
        None => requested,
    }
}

/// Streaming channel capacities by drive type, and the bounds used when a
/// stored path count refines them.
pub struct StreamingChannelCap;

impl StreamingChannelCap {
    /// Default cap when no stored path count is known (SSD: the walk runs
    /// far ahead).
    pub const DEFAULT_SSD: usize = 500000;

    /// Spinning disk: the walk is serial and slower; a smaller buffer is
    /// enough.
    pub const DEFAULT_HDD: usize = 100000;

    /// Network mount: conservative.
    pub const DEFAULT_NETWORK: usize = 200000;

    /// Unknown drive: most conservative.
    pub const DEFAULT_UNKNOWN: usize = 50000;

    /// Upper bound when refining from a stored path count.
    pub const MAX: usize = 1000000;

    /// Margin added to a stored path count (the tree may have grown).
    pub const MARGIN: usize = 10000;
}

/// The channel capacity for the path and entry channels, by drive type.
pub fn channel_cap_for_drive(drive_type: DriveType) -> (r: usize)
    ensures
        drive_type is SSD ==> r == StreamingChannelCap::DEFAULT_SSD,
        drive_type is HDD ==> r == StreamingChannelCap::DEFAULT_HDD,
        drive_type is Network ==> r == StreamingChannelCap::DEFAULT_NETWORK,
        drive_type is Unknown ==> r == StreamingChannelCap::DEFAULT_UNKNOWN,
{
    match drive_type {
        DriveType::SSD => StreamingChannelCap::DEFAULT_SSD,
        DriveType::HDD => StreamingChannelCap::DEFAULT_HDD,
        DriveType::Network => StreamingChannelCap::DEFAULT_NETWORK,
        DriveType::Unknown => StreamingChannelCap::DEFAULT_UNKNOWN,
    }
}

/// Refine the channel capacity from a stored path count: the count plus a
/// margin, capped.
pub fn channel_cap_from_stored_count(count: usize) -> (r: usize)
    ensures
        r == if count + StreamingChannelCap::MARGIN > StreamingChannelCap::MAX {
            StreamingChannelCap::MAX as int
        } else {
            count + StreamingChannelCap::MARGIN
        },
{
    if count > StreamingChannelCap::MAX - StreamingChannelCap::MARGIN {
        StreamingChannelCap::MAX
    } else {
        count + StreamingChannelCap::MARGIN
    }
}

/// Writers in the writer pool when more than one is allowed.
pub const WRITER_POOL_SIZE: usize = 4;

/// The writer pool size: one writer on a network mount (its write-ahead log
/// serializes writers anyway), a small pool elsewhere.
pub fn setup_writer_pool_size(is_network_drive: bool) -> (r: usize)
    ensures
        is_network_drive ==> r == 1,
        !is_network_drive ==> r == WRITER_POOL_SIZE,
{
    if is_network_drive {
        1
    } else {
        WRITER_POOL_SIZE
    }
}

} // verus!
