//! What a sampler tick refreshes.

use vstd::prelude::*;

use crate::desktop::{has_prefix, is_space, is_space_char};
use crate::text::chars_of;

verus! {

/// Set of subsystems to refresh on a tick: a small plain configuration that
/// the front ends build inline.
#[derive(Debug, Clone, Copy, Default, PartialEq, Eq, Structural)]
pub struct RefreshKind {
    pub cpu: bool,
    pub memory: bool,
    pub processes: bool,
    pub disks: bool,
    pub networks: bool,
}

impl RefreshKind {
    /// Refresh nothing.
    pub fn nothing() -> (r: Self)
        ensures
            r == (RefreshKind {
                cpu: false,
                memory: false,
                processes: false,
                disks: false,
                networks: false,
            }),
    {
        RefreshKind { cpu: false, memory: false, processes: false, disks: false, networks: false }
    }

    /// What the Performance tab shows: CPU, memory, disks and networks.
    pub fn performance() -> (r: Self)
        ensures
            r == (RefreshKind {
                cpu: true,
                memory: true,
                processes: false,
                disks: true,
                networks: true,
            }),
    {
        RefreshKind { cpu: true, memory: true, processes: false, disks: true, networks: true }
    }

    /// CPU, memory and the process list.
    pub fn processes() -> (r: Self)
        ensures
            r == (RefreshKind {
                cpu: true,
                memory: true,
                processes: true,
                disks: false,
                networks: false,
            }),
    {
        RefreshKind { cpu: true, memory: true, processes: true, disks: false, networks: false }
    }

    /// What the Processes tab needs each tick: live CPU%, live memory usage,
    /// and the process list itself.
    pub fn processes_tab() -> (r: Self)
        ensures
            r == (RefreshKind {
                cpu: true,
                memory: true,
                processes: true,
                disks: false,
                networks: false,
            }),
    {
        Self::processes()
    }

    /// Only memory, as the Startup and Services tabs refresh.
    pub fn memory_only() -> (r: Self)
        ensures
            r == (RefreshKind {
                cpu: false,
                memory: true,
                processes: false,
                disks: false,
                networks: false,
            }),
    {
        RefreshKind { memory: true, ..Self::nothing() }
    }
}

/// Whole-disk byte counters, summed over block devices.
#[derive(Debug, Clone, Copy, Default, PartialEq, Eq, Structural)]
pub struct DiskCounters {
    pub read_bytes: u64,
    pub write_bytes: u64,
}

/// Scanning text for white-space separated fields: the finished fields and
/// the one being read.
pub open spec fn scan_fields(s: Seq<char>) -> (Seq<Seq<char>>, Seq<char>)
    decreases s.len(),
{
    if s.len() == 0 {
        (seq![], seq![])
    } else {
        let prev = scan_fields(s.drop_last());
        if is_space(s.last()) {
            if prev.1.len() > 0 {
                (prev.0.push(prev.1), seq![])
            } else {
                (prev.0, seq![])
            }
        } else {
            (prev.0, prev.1.push(s.last()))
        }
    }
}

/// `str::split_whitespace`: the maximal runs of non-white-space characters.
pub open spec fn whitespace_fields(s: Seq<char>) -> Seq<Seq<char>> {
    let p = scan_fields(s);
    if p.1.len() > 0 {
        p.0.push(p.1)
    } else {
        p.0
    }
}

pub open spec fn is_digit(c: char) -> bool {
    '0' <= c <= '9'
}

/// The text after an optional leading `+`.
pub open spec fn unsigned_part(s: Seq<char>) -> Seq<char> {
    if s.len() > 0 && s[0] == '+' {
        s.drop_first()
    } else {
        s
    }
}

pub open spec fn all_digits(d: Seq<char>) -> bool {
    forall|i: int| 0 <= i < d.len() ==> is_digit(#[trigger] d[i])
}

pub open spec fn digits_value(s: Seq<char>) -> nat
    decreases s.len(),
{
    if s.len() == 0 {
        0
    } else {
        digits_value(s.drop_last()) * 10 + ((s.last() as u32) - 48) as nat
    }
}

/// `str::parse::<u64>`: an optional `+`, then one or more ASCII digits,
/// of a value that fits.
pub open spec fn parse_u64_text(s: Seq<char>) -> Option<nat> {
    let d = unsigned_part(s);
    if d.len() > 0 && all_digits(d) && digits_value(d) <= u64::MAX {
        Some(digits_value(d))
    } else {
        None
    }
}

/// A field read as a sector count, 0 when it is not a number.
pub open spec fn sector_count(f: Seq<char>) -> nat {
    match parse_u64_text(f) {
        Some(v) => v,
        None => 0,
    }
}

/// The sectors read and written of a block device's `stat` line: the third
/// and seventh fields; nothing when the line has fewer than seven.
pub open spec fn block_stat_sectors(raw: Seq<char>) -> Option<(nat, nat)> {
    let f = whitespace_fields(raw);
    if f.len() < 7 {
        None
    } else {
        Some((sector_count(f[2]), sector_count(f[6])))
    }
}

/// RAM disks and loop devices, which carry no real I/O.
pub open spec fn skipped_device(name: Seq<char>) -> bool {
    has_prefix(name, seq!['r', 'a', 'm']) || has_prefix(name, seq!['l', 'o', 'o', 'p'])
}

/// A device's counters can be added without the sector-to-byte
/// multiplication overflowing.
pub open spec fn device_fits(name: Seq<char>, stat: Seq<char>) -> bool {
    !skipped_device(name) ==> match block_stat_sectors(stat) {
        Some((r, w)) => r * 512 <= u64::MAX && w * 512 <= u64::MAX,
        None => true,
    }
}

pub open spec fn sat_add(a: nat, b: nat) -> nat {
    if a + b > u64::MAX {
        u64::MAX as nat
    } else {
        a + b
    }
}

/// The counters after a device: unchanged for skipped devices and unreadable
/// stat lines, else its bytes (512 per sector) added, saturating.
pub open spec fn counters_after(c: DiskCounters, name: Seq<char>, stat: Seq<char>) -> DiskCounters {
    if skipped_device(name) {
        c
    } else {
        match block_stat_sectors(stat) {
            Some((r, w)) => DiskCounters {
                read_bytes: sat_add(c.read_bytes as nat, r * 512) as u64,
                write_bytes: sat_add(c.write_bytes as nat, w * 512) as u64,
            },
            None => c,
        }
    }
}

/// Where the white-space separated fields of `text` lie, as spans.
fn field_spans(text: &Vec<char>) -> (spans: Vec<(usize, usize)>)
    ensures
        crate::desktop::spans_within(text@, spans@),
        crate::desktop::span_texts(text@, spans@) == whitespace_fields(text@),
{
    let n = text.len();
    let mut spans: Vec<(usize, usize)> = Vec::new();
    let mut start: usize = 0;
    let mut i: usize = 0;
    assert(text@.take(0) =~= Seq::<char>::empty());
    while i < n
        invariant
            n == text@.len(),
            start <= i <= n,
            crate::desktop::spans_within(text@, spans@),
            scan_fields(text@.take(i as int)).0 == crate::desktop::span_texts(text@, spans@),
            scan_fields(text@.take(i as int)).1 == text@.subrange(start as int, i as int),
        decreases n - i,
    {
        let ghost prev = text@.take(i as int);
        assert(text@.take(i + 1).drop_last() =~= prev);
        assert(text@.take(i + 1).last() == text@[i as int]);
        if is_space_char(text[i]) {
            if start < i {
                let ghost before = spans@;
                spans.push((start, i));
                assert(crate::desktop::span_texts(text@, spans@) =~= crate::desktop::span_texts(
                    text@,
                    before,
                ).push(text@.subrange(start as int, i as int)));
            }
            start = i + 1;
            assert(text@.subrange(start as int, i + 1) =~= Seq::<char>::empty());
        } else {
            assert(text@.subrange(start as int, i + 1) =~= text@.subrange(
                start as int,
                i as int,
            ).push(text@[i as int]));
        }
        i = i + 1;
    }
    assert(text@.take(n as int) =~= text@);
    if start < n {
        let ghost before = spans@;
        spans.push((start, n));
        assert(crate::desktop::span_texts(text@, spans@) =~= crate::desktop::span_texts(
            text@,
            before,
        ).push(text@.subrange(start as int, n as int)));
    }
    spans
}

proof fn lemma_digits_value_grows(s: Seq<char>, i: int)
    requires
        0 <= i <= s.len(),
    ensures
        digits_value(s.take(i)) <= digits_value(s),
    decreases s.len() - i,
{
    if i < s.len() {
        lemma_digits_value_grows(s, i + 1);
        assert(s.take(i + 1).drop_last() =~= s.take(i));
    } else {
        assert(s.take(i) =~= s);
    }
}

/// Parses the span `[a, b)` as `str::parse::<u64>` does.
fn parse_u64_span(text: &Vec<char>, a: usize, b: usize) -> (r: Option<u64>)
    requires
        a <= b <= text@.len(),
    ensures
        match parse_u64_text(text@.subrange(a as int, b as int)) {
            Some(v) => r == Some(v as u64),
            None => r is None,
        },
{
    let ghost s = text@.subrange(a as int, b as int);
    let mut i = a;
    if i < b && text[i] == '+' {
        i = i + 1;
    }
    let ghost d = text@.subrange(i as int, b as int);
    assert(d =~= (if s.len() > 0 && s[0] == '+' {
        s.drop_first()
    } else {
        s
    }));
    if i == b {
        assert(d.len() == 0);
        return None;
    }
    let start = i;
    let mut v: u64 = 0;
    assert(d.take(0) =~= Seq::<char>::empty());
    while i < b
        invariant
            a <= start <= i <= b <= text@.len(),
            start < b,
            d == text@.subrange(start as int, b as int),
            s == text@.subrange(a as int, b as int),
            d == (if s.len() > 0 && s[0] == '+' {
                s.drop_first()
            } else {
                s
            }),
            forall|k: int| 0 <= k < i - start ==> is_digit(#[trigger] d[k]),
            v as nat == digits_value(d.take(i - start)),
        decreases b - i,
    {
        let c = text[i];
        let ghost k = i - start;
        assert(d[k] == c);
        if !('0' <= c && c <= '9') {
            assert(!is_digit(d[k]));
            assert(!all_digits(d));
            return None;
        }
        assert(d.take(k + 1).drop_last() =~= d.take(k));
        assert(d.take(k + 1).last() == c);
        let digit = (c as u32 - 48) as u64;
        assert(digits_value(d.take(k + 1)) == digits_value(d.take(k)) * 10 + digit);
        match v.checked_mul(10) {
            None => {
                proof {
                    assert(digits_value(d.take(k + 1)) > u64::MAX);
                    lemma_digits_value_grows(d, k + 1);
                    assert(digits_value(d) > u64::MAX);
                }
                return None;
            },
            Some(t) => match t.checked_add(digit) {
                None => {
                    proof {
                        assert(digits_value(d.take(k + 1)) > u64::MAX);
                        lemma_digits_value_grows(d, k + 1);
                        assert(digits_value(d) > u64::MAX);
                    }
                    return None;
                },
                Some(w) => {
                    v = w;
                },
            },
        }
        i = i + 1;
    }
    assert(d.take(b - start) =~= d);
    Some(v)
}

/// The sectors read and written of a block device's `stat` line, if it has
/// at least seven fields; a field that is not a number counts 0.
pub fn parse_block_stat(raw: &str) -> (r: Option<(u64, u64)>)
    ensures
        match block_stat_sectors(raw@) {
            Some((rd, wr)) => r == Some((rd as u64, wr as u64)),
            None => r is None,
        },
{
    let text = chars_of(raw);
    let spans = field_spans(&text);
    if spans.len() < 7 {
        return None;
    }
    let (a2, b2) = spans[2];
    let (a6, b6) = spans[6];
    assert(spans@[2].0 <= spans@[2].1 <= text@.len());
    assert(spans@[6].0 <= spans@[6].1 <= text@.len());
    let rd = match parse_u64_span(&text, a2, b2) {
        Some(v) => v,
        None => 0,
    };
    let wr = match parse_u64_span(&text, a6, b6) {
        Some(v) => v,
        None => 0,
    };
    Some((rd, wr))
}

/// Whether a device is a RAM disk or a loop device.
pub fn skips_device(name: &str) -> (r: bool)
    ensures
        r == skipped_device(name@),
{
    let cs = chars_of(name);
    let n = cs.len();
    let ram = n >= 3 && cs[0] == 'r' && cs[1] == 'a' && cs[2] == 'm';
    let lp = n >= 4 && cs[0] == 'l' && cs[1] == 'o' && cs[2] == 'o' && cs[3] == 'p';
    proof {
        if n >= 3 {
            assert(ram == (cs@.subrange(0, 3) =~= seq!['r', 'a', 'm']));
        }
        if n >= 4 {
            assert(lp == (cs@.subrange(0, 4) =~= seq!['l', 'o', 'o', 'p']));
        }
    }
    ram || lp
}

impl DiskCounters {
    /// Adds one block device, named `name`, with `stat` the contents of its
    /// `stat` file: RAM disks, loop devices and short lines are skipped;
    /// sectors are 512 bytes.
    pub fn add_device(&mut self, name: &str, stat: &str)
        requires
            device_fits(name@, stat@),
        ensures
            *final(self) == counters_after(*old(self), name@, stat@),
    {
        if skips_device(name) {
            return;
        }
        match parse_block_stat(stat) {
            Some((rd, wr)) => {
                self.read_bytes = self.read_bytes.saturating_add(rd * 512);
                self.write_bytes = self.write_bytes.saturating_add(wr * 512);
            },
            None => {},
        }
    }
}

impl DiskCounters {
    /// Bytes moved since an `earlier` reading, never negative: a counter
    /// that went backwards (a device removed) counts as 0.
    pub fn since(&self, earlier: &DiskCounters) -> (d: DiskCounters)
        ensures
            d.read_bytes == (if self.read_bytes >= earlier.read_bytes {
                self.read_bytes - earlier.read_bytes
            } else {
                0
            }),
            d.write_bytes == (if self.write_bytes >= earlier.write_bytes {
                self.write_bytes - earlier.write_bytes
            } else {
                0
            }),
    {
        DiskCounters {
            read_bytes: self.read_bytes.saturating_sub(earlier.read_bytes),
            write_bytes: self.write_bytes.saturating_sub(earlier.write_bytes),
        }
    }
}

/// The saturating sum of a sequence of counters.
pub open spec fn saturating_sum(s: Seq<u64>) -> nat
    decreases s.len(),
{
    if s.len() == 0 {
        0
    } else {
        sat_add(saturating_sum(s.drop_last()), s.last() as nat)
    }
}

/// Sums per-interface byte counts, saturating at `u64::MAX`.
pub fn saturating_total(values: &[u64]) -> (t: u64)
    ensures
        t == saturating_sum(values@),
{
    let n = values.len();
    let mut t: u64 = 0;
    let mut i: usize = 0;
    while i < n
        invariant
            n == values@.len(),
            i <= n,
            t == saturating_sum(values@.take(i as int)),
        decreases n - i,
    {
        assert(values@.take(i + 1).drop_last() =~= values@.take(i as int));
        assert(values@.take(i + 1).last() == values@[i as int]);
        t = t.saturating_add(values[i]);
        i = i + 1;
    }
    assert(values@.take(n as int) =~= values@);
    t
}

/// A process state as the sampler reports it.
#[derive(Debug, Clone, Copy, PartialEq, Eq, Structural)]
pub enum SampledStatus {
    Run,
    Sleep,
    Idle,
    Stop,
    Zombie,
    Dead,
    Other,
}

/// The table's status for a sampled state: idle counts as sleeping, dead
/// as zombie, and every state without a column of its own as other.
pub fn table_status(s: SampledStatus) -> (r: crate::processes::ProcessStatus)
    ensures
        r == (match s {
            SampledStatus::Run => crate::processes::ProcessStatus::Running,
            SampledStatus::Sleep | SampledStatus::Idle => crate::processes::ProcessStatus::Sleeping,
            SampledStatus::Stop => crate::processes::ProcessStatus::Stopped,
            SampledStatus::Zombie | SampledStatus::Dead => crate::processes::ProcessStatus::Zombie,
            SampledStatus::Other => crate::processes::ProcessStatus::Other,
        }),
{
    match s {
        SampledStatus::Run => crate::processes::ProcessStatus::Running,
        SampledStatus::Sleep | SampledStatus::Idle => crate::processes::ProcessStatus::Sleeping,
        SampledStatus::Stop => crate::processes::ProcessStatus::Stopped,
        SampledStatus::Zombie | SampledStatus::Dead => crate::processes::ProcessStatus::Zombie,
        SampledStatus::Other => crate::processes::ProcessStatus::Other,
    }
}

} // verus!
