//! Process rows, the filter match, and the ordering both front ends apply
//! to the process table.

use vstd::prelude::*;
use vstd::string::StringSliceAdditionalSpecFns;
use vstd::utf8::encode_utf8;

use crate::ordering::{lemma_swap_keeps_multiset, swap_items};
use crate::text::{
    compare_ignore_ascii_case, contains_bytes, contains_ignore_ascii_case, contains_ignore_case,
    contains_slice, decimal_bytes, decimal_digits, lemma_order_ignore_case_antisym,
    lemma_order_ignore_case_trans, lower_byte, matches_ignore_case_at, order_ignore_case, three_way,
};

verus! {

/// Scheduler state of a process, reduced to what the table shows.
#[derive(Debug, Clone, Copy, PartialEq, Eq, Structural)]
pub enum ProcessStatus {
    Running,
    Sleeping,
    Stopped,
    Zombie,
    Other,
}

impl ProcessStatus {
    /// The one-letter code shown in the status column.
    pub open spec fn short_text(self) -> Seq<char> {
        match self {
            ProcessStatus::Running => "R"@,
            ProcessStatus::Sleeping => "S"@,
            ProcessStatus::Stopped => "T"@,
            ProcessStatus::Zombie => "Z"@,
            ProcessStatus::Other => "?"@,
        }
    }

    /// One-letter status code, `ps` style.
    pub fn short(&self) -> (r: &'static str)
        ensures
            r@ == self.short_text(),
    {
        match self {
            ProcessStatus::Running => "R",
            ProcessStatus::Sleeping => "S",
            ProcessStatus::Stopped => "T",
            ProcessStatus::Zombie => "Z",
            ProcessStatus::Other => "?",
        }
    }
}

/// One row of the process table.
#[derive(Debug, Clone)]
pub struct ProcessRow {
    pub pid: u32,
    pub parent_pid: Option<u32>,
    pub name: String,
    pub user: String,
    /// CPU usage in percent, held as the IEEE-754 single-precision bit
    /// pattern of the percentage; the table orders rows by the value it
    /// encodes (see [`cpu_order_key`]).
    pub cpu_percent_bits: u32,
    pub memory_bytes: u64,
    pub status: ProcessStatus,
    /// Disk read rate in bytes/sec, from per-process I/O counter deltas.
    /// 0 on the first sample and for processes whose counters the kernel hides.
    pub disk_read_per_sec: u64,
    /// Disk write rate in bytes/sec. Same caveats as `disk_read_per_sec`.
    pub disk_write_per_sec: u64,
}

impl ProcessRow {
    /// The filter predicate: the needle is empty, or it occurs in the name or
    /// the user ignoring ASCII case, or it occurs in the decimal pid.
    pub open spec fn matches_bytes(self, needle: Seq<u8>) -> bool {
        ||| needle.len() == 0
        ||| contains_ignore_case(encode_utf8(self.name@), needle)
        ||| contains_bytes(decimal_bytes(self.pid as nat), needle)
        ||| contains_ignore_case(encode_utf8(self.user@), needle)
    }

    /// Case-insensitive substring match across name / pid / user.
    /// Empty needle matches everything. Case folding is ASCII-only.
    pub fn matches(&self, needle: &str) -> (r: bool)
        ensures
            r == self.matches_bytes(needle.spec_bytes()),
    {
        let needle_bytes = needle.as_bytes();
        if needle_bytes.len() == 0 {
            return true;
        }
        if contains_ignore_ascii_case(self.name.as_str(), needle) {
            return true;
        }
        let digits = decimal_digits(self.pid as u128);
        if contains_slice(digits.as_slice(), needle_bytes) {
            return true;
        }
        contains_ignore_ascii_case(self.user.as_str(), needle)
    }
}

/// `needle` occurs in `hay` at offset `k`, ASCII case ignored.
pub open spec fn folded_at(hay: Seq<u8>, needle: Seq<u8>, k: int) -> bool {
    &&& 0 <= k
    &&& k + needle.len() <= hay.len()
    &&& forall|q: int| 0 <= q < needle.len() ==> lower_byte(#[trigger] hay[k + q]) == lower_byte(needle[q])
}

/// `needle` occurs in `hay` at offset `k`, byte for byte.
pub open spec fn exact_at(hay: Seq<u8>, needle: Seq<u8>, k: int) -> bool {
    &&& 0 <= k
    &&& k + needle.len() <= hay.len()
    &&& forall|q: int| 0 <= q < needle.len() ==> #[trigger] hay[k + q] == needle[q]
}

/// The filter finds a needle wherever it occurs: at any offset of the
/// name's or the user's bytes, ignoring ASCII case, or at any offset of the
/// decimal pid; and the empty needle keeps every row.
pub proof fn lemma_occurrence_matches(row: ProcessRow, needle: Seq<u8>, k: int)
    ensures
        needle.len() == 0 ==> row.matches_bytes(needle),
        folded_at(encode_utf8(row.name@), needle, k) ==> row.matches_bytes(needle),
        folded_at(encode_utf8(row.user@), needle, k) ==> row.matches_bytes(needle),
        exact_at(decimal_bytes(row.pid as nat), needle, k) ==> row.matches_bytes(needle),
{
    if folded_at(encode_utf8(row.name@), needle, k) {
        assert(matches_ignore_case_at(encode_utf8(row.name@), needle, k));
    }
    if folded_at(encode_utf8(row.user@), needle, k) {
        assert(matches_ignore_case_at(encode_utf8(row.user@), needle, k));
    }
    if exact_at(decimal_bytes(row.pid as nat), needle, k) {
        assert(crate::text::matches_at(decimal_bytes(row.pid as nat), needle, k));
    }
}

/// `needle` occurs at offset `k` of the row's name or user (ASCII case
/// ignored) or of its decimal pid.
pub open spec fn occurs_in_row(row: ProcessRow, needle: Seq<u8>, k: int) -> bool {
    ||| folded_at(encode_utf8(row.name@), needle, k)
    ||| folded_at(encode_utf8(row.user@), needle, k)
    ||| exact_at(decimal_bytes(row.pid as nat), needle, k)
}

/// The filter finds nothing that is not there: a row matches a non-empty
/// needle only where the needle occurs in its name or user (ASCII case
/// ignored) or in its decimal pid.
pub proof fn lemma_match_has_occurrence(row: ProcessRow, needle: Seq<u8>)
    requires
        needle.len() > 0,
        row.matches_bytes(needle),
    ensures
        exists|k: int| #[trigger] occurs_in_row(row, needle, k),
{
    if contains_ignore_case(encode_utf8(row.name@), needle) {
        let k = choose|k: int|
            0 <= k && k + needle.len() <= encode_utf8(row.name@).len()
                && #[trigger] matches_ignore_case_at(encode_utf8(row.name@), needle, k);
        assert(folded_at(encode_utf8(row.name@), needle, k));
        assert(occurs_in_row(row, needle, k));
    } else if contains_ignore_case(encode_utf8(row.user@), needle) {
        let k = choose|k: int|
            0 <= k && k + needle.len() <= encode_utf8(row.user@).len()
                && #[trigger] matches_ignore_case_at(encode_utf8(row.user@), needle, k);
        assert(folded_at(encode_utf8(row.user@), needle, k));
        assert(occurs_in_row(row, needle, k));
    } else {
        let k = choose|k: int|
            0 <= k && k + needle.len() <= decimal_bytes(row.pid as nat).len()
                && #[trigger] crate::text::matches_at(decimal_bytes(row.pid as nat), needle, k);
        assert(exact_at(decimal_bytes(row.pid as nat), needle, k));
        assert(occurs_in_row(row, needle, k));
    }
}

/// The column the process table is ordered by.
#[derive(Debug, Clone, Copy, PartialEq, Eq, Structural)]
pub enum SortColumn {
    Cpu,
    Memory,
    Pid,
    Name,
    DiskRead,
    DiskWrite,
}

/// Direction of the process table's order.
#[derive(Debug, Clone, Copy, PartialEq, Eq, Structural)]
pub enum SortOrder {
    Ascending,
    Descending,
}

/// Combined sort state: which column, which direction. Front ends store one
/// of these and call [`SortState::cycle`] when a header is clicked.
#[derive(Debug, Clone, Copy, PartialEq, Eq, Structural)]
pub struct SortState {
    pub column: SortColumn,
    pub order: SortOrder,
}

impl SortState {
    pub fn new(column: SortColumn, order: SortOrder) -> (r: Self)
        ensures
            r.column == column,
            r.order == order,
    {
        SortState { column, order }
    }

    /// The state after a click on `column`'s header.
    pub open spec fn cycled(self, column: SortColumn) -> SortState {
        if self.column == column {
            SortState {
                column,
                order: match self.order {
                    SortOrder::Ascending => SortOrder::Descending,
                    SortOrder::Descending => SortOrder::Ascending,
                },
            }
        } else {
            SortState { column, order: SortOrder::Descending }
        }
    }

    /// Click on a header: same column flips order, different column resets to
    /// Descending (most-of-something-first is the task-manager default).
    pub fn cycle(&mut self, column: SortColumn)
        ensures
            *final(self) == old(self).cycled(column),
    {
        if self.column == column {
            self.order = match self.order {
                SortOrder::Ascending => SortOrder::Descending,
                SortOrder::Descending => SortOrder::Ascending,
            };
        } else {
            self.column = column;
            self.order = SortOrder::Descending;
        }
    }
}

impl Default for SortState {
    fn default() -> (r: Self)
        ensures
            r.column == SortColumn::Cpu,
            r.order == SortOrder::Descending,
    {
        SortState::new(SortColumn::Cpu, SortOrder::Descending)
    }
}

/// Clicking the same header twice gives back the state one started from.
pub proof fn lemma_cycle_twice_same_column(s: SortState)
    ensures
        s.cycled(s.column).cycled(s.column) == s,
{
}

/// After a click on any header the table is ordered by that column, and a
/// click on a header other than the current one always starts descending.
pub proof fn lemma_cycle_selects_column(s: SortState, c: SortColumn)
    ensures
        s.cycled(c).column == c,
        s.column != c ==> s.cycled(c).order == SortOrder::Descending,
        s.column == c ==> s.cycled(c).order != s.order,
{
}

/// The position of an IEEE-754 single-precision bit pattern in the order of
/// the values: the pattern itself for a sign bit of 0, its magnitude negated
/// for a sign bit of 1. Two patterns compare as their values do, and -0.0
/// ties with +0.0. (A NaN pattern, which has no place among the values,
/// lands beyond the infinity of its sign.)
pub open spec fn cpu_order_key(bits: u32) -> int {
    if bits < 0x8000_0000 {
        bits as int
    } else {
        -(bits - 0x8000_0000)
    }
}

/// Three-way comparison of two rows by the key of `column` alone.
pub open spec fn key_order(column: SortColumn, a: ProcessRow, b: ProcessRow) -> int {
    match column {
        SortColumn::Cpu => three_way(
            cpu_order_key(a.cpu_percent_bits),
            cpu_order_key(b.cpu_percent_bits),
        ),
        SortColumn::Memory => three_way(a.memory_bytes as int, b.memory_bytes as int),
        SortColumn::Pid => three_way(a.pid as int, b.pid as int),
        SortColumn::Name => order_ignore_case(encode_utf8(a.name@), encode_utf8(b.name@)),
        SortColumn::DiskRead => three_way(a.disk_read_per_sec as int, b.disk_read_per_sec as int),
        SortColumn::DiskWrite => three_way(
            a.disk_write_per_sec as int,
            b.disk_write_per_sec as int,
        ),
    }
}

/// The table's order: the column key in the chosen direction, ties broken
/// by ascending pid.
pub open spec fn row_order(state: SortState, a: ProcessRow, b: ProcessRow) -> int {
    let k = key_order(state.column, a, b);
    let d = match state.order {
        SortOrder::Ascending => k,
        SortOrder::Descending => -k,
    };
    if d != 0 {
        d
    } else {
        three_way(a.pid as int, b.pid as int)
    }
}

/// `a` may stand before `b` in the table.
pub open spec fn row_le(state: SortState, a: ProcessRow, b: ProcessRow) -> bool {
    row_order(state, a, b) <= 0
}

/// Every row stands before every later one in the table's order.
pub open spec fn rows_sorted(state: SortState, s: Seq<ProcessRow>) -> bool {
    forall|i: int, j: int| 0 <= i < j < s.len() ==> #[trigger] row_le(state, s[i], s[j])
}

/// No pid occurs twice.
pub open spec fn distinct_pids(s: Seq<ProcessRow>) -> bool {
    forall|i: int, j: int| 0 <= i < j < s.len() ==> #[trigger] s[i].pid != #[trigger] s[j].pid
}

/// `x` (of the row with pid `p`) may stand before `y` (pid `q`) in a column
/// sorted in `order`: strictly first in that direction, or equal with the
/// smaller pid.
pub open spec fn comes_first(order: SortOrder, x: int, y: int, p: u32, q: u32) -> bool {
    match order {
        SortOrder::Ascending => x < y || (x == y && p <= q),
        SortOrder::Descending => x > y || (x == y && p <= q),
    }
}

/// What a sorted table looks like, column by column: of two rows, the
/// earlier one has the larger value of the sorted column when descending and
/// the smaller when ascending (CPU by the value its bits encode, names by
/// their bytes ignoring ASCII case), and rows with equal values are in
/// ascending pid order.
pub proof fn lemma_sorted_table_follows_column(
    state: SortState,
    s: Seq<ProcessRow>,
    i: int,
    j: int,
)
    requires
        rows_sorted(state, s),
        0 <= i < j < s.len(),
    ensures
        state.column == SortColumn::Cpu ==> comes_first(
            state.order,
            cpu_order_key(s[i].cpu_percent_bits),
            cpu_order_key(s[j].cpu_percent_bits),
            s[i].pid,
            s[j].pid,
        ),
        state.column == SortColumn::Memory ==> comes_first(
            state.order,
            s[i].memory_bytes as int,
            s[j].memory_bytes as int,
            s[i].pid,
            s[j].pid,
        ),
        state.column == SortColumn::Pid ==> comes_first(
            state.order,
            s[i].pid as int,
            s[j].pid as int,
            s[i].pid,
            s[j].pid,
        ),
        state.column == SortColumn::DiskRead ==> comes_first(
            state.order,
            s[i].disk_read_per_sec as int,
            s[j].disk_read_per_sec as int,
            s[i].pid,
            s[j].pid,
        ),
        state.column == SortColumn::DiskWrite ==> comes_first(
            state.order,
            s[i].disk_write_per_sec as int,
            s[j].disk_write_per_sec as int,
            s[i].pid,
            s[j].pid,
        ),
        state.column == SortColumn::Name ==> comes_first(
            state.order,
            order_ignore_case(encode_utf8(s[i].name@), encode_utf8(s[j].name@)),
            0,
            s[i].pid,
            s[j].pid,
        ),
{
    assert(row_le(state, s[i], s[j]));
    let a = s[i];
    let b = s[j];
    if state.column == SortColumn::Name {
        lemma_order_ignore_case_range(encode_utf8(a.name@), encode_utf8(b.name@));
    }
}

/// The CPU key orders bit patterns as the single-precision values they
/// encode: among non-negative patterns (sign bit clear) as the patterns do,
/// among negative ones in reverse, every negative one below every
/// non-negative one, and -0.0 level with +0.0.
pub proof fn lemma_cpu_key_orders_values(a: u32, b: u32)
    ensures
        a < 0x8000_0000 && b < 0x8000_0000 ==> (cpu_order_key(a) < cpu_order_key(b) <==> a < b),
        a >= 0x8000_0000 && b >= 0x8000_0000 ==> (cpu_order_key(a) < cpu_order_key(b) <==> a
            > b),
        a < 0x8000_0000 <= b ==> cpu_order_key(b) <= cpu_order_key(a),
        a < 0x8000_0000 <= b ==> (cpu_order_key(b) == cpu_order_key(a) <==> (a == 0 && b
            == 0x8000_0000)),
        cpu_order_key(a) == cpu_order_key(b) <==> (a == b || (a == 0 && b == 0x8000_0000) || (b
            == 0 && a == 0x8000_0000)),
{
}

/// The table's arrangement depends only on which rows there are: two
/// orderings of the same rows (pids pairwise distinct) that both satisfy the
/// table's order are identical, so the input order of the sampler never
/// shows through.
pub proof fn lemma_sorted_rows_unique(state: SortState, x: Seq<ProcessRow>, y: Seq<ProcessRow>)
    requires
        rows_sorted(state, x),
        rows_sorted(state, y),
        x.to_multiset() == y.to_multiset(),
        distinct_pids(x),
    ensures
        x == y,
    decreases x.len(),
{
    broadcast use vstd::multiset::group_multiset_axioms;
    broadcast use vstd::seq_lib::group_to_multiset_ensures;

    if x.len() == 0 || y.len() == 0 {
        assert(x.len() == x.to_multiset().len());
        assert(y.len() == y.to_multiset().len());
        assert(x =~= y);
    } else {
        assert(x.to_multiset().contains(x[0]));
        assert(y.contains(x[0]));
        let k = choose|k: int| 0 <= k < y.len() && y[k] == x[0];
        assert(y.to_multiset().contains(y[0]));
        assert(x.contains(y[0]));
        let i = choose|i: int| 0 <= i < x.len() && x[i] == y[0];
        if k > 0 {
            assert(row_le(state, y[0], y[k]));
        }
        if i > 0 {
            assert(row_le(state, x[0], x[i]));
        }
        lemma_row_order_antisym(state, x[0], y[0]);
        assert(row_order(state, x[0], y[0]) == 0);
        assert(x[0].pid == y[0].pid);
        if i > 0 {
            assert(x[0].pid != x[i].pid);
        }
        assert(x[0] == y[0]);
        let xs = x.drop_first();
        let ys = y.drop_first();
        assert(x.remove(0) =~= xs);
        assert(y.remove(0) =~= ys);
        assert(xs.to_multiset() =~= ys.to_multiset());
        assert forall|a: int, b: int| 0 <= a < b < xs.len() implies #[trigger] row_le(
            state,
            xs[a],
            xs[b],
        ) by {
            assert(row_le(state, x[a + 1], x[b + 1]));
        }
        assert forall|a: int, b: int| 0 <= a < b < ys.len() implies #[trigger] row_le(
            state,
            ys[a],
            ys[b],
        ) by {
            assert(row_le(state, y[a + 1], y[b + 1]));
        }
        assert forall|a: int, b: int| 0 <= a < b < xs.len() implies #[trigger] xs[a].pid
            != #[trigger] xs[b].pid by {
            assert(x[a + 1].pid != x[b + 1].pid);
        }
        lemma_sorted_rows_unique(state, xs, ys);
        assert(x.len() == y.len());
        assert forall|idx: int| 0 <= idx < x.len() implies x[idx] == y[idx] by {
            if idx > 0 {
                assert(xs[idx - 1] == ys[idx - 1]);
            }
        }
        assert(x =~= y);
    }
}

proof fn lemma_key_order_antisym(column: SortColumn, a: ProcessRow, b: ProcessRow)
    ensures
        key_order(column, a, b) == -key_order(column, b, a),
        -1 <= key_order(column, a, b) <= 1,
{
    if column == SortColumn::Name {
        lemma_order_ignore_case_antisym(encode_utf8(a.name@), encode_utf8(b.name@));
        lemma_order_ignore_case_range(encode_utf8(a.name@), encode_utf8(b.name@));
    }
}

proof fn lemma_order_ignore_case_range(a: Seq<u8>, b: Seq<u8>)
    ensures
        -1 <= order_ignore_case(a, b) <= 1,
    decreases a.len(),
{
    if a.len() > 0 && b.len() > 0 {
        lemma_order_ignore_case_range(a.drop_first(), b.drop_first());
    }
}

proof fn lemma_key_order_trans(column: SortColumn, a: ProcessRow, b: ProcessRow, c: ProcessRow)
    requires
        key_order(column, a, b) <= 0,
        key_order(column, b, c) <= 0,
    ensures
        key_order(column, a, c) <= 0,
        key_order(column, a, b) < 0 || key_order(column, b, c) < 0 ==> key_order(column, a, c)
            < 0,
{
    if column == SortColumn::Name {
        lemma_order_ignore_case_trans(
            encode_utf8(a.name@),
            encode_utf8(b.name@),
            encode_utf8(c.name@),
        );
    }
}

/// The table's order is antisymmetric.
pub proof fn lemma_row_order_antisym(state: SortState, a: ProcessRow, b: ProcessRow)
    ensures
        row_order(state, a, b) == -row_order(state, b, a),
{
    lemma_key_order_antisym(state.column, a, b);
}

/// The table's order is transitive.
pub proof fn lemma_row_le_trans(state: SortState, a: ProcessRow, b: ProcessRow, c: ProcessRow)
    requires
        row_le(state, a, b),
        row_le(state, b, c),
    ensures
        row_le(state, a, c),
{
    lemma_key_order_antisym(state.column, a, b);
    lemma_key_order_antisym(state.column, b, c);
    lemma_key_order_antisym(state.column, a, c);
    let kab = key_order(state.column, a, b);
    let kbc = key_order(state.column, b, c);
    match state.order {
        SortOrder::Ascending => {
            lemma_key_order_trans(state.column, a, b, c);
        },
        SortOrder::Descending => {
            lemma_key_order_antisym(state.column, c, b);
            lemma_key_order_antisym(state.column, b, a);
            lemma_key_order_trans(state.column, c, b, a);
            lemma_key_order_antisym(state.column, c, a);
        },
    }
}

/// Three-way comparison of two rows in the table's order.
fn compare_rows(a: &ProcessRow, b: &ProcessRow, state: SortState) -> (r: i8)
    ensures
        r as int == row_order(state, *a, *b),
{
    let k: i8 = match state.column {
        SortColumn::Cpu => three_way_i64(
            cpu_key(a.cpu_percent_bits),
            cpu_key(b.cpu_percent_bits),
        ),
        SortColumn::Memory => three_way_u64(a.memory_bytes, b.memory_bytes),
        SortColumn::Pid => three_way_u64(a.pid as u64, b.pid as u64),
        SortColumn::Name => compare_ignore_ascii_case(a.name.as_str(), b.name.as_str()),
        SortColumn::DiskRead => three_way_u64(a.disk_read_per_sec, b.disk_read_per_sec),
        SortColumn::DiskWrite => three_way_u64(a.disk_write_per_sec, b.disk_write_per_sec),
    };
    proof {
        lemma_key_order_antisym(state.column, *a, *b);
    }
    let d: i8 = match state.order {
        SortOrder::Ascending => k,
        SortOrder::Descending => -k,
    };
    if d != 0 {
        d
    } else {
        three_way_u64(a.pid as u64, b.pid as u64)
    }
}

/// [`cpu_order_key`], computed.
pub fn cpu_key(bits: u32) -> (k: i64)
    ensures
        k == cpu_order_key(bits),
{
    if bits < 0x8000_0000 {
        bits as i64
    } else {
        -((bits - 0x8000_0000) as i64)
    }
}

fn three_way_i64(a: i64, b: i64) -> (r: i8)
    ensures
        r as int == three_way(a as int, b as int),
{
    if a < b {
        -1
    } else if a == b {
        0
    } else {
        1
    }
}

fn three_way_u64(a: u64, b: u64) -> (r: i8)
    ensures
        r as int == three_way(a as int, b as int),
{
    if a < b {
        -1
    } else if a == b {
        0
    } else {
        1
    }
}

/// Orders `rows` for the table: by the state's column in its direction,
/// equal keys by ascending pid, so that rows keep their places from one
/// sample to the next whatever order the sampler lists them in.
pub fn sort_in_place(rows: &mut [ProcessRow], state: SortState)
    ensures
        final(rows)@.to_multiset() == old(rows)@.to_multiset(),
        rows_sorted(state, final(rows)@),
{
    let n = rows.len();
    if n < 2 {
        return;
    }
    let ghost orig = rows@;
    let mut i: usize = 1;
    while i < n
        invariant
            n == rows@.len(),
            1 <= i <= n,
            rows@.to_multiset() == orig.to_multiset(),
            forall|a: int, b: int| 0 <= a < b < i ==> #[trigger] row_le(state, rows@[a], rows@[b]),
        decreases n - i,
    {
        let mut j: usize = i;
        loop
            invariant_except_break
                n == rows@.len(),
                1 <= i < n,
                j <= i,
                rows@.to_multiset() == orig.to_multiset(),
                forall|a: int, b: int|
                    0 <= a < b <= i && a != j && b != j ==> #[trigger] row_le(
                        state,
                        rows@[a],
                        rows@[b],
                    ),
                forall|b: int| j < b <= i ==> #[trigger] row_le(state, rows@[j as int], rows@[b]),
            ensures
                n == rows@.len(),
                1 <= i < n,
                rows@.to_multiset() == orig.to_multiset(),
                forall|a: int, b: int|
                    0 <= a < b <= i ==> #[trigger] row_le(state, rows@[a], rows@[b]),
            decreases j,
        {
            if j == 0 {
                break;
            }
            let c = compare_rows(&rows[j - 1], &rows[j], state);
            if c <= 0 {
                proof {
                    let s = rows@;
                    assert forall|a: int, b: int| 0 <= a < b <= i implies #[trigger] row_le(
                        state,
                        s[a],
                        s[b],
                    ) by {
                        if b == j && a < j - 1 {
                            assert(row_le(state, s[a], s[j - 1]));
                            lemma_row_le_trans(state, s[a], s[j - 1], s[b]);
                        }
                    }
                }
                break;
            }
            proof {
                lemma_swap_keeps_multiset(rows@, j - 1, j as int);
                lemma_row_order_antisym(state, rows@[j - 1], rows@[j as int]);
            }
            let ghost s = rows@;
            swap_items(rows, j - 1, j);
            proof {
                let t = rows@;
                assert(t[j - 1] == s[j as int]);
                assert(t[j as int] == s[j - 1]);
                assert forall|a: int, b: int|
                    0 <= a < b <= i && a != j - 1 && b != j - 1 implies #[trigger] row_le(
                    state,
                    t[a],
                    t[b],
                ) by {
                    if a == j {
                        assert(row_le(state, s[j - 1], s[b]));
                    } else if b == j {
                        assert(row_le(state, s[a], s[j - 1]));
                    } else {
                        assert(row_le(state, s[a], s[b]));
                    }
                }
                assert forall|b: int| j - 1 < b <= i implies #[trigger] row_le(
                    state,
                    t[j - 1],
                    t[b],
                ) by {
                    if b != j {
                        assert(row_le(state, s[j as int], s[b]));
                    }
                }
            }
            j = j - 1;
        }
        i = i + 1;
    }
}

} // verus!
