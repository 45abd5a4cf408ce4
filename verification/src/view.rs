//! What the console draws, decided from plain values: the history graphs'
//! buffers and scales, the highlighted row, header labels, the status line,
//! which process rows pass the filter, and the order of the lists.

use std::collections::VecDeque;

use vstd::prelude::*;
use vstd::string::{StringExecFns, StringSliceAdditionalSpecFns};

use crate::actions::KillSignal;
use crate::console::{Navigation, Notice, Tab};
use crate::processes::{rows_sorted, sort_in_place, ProcessRow, SortColumn, SortOrder, SortState};
use crate::services::ServiceOp;
use crate::text::{chars_of, decimal_chars, push_decimal, push_span};

verus! {

/// How many samples a history graph keeps.
pub const HISTORY_LEN: usize = 120;

/// Appends a sample to a history buffer, dropping the oldest one when the
/// buffer is full.
pub fn push_capped(buf: &mut VecDeque<u64>, v: u64)
    ensures
        final(buf)@ == (if old(buf)@.len() == HISTORY_LEN {
            old(buf)@.drop_first()
        } else {
            old(buf)@
        }).push(v),
{
    if buf.len() == HISTORY_LEN {
        buf.pop_front();
    }
    buf.push_back(v);
    proof {
        if old(buf)@.len() == HISTORY_LEN {
            assert(old(buf)@.subrange(1, old(buf)@.len() as int) =~= old(buf)@.drop_first());
        }
    }
}

/// A history buffer never grows past its capacity, and its newest sample is
/// the one pushed last.
pub proof fn lemma_history_bounded(old_buf: Seq<u64>, v: u64)
    requires
        old_buf.len() <= HISTORY_LEN,
    ensures
        ({
            let new_buf = (if old_buf.len() == HISTORY_LEN {
                old_buf.drop_first()
            } else {
                old_buf
            }).push(v);
            &&& new_buf.len() <= HISTORY_LEN
            &&& new_buf.last() == v
            &&& old_buf.len() < HISTORY_LEN ==> new_buf.drop_last() == old_buf
        }),
{
    let new_buf = (if old_buf.len() == HISTORY_LEN {
        old_buf.drop_first()
    } else {
        old_buf
    }).push(v);
    if old_buf.len() < HISTORY_LEN {
        assert(new_buf.drop_last() =~= old_buf);
    }
}

/// The table row to highlight: the selection clamped to the rows, none for
/// an empty table.
pub fn select_row(selected: usize, len: usize) -> (r: Option<usize>)
    ensures
        r == (if len == 0 {
            None
        } else if selected < len {
            Some(selected)
        } else {
            Some((len - 1) as usize)
        }),
{
    if len == 0 {
        None
    } else if selected < len {
        Some(selected)
    } else {
        Some(len - 1)
    }
}

/// The selection kept within a freshly loaded list: at most its last row
/// (row 0 for an empty list).
pub fn clamp_to_list(selected: usize, len: usize) -> (r: usize)
    ensures
        r == (if len == 0 {
            0
        } else if selected < len {
            selected
        } else {
            (len - 1) as usize
        }),
{
    let last = if len == 0 {
        0
    } else {
        len - 1
    };
    if selected < last {
        selected
    } else {
        last
    }
}

/// The largest element of a sequence, 0 for an empty one.
pub open spec fn seq_max(s: Seq<u64>) -> u64
    decreases s.len(),
{
    if s.len() == 0 {
        0
    } else {
        let m = seq_max(s.drop_last());
        if s.last() > m {
            s.last()
        } else {
            m
        }
    }
}

/// A sparkline's newest value (0 when empty) and its vertical scale: the
/// fixed maximum when given, else the largest sample (1 when empty), and
/// never below 1.
pub fn spark_scale(data: &VecDeque<u64>, fixed_max: Option<u64>) -> (r: (u64, u64))
    ensures
        r.0 == (if data@.len() == 0 {
            0
        } else {
            data@.last()
        }),
        r.1 == ({
            let m = match fixed_max {
                Some(f) => f,
                None => if data@.len() == 0 {
                    1
                } else {
                    seq_max(data@)
                },
            };
            if m < 1 {
                1
            } else {
                m
            }
        }),
{
    let n = data.len();
    let last = if n == 0 {
        0
    } else {
        data[n - 1]
    };
    let m = match fixed_max {
        Some(f) => f,
        None => {
            if n == 0 {
                1
            } else {
                let mut best: u64 = 0;
                let mut i: usize = 0;
                while i < n
                    invariant
                        n == data@.len(),
                        i <= n,
                        best == seq_max(data@.take(i as int)),
                    decreases n - i,
                {
                    assert(data@.take(i + 1).drop_last() =~= data@.take(i as int));
                    assert(data@.take(i + 1).last() == data@[i as int]);
                    let x = data[i];
                    if x > best {
                        best = x;
                    }
                    i = i + 1;
                }
                assert(data@.take(n as int) =~= data@);
                best
            }
        },
    };
    let scale = if m < 1 {
        1
    } else {
        m
    };
    (last, scale)
}

/// A column header of the process table: the base label, with an arrow for
/// the sort direction when the table is ordered by that column.
pub fn sort_label(sort: SortState, column: SortColumn, base: &str) -> (r: String)
    ensures
        r@ == (if sort.column == column {
            base@.push(
                match sort.order {
                    SortOrder::Ascending => '↑',
                    SortOrder::Descending => '↓',
                },
            )
        } else {
            base@
        }),
{
    let mut out = base.to_owned();
    if sort.column == column {
        match sort.order {
            SortOrder::Ascending => out.push('↑'),
            SortOrder::Descending => out.push('↓'),
        }
    }
    out
}

/// The help line of each tab.
pub open spec fn help_text(tab: Tab) -> Seq<char> {
    match tab {
        Tab::Processes => "[1-4] tab  [↑↓/jk] select  [s/m/p/n/d/w] sort  [x] kill  [X] force  [/] filter  [q] quit"@,
        Tab::Performance => "[1-4] tab  [q] quit"@,
        Tab::Startup => "[1-4] tab  [↑↓] select  [space] toggle  [r] refresh  [q] quit"@,
        Tab::Services => "[1-4] tab  [↑↓]  [s] start  [S] stop  [R] restart  [e] enable  [E] disable  [u] user/sys  [q] quit"@,
    }
}

fn help_line(tab: Tab) -> (r: &'static str)
    ensures
        r@ == help_text(tab),
{
    match tab {
        Tab::Processes => "[1-4] tab  [↑↓/jk] select  [s/m/p/n/d/w] sort  [x] kill  [X] force  [/] filter  [q] quit",
        Tab::Performance => "[1-4] tab  [q] quit",
        Tab::Startup => "[1-4] tab  [↑↓] select  [space] toggle  [r] refresh  [q] quit",
        Tab::Services => "[1-4] tab  [↑↓]  [s] start  [S] stop  [R] restart  [e] enable  [E] disable  [u] user/sys  [q] quit",
    }
}

/// The status line: the filter being typed, else the current status
/// message, else the shown tab's help.
pub fn status_line(nav: Navigation, filter: &str, message: Option<&str>) -> (r: String)
    ensures
        r@ == (if nav.filter_active {
            seq!['/'] + filter@
        } else {
            match message {
                Some(m) => m@,
                None => help_text(nav.tab),
            }
        }),
{
    if nav.filter_active {
        let mut out = String::new();
        out.push('/');
        let cs = chars_of(filter);
        push_span(&mut out, &cs, 0, cs.len());
        assert(cs@.subrange(0, cs@.len() as int) =~= cs@);
        return out;
    }
    match message {
        Some(m) => m.to_owned(),
        None => help_line(nav.tab).to_owned(),
    }
}

/// How a signal is named in messages.
pub open spec fn signal_label(s: KillSignal) -> Seq<char> {
    match s {
        KillSignal::Term => "Term"@,
        KillSignal::Kill => "Kill"@,
    }
}

/// How a service operation is named in messages.
pub open spec fn op_label(op: ServiceOp) -> Seq<char> {
    match op {
        ServiceOp::Start => "Start"@,
        ServiceOp::Stop => "Stop"@,
        ServiceOp::Restart => "Restart"@,
        ServiceOp::Enable => "Enable"@,
        ServiceOp::Disable => "Disable"@,
    }
}

/// The status message after `signal` went to the process `name` (`pid`):
/// `sent {signal} to {name} ({pid})`.
pub fn kill_sent_message(signal: KillSignal, name: &str, pid: u32) -> (r: String)
    ensures
        r@ == "sent "@ + signal_label(signal) + " to "@ + name@ + " ("@ + decimal_chars(pid as nat)
            + ")"@,
{
    let mut out = "sent ".to_owned();
    match signal {
        KillSignal::Term => out.append("Term"),
        KillSignal::Kill => out.append("Kill"),
    }
    out.append(" to ");
    out.append(name);
    out.append(" (");
    push_decimal(&mut out, pid as u128);
    out.append(")");
    out
}

/// The status message after an autostart entry was toggled: `disabled
/// {name}` when it had been enabled, else `enabled {name}`.
pub fn toggled_message(was_enabled: bool, name: &str) -> (r: String)
    ensures
        r@ == (if was_enabled {
            "disabled"@
        } else {
            "enabled"@
        }) + " "@ + name@,
{
    let mut out = if was_enabled {
        "disabled".to_owned()
    } else {
        "enabled".to_owned()
    };
    out.append(" ");
    out.append(name);
    out
}

/// The status message after `op` succeeded on `unit`: `{op} {unit}`.
pub fn service_done_message(op: ServiceOp, unit: &str) -> (r: String)
    ensures
        r@ == op_label(op) + " "@ + unit@,
{
    let mut out = match op {
        ServiceOp::Start => "Start".to_owned(),
        ServiceOp::Stop => "Stop".to_owned(),
        ServiceOp::Restart => "Restart".to_owned(),
        ServiceOp::Enable => "Enable".to_owned(),
        ServiceOp::Disable => "Disable".to_owned(),
    };
    out.append(" ");
    out.append(unit);
    out
}

/// The text of a notice.
pub open spec fn notice_text(n: Notice) -> Seq<char> {
    match n {
        Notice::RefreshingStartup => "refreshing startup"@,
        Notice::RefreshingServices => "refreshing services"@,
    }
}

/// The status message a notice shows.
pub fn notice_message(n: Notice) -> (r: &'static str)
    ensures
        r@ == notice_text(n),
{
    match n {
        Notice::RefreshingStartup => "refreshing startup",
        Notice::RefreshingServices => "refreshing services",
    }
}

/// The indices of the rows among `rows` that pass the filter, in order.
pub open spec fn matching_indices(rows: Seq<ProcessRow>, needle: Seq<u8>) -> Seq<usize>
    decreases rows.len(),
{
    if rows.len() == 0 {
        seq![]
    } else {
        let front = matching_indices(rows.drop_last(), needle);
        if rows.last().matches_bytes(needle) {
            front.push((rows.len() - 1) as usize)
        } else {
            front
        }
    }
}

/// The rows the Processes tab lists: the positions of the rows that match
/// the filter, in table order.
pub fn filtered_processes(rows: &[ProcessRow], filter: &str) -> (r: Vec<usize>)
    ensures
        r@ == matching_indices(rows@, filter.spec_bytes()),
{
    let n = rows.len();
    let mut out: Vec<usize> = Vec::new();
    let mut i: usize = 0;
    while i < n
        invariant
            n == rows@.len(),
            i <= n,
            out@ == matching_indices(rows@.take(i as int), filter.spec_bytes()),
        decreases n - i,
    {
        assert(rows@.take(i + 1).drop_last() =~= rows@.take(i as int));
        assert(rows@.take(i + 1).last() == rows@[i as int]);
        if rows[i].matches(filter) {
            out.push(i);
        }
        i = i + 1;
    }
    assert(rows@.take(n as int) =~= rows@);
    out
}

/// After a sample: the rows are put in the table's order and the process
/// selection is pulled back onto the last row when it fell off the end.
pub fn arrange_processes(nav: &mut Navigation, rows: &mut [ProcessRow])
    ensures
        final(rows)@.to_multiset() == old(rows)@.to_multiset(),
        rows_sorted(old(nav).sort, final(rows)@),
        *final(nav) == (if old(nav).proc_selected >= old(rows)@.len() && old(rows)@.len() > 0 {
            Navigation { proc_selected: (old(rows)@.len() - 1) as usize, ..*old(nav) }
        } else {
            *old(nav)
        }),
{
    sort_in_place(rows, nav.sort);
    proof {
        broadcast use vstd::seq_lib::group_to_multiset_ensures;

        assert(rows@.len() == rows@.to_multiset().len());
        assert(old(rows)@.len() == old(rows)@.to_multiset().len());
    }
    let n = rows.len();
    if nav.proc_selected >= n && n > 0 {
        nav.proc_selected = n - 1;
    }
}

impl Navigation {
    /// The Startup tab is shown and its list is due for loading.
    pub fn wants_startup_list(&self) -> (r: bool)
        ensures
            r == (self.tab == Tab::Startup && self.startup_dirty),
    {
        self.tab == Tab::Startup && self.startup_dirty
    }

    /// The Services tab is shown and its list is due for loading.
    pub fn wants_services_list(&self) -> (r: bool)
        ensures
            r == (self.tab == Tab::Services && self.services_dirty),
    {
        self.tab == Tab::Services && self.services_dirty
    }

    /// The autostart list was loaded with `len` entries.
    pub fn startup_loaded(&mut self, len: usize)
        ensures
            *final(self) == (Navigation {
                startup_dirty: false,
                startup_selected: if len == 0 {
                    0
                } else if old(self).startup_selected < len {
                    old(self).startup_selected
                } else {
                    (len - 1) as usize
                },
                ..*old(self)
            }),
    {
        self.startup_dirty = false;
        self.startup_selected = clamp_to_list(self.startup_selected, len);
    }

    /// The service list was loaded with `len` units.
    pub fn services_loaded(&mut self, len: usize)
        ensures
            *final(self) == (Navigation {
                services_dirty: false,
                services_selected: if len == 0 {
                    0
                } else if old(self).services_selected < len {
                    old(self).services_selected
                } else {
                    (len - 1) as usize
                },
                ..*old(self)
            }),
    {
        self.services_dirty = false;
        self.services_selected = clamp_to_list(self.services_selected, len);
    }
}

/// How the Services tab colours a unit's active state.
#[derive(Debug, Clone, Copy, PartialEq, Eq, Structural)]
pub enum ActiveClass {
    Active,
    Failed,
    Inactive,
    Other,
}

/// The colour class of an active state: `active`, `failed`, `inactive`, or
/// anything else.
pub fn active_class(state: &str) -> (r: ActiveClass)
    ensures
        r == (if state@ == "active"@ {
            ActiveClass::Active
        } else if state@ == "failed"@ {
            ActiveClass::Failed
        } else if state@ == "inactive"@ {
            ActiveClass::Inactive
        } else {
            ActiveClass::Other
        }),
{
    let cs = chars_of(state);
    let a = ['a', 'c', 't', 'i', 'v', 'e'];
    let f = ['f', 'a', 'i', 'l', 'e', 'd'];
    let i = ['i', 'n', 'a', 'c', 't', 'i', 'v', 'e'];
    proof {
        reveal_strlit("active");
        reveal_strlit("failed");
        reveal_strlit("inactive");
        assert(a@ =~= "active"@);
        assert(f@ =~= "failed"@);
        assert(i@ =~= "inactive"@);
    }
    if chars_equal(&cs, &a) {
        ActiveClass::Active
    } else if chars_equal(&cs, &f) {
        ActiveClass::Failed
    } else if chars_equal(&cs, &i) {
        ActiveClass::Inactive
    } else {
        ActiveClass::Other
    }
}

fn chars_equal(a: &Vec<char>, b: &[char]) -> (r: bool)
    ensures
        r == (a@ == b@),
{
    let n = a.len();
    if n != b.len() {
        return false;
    }
    let mut i: usize = 0;
    while i < n
        invariant
            n == a@.len(),
            n == b@.len(),
            i <= n,
            forall|j: int| 0 <= j < i ==> a@[j] == b@[j],
        decreases n - i,
    {
        if a[i] != b[i] {
            return false;
        }
        i = i + 1;
    }
    assert(a@ =~= b@);
    true
}

} // verus!
