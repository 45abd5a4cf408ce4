//! The console front end's decisions: which tab is shown, how keys move the
//! selection and change the state, and which command a key asks the front
//! end to carry out. The front end reads keys, runs the commands, and draws.

use vstd::prelude::*;

use crate::actions::KillSignal;
use crate::processes::{SortColumn, SortState};
use crate::sampler::RefreshKind;
use crate::services::{ServiceOp, ServiceScope};

verus! {

/// The four tabs, in strip order.
#[derive(Debug, Clone, Copy, PartialEq, Eq, Structural)]
pub enum Tab {
    Processes,
    Performance,
    Startup,
    Services,
}

impl Tab {
    pub open spec fn position(self) -> nat {
        match self {
            Tab::Processes => 0,
            Tab::Performance => 1,
            Tab::Startup => 2,
            Tab::Services => 3,
        }
    }

    pub open spec fn at(i: nat) -> Tab {
        if i % 4 == 0 {
            Tab::Processes
        } else if i % 4 == 1 {
            Tab::Performance
        } else if i % 4 == 2 {
            Tab::Startup
        } else {
            Tab::Services
        }
    }

    pub open spec fn following(self) -> Tab {
        Tab::at(self.position() + 1)
    }

    pub open spec fn preceding(self) -> Tab {
        Tab::at(self.position() + 3)
    }

    /// The next tab, wrapping around.
    pub fn next(self) -> (t: Tab)
        ensures
            t == self.following(),
    {
        match self {
            Tab::Processes => Tab::Performance,
            Tab::Performance => Tab::Startup,
            Tab::Startup => Tab::Services,
            Tab::Services => Tab::Processes,
        }
    }

    /// The previous tab, wrapping around.
    pub fn prev(self) -> (t: Tab)
        ensures
            t == self.preceding(),
    {
        match self {
            Tab::Processes => Tab::Services,
            Tab::Performance => Tab::Processes,
            Tab::Startup => Tab::Performance,
            Tab::Services => Tab::Startup,
        }
    }

    pub open spec fn title_text(self) -> Seq<char> {
        match self {
            Tab::Processes => "Processes"@,
            Tab::Performance => "Performance"@,
            Tab::Startup => "Startup"@,
            Tab::Services => "Services"@,
        }
    }

    pub fn title(self) -> (r: &'static str)
        ensures
            r@ == self.title_text(),
    {
        match self {
            Tab::Processes => "Processes",
            Tab::Performance => "Performance",
            Tab::Startup => "Startup",
            Tab::Services => "Services",
        }
    }

    /// The tab's place in the tab strip.
    pub fn index(self) -> (i: usize)
        ensures
            i == self.position(),
    {
        match self {
            Tab::Processes => 0,
            Tab::Performance => 1,
            Tab::Startup => 2,
            Tab::Services => 3,
        }
    }

    pub open spec fn refresh_for(self) -> RefreshKind {
        match self {
            Tab::Processes => RefreshKind {
                cpu: true,
                memory: true,
                processes: true,
                disks: false,
                networks: false,
            },
            Tab::Performance => RefreshKind {
                cpu: true,
                memory: true,
                processes: false,
                disks: true,
                networks: true,
            },
            _ => RefreshKind {
                cpu: false,
                memory: true,
                processes: false,
                disks: false,
                networks: false,
            },
        }
    }

    /// What a tick samples while this tab is shown: the Processes tab its
    /// table, Performance its graphs, the others only memory.
    pub fn refresh_kind(self) -> (r: RefreshKind)
        ensures
            r == self.refresh_for(),
    {
        match self {
            Tab::Processes => RefreshKind::processes_tab(),
            Tab::Performance => RefreshKind::performance(),
            Tab::Startup | Tab::Services => RefreshKind::memory_only(),
        }
    }
}

/// `prev` undoes `next` and `next` undoes `prev`, and four steps of either
/// come back to the start.
pub proof fn lemma_tab_cycle(t: Tab)
    ensures
        t.following().preceding() == t,
        t.preceding().following() == t,
        t.following().following().following().following() == t,
        t.following() != t,
{
}

/// A key, as the console sees it.
#[derive(Debug, Clone, Copy, PartialEq, Eq, Structural)]
pub enum Key {
    Char(char),
    Esc,
    Enter,
    Backspace,
    Tab,
    BackTab,
    Up,
    Down,
    PageUp,
    PageDown,
    Home,
    End,
    Delete,
    Other,
}

/// A message the front end shows in the status line.
#[derive(Debug, Clone, Copy, PartialEq, Eq, Structural)]
pub enum Notice {
    RefreshingStartup,
    RefreshingServices,
}

/// What a key asks the front end to do beyond the state change.
#[derive(Debug, Clone, Copy, PartialEq, Eq, Structural)]
pub enum Command {
    Nothing,
    Quit,
    /// Send `signal` to the process at `row` of the filtered process list.
    Kill { signal: KillSignal, row: usize },
    /// Toggle the autostart entry at `index`.
    ToggleAutostart { index: usize },
    /// Run `op` on the service at `index`.
    Service { op: ServiceOp, index: usize },
    /// Show a notice.
    Notify { notice: Notice },
}

/// The console's state, apart from the filter text.
#[derive(Debug, Clone, Copy, PartialEq, Eq, Structural)]
pub struct Navigation {
    pub tab: Tab,
    pub proc_selected: usize,
    pub sort: SortState,
    pub filter_active: bool,
    pub startup_selected: usize,
    pub startup_dirty: bool,
    pub services_selected: usize,
    pub services_scope: ServiceScope,
    pub services_dirty: bool,
}

/// The lengths of the lists the tabs select in: the filtered processes, the
/// autostart entries and the services.
#[derive(Debug, Clone, Copy, PartialEq, Eq, Structural)]
pub struct ListLens {
    pub processes: usize,
    pub startup: usize,
    pub services: usize,
}

/// The console's state.
#[derive(Debug, Clone)]
pub struct Console {
    pub nav: Navigation,
    pub filter: String,
}

/// `x as i32`: the low 32 bits, read as a signed number.
pub open spec fn wrap_i32(x: int) -> int {
    let m = x % 0x1_0000_0000;
    if m >= 0x8000_0000 {
        m - 0x1_0000_0000
    } else {
        m
    }
}

/// `x.clamp(lo, hi)`.
pub open spec fn clamp(x: int, lo: int, hi: int) -> int {
    if x < lo {
        lo
    } else if x > hi {
        hi
    } else {
        x
    }
}

pub open spec fn in_i32(x: int) -> bool {
    -0x8000_0000 <= x <= 0x7fff_ffff
}

/// The selected row of the shown tab (0 on Performance).
pub open spec fn selection(n: Navigation) -> int {
    match n.tab {
        Tab::Processes => n.proc_selected as int,
        Tab::Startup => n.startup_selected as int,
        Tab::Services => n.services_selected as int,
        Tab::Performance => 0,
    }
}

/// The length of the shown tab's list (0 on Performance).
pub open spec fn selection_len(n: Navigation, lens: ListLens) -> int {
    match n.tab {
        Tab::Processes => lens.processes as int,
        Tab::Startup => lens.startup as int,
        Tab::Services => lens.services as int,
        Tab::Performance => 0,
    }
}

pub open spec fn with_selection(n: Navigation, idx: int) -> Navigation {
    match n.tab {
        Tab::Processes => Navigation { proc_selected: idx as usize, ..n },
        Tab::Startup => Navigation { startup_selected: idx as usize, ..n },
        Tab::Services => Navigation { services_selected: idx as usize, ..n },
        Tab::Performance => n,
    }
}

/// Moving the selection by `delta` stays clear of the arithmetic that
/// would overflow or panic.
pub open spec fn move_ok(n: Navigation, lens: ListLens, delta: int) -> bool {
    let len = selection_len(n, lens);
    len == 0 || (in_i32(wrap_i32(selection(n)) + delta) && wrap_i32(len) >= 1)
}

/// The selection after moving by `delta`, clamped to the list.
pub open spec fn moved(n: Navigation, lens: ListLens, delta: int) -> Navigation {
    let len = selection_len(n, lens);
    if len == 0 {
        n
    } else {
        with_selection(n, clamp(wrap_i32(selection(n)) + delta, 0, wrap_i32(len) - 1))
    }
}

pub open spec fn jump_ok(n: Navigation, lens: ListLens) -> bool {
    let len = selection_len(n, lens);
    len == 0 || wrap_i32(len) >= 1
}

/// The selection after jumping to row `idx`, clamped to the list.
pub open spec fn jumped(n: Navigation, lens: ListLens, idx: int) -> Navigation {
    let len = selection_len(n, lens);
    if len == 0 {
        n
    } else {
        with_selection(n, clamp(idx, 0, wrap_i32(len) - 1))
    }
}

/// Moving or jumping never leaves the shown list: on a non-empty list whose
/// length fits an `i32`, the selection afterwards is a row of the list.
pub proof fn lemma_selection_stays_in_list(n: Navigation, lens: ListLens, delta: int, idx: int)
    requires
        0 < selection_len(n, lens) <= 0x7fff_ffff,
        move_ok(n, lens, delta),
    ensures
        0 <= selection(moved(n, lens, delta)) < selection_len(n, lens),
        0 <= selection(jumped(n, lens, idx)) < selection_len(n, lens),
{
    let len = selection_len(n, lens);
    assert(wrap_i32(len) == len) by {
        assert(len % 0x1_0000_0000 == len);
    }
}

/// The sort column a key of the Processes tab picks.
pub open spec fn sort_key_column(c: char) -> Option<SortColumn> {
    if c == 's' {
        Some(SortColumn::Cpu)
    } else if c == 'm' {
        Some(SortColumn::Memory)
    } else if c == 'p' {
        Some(SortColumn::Pid)
    } else if c == 'n' {
        Some(SortColumn::Name)
    } else if c == 'd' {
        Some(SortColumn::DiskRead)
    } else if c == 'w' {
        Some(SortColumn::DiskWrite)
    } else {
        None
    }
}

/// The service operation a key of the Services tab runs.
pub open spec fn service_key_op(c: char) -> Option<ServiceOp> {
    if c == 's' {
        Some(ServiceOp::Start)
    } else if c == 'S' {
        Some(ServiceOp::Stop)
    } else if c == 'R' {
        Some(ServiceOp::Restart)
    } else if c == 'e' {
        Some(ServiceOp::Enable)
    } else if c == 'E' {
        Some(ServiceOp::Disable)
    } else {
        None
    }
}

/// Keys with a meaning on every tab (outside filter editing).
pub open spec fn is_global_key(key: Key, ctrl: bool) -> bool {
    match key {
        Key::Char(c) => c == 'q' || (c == 'c' && ctrl) || c == '1' || c == '2' || c == '3' || c
            == '4' || c == 'j' || c == 'k' || c == 'g' || c == 'G',
        Key::Esc | Key::Tab | Key::BackTab | Key::Down | Key::Up | Key::PageDown | Key::PageUp
        | Key::Home | Key::End => true,
        _ => false,
    }
}

/// Keys of the shown tab are handled without overflow or panic.
pub open spec fn key_ok(n: Navigation, key: Key, ctrl: bool, lens: ListLens) -> bool {
    n.filter_active || match key {
        Key::Down | Key::Char('j') => move_ok(n, lens, 1),
        Key::Up | Key::Char('k') => move_ok(n, lens, -1),
        Key::PageDown => move_ok(n, lens, 10),
        Key::PageUp => move_ok(n, lens, -10),
        Key::Home | Key::Char('g') | Key::End | Key::Char('G') => jump_ok(n, lens),
        _ => true,
    }
}

/// The state after a key of the Processes tab.
pub open spec fn processes_key_nav(n: Navigation, key: Key) -> Navigation {
    match key {
        Key::Char(c) => if c == '/' {
            Navigation { filter_active: true, ..n }
        } else if let Some(col) = sort_key_column(c) {
            Navigation { sort: n.sort.cycled(col), ..n }
        } else {
            n
        },
        _ => n,
    }
}

/// The state after a key of the Services tab.
pub open spec fn services_key_nav(n: Navigation, key: Key) -> Navigation {
    match key {
        Key::Char('u') => Navigation {
            services_scope: match n.services_scope {
                ServiceScope::User => ServiceScope::System,
                ServiceScope::System => ServiceScope::User,
            },
            services_dirty: true,
            services_selected: 0,
            ..n
        },
        Key::Char('r') => Navigation { services_dirty: true, ..n },
        _ => n,
    }
}

/// The state after a key.
pub open spec fn nav_after(n: Navigation, key: Key, ctrl: bool, lens: ListLens) -> Navigation {
    if n.filter_active {
        match key {
            Key::Esc | Key::Enter => Navigation { filter_active: false, ..n },
            _ => n,
        }
    } else if is_global_key(key, ctrl) {
        match key {
            Key::Char('1') => Navigation { tab: Tab::Processes, ..n },
            Key::Char('2') => Navigation { tab: Tab::Performance, ..n },
            Key::Char('3') => Navigation { tab: Tab::Startup, ..n },
            Key::Char('4') => Navigation { tab: Tab::Services, ..n },
            Key::Tab => Navigation { tab: n.tab.following(), ..n },
            Key::BackTab => Navigation { tab: n.tab.preceding(), ..n },
            Key::Down | Key::Char('j') => moved(n, lens, 1),
            Key::Up | Key::Char('k') => moved(n, lens, -1),
            Key::PageDown => moved(n, lens, 10),
            Key::PageUp => moved(n, lens, -10),
            Key::Home | Key::Char('g') => jumped(n, lens, 0),
            Key::End | Key::Char('G') => jumped(n, lens, 0x7fff_ffff),
            _ => n,
        }
    } else {
        match n.tab {
            Tab::Processes => processes_key_nav(n, key),
            Tab::Performance => n,
            Tab::Startup => match key {
                Key::Char('r') => Navigation { startup_dirty: true, ..n },
                _ => n,
            },
            Tab::Services => services_key_nav(n, key),
        }
    }
}

/// The command a key asks for.
pub open spec fn command_after(n: Navigation, key: Key, ctrl: bool, lens: ListLens) -> Command {
    if n.filter_active {
        Command::Nothing
    } else if is_global_key(key, ctrl) {
        match key {
            Key::Char('q') | Key::Esc => Command::Quit,
            Key::Char('c') => Command::Quit,
            _ => Command::Nothing,
        }
    } else {
        match n.tab {
            Tab::Processes => {
                let sig = match key {
                    Key::Char('x') | Key::Delete => Some(KillSignal::Term),
                    Key::Char('X') => Some(KillSignal::Kill),
                    _ => None,
                };
                match sig {
                    Some(s) => if lens.processes > 0 {
                        Command::Kill {
                            signal: s,
                            row: if (n.proc_selected as int) < (lens.processes as int) {
                                n.proc_selected
                            } else {
                                (lens.processes - 1) as usize
                            },
                        }
                    } else {
                        Command::Nothing
                    },
                    None => Command::Nothing,
                }
            },
            Tab::Performance => Command::Nothing,
            Tab::Startup => match key {
                Key::Char(' ') => if n.startup_selected < lens.startup {
                    Command::ToggleAutostart { index: n.startup_selected }
                } else {
                    Command::Nothing
                },
                Key::Char('r') => Command::Notify { notice: Notice::RefreshingStartup },
                _ => Command::Nothing,
            },
            Tab::Services => match key {
                Key::Char(c) => if let Some(op) = service_key_op(c) {
                    if n.services_selected < lens.services {
                        Command::Service { op, index: n.services_selected }
                    } else {
                        Command::Nothing
                    }
                } else if c == 'r' {
                    Command::Notify { notice: Notice::RefreshingServices }
                } else {
                    Command::Nothing
                },
                _ => Command::Nothing,
            },
        }
    }
}

/// The filter text after a key: edited while the filter is active, cleared
/// when `/` opens it on the Processes tab.
pub open spec fn filter_after(n: Navigation, f: Seq<char>, key: Key, ctrl: bool) -> Seq<char> {
    if n.filter_active {
        match key {
            Key::Esc => Seq::empty(),
            Key::Backspace => if f.len() > 0 {
                f.drop_last()
            } else {
                f
            },
            Key::Char(c) => f.push(c),
            _ => f,
        }
    } else if n.tab == Tab::Processes && key == Key::Char('/') {
        Seq::empty()
    } else {
        f
    }
}

/// `x as i32` for a list index or length, widened.
fn wrap_index(x: usize) -> (r: i64)
    ensures
        r == wrap_i32(x as int),
        in_i32(r as int),
{
    let m = (x as u64 % 0x1_0000_0000u64) as i64;
    if m >= 0x8000_0000 {
        m - 0x1_0000_0000
    } else {
        m
    }
}

fn clamp_i64(x: i64, lo: i64, hi: i64) -> (r: i64)
    requires
        lo <= hi,
    ensures
        r == clamp(x as int, lo as int, hi as int),
{
    if x < lo {
        lo
    } else if x > hi {
        hi
    } else {
        x
    }
}

impl Navigation {
    /// The state a fresh console starts in: the Processes tab ordered by CPU
    /// descending, nothing selected beyond the first rows, the lazy lists due
    /// for loading, and the user's services shown.
    pub fn new() -> (n: Navigation)
        ensures
            n.tab == Tab::Processes,
            n.proc_selected == 0,
            n.sort.column == SortColumn::Cpu,
            n.sort.order == crate::processes::SortOrder::Descending,
            !n.filter_active,
            n.startup_selected == 0,
            n.startup_dirty,
            n.services_selected == 0,
            n.services_scope == ServiceScope::User,
            n.services_dirty,
    {
        Navigation {
            tab: Tab::Processes,
            proc_selected: 0,
            sort: SortState::default(),
            filter_active: false,
            startup_selected: 0,
            startup_dirty: true,
            services_selected: 0,
            services_scope: ServiceScope::User,
            services_dirty: true,
        }
    }

    fn selection_idx(&self) -> (r: usize)
        ensures
            r == selection(*self),
    {
        match self.tab {
            Tab::Processes => self.proc_selected,
            Tab::Startup => self.startup_selected,
            Tab::Services => self.services_selected,
            Tab::Performance => 0,
        }
    }

    fn selection_len(&self, lens: ListLens) -> (r: usize)
        ensures
            r == selection_len(*self, lens),
    {
        match self.tab {
            Tab::Processes => lens.processes,
            Tab::Startup => lens.startup,
            Tab::Services => lens.services,
            Tab::Performance => 0,
        }
    }

    fn set_selection(&mut self, idx: usize)
        ensures
            *final(self) == with_selection(*old(self), idx as int),
    {
        match self.tab {
            Tab::Processes => self.proc_selected = idx,
            Tab::Startup => self.startup_selected = idx,
            Tab::Services => self.services_selected = idx,
            Tab::Performance => {},
        }
    }

    /// Moves the shown tab's selection by `delta`, clamped to its list.
    pub fn move_selection(&mut self, delta: i32, lens: ListLens)
        requires
            move_ok(*old(self), lens, delta as int),
        ensures
            *final(self) == moved(*old(self), lens, delta as int),
    {
        let len = self.selection_len(lens);
        if len == 0 {
            return;
        }
        let cur = wrap_index(self.selection_idx());
        let target = cur + delta as i64;
        let hi = wrap_index(len) - 1;
        let idx = clamp_i64(target, 0, hi);
        self.set_selection(idx as usize);
    }

    /// Moves the shown tab's selection to row `idx`, clamped to its list.
    pub fn jump_to(&mut self, idx: i32, lens: ListLens)
        requires
            jump_ok(*old(self), lens),
        ensures
            *final(self) == jumped(*old(self), lens, idx as int),
    {
        let len = self.selection_len(lens);
        if len == 0 {
            return;
        }
        let hi = wrap_index(len) - 1;
        let target = clamp_i64(idx as i64, 0, hi);
        self.set_selection(target as usize);
    }

    /// A service operation finished; a successful one makes the list due
    /// for reloading.
    pub fn service_done(&mut self, succeeded: bool)
        ensures
            *final(self) == (if succeeded {
                Navigation { services_dirty: true, ..*old(self) }
            } else {
                *old(self)
            }),
    {
        if succeeded {
            self.services_dirty = true;
        }
    }

    fn processes_key(&mut self, key: Key, lens: ListLens) -> (cmd: Command)
        requires
            !old(self).filter_active,
            old(self).tab == Tab::Processes,
            !is_global_key(key, false),
        ensures
            *final(self) == processes_key_nav(*old(self), key),
            cmd == command_after(*old(self), key, false, lens),
    {
        let sig = match key {
            Key::Char('x') | Key::Delete => Some(KillSignal::Term),
            Key::Char('X') => Some(KillSignal::Kill),
            _ => None,
        };
        if let Some(s) = sig {
            if lens.processes == 0 {
                return Command::Nothing;
            }
            let row = if self.proc_selected < lens.processes {
                self.proc_selected
            } else {
                lens.processes - 1
            };
            return Command::Kill { signal: s, row };
        }
        match key {
            Key::Char(c) => {
                if c == '/' {
                    self.filter_active = true;
                } else if c == 's' {
                    self.sort.cycle(SortColumn::Cpu);
                } else if c == 'm' {
                    self.sort.cycle(SortColumn::Memory);
                } else if c == 'p' {
                    self.sort.cycle(SortColumn::Pid);
                } else if c == 'n' {
                    self.sort.cycle(SortColumn::Name);
                } else if c == 'd' {
                    self.sort.cycle(SortColumn::DiskRead);
                } else if c == 'w' {
                    self.sort.cycle(SortColumn::DiskWrite);
                }
            },
            _ => {},
        }
        Command::Nothing
    }

    fn startup_key(&mut self, key: Key, lens: ListLens) -> (cmd: Command)
        requires
            !old(self).filter_active,
            old(self).tab == Tab::Startup,
            !is_global_key(key, false),
        ensures
            *final(self) == (match key {
                Key::Char('r') => Navigation { startup_dirty: true, ..*old(self) },
                _ => *old(self),
            }),
            cmd == command_after(*old(self), key, false, lens),
    {
        match key {
            Key::Char(' ') => {
                if self.startup_selected < lens.startup {
                    Command::ToggleAutostart { index: self.startup_selected }
                } else {
                    Command::Nothing
                }
            },
            Key::Char('r') => {
                self.startup_dirty = true;
                Command::Notify { notice: Notice::RefreshingStartup }
            },
            _ => Command::Nothing,
        }
    }

    fn services_key(&mut self, key: Key, lens: ListLens) -> (cmd: Command)
        requires
            !old(self).filter_active,
            old(self).tab == Tab::Services,
            !is_global_key(key, false),
        ensures
            *final(self) == services_key_nav(*old(self), key),
            cmd == command_after(*old(self), key, false, lens),
    {
        match key {
            Key::Char(c) => {
                let op = if c == 's' {
                    Some(ServiceOp::Start)
                } else if c == 'S' {
                    Some(ServiceOp::Stop)
                } else if c == 'R' {
                    Some(ServiceOp::Restart)
                } else if c == 'e' {
                    Some(ServiceOp::Enable)
                } else if c == 'E' {
                    Some(ServiceOp::Disable)
                } else {
                    None
                };
                if let Some(op) = op {
                    if self.services_selected < lens.services {
                        return Command::Service { op, index: self.services_selected };
                    }
                    return Command::Nothing;
                }
                if c == 'u' {
                    self.services_scope = match self.services_scope {
                        ServiceScope::User => ServiceScope::System,
                        ServiceScope::System => ServiceScope::User,
                    };
                    self.services_dirty = true;
                    self.services_selected = 0;
                    Command::Nothing
                } else if c == 'r' {
                    self.services_dirty = true;
                    Command::Notify { notice: Notice::RefreshingServices }
                } else {
                    Command::Nothing
                }
            },
            _ => Command::Nothing,
        }
    }
}

impl Navigation {
    fn move_allowed(&self, lens: ListLens, delta: i64) -> (r: bool)
        requires
            -10 <= delta <= 10,
        ensures
            r == move_ok(*self, lens, delta as int),
    {
        let len = self.selection_len(lens);
        if len == 0 {
            return true;
        }
        let target = wrap_index(self.selection_idx()) + delta;
        -0x8000_0000 <= target && target <= 0x7fff_ffff && wrap_index(len) >= 1
    }

    fn jump_allowed(&self, lens: ListLens) -> (r: bool)
        ensures
            r == jump_ok(*self, lens),
    {
        let len = self.selection_len(lens);
        len == 0 || wrap_index(len) >= 1
    }
}

impl Console {
    /// A fresh console with an empty filter.
    pub fn new() -> (c: Console)
        ensures
            c.nav == Navigation::new_spec(),
            c.filter@ == Seq::<char>::empty(),
    {
        Console { nav: Navigation::new(), filter: String::new() }
    }

    /// Whether [`Console::handle_key`] can take this key without the index
    /// arithmetic of a selection move overflowing.
    pub fn accepts(&self, key: Key, ctrl: bool, lens: ListLens) -> (r: bool)
        ensures
            r == key_ok(self.nav, key, ctrl, lens),
    {
        if self.nav.filter_active {
            return true;
        }
        match key {
            Key::Down | Key::Char('j') => self.nav.move_allowed(lens, 1),
            Key::Up | Key::Char('k') => self.nav.move_allowed(lens, -1),
            Key::PageDown => self.nav.move_allowed(lens, 10),
            Key::PageUp => self.nav.move_allowed(lens, -10),
            Key::Home | Key::Char('g') | Key::End | Key::Char('G') => self.nav.jump_allowed(lens),
            _ => true,
        }
    }

    /// Handles one key press (`ctrl`: the Control modifier is held) given
    /// the lengths of the lists; returns what the front end must do.
    pub fn handle_key(&mut self, key: Key, ctrl: bool, lens: ListLens) -> (cmd: Command)
        requires
            key_ok(old(self).nav, key, ctrl, lens),
        ensures
            final(self).nav == nav_after(old(self).nav, key, ctrl, lens),
            final(self).filter@ == filter_after(old(self).nav, old(self).filter@, key, ctrl),
            cmd == command_after(old(self).nav, key, ctrl, lens),
    {
        if self.nav.filter_active {
            match key {
                Key::Esc => {
                    self.nav.filter_active = false;
                    self.filter.clear();
                },
                Key::Enter => {
                    self.nav.filter_active = false;
                },
                Key::Backspace => {
                    self.filter.pop();
                },
                Key::Char(c) => {
                    self.filter.push(c);
                },
                _ => {},
            }
            return Command::Nothing;
        }
        match key {
            Key::Char('q') | Key::Esc => Command::Quit,
            Key::Char('c') if ctrl => Command::Quit,
            Key::Char('1') => {
                self.nav.tab = Tab::Processes;
                Command::Nothing
            },
            Key::Char('2') => {
                self.nav.tab = Tab::Performance;
                Command::Nothing
            },
            Key::Char('3') => {
                self.nav.tab = Tab::Startup;
                Command::Nothing
            },
            Key::Char('4') => {
                self.nav.tab = Tab::Services;
                Command::Nothing
            },
            Key::Tab => {
                self.nav.tab = self.nav.tab.next();
                Command::Nothing
            },
            Key::BackTab => {
                self.nav.tab = self.nav.tab.prev();
                Command::Nothing
            },
            Key::Down | Key::Char('j') => {
                self.nav.move_selection(1, lens);
                Command::Nothing
            },
            Key::Up | Key::Char('k') => {
                self.nav.move_selection(-1, lens);
                Command::Nothing
            },
            Key::PageDown => {
                self.nav.move_selection(10, lens);
                Command::Nothing
            },
            Key::PageUp => {
                self.nav.move_selection(-10, lens);
                Command::Nothing
            },
            Key::Home | Key::Char('g') => {
                self.nav.jump_to(0, lens);
                Command::Nothing
            },
            Key::End | Key::Char('G') => {
                self.nav.jump_to(0x7fff_ffff, lens);
                Command::Nothing
            },
            _ => match self.nav.tab {
                Tab::Processes => {
                    let cmd = self.nav.processes_key(key, lens);
                    if key == Key::Char('/') {
                        self.filter.clear();
                    }
                    cmd
                },
                Tab::Performance => Command::Nothing,
                Tab::Startup => self.nav.startup_key(key, lens),
                Tab::Services => self.nav.services_key(key, lens),
            },
        }
    }
}

impl Navigation {
    pub open spec fn new_spec() -> Navigation {
        Navigation {
            tab: Tab::Processes,
            proc_selected: 0,
            sort: SortState { column: SortColumn::Cpu, order: crate::processes::SortOrder::Descending },
            filter_active: false,
            startup_selected: 0,
            startup_dirty: true,
            services_selected: 0,
            services_scope: ServiceScope::User,
            services_dirty: true,
        }
    }
}

} // verus!
