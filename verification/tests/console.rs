use taskmgr_core::console::{Command, Console, Key, ListLens, Navigation, Notice, Tab};
use taskmgr_core::services::{ServiceOp, ServiceScope};
use taskmgr_core::{KillSignal, RefreshKind, SortColumn, SortOrder};

fn lens(processes: usize, startup: usize, services: usize) -> ListLens {
    ListLens { processes, startup, services }
}

fn press(c: &mut Console, key: Key, l: ListLens) -> Command {
    assert!(c.accepts(key, false, l));
    c.handle_key(key, false, l)
}

#[test]
fn fresh_console_state() {
    let c = Console::new();
    assert_eq!(c.nav, Navigation::new());
    assert_eq!(c.nav.tab, Tab::Processes);
    assert_eq!(c.nav.sort.column, SortColumn::Cpu);
    assert_eq!(c.nav.sort.order, SortOrder::Descending);
    assert!(!c.nav.filter_active);
    assert!(c.nav.startup_dirty);
    assert!(c.nav.services_dirty);
    assert_eq!(c.nav.services_scope, ServiceScope::User);
    assert_eq!(c.filter, "");
}

#[test]
fn tab_cycle_and_titles() {
    let all = [Tab::Processes, Tab::Performance, Tab::Startup, Tab::Services];
    for (i, t) in all.iter().enumerate() {
        assert_eq!(t.index(), i);
        assert_eq!(t.next().prev(), *t);
        assert_eq!(t.prev().next(), *t);
        assert_eq!(t.next().next().next().next(), *t);
        assert_eq!(t.next(), all[(i + 1) % 4]);
    }
    assert_eq!(Tab::Processes.title(), "Processes");
    assert_eq!(Tab::Performance.title(), "Performance");
    assert_eq!(Tab::Startup.title(), "Startup");
    assert_eq!(Tab::Services.title(), "Services");
}

#[test]
fn tabs_refresh_only_what_they_show() {
    assert_eq!(Tab::Processes.refresh_kind(), RefreshKind::processes_tab());
    assert_eq!(Tab::Performance.refresh_kind(), RefreshKind::performance());
    let mem = RefreshKind { memory: true, ..RefreshKind::nothing() };
    assert_eq!(Tab::Startup.refresh_kind(), mem);
    assert_eq!(Tab::Services.refresh_kind(), mem);
    assert_eq!(RefreshKind::memory_only(), mem);
    let p = RefreshKind::processes();
    assert!(p.cpu && p.memory && p.processes && !p.disks && !p.networks);
    let f = RefreshKind::performance();
    assert!(f.cpu && f.memory && !f.processes && f.disks && f.networks);
    let n = RefreshKind::nothing();
    assert!(!n.cpu && !n.memory && !n.processes && !n.disks && !n.networks);
}

#[test]
fn quit_keys() {
    let l = lens(0, 0, 0);
    let mut c = Console::new();
    assert_eq!(press(&mut c, Key::Char('q'), l), Command::Quit);
    assert_eq!(press(&mut c, Key::Esc, l), Command::Quit);
    assert_eq!(c.handle_key(Key::Char('c'), true, l), Command::Quit);
    assert_eq!(c.handle_key(Key::Char('c'), false, l), Command::Nothing);
    assert_eq!(c.nav, Navigation::new());
}

#[test]
fn number_keys_and_tab_switch_tabs() {
    let l = lens(0, 0, 0);
    let mut c = Console::new();
    press(&mut c, Key::Char('3'), l);
    assert_eq!(c.nav.tab, Tab::Startup);
    press(&mut c, Key::Char('4'), l);
    assert_eq!(c.nav.tab, Tab::Services);
    press(&mut c, Key::Tab, l);
    assert_eq!(c.nav.tab, Tab::Processes);
    press(&mut c, Key::BackTab, l);
    assert_eq!(c.nav.tab, Tab::Services);
    press(&mut c, Key::Char('2'), l);
    assert_eq!(c.nav.tab, Tab::Performance);
    press(&mut c, Key::Char('1'), l);
    assert_eq!(c.nav.tab, Tab::Processes);
}

#[test]
fn selection_moves_and_clamps() {
    let l = lens(3, 0, 0);
    let mut c = Console::new();
    press(&mut c, Key::Down, l);
    assert_eq!(c.nav.proc_selected, 1);
    press(&mut c, Key::Char('j'), l);
    assert_eq!(c.nav.proc_selected, 2);
    press(&mut c, Key::Down, l);
    assert_eq!(c.nav.proc_selected, 2);
    press(&mut c, Key::PageUp, l);
    assert_eq!(c.nav.proc_selected, 0);
    press(&mut c, Key::Char('k'), l);
    assert_eq!(c.nav.proc_selected, 0);
    press(&mut c, Key::End, l);
    assert_eq!(c.nav.proc_selected, 2);
    press(&mut c, Key::Char('g'), l);
    assert_eq!(c.nav.proc_selected, 0);
    press(&mut c, Key::PageDown, l);
    assert_eq!(c.nav.proc_selected, 2);
    press(&mut c, Key::Home, l);
    assert_eq!(c.nav.proc_selected, 0);
    press(&mut c, Key::Char('G'), l);
    assert_eq!(c.nav.proc_selected, 2);
}

#[test]
fn selection_of_an_empty_list_or_the_performance_tab_stays() {
    let mut c = Console::new();
    c.nav.proc_selected = 4;
    press(&mut c, Key::Down, lens(0, 0, 0));
    assert_eq!(c.nav.proc_selected, 4);
    press(&mut c, Key::Char('2'), lens(5, 5, 5));
    let before = c.nav;
    press(&mut c, Key::Down, lens(5, 5, 5));
    press(&mut c, Key::End, lens(5, 5, 5));
    assert_eq!(c.nav, before);
}

#[test]
fn selection_moves_on_the_shown_tab_only() {
    let l = lens(10, 4, 6);
    let mut c = Console::new();
    press(&mut c, Key::Char('3'), l);
    press(&mut c, Key::Char('G'), l);
    assert_eq!(c.nav.startup_selected, 3);
    assert_eq!(c.nav.proc_selected, 0);
    press(&mut c, Key::Char('4'), l);
    press(&mut c, Key::PageDown, l);
    assert_eq!(c.nav.services_selected, 6 - 1);
    assert_eq!(c.nav.startup_selected, 3);
}

#[test]
fn overflowing_moves_are_refused() {
    let mut c = Console::new();
    c.nav.proc_selected = 0x7fff_ffff;
    assert!(!c.accepts(Key::Down, false, lens(5, 0, 0)));
    assert!(c.accepts(Key::Up, false, lens(5, 0, 0)));
    assert!(c.accepts(Key::Down, false, lens(0, 0, 0)));
    let c2 = Console::new();
    assert!(!c2.accepts(Key::Home, false, lens(0x8000_0000, 0, 0)));
    assert!(c2.accepts(Key::Char('x'), false, lens(0x8000_0000, 0, 0)));
}

#[test]
fn filter_editing() {
    let l = lens(3, 0, 0);
    let mut c = Console::new();
    c.filter = "old".to_string();
    assert_eq!(press(&mut c, Key::Char('/'), l), Command::Nothing);
    assert!(c.nav.filter_active);
    assert_eq!(c.filter, "");
    press(&mut c, Key::Char('a'), l);
    press(&mut c, Key::Char('q'), l);
    assert_eq!(c.filter, "aq");
    press(&mut c, Key::Backspace, l);
    assert_eq!(c.filter, "a");
    press(&mut c, Key::Down, l);
    assert_eq!(c.nav.proc_selected, 0);
    press(&mut c, Key::Enter, l);
    assert!(!c.nav.filter_active);
    assert_eq!(c.filter, "a");
    press(&mut c, Key::Char('/'), l);
    press(&mut c, Key::Char('z'), l);
    assert_eq!(press(&mut c, Key::Esc, l), Command::Nothing);
    assert!(!c.nav.filter_active);
    assert_eq!(c.filter, "");
    press(&mut c, Key::Char('/'), l);
    press(&mut c, Key::Backspace, l);
    assert_eq!(c.filter, "");
}

#[test]
fn kill_keys_target_the_clamped_row() {
    let mut c = Console::new();
    c.nav.proc_selected = 5;
    assert_eq!(
        press(&mut c, Key::Char('x'), lens(3, 0, 0)),
        Command::Kill { signal: KillSignal::Term, row: 2 }
    );
    assert_eq!(
        press(&mut c, Key::Delete, lens(3, 0, 0)),
        Command::Kill { signal: KillSignal::Term, row: 2 }
    );
    c.nav.proc_selected = 1;
    assert_eq!(
        press(&mut c, Key::Char('X'), lens(3, 0, 0)),
        Command::Kill { signal: KillSignal::Kill, row: 1 }
    );
    assert_eq!(press(&mut c, Key::Char('x'), lens(0, 0, 0)), Command::Nothing);
    assert_eq!(c.nav.proc_selected, 1);
}

#[test]
fn sort_keys_cycle_columns() {
    let l = lens(0, 0, 0);
    let mut c = Console::new();
    press(&mut c, Key::Char('s'), l);
    assert_eq!((c.nav.sort.column, c.nav.sort.order), (SortColumn::Cpu, SortOrder::Ascending));
    press(&mut c, Key::Char('s'), l);
    assert_eq!((c.nav.sort.column, c.nav.sort.order), (SortColumn::Cpu, SortOrder::Descending));
    for (k, col) in [
        ('m', SortColumn::Memory),
        ('p', SortColumn::Pid),
        ('n', SortColumn::Name),
        ('d', SortColumn::DiskRead),
        ('w', SortColumn::DiskWrite),
    ] {
        press(&mut c, Key::Char(k), l);
        assert_eq!((c.nav.sort.column, c.nav.sort.order), (col, SortOrder::Descending));
    }
    press(&mut c, Key::Char('w'), l);
    assert_eq!(c.nav.sort.order, SortOrder::Ascending);
}

#[test]
fn startup_keys() {
    let mut c = Console::new();
    press(&mut c, Key::Char('3'), lens(0, 3, 0));
    c.nav.startup_dirty = false;
    c.nav.startup_selected = 1;
    assert_eq!(
        press(&mut c, Key::Char(' '), lens(0, 3, 0)),
        Command::ToggleAutostart { index: 1 }
    );
    assert_eq!(press(&mut c, Key::Char(' '), lens(0, 1, 0)), Command::Nothing);
    assert!(!c.nav.startup_dirty);
    assert_eq!(
        press(&mut c, Key::Char('r'), lens(0, 3, 0)),
        Command::Notify { notice: Notice::RefreshingStartup }
    );
    assert!(c.nav.startup_dirty);
    assert_eq!(press(&mut c, Key::Char('x'), lens(3, 3, 0)), Command::Nothing);
    assert_eq!(press(&mut c, Key::Char('/'), lens(3, 3, 0)), Command::Nothing);
    assert!(!c.nav.filter_active);
}

#[test]
fn services_keys() {
    let l = lens(0, 0, 4);
    let mut c = Console::new();
    press(&mut c, Key::Char('4'), l);
    c.nav.services_selected = 2;
    for (k, op) in [
        ('s', ServiceOp::Start),
        ('S', ServiceOp::Stop),
        ('R', ServiceOp::Restart),
        ('e', ServiceOp::Enable),
        ('E', ServiceOp::Disable),
    ] {
        assert_eq!(press(&mut c, Key::Char(k), l), Command::Service { op, index: 2 });
    }
    assert_eq!(press(&mut c, Key::Char('s'), lens(0, 0, 2)), Command::Nothing);
    c.nav.services_dirty = false;
    assert_eq!(press(&mut c, Key::Char('u'), l), Command::Nothing);
    assert_eq!(c.nav.services_scope, ServiceScope::System);
    assert_eq!(c.nav.services_selected, 0);
    assert!(c.nav.services_dirty);
    press(&mut c, Key::Char('u'), l);
    assert_eq!(c.nav.services_scope, ServiceScope::User);
    c.nav.services_dirty = false;
    assert_eq!(
        press(&mut c, Key::Char('r'), l),
        Command::Notify { notice: Notice::RefreshingServices }
    );
    assert!(c.nav.services_dirty);
}

#[test]
fn finished_service_operation_marks_list_dirty_on_success() {
    let mut n = Navigation::new();
    n.services_dirty = false;
    n.service_done(false);
    assert!(!n.services_dirty);
    n.service_done(true);
    assert!(n.services_dirty);
}

#[test]
fn direct_selection_moves() {
    let mut n = Navigation::new();
    n.move_selection(-3, lens(4, 0, 0));
    assert_eq!(n.proc_selected, 0);
    n.move_selection(3, lens(4, 0, 0));
    assert_eq!(n.proc_selected, 3);
    n.jump_to(-7, lens(4, 0, 0));
    assert_eq!(n.proc_selected, 0);
    n.jump_to(i32::MAX, lens(4, 0, 0));
    assert_eq!(n.proc_selected, 3);
}
