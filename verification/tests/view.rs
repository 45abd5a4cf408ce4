use std::collections::VecDeque;

use taskmgr_core::console::{Navigation, Tab};
use taskmgr_core::processes::{ProcessRow, ProcessStatus, SortColumn, SortOrder, SortState};
use taskmgr_core::console::Notice;
use taskmgr_core::services::ServiceOp;
use taskmgr_core::view::{
    active_class, arrange_processes, clamp_to_list, filtered_processes, kill_sent_message,
    notice_message, push_capped, select_row, service_done_message, sort_label, spark_scale,
    status_line, toggled_message, ActiveClass, HISTORY_LEN,
};
use taskmgr_core::KillSignal;

fn proc_row(pid: u32, name: &str, user: &str, cpu: f32) -> ProcessRow {
    ProcessRow {
        pid,
        parent_pid: Some(1),
        name: name.into(),
        user: user.into(),
        cpu_percent_bits: cpu.to_bits(),
        memory_bytes: 1024,
        status: ProcessStatus::Sleeping,
        disk_read_per_sec: 0,
        disk_write_per_sec: 0,
    }
}

#[test]
fn history_keeps_the_newest_samples() {
    let mut buf = VecDeque::new();
    for v in 0..HISTORY_LEN as u64 {
        push_capped(&mut buf, v);
    }
    assert_eq!(buf.len(), HISTORY_LEN);
    assert_eq!(buf.front(), Some(&0));
    push_capped(&mut buf, 500);
    assert_eq!(buf.len(), HISTORY_LEN);
    assert_eq!(buf.front(), Some(&1));
    assert_eq!(buf.back(), Some(&500));
    let mut small = VecDeque::from(vec![7u64]);
    push_capped(&mut small, 8);
    assert_eq!(small, VecDeque::from(vec![7u64, 8]));
}

#[test]
fn highlighted_row_is_clamped() {
    assert_eq!(select_row(0, 0), None);
    assert_eq!(select_row(5, 0), None);
    assert_eq!(select_row(1, 3), Some(1));
    assert_eq!(select_row(9, 3), Some(2));
    assert_eq!(clamp_to_list(9, 0), 0);
    assert_eq!(clamp_to_list(9, 4), 3);
    assert_eq!(clamp_to_list(3, 4), 3);
    assert_eq!(clamp_to_list(1, 4), 1);
}

#[test]
fn spark_scales() {
    let empty = VecDeque::new();
    assert_eq!(spark_scale(&empty, None), (0, 1));
    assert_eq!(spark_scale(&empty, Some(100)), (0, 100));
    let data = VecDeque::from(vec![3u64, 90, 12]);
    assert_eq!(spark_scale(&data, None), (12, 90));
    assert_eq!(spark_scale(&data, Some(100)), (12, 100));
    assert_eq!(spark_scale(&data, Some(0)), (12, 1));
    let zeros = VecDeque::from(vec![0u64, 0]);
    assert_eq!(spark_scale(&zeros, None), (0, 1));
}

#[test]
fn header_labels_mark_the_sort_column() {
    let s = SortState::new(SortColumn::Pid, SortOrder::Ascending);
    assert_eq!(sort_label(s, SortColumn::Pid, "PID"), "PID↑");
    assert_eq!(sort_label(s, SortColumn::Name, "NAME"), "NAME");
    let d = SortState::default();
    assert_eq!(sort_label(d, SortColumn::Cpu, "CPU%"), "CPU%↓");
}

#[test]
fn status_line_prefers_filter_then_message_then_help() {
    let mut nav = Navigation::new();
    assert_eq!(
        status_line(nav, "", None),
        "[1-4] tab  [↑↓/jk] select  [s/m/p/n/d/w] sort  [x] kill  [X] force  [/] filter  [q] quit"
    );
    assert_eq!(status_line(nav, "abc", Some("sent Term")), "sent Term");
    nav.tab = Tab::Performance;
    assert_eq!(status_line(nav, "", None), "[1-4] tab  [q] quit");
    nav.tab = Tab::Startup;
    assert_eq!(
        status_line(nav, "", None),
        "[1-4] tab  [↑↓] select  [space] toggle  [r] refresh  [q] quit"
    );
    nav.tab = Tab::Services;
    assert_eq!(
        status_line(nav, "", None),
        "[1-4] tab  [↑↓]  [s] start  [S] stop  [R] restart  [e] enable  [E] disable  [u] user/sys  [q] quit"
    );
    nav.filter_active = true;
    assert_eq!(status_line(nav, "fire", Some("msg")), "/fire");
    assert_eq!(status_line(nav, "", None), "/");
}

#[test]
fn filter_keeps_matching_rows_in_order() {
    let rows = vec![
        proc_row(100, "Firefox", "alice", 1.0),
        proc_row(200, "bash", "bob", 2.0),
        proc_row(1234, "sshd", "root", 0.5),
        proc_row(300, "firejail", "carol", 0.0),
    ];
    assert_eq!(filtered_processes(&rows, "fire"), vec![0, 3]);
    assert_eq!(filtered_processes(&rows, "BOB"), vec![1]);
    assert_eq!(filtered_processes(&rows, "23"), vec![2]);
    assert_eq!(filtered_processes(&rows, ""), vec![0, 1, 2, 3]);
    assert!(filtered_processes(&rows, "nothing").is_empty());
}

#[test]
fn arranging_sorts_and_pulls_selection_back() {
    let mut rows = vec![
        proc_row(1, "a", "u", 1.0),
        proc_row(2, "b", "u", 30.0),
        proc_row(3, "c", "u", 5.0),
    ];
    let mut nav = Navigation::new();
    nav.proc_selected = 10;
    arrange_processes(&mut nav, &mut rows);
    let pids: Vec<u32> = rows.iter().map(|r| r.pid).collect();
    assert_eq!(pids, vec![2, 3, 1]);
    assert_eq!(nav.proc_selected, 2);
    nav.proc_selected = 1;
    arrange_processes(&mut nav, &mut rows);
    assert_eq!(nav.proc_selected, 1);
    let mut none: Vec<ProcessRow> = Vec::new();
    nav.proc_selected = 7;
    arrange_processes(&mut nav, &mut none);
    assert_eq!(nav.proc_selected, 7);
}

#[test]
fn lazy_lists_load_when_shown_and_dirty() {
    let mut nav = Navigation::new();
    assert!(!nav.wants_startup_list());
    assert!(!nav.wants_services_list());
    nav.tab = Tab::Startup;
    assert!(nav.wants_startup_list());
    nav.startup_selected = 9;
    nav.startup_loaded(4);
    assert!(!nav.startup_dirty);
    assert_eq!(nav.startup_selected, 3);
    assert!(!nav.wants_startup_list());
    nav.tab = Tab::Services;
    assert!(nav.wants_services_list());
    nav.services_selected = 2;
    nav.services_loaded(0);
    assert!(!nav.services_dirty);
    assert_eq!(nav.services_selected, 0);
}

#[test]
fn active_states_classify() {
    assert_eq!(active_class("active"), ActiveClass::Active);
    assert_eq!(active_class("failed"), ActiveClass::Failed);
    assert_eq!(active_class("inactive"), ActiveClass::Inactive);
    assert_eq!(active_class("activating"), ActiveClass::Other);
    assert_eq!(active_class(""), ActiveClass::Other);
}

#[test]
fn status_messages() {
    assert_eq!(kill_sent_message(KillSignal::Term, "firefox", 4242), "sent Term to firefox (4242)");
    assert_eq!(kill_sent_message(KillSignal::Kill, "", 0), "sent Kill to  (0)");
    assert_eq!(toggled_message(true, "Clock"), "disabled Clock");
    assert_eq!(toggled_message(false, "Clock"), "enabled Clock");
    assert_eq!(service_done_message(ServiceOp::Restart, "cron.service"), "Restart cron.service");
    assert_eq!(service_done_message(ServiceOp::Disable, "a"), "Disable a");
    assert_eq!(notice_message(Notice::RefreshingStartup), "refreshing startup");
    assert_eq!(notice_message(Notice::RefreshingServices), "refreshing services");
}
