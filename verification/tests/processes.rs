use taskmgr_core::processes::{cpu_key, sort_in_place, ProcessRow, ProcessStatus, SortColumn, SortOrder, SortState};

fn row(pid: u32, name: &str, user: &str) -> ProcessRow {
    ProcessRow {
        pid,
        parent_pid: None,
        name: name.into(),
        user: user.into(),
        cpu_percent_bits: 0.0f32.to_bits(),
        memory_bytes: 0,
        status: ProcessStatus::Running,
        disk_read_per_sec: 0,
        disk_write_per_sec: 0,
    }
}

#[test]
fn matches_is_case_insensitive() {
    let r = row(123, "Firefox", "alice");
    assert!(r.matches("fire"));
    assert!(r.matches("ALICE"));
}

#[test]
fn matches_searches_pid_substring() {
    let r = row(12345, "x", "y");
    assert!(r.matches("234"));
}

#[test]
fn matches_misses_unrelated_needle() {
    let r = row(1, "foo", "bar");
    assert!(!r.matches("zzz"));
}

#[test]
fn matches_empty_needle_matches_anything() {
    let r = row(1, "foo", "bar");
    assert!(r.matches(""));
}

#[test]
fn sort_equal_keys_is_deterministic_by_pid() {
    // All rows tie on CPU (0.0); order must fall back to PID, not input order.
    let mut a = vec![row(30, "c", "u"), row(10, "a", "u"), row(20, "b", "u")];
    let mut b = vec![row(10, "a", "u"), row(20, "b", "u"), row(30, "c", "u")];
    let state = SortState::new(SortColumn::Cpu, SortOrder::Descending);
    sort_in_place(&mut a, state);
    sort_in_place(&mut b, state);
    let pids: Vec<u32> = a.iter().map(|r| r.pid).collect();
    assert_eq!(pids, b.iter().map(|r| r.pid).collect::<Vec<_>>());
    assert_eq!(pids, vec![10, 20, 30]);
}

#[test]
fn sort_by_disk_read_descending() {
    let mut rows = vec![row(1, "a", "u"), row(2, "b", "u"), row(3, "c", "u")];
    rows[0].disk_read_per_sec = 10;
    rows[2].disk_read_per_sec = 999;
    sort_in_place(
        &mut rows,
        SortState::new(SortColumn::DiskRead, SortOrder::Descending),
    );
    let pids: Vec<u32> = rows.iter().map(|r| r.pid).collect();
    assert_eq!(pids, vec![3, 1, 2]);
}

#[test]
fn sort_by_name_ignores_ascii_case() {
    let mut rows = vec![
        row(1, "zsh", "u"),
        row(2, "Bash", "u"),
        row(3, "alpha", "u"),
    ];
    sort_in_place(
        &mut rows,
        SortState::new(SortColumn::Name, SortOrder::Ascending),
    );
    let names: Vec<&str> = rows.iter().map(|r| r.name.as_str()).collect();
    assert_eq!(names, vec!["alpha", "Bash", "zsh"]);
}

#[test]
fn cycle_same_column_flips_order() {
    let mut s = SortState::new(SortColumn::Cpu, SortOrder::Descending);
    s.cycle(SortColumn::Cpu);
    assert_eq!(s.order, SortOrder::Ascending);
    s.cycle(SortColumn::Cpu);
    assert_eq!(s.order, SortOrder::Descending);
}

#[test]
fn cycle_new_column_resets_to_descending() {
    let mut s = SortState::new(SortColumn::Cpu, SortOrder::Ascending);
    s.cycle(SortColumn::Memory);
    assert_eq!(s.column, SortColumn::Memory);
    assert_eq!(s.order, SortOrder::Descending);
}

#[test]
fn cycle_twice_restores_state() {
    for col in [SortColumn::Cpu, SortColumn::Name, SortColumn::DiskWrite] {
        for order in [SortOrder::Ascending, SortOrder::Descending] {
            let start = SortState::new(col, order);
            let mut s = start;
            s.cycle(col);
            s.cycle(col);
            assert_eq!(s, start);
        }
    }
}

#[test]
fn default_sort_is_cpu_descending() {
    let s = SortState::default();
    assert_eq!(s.column, SortColumn::Cpu);
    assert_eq!(s.order, SortOrder::Descending);
}

#[test]
fn sort_by_cpu_orders_by_percentage() {
    let mut rows = vec![row(1, "a", "u"), row(2, "b", "u"), row(3, "c", "u"), row(4, "d", "u")];
    rows[0].cpu_percent_bits = 2.5f32.to_bits();
    rows[1].cpu_percent_bits = 12.0f32.to_bits();
    rows[2].cpu_percent_bits = 0.25f32.to_bits();
    rows[3].cpu_percent_bits = 100.0f32.to_bits();
    sort_in_place(&mut rows, SortState::new(SortColumn::Cpu, SortOrder::Descending));
    let pids: Vec<u32> = rows.iter().map(|r| r.pid).collect();
    assert_eq!(pids, vec![4, 2, 1, 3]);
    sort_in_place(&mut rows, SortState::new(SortColumn::Cpu, SortOrder::Ascending));
    let pids: Vec<u32> = rows.iter().map(|r| r.pid).collect();
    assert_eq!(pids, vec![3, 1, 2, 4]);
}

#[test]
fn sort_result_independent_of_input_order() {
    let base = vec![
        (5, "Zed", 300u64), (2, "alpha", 100), (9, "ALPHA", 100), (1, "beta", 300), (7, "gamma", 0),
    ];
    let make = |order: &[usize]| -> Vec<ProcessRow> {
        order
            .iter()
            .map(|&i| {
                let (pid, name, mem) = base[i];
                let mut r = row(pid, name, "u");
                r.memory_bytes = mem;
                r
            })
            .collect()
    };
    for col in [SortColumn::Memory, SortColumn::Name, SortColumn::Pid] {
        let state = SortState::new(col, SortOrder::Descending);
        let mut a = make(&[0, 1, 2, 3, 4]);
        let mut b = make(&[4, 3, 2, 1, 0]);
        let mut c = make(&[2, 0, 4, 1, 3]);
        sort_in_place(&mut a, state);
        sort_in_place(&mut b, state);
        sort_in_place(&mut c, state);
        let pa: Vec<u32> = a.iter().map(|r| r.pid).collect();
        assert_eq!(pa, b.iter().map(|r| r.pid).collect::<Vec<_>>());
        assert_eq!(pa, c.iter().map(|r| r.pid).collect::<Vec<_>>());
    }
    // Memory descending, ties by pid ascending.
    let mut a = make(&[0, 1, 2, 3, 4]);
    sort_in_place(&mut a, SortState::new(SortColumn::Memory, SortOrder::Descending));
    assert_eq!(a.iter().map(|r| r.pid).collect::<Vec<_>>(), vec![1, 5, 2, 9, 7]);
}

#[test]
fn status_codes() {
    assert_eq!(ProcessStatus::Running.short(), "R");
    assert_eq!(ProcessStatus::Sleeping.short(), "S");
    assert_eq!(ProcessStatus::Stopped.short(), "T");
    assert_eq!(ProcessStatus::Zombie.short(), "Z");
    assert_eq!(ProcessStatus::Other.short(), "?");
}

#[test]
fn matches_pid_is_case_sensitive_digits_only() {
    let r = row(4071, "Code", "root");
    assert!(r.matches("07"));
    assert!(r.matches("CODE"));
    assert!(!r.matches("4072"));
    assert!(r.matches("OO"));
}

#[test]
fn cpu_sort_follows_the_float_values() {
    let mk = |pid: u32, cpu: f32| {
        let mut r = row(pid, "p", "u");
        r.cpu_percent_bits = cpu.to_bits();
        r
    };
    let mut rows = vec![mk(1, 1.0), mk(2, -1.0), mk(3, -0.0), mk(4, 0.0), mk(5, 250.5), mk(6, -3.5)];
    sort_in_place(&mut rows, SortState::new(SortColumn::Cpu, SortOrder::Ascending));
    let pids: Vec<u32> = rows.iter().map(|r| r.pid).collect();
    // -0.0 and 0.0 are equal values, so the pid decides between them.
    assert_eq!(pids, vec![6, 2, 3, 4, 1, 5]);
    sort_in_place(&mut rows, SortState::new(SortColumn::Cpu, SortOrder::Descending));
    let pids: Vec<u32> = rows.iter().map(|r| r.pid).collect();
    assert_eq!(pids, vec![5, 1, 3, 4, 2, 6]);
}

#[test]
fn cpu_key_orders_like_the_values() {
    assert_eq!(cpu_key(0.0f32.to_bits()), 0);
    assert_eq!(cpu_key((-0.0f32).to_bits()), 0);
    assert!(cpu_key((-1.0f32).to_bits()) < cpu_key(0.0f32.to_bits()));
    assert!(cpu_key((-2.0f32).to_bits()) < cpu_key((-1.0f32).to_bits()));
    assert!(cpu_key(1.0f32.to_bits()) < cpu_key(2.0f32.to_bits()));
    assert_eq!(cpu_key((-1.0f32).to_bits()), -cpu_key(1.0f32.to_bits()));
}
