use taskmgr_core::processes::ProcessStatus;
use taskmgr_core::sampler::{
    parse_block_stat, saturating_total, skips_device, table_status, DiskCounters, SampledStatus,
};

const SDA_STAT: &str =
    "   12345     678   99000    4321    2222     333   55000    1111        0    5000    6000\n";

#[test]
fn block_stat_reads_sectors_read_and_written() {
    assert_eq!(parse_block_stat(SDA_STAT), Some((99000, 55000)));
    assert_eq!(parse_block_stat("1 2 3 4 5 6 7"), Some((3, 7)));
    assert_eq!(parse_block_stat("1\t2\n+3 4 5 6 007"), Some((3, 7)));
}

#[test]
fn block_stat_with_few_fields_is_skipped() {
    assert_eq!(parse_block_stat(""), None);
    assert_eq!(parse_block_stat("1 2 3 4 5 6"), None);
}

#[test]
fn block_stat_non_numbers_count_zero() {
    assert_eq!(parse_block_stat("a b x d e f -7"), Some((0, 0)));
    assert_eq!(parse_block_stat("a b 18446744073709551616 d e f +"), Some((0, 0)));
    assert_eq!(
        parse_block_stat("a b 18446744073709551615 d e f 1"),
        Some((u64::MAX, 1))
    );
}

#[test]
fn ram_and_loop_devices_are_skipped() {
    assert!(skips_device("ram0"));
    assert!(skips_device("loop7"));
    assert!(skips_device("ram"));
    assert!(!skips_device("sda"));
    assert!(!skips_device("nvme0n1"));
    assert!(!skips_device("lo"));
    assert!(!skips_device("zram0"));
}

#[test]
fn device_counters_add_512_byte_sectors() {
    let mut c = DiskCounters::default();
    c.add_device("sda", SDA_STAT);
    assert_eq!(c, DiskCounters { read_bytes: 99000 * 512, write_bytes: 55000 * 512 });
    c.add_device("loop0", SDA_STAT);
    c.add_device("ram1", SDA_STAT);
    c.add_device("sdb", "too short");
    assert_eq!(c, DiskCounters { read_bytes: 99000 * 512, write_bytes: 55000 * 512 });
    c.add_device("sdb", "0 0 2 0 0 0 4");
    assert_eq!(c, DiskCounters { read_bytes: 99002 * 512, write_bytes: 55004 * 512 });
}

#[test]
fn device_counters_saturate() {
    let mut c = DiskCounters { read_bytes: u64::MAX - 100, write_bytes: 5 };
    c.add_device("sda", "0 0 1 0 0 0 1");
    assert_eq!(c, DiskCounters { read_bytes: u64::MAX, write_bytes: 517 });
}

#[test]
fn counters_since_never_go_negative() {
    let now = DiskCounters { read_bytes: 5000, write_bytes: 100 };
    let before = DiskCounters { read_bytes: 1000, write_bytes: 300 };
    assert_eq!(now.since(&before), DiskCounters { read_bytes: 4000, write_bytes: 0 });
    assert_eq!(now.since(&now), DiskCounters::default());
}

#[test]
fn totals_saturate() {
    assert_eq!(saturating_total(&[]), 0);
    assert_eq!(saturating_total(&[1, 2, 3]), 6);
    assert_eq!(saturating_total(&[u64::MAX, 1, 2]), u64::MAX);
}

#[test]
fn sampled_states_map_to_table_states() {
    assert_eq!(table_status(SampledStatus::Run), ProcessStatus::Running);
    assert_eq!(table_status(SampledStatus::Sleep), ProcessStatus::Sleeping);
    assert_eq!(table_status(SampledStatus::Idle), ProcessStatus::Sleeping);
    assert_eq!(table_status(SampledStatus::Stop), ProcessStatus::Stopped);
    assert_eq!(table_status(SampledStatus::Zombie), ProcessStatus::Zombie);
    assert_eq!(table_status(SampledStatus::Dead), ProcessStatus::Zombie);
    assert_eq!(table_status(SampledStatus::Other), ProcessStatus::Other);
    assert_eq!(ProcessStatus::Other.short(), "?");
    assert_eq!(ProcessStatus::Stopped.short(), "T");
}
