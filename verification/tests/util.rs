use taskmgr_core::util::{human_bytes, opt_bytes, rate_str, truncate};

/// The rendering the formatter is meant to reproduce: the value as a double,
/// divided down by 1024 while a larger unit is left, printed with one decimal.
fn float_rendering(b: u64) -> String {
    const UNITS: [&str; 6] = ["B", "K", "M", "G", "T", "P"];
    if b < 1024 {
        return format!("{b} B");
    }
    let mut v = b as f64;
    let mut i = 0;
    while v >= 1024.0 && i < UNITS.len() - 1 {
        v /= 1024.0;
        i += 1;
    }
    format!("{v:.1} {}", UNITS[i])
}

#[test]
fn human_bytes_boundary_values() {
    assert_eq!(human_bytes(0), "0 B");
    assert_eq!(human_bytes(1023), "1023 B");
    assert_eq!(human_bytes(1024), "1.0 K");
    assert_eq!(human_bytes(1024 * 1024), "1.0 M");
}

#[test]
fn human_bytes_petabyte_does_not_overflow_unit_table() {
    // 1 EiB exceeds the table; should clamp at "P".
    let big = 1_152_921_504_606_846_976u64; // 1 EiB
    assert!(human_bytes(big).ends_with(" P"));
}

#[test]
fn truncate_short_string_unchanged() {
    assert_eq!(truncate("hi", 10), "hi");
}

#[test]
fn truncate_appends_ellipsis() {
    assert_eq!(truncate("hello world", 5), "hell…");
}

#[test]
fn opt_bytes_renders_dash_for_none() {
    assert_eq!(opt_bytes(None), "—");
    assert_eq!(opt_bytes(Some(1024)), "1.0 K");
}

#[test]
fn human_bytes_doc_examples() {
    assert_eq!(human_bytes(2_500_000), "2.4 M");
    assert_eq!(human_bytes(1_152_921_504_606_846_976), "1024.0 P");
    assert_eq!(human_bytes(u64::MAX), "16384.0 P");
}

#[test]
fn human_bytes_rounds_ties_to_even() {
    // 1280 / 1024 = 1.25 exactly and 1.25 is a tie between 1.2 and 1.3.
    assert_eq!(human_bytes(1280), "1.2 K");
    // 1.75 K rounds to the even 1.8.
    assert_eq!(human_bytes(1792), "1.8 K");
}

#[test]
fn human_bytes_agrees_with_double_rendering() {
    let mut samples: Vec<u64> = vec![
        1024, 1025, 1126, 1127, 1280, 1536, 1792, 10239, 10240, 1048575, 1048576,
        1_073_741_823, 1_099_511_627_775, (1u64 << 53) - 1, 1u64 << 53, (1u64 << 53) + 1,
        (1u64 << 53) + 3, (1u64 << 60) + 12345, u64::MAX - 1, u64::MAX,
    ];
    let mut x: u64 = 0x9E37_79B9_7F4A_7C15;
    for _ in 0..20000 {
        x ^= x << 13;
        x ^= x >> 7;
        x ^= x << 17;
        let shift = (x % 64) as u32;
        samples.push(x >> shift);
    }
    for b in samples {
        assert_eq!(human_bytes(b), float_rendering(b), "b = {b}");
    }
}

#[test]
fn truncate_to_zero_keeps_only_the_ellipsis() {
    assert_eq!(truncate("abc", 0), "…");
    assert_eq!(truncate("", 0), "");
}

#[test]
fn truncate_counts_chars_not_bytes() {
    assert_eq!(truncate("héllo", 5), "héllo");
    assert_eq!(truncate("héllo wörld", 4), "hél…");
}

#[test]
fn rate_str_dashes_zero() {
    assert_eq!(rate_str(0), "—");
    assert_eq!(rate_str(2048), "2.0 K");
}
