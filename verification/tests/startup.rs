use std::path::PathBuf;

use taskmgr_core::startup::{
    entry_from_desktop, merge_entries, rewrite_hidden, AutostartEntry, AutostartScope, FoundEntry,
};

#[test]
fn rewrite_hidden_replaces_existing() {
    let src = "[Desktop Entry]\nName=Foo\nHidden=false\nExec=foo\n";
    let out = rewrite_hidden(src, true);
    assert!(out.contains("Hidden=true"));
    assert!(!out.contains("Hidden=false"));
}

#[test]
fn rewrite_hidden_inserts_when_missing() {
    let src = "[Desktop Entry]\nName=Foo\nExec=foo\n";
    let out = rewrite_hidden(src, true);
    assert!(out.contains("Hidden=true"));
}

#[test]
fn rewrite_hidden_only_main_section() {
    let src = "[Desktop Entry]\nName=Foo\nExec=foo\n[Desktop Action New]\nName=New\n";
    let out = rewrite_hidden(src, true);
    let main_idx = out.find("[Desktop Entry]").unwrap();
    let action_idx = out.find("[Desktop Action New]").unwrap();
    let hidden_idx = out.find("Hidden=true").unwrap();
    assert!(hidden_idx > main_idx && hidden_idx < action_idx);
}

#[test]
fn rewrite_hidden_exact_output() {
    let src = "# comment\r\n[Desktop Entry]\r\nName=Foo\r\n  Hidden=TRUE  \nExec=foo\n[Other]\nHidden=x";
    assert_eq!(
        rewrite_hidden(src, false),
        "# comment\n[Desktop Entry]\nName=Foo\nHidden=false\nExec=foo\n[Other]\nHidden=x\n"
    );
    assert_eq!(rewrite_hidden("no sections here", true), "no sections here\n");
    assert_eq!(rewrite_hidden("[Desktop Entry]", true), "[Desktop Entry]\nHidden=true\n");
}

#[test]
fn parse_entry_reads_main_section() {
    let raw = "[Desktop Entry]\n# Name=Commented\nName=Clock\nExec=clock --tray\nHidden=TRUE\n[Desktop Action X]\nName=Other\nExec=other\n";
    let e = entry_from_desktop(raw, "clock".into(), PathBuf::from("/tmp/clock.desktop"), AutostartScope::System);
    assert_eq!(e.name, "Clock");
    assert_eq!(e.command, "clock --tray");
    assert!(!e.enabled);
    assert_eq!(e.scope, AutostartScope::System);
    assert_eq!(e.path, PathBuf::from("/tmp/clock.desktop"));
}

#[test]
fn parse_entry_defaults_to_stem() {
    let e = entry_from_desktop("Name=Ignored\n", "stem".into(), PathBuf::from("x"), AutostartScope::User);
    assert_eq!(e.name, "stem");
    assert_eq!(e.command, "");
    assert!(e.enabled);
}

#[test]
fn rewrite_then_parse_roundtrip() {
    let raws = [
        "[Desktop Entry]\nName=Foo\nHidden=false\nExec=foo\n",
        "[Desktop Entry]\nName=Foo\nExec=foo",
        "[X]\nHidden=true\n[Desktop Entry]\r\nExec=a b\r\n[Desktop Entry]\nHidden=true\n",
        "\u{a0}[Desktop Entry]\u{3000}\n Name = spaced\nName=Bar\n",
    ];
    for raw in raws {
        for hidden in [true, false] {
            let before = entry_from_desktop(raw, "d".into(), PathBuf::from("p"), AutostartScope::User);
            let out = rewrite_hidden(raw, hidden);
            let after = entry_from_desktop(&out, "d".into(), PathBuf::from("p"), AutostartScope::User);
            assert_eq!(after.enabled, !hidden, "{raw:?}");
            assert_eq!(after.name, before.name);
            assert_eq!(after.command, before.command);
        }
    }
}

#[test]
fn toggled_entry_moves_to_user_scope() {
    let e = entry_from_desktop("[Desktop Entry]\nName=N\nExec=e\n", "s".into(), PathBuf::from("/etc/xdg/autostart/s.desktop"), AutostartScope::System);
    let t = e.toggled(PathBuf::from("/home/u/.config/autostart/s.desktop"), false);
    assert_eq!(t.scope, AutostartScope::User);
    assert!(!t.enabled);
    assert_eq!(t.name, "N");
    assert_eq!(t.command, "e");
    assert_eq!(t.path, PathBuf::from("/home/u/.config/autostart/s.desktop"));
}

fn found(name: &str, file: Option<&str>, scope: AutostartScope) -> FoundEntry {
    let dir = match scope {
        AutostartScope::User => "/home/u/.config/autostart",
        AutostartScope::System => "/etc/xdg/autostart",
    };
    FoundEntry {
        entry: AutostartEntry {
            name: name.to_string(),
            command: format!("run-{name}"),
            path: match file {
                Some(f) => PathBuf::from(format!("{dir}/{f}")),
                None => PathBuf::from("/"),
            },
            scope,
            enabled: true,
        },
        file_name: file.map(|f| f.as_bytes().to_vec()),
    }
}

#[test]
fn merged_list_is_ordered_by_lowercased_name() {
    let out = merge_entries(vec![
        found("zeta", Some("z.desktop"), AutostartScope::User),
        found("Alpha", Some("a.desktop"), AutostartScope::System),
        found("beta", Some("b.desktop"), AutostartScope::System),
        found("ALPHA", Some("a2.desktop"), AutostartScope::User),
    ]);
    let names: Vec<&str> = out.iter().map(|e| e.name.as_str()).collect();
    // Equal lower-cased names keep the order they were found in.
    assert_eq!(names, vec!["Alpha", "ALPHA", "beta", "zeta"]);
}

#[test]
fn user_override_masks_the_system_entry() {
    let out = merge_entries(vec![
        found("Clock", Some("clock.desktop"), AutostartScope::User),
        found("Clock", Some("clock.desktop"), AutostartScope::System),
        found("Other", Some("other.desktop"), AutostartScope::System),
    ]);
    assert_eq!(out.len(), 2);
    assert_eq!(out[0].name, "Clock");
    assert_eq!(out[0].scope, AutostartScope::User);
    assert_eq!(out[1].name, "Other");
}

#[test]
fn override_masks_wherever_it_sorts() {
    // The system entry sorts first by name; the user's copy still hides it.
    let out = merge_entries(vec![
        found("b", Some("same.desktop"), AutostartScope::User),
        found("a", Some("same.desktop"), AutostartScope::System),
    ]);
    assert_eq!(out.len(), 1);
    assert_eq!(out[0].name, "b");
    assert_eq!(out[0].scope, AutostartScope::User);
    // Only a user entry overrides: system entries sharing a file name with
    // each other, and entries without a file name, are all kept.
    let out = merge_entries(vec![
        found("x", Some("dup.desktop"), AutostartScope::System),
        found("y", Some("dup.desktop"), AutostartScope::System),
        found("y", None, AutostartScope::System),
        found("z", None, AutostartScope::User),
    ]);
    let names: Vec<&str> = out.iter().map(|e| e.name.as_str()).collect();
    assert_eq!(names, vec!["x", "y", "y", "z"]);
    assert_eq!(out[2].path, PathBuf::from("/"));
}

#[test]
fn merging_nothing_gives_nothing() {
    assert!(merge_entries(Vec::new()).is_empty());
}

#[test]
fn second_rewrite_wins() {
    let raws = [
        "[Desktop Entry]\nName=Foo\nHidden=false\nExec=foo\n",
        "[Desktop Entry]\nName=Foo\nExec=foo",
        "[X]\nHidden=true\n[Desktop Entry]\nExec=a b\n[Desktop Entry]\nHidden=true\n",
        "no sections here",
        "",
    ];
    for raw in raws {
        for h1 in [true, false] {
            for h2 in [true, false] {
                assert_eq!(
                    rewrite_hidden(&rewrite_hidden(raw, h1), h2),
                    rewrite_hidden(raw, h2),
                    "{raw:?} {h1} {h2}"
                );
            }
        }
    }
    // A lone carriage return at the very end does not survive two rewrites.
    assert_eq!(rewrite_hidden("x\r", true), "x\r\n");
    assert_eq!(rewrite_hidden("x\r\n", true), "x\n");
}
