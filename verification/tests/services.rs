use taskmgr_core::services::{
    classify_dbus_error, first_step, has_service_suffix, next_step, RunStep, list_units, map_dbus_err, service_action,
    sort_services, ManagerArgs, ManagerMethod, ServiceOp, ServiceScope, ServiceUnit, UnitRecord,
};
use taskmgr_core::CoreError;

fn record(name: &str, active: &str) -> UnitRecord {
    UnitRecord {
        name: name.to_string(),
        description: format!("{name} description"),
        load_state: "loaded".to_string(),
        active_state: active.to_string(),
        sub_state: "running".to_string(),
    }
}

fn unit(name: &str, description: &str) -> ServiceUnit {
    ServiceUnit {
        name: name.to_string(),
        description: description.to_string(),
        load_state: "loaded".to_string(),
        active_state: "active".to_string(),
        sub_state: "running".to_string(),
        scope: ServiceScope::User,
    }
}

#[test]
fn service_suffix_is_recognised() {
    assert!(has_service_suffix("sshd.service"));
    assert!(has_service_suffix(".service"));
    assert!(!has_service_suffix("service"));
    assert!(!has_service_suffix("dbus.socket"));
    assert!(!has_service_suffix("sshd.service.d"));
    assert!(!has_service_suffix(""));
}

#[test]
fn list_units_keeps_only_services_in_reply_order() {
    let reply = vec![
        record("b.service", "active"),
        record("a.socket", "active"),
        record("multi-user.target", "active"),
        record("a.service", "failed"),
    ];
    let units = list_units(reply, ServiceScope::System);
    assert_eq!(units.len(), 2);
    assert_eq!(units[0].name, "b.service");
    assert_eq!(units[0].description, "b.service description");
    assert_eq!(units[0].load_state, "loaded");
    assert_eq!(units[0].sub_state, "running");
    assert_eq!(units[1].name, "a.service");
    assert_eq!(units[1].active_state, "failed");
    assert!(units.iter().all(|u| u.scope == ServiceScope::System));
}

#[test]
fn list_units_of_empty_reply_is_empty() {
    assert!(list_units(Vec::new(), ServiceScope::User).is_empty());
}

fn unit_mode(args: &ManagerArgs) -> (String, String) {
    match args {
        ManagerArgs::UnitMode { unit, mode } => (unit.clone(), mode.clone()),
        other => panic!("unexpected args {other:?}"),
    }
}

#[test]
fn start_stop_restart_are_single_replace_calls() {
    for (op, method, name) in [
        (ServiceOp::Start, ManagerMethod::StartUnit, "StartUnit"),
        (ServiceOp::Stop, ManagerMethod::StopUnit, "StopUnit"),
        (ServiceOp::Restart, ManagerMethod::RestartUnit, "RestartUnit"),
    ] {
        let calls = service_action("cron.service", op);
        assert_eq!(calls.len(), 1);
        assert_eq!(calls[0].method, method);
        assert_eq!(calls[0].method.name(), name);
        assert!(calls[0].required);
        assert_eq!(
            unit_mode(&calls[0].args),
            ("cron.service".to_string(), "replace".to_string())
        );
    }
}

#[test]
fn enable_changes_files_then_reloads_best_effort() {
    let calls = service_action("cron.service", ServiceOp::Enable);
    assert_eq!(calls.len(), 2);
    assert_eq!(calls[0].method.name(), "EnableUnitFiles");
    assert!(calls[0].required);
    match &calls[0].args {
        ManagerArgs::EnableFiles { files, runtime, force } => {
            assert_eq!(files, &vec!["cron.service".to_string()]);
            assert!(!runtime);
            assert!(force);
        }
        other => panic!("unexpected args {other:?}"),
    }
    assert_eq!(calls[1].method.name(), "Reload");
    assert!(!calls[1].required);
    assert!(matches!(calls[1].args, ManagerArgs::Empty));
}

#[test]
fn disable_changes_files_then_reloads_best_effort() {
    let calls = service_action("cron.service", ServiceOp::Disable);
    assert_eq!(calls.len(), 2);
    assert_eq!(calls[0].method.name(), "DisableUnitFiles");
    assert!(calls[0].required);
    match &calls[0].args {
        ManagerArgs::DisableFiles { files, runtime } => {
            assert_eq!(files, &vec!["cron.service".to_string()]);
            assert!(!runtime);
        }
        other => panic!("unexpected args {other:?}"),
    }
    assert_eq!(calls[1].method, ManagerMethod::Reload);
    assert!(!calls[1].required);
}

#[test]
fn refusals_become_permission_denied_verbatim() {
    for msg in [
        "org.freedesktop.DBus.Error.AccessDenied: Access denied",
        "Interactive authorization required",
        "Authentication is required to start 'x.service'",
        "PERMISSION problem",
    ] {
        match map_dbus_err(msg.to_string()) {
            CoreError::PermissionDenied(Some(m)) => assert_eq!(m, msg),
            other => panic!("{msg}: {other:?}"),
        }
    }
}

#[test]
fn other_dbus_failures_stay_dbus_errors() {
    let msg = "Unit foo.service not found.";
    match map_dbus_err(msg.to_string()) {
        CoreError::DBus(m) => assert_eq!(m, msg),
        other => panic!("{other:?}"),
    }
}

#[test]
fn upper_case_refusal_needs_lowercasing() {
    // Only the lower-cased message contains "access denied".
    match map_dbus_err("ACCESS DENIED".to_string()) {
        CoreError::PermissionDenied(Some(m)) => assert_eq!(m, "ACCESS DENIED"),
        other => panic!("{other:?}"),
    }
    match classify_dbus_error("ACCESS DENIED".to_string(), "ACCESS DENIED") {
        CoreError::DBus(m) => assert_eq!(m, "ACCESS DENIED"),
        other => panic!("{other:?}"),
    }
    match classify_dbus_error("X".to_string(), "no permission here") {
        CoreError::PermissionDenied(Some(m)) => assert_eq!(m, "X"),
        other => panic!("{other:?}"),
    }
}

#[test]
fn services_sort_by_name_and_keep_ties_in_order() {
    let mut units = vec![
        unit("sshd.service", "first"),
        unit("Zeta.service", "z"),
        unit("cron.service", "c"),
        unit("sshd.service", "second"),
        unit("acpid.service", "a"),
    ];
    sort_services(&mut units);
    let names: Vec<&str> = units.iter().map(|u| u.name.as_str()).collect();
    assert_eq!(
        names,
        vec!["Zeta.service", "acpid.service", "cron.service", "sshd.service", "sshd.service"]
    );
    assert_eq!(units[3].description, "first");
    assert_eq!(units[4].description, "second");
}

#[test]
fn failed_primary_call_ends_the_run_with_the_mapped_error() {
    let calls = service_action("cron.service", ServiceOp::Enable);
    assert!(matches!(first_step(&calls), RunStep::Call(0)));
    match next_step(&calls, 0, Some("Access denied".to_string())) {
        RunStep::Finished(Err(CoreError::PermissionDenied(Some(m)))) => assert_eq!(m, "Access denied"),
        other => panic!("{other:?}"),
    }
    match next_step(&calls, 0, Some("Unit not found".to_string())) {
        RunStep::Finished(Err(CoreError::DBus(m))) => assert_eq!(m, "Unit not found"),
        other => panic!("{other:?}"),
    }
}

#[test]
fn reload_follows_success_and_its_failure_is_ignored() {
    let calls = service_action("cron.service", ServiceOp::Disable);
    assert!(matches!(next_step(&calls, 0, None), RunStep::Call(1)));
    assert!(matches!(next_step(&calls, 1, None), RunStep::Finished(Ok(()))));
    assert!(matches!(
        next_step(&calls, 1, Some("permission denied".to_string())),
        RunStep::Finished(Ok(()))
    ));
}

#[test]
fn single_call_operations_end_after_the_call() {
    let calls = service_action("cron.service", ServiceOp::Stop);
    assert!(matches!(first_step(&calls), RunStep::Call(0)));
    assert!(matches!(next_step(&calls, 0, None), RunStep::Finished(Ok(()))));
    assert!(matches!(first_step(&Vec::new()), RunStep::Finished(Ok(()))));
}
