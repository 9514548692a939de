use std::time::Duration;

use laramux::config::RestartPolicy;
use laramux::number::parse_u32;
use laramux::tabs::Tab;
use laramux::process::{
    spawn_failure, stat_cuttable_exec, stat_parent_pid, LaraMuxError, PidRegistry, ProcessConfig, ProcessId, ProcessManager,
    ProcessesTabState, ProcessesView, RestartState, SpawnErrorKind,
};

fn config(name: &str, policy: RestartPolicy, supervised: bool) -> ProcessConfig {
    ProcessConfig {
        id: ProcessId(name.to_string()),
        command: "php".to_string(),
        args: vec!["artisan".to_string(), "serve".to_string()],
        working_dir: "/app".to_string(),
        env: vec![("APP_ENV".to_string(), "local".to_string())],
        restart_policy: policy,
        supervised,
        supervisor_program: None,
    }
}

fn id(name: &str) -> ProcessId {
    ProcessId(name.to_string())
}

#[test]
fn pid_registry_insert_remove() {
    let mut registry = PidRegistry::new();
    registry.insert(1234);
    registry.insert(5678);

    assert!(registry.contains(1234));
    assert!(registry.contains(5678));
    assert_eq!(registry.len(), 2);

    registry.remove(1234);
    assert!(!registry.contains(1234));
    assert!(registry.contains(5678));
    assert_eq!(registry.len(), 1);
}

#[test]
fn pid_registry_lists_every_pid_once() {
    let mut registry = PidRegistry::default();
    registry.insert(10);
    registry.insert(20);
    registry.insert(10);
    let mut pids = registry.pids();
    pids.sort();
    assert_eq!(pids, vec![10, 20]);
    registry.remove(99);
    assert_eq!(registry.len(), 2);
}

#[test]
fn processes_view_toggles_back_and_forth() {
    let mut state = ProcessesTabState::default();
    assert!(!state.is_output_view());
    state.toggle_view();
    assert_eq!(state.view, ProcessesView::Output);
    assert!(state.is_output_view());
    state.toggle_view();
    assert_eq!(state.view, ProcessesView::List);
}

#[test]
fn backoff_doubles_up_to_sixty_seconds() {
    let mut state = RestartState::default();
    let expected = [1u64, 2, 4, 8, 16, 32, 60, 60];
    for secs in expected {
        assert_eq!(state.backoff_secs(), secs);
        assert_eq!(state.backoff_delay(), Duration::from_secs(secs));
        state.record_failure();
    }
    assert!(state.last_restart.is_some());
    state.reset();
    assert_eq!(state.consecutive_failures, 0);
    assert_eq!(state.backoff_delay(), Duration::from_secs(1));
}

#[test]
fn record_failure_saturates() {
    let mut state = RestartState { consecutive_failures: u32::MAX, last_restart: None };
    state.record_failure();
    assert_eq!(state.consecutive_failures, u32::MAX);
    assert_eq!(state.backoff_secs(), 60);
}

#[test]
fn should_restart_follows_policy() {
    let mut manager = ProcessManager::new();
    manager.register(config("never", RestartPolicy::Never, false));
    manager.register(config("failure", RestartPolicy::OnFailure, false));
    manager.register(config("always", RestartPolicy::Always, false));
    manager.register(config("supervised", RestartPolicy::Always, true));

    assert!(!manager.should_restart(&id("never"), Some(1)));
    assert!(manager.should_restart(&id("failure"), Some(1)));
    assert!(!manager.should_restart(&id("failure"), Some(0)));
    assert!(manager.should_restart(&id("failure"), None));
    assert!(manager.should_restart(&id("always"), Some(0)));
    assert!(!manager.should_restart(&id("supervised"), Some(1)));
    assert!(!manager.should_restart(&id("missing"), Some(1)));

    assert!(manager.is_supervised(&id("supervised")));
    assert!(!manager.is_supervised(&id("missing")));
    assert_eq!(manager.get_restart_policy(&id("failure")), RestartPolicy::OnFailure);
    assert_eq!(manager.get_restart_policy(&id("missing")), RestartPolicy::Never);
}

#[test]
fn register_replaces_earlier_config() {
    let mut manager = ProcessManager::new();
    manager.register(config("queue", RestartPolicy::Never, false));
    manager.register(config("queue", RestartPolicy::Always, false));
    assert_eq!(manager.process_ids().len(), 1);
    assert!(manager.should_restart(&id("queue"), Some(0)));
}

#[test]
fn backoff_delay_per_process() {
    let mut manager = ProcessManager::new();
    assert_eq!(manager.get_backoff_delay(&id("vite")), Duration::from_secs(1));
    assert!(manager.get_restart_state(&id("vite")).is_none());
    manager.record_failure(&id("vite"));
    manager.record_failure(&id("vite"));
    assert_eq!(manager.get_restart_state(&id("vite")).unwrap().consecutive_failures, 2);
    assert_eq!(manager.get_backoff_delay(&id("vite")), Duration::from_secs(4));
    manager.record_start(&id("vite"));
    assert_eq!(manager.get_backoff_delay(&id("vite")), Duration::from_secs(1));
}

#[test]
fn spawn_plan_adds_color_variables_first() {
    let mut manager = ProcessManager::new();
    manager.register(config("serve", RestartPolicy::Never, false));
    let plan = manager.spawn_plan(&id("serve")).ok().unwrap();
    assert_eq!(plan.command, "php");
    assert_eq!(plan.args, vec!["artisan".to_string(), "serve".to_string()]);
    assert_eq!(plan.working_dir, "/app");
    let names: Vec<&str> = plan.env.iter().map(|(k, _)| k.as_str()).collect();
    assert_eq!(names, vec!["FORCE_COLOR", "CLICOLOR_FORCE", "COLORTERM", "APP_ENV"]);
    assert_eq!(plan.env[2].1, "truecolor");

    match manager.spawn_plan(&id("reverb")) {
        Err(LaraMuxError::ProcessNotFound(name)) => assert_eq!(name, "reverb"),
        _ => panic!("expected ProcessNotFound"),
    }
}

#[test]
fn started_message_text() {
    let mut manager = ProcessManager::new();
    manager.register(config("serve", RestartPolicy::Never, false));
    let mut horizon = config("horizon", RestartPolicy::Never, true);
    horizon.supervisor_program = Some("horizon-worker".to_string());
    manager.register(horizon);
    manager.register(config("queue", RestartPolicy::Never, true));

    assert_eq!(
        manager.started_message(&id("serve"), Some(4242)).unwrap(),
        "Started serve (PID: Some(4242))"
    );
    assert_eq!(
        manager.started_message(&id("serve"), None).unwrap(),
        "Started serve (PID: None)"
    );
    assert_eq!(
        manager.started_message(&id("horizon"), Some(7)).unwrap(),
        "Tailing supervisor logs for horizon-worker (PID: Some(7))"
    );
    assert_eq!(
        manager.started_message(&id("queue"), Some(0)).unwrap(),
        "Tailing supervisor logs for unknown (PID: Some(0))"
    );
    assert!(manager.started_message(&id("nope"), None).is_none());
}

#[test]
fn spawn_failure_reasons() {
    let e = spawn_failure(&id("vite"), SpawnErrorKind::NotFound, "npm", "ignored".to_string());
    assert_eq!(
        e.message(),
        "Failed to spawn vite: Command 'npm' not found. Make sure it is installed and in your PATH."
    );
    let e = spawn_failure(&id("vite"), SpawnErrorKind::PermissionDenied, "./run", String::new());
    match &e {
        LaraMuxError::SpawnFailed { name, reason } => {
            assert_eq!(name, "vite");
            assert_eq!(
                reason,
                "Permission denied when trying to execute './run'. Check file permissions."
            );
        }
        _ => panic!("expected SpawnFailed"),
    }
    let e = spawn_failure(&id("queue"), SpawnErrorKind::Other, "php", "broken pipe".to_string());
    assert_eq!(e.message(), "Failed to spawn queue: broken pipe");
    assert_eq!(
        LaraMuxError::ProcessNotFound("x".to_string()).message(),
        "Process not found: x"
    );
}

#[test]
fn stat_line_parent_pid() {
    let stat = "4242 (php artisan (serve)) S 4200 4242 4200 0 -1 4194560";
    assert!(stat_cuttable_exec(stat));
    assert_eq!(stat_parent_pid(stat), Some(4200));
    assert_eq!(stat_parent_pid("7 (sh) R"), None);
    assert_eq!(stat_parent_pid("no parenthesis here"), None);
    assert_eq!(stat_parent_pid("9 (x) S 99999999999"), None);
    assert!(!stat_cuttable_exec("9 (x)"));
    assert!(!stat_cuttable_exec("9 (x)é 1 2"));
}

#[test]
fn u32_text() {
    assert_eq!(parse_u32("4294967295"), Some(u32::MAX));
    assert_eq!(parse_u32("4294967296"), None);
    assert_eq!(parse_u32("self"), None);
    assert_eq!(parse_u32("+12"), Some(12));
}

#[test]
fn tabs_wrap_around() {
    assert_eq!(Tab::default(), Tab::Processes);
    assert_eq!(Tab::Config.next(), Tab::Processes);
    assert_eq!(Tab::Processes.previous(), Tab::Config);
    let mut t = Tab::Logs;
    for _ in 0..6 {
        t = t.next();
    }
    assert_eq!(t, Tab::Logs);
    assert_eq!(Tab::Make.next().previous(), Tab::Make);
}

#[test]
fn process_cursor_stays_in_list() {
    let mut state = ProcessesTabState::default();
    state.select_previous(3);
    assert_eq!(state.selected_index, 0);
    state.select_next(3);
    state.select_next(3);
    state.select_next(3);
    assert_eq!(state.selected_index, 2);
    state.select_previous(3);
    assert_eq!(state.selected_index, 1);
    state.select_next(0);
    assert_eq!(state.selected_index, 1);
}
