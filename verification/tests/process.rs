use memscan::host::{Host, ModuleEntry, ProcessEntry};
use memscan::process_manager::{
    attach_process_manager, detach_process_manager, get_process_id, get_process_module_handle,
    is_active, AttachStatus, ProcessManager,
};

fn game_host() -> Host {
    Host {
        processes: vec![
            ProcessEntry { name: "explorer.exe".to_string(), id: 11, handle: 3 },
            ProcessEntry { name: "game.exe".to_string(), id: 1234, handle: 7 },
        ],
        modules: vec![
            ModuleEntry { name: "game.exe".to_string(), base: 0x1_4000_0000 },
            ModuleEntry { name: "client.dll".to_string(), base: 0x7FF6_0000 },
        ],
        regions: Vec::new(),
        running: true,
    }
}

#[test]
fn attach_nonexistent_process_fails_without_opening_a_handle() {
    let host = game_host();
    let mut pm = ProcessManager::default();
    let status = attach_process_manager(&mut pm, &host, "nonexistent.exe");
    assert_eq!(status, AttachStatus::FailedProcessId);
    assert_eq!(pm.h_process, 0);
    assert_eq!(pm.process_id, 0);
    assert_eq!(pm.module_address, 0);
    assert!(!pm.attached);
}

#[test]
fn attach_succeeds_against_running_target() {
    let host = game_host();
    let mut pm = ProcessManager::default();
    let status = attach_process_manager(&mut pm, &host, "game.exe");
    assert_eq!(status, AttachStatus::Success);
    assert!(pm.attached);
    assert_eq!(pm.process_id, 1234);
    assert_eq!(pm.h_process, 7);
    assert_eq!(pm.module_address, 0x1_4000_0000);
    assert!(is_active(&pm, &host));
}

#[test]
fn attach_reports_denied_handle() {
    let mut host = game_host();
    host.processes[1].handle = 0;
    let mut pm = ProcessManager::default();
    let status = attach_process_manager(&mut pm, &host, "game.exe");
    assert_eq!(status, AttachStatus::FailedHProcess);
    assert_eq!(pm.process_id, 1234);
    assert_eq!(pm.h_process, 0);
    assert!(!pm.attached);
}

#[test]
fn attach_reports_missing_module() {
    let mut host = game_host();
    host.modules.clear();
    let mut pm = ProcessManager::default();
    let status = attach_process_manager(&mut pm, &host, "game.exe");
    assert_eq!(status, AttachStatus::FailedModule);
    assert_eq!(pm.process_id, 1234);
    assert_eq!(pm.h_process, 7);
    assert!(!pm.attached);
}

#[test]
fn is_active_false_before_any_attach_and_after_detach() {
    let host = game_host();
    let mut pm = ProcessManager::default();
    assert!(!is_active(&pm, &host));

    let status = attach_process_manager(&mut pm, &host, "game.exe");
    assert_eq!(status, AttachStatus::Success);
    assert!(is_active(&pm, &host));

    detach_process_manager(&mut pm);
    assert!(!is_active(&pm, &host));
    assert_eq!(pm.h_process, 0);

    // Detaching again is harmless.
    detach_process_manager(&mut pm);
    assert!(!is_active(&pm, &host));
}

#[test]
fn is_active_false_once_target_exits() {
    let mut host = game_host();
    let mut pm = ProcessManager::default();
    attach_process_manager(&mut pm, &host, "game.exe");
    assert!(is_active(&pm, &host));
    host.running = false;
    assert!(!is_active(&pm, &host));
}

#[test]
fn process_lookup_takes_first_exact_match() {
    let mut host = game_host();
    host.processes.push(ProcessEntry { name: "game.exe".to_string(), id: 9999, handle: 8 });
    assert_eq!(get_process_id(&host, "game.exe"), 1234);
    assert_eq!(get_process_id(&host, "GAME.EXE"), 0);
    assert_eq!(get_process_id(&host, "missing.exe"), 0);
}

#[test]
fn module_lookup_by_exact_name() {
    let host = game_host();
    assert_eq!(get_process_module_handle(&host, "client.dll"), 0x7FF6_0000);
    assert_eq!(get_process_module_handle(&host, "other.dll"), 0);
}
