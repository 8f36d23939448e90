use pixelsort::system::{SystemControl, UpdateError, UpdateManager};

fn lines(items: &[&str]) -> Vec<String> {
    items.iter().map(|s| s.to_string()).collect()
}

#[test]
fn shutdown_and_reboot_go_through_sudo() {
    let shutdown = SystemControl::shutdown_command();
    assert_eq!(shutdown.program, "sudo");
    assert_eq!(shutdown.args, lines(&["shutdown", "-h", "now"]));
    let reboot = SystemControl::reboot_command();
    assert_eq!(reboot.program, "sudo");
    assert_eq!(reboot.args, lines(&["reboot"]));
}

#[test]
fn a_new_manager_knows_of_no_update() {
    let manager = UpdateManager::new("/home/pixelsort/Pixelsort".to_string());
    assert!(!manager.update_available);
    assert!(!manager.is_update_available());
    assert_eq!(manager.project_path(), "/home/pixelsort/Pixelsort");
}

#[test]
fn commands_name_the_repository() {
    let manager = UpdateManager::new("/srv/app".to_string());
    assert_eq!(
        manager.check_command(),
        "cd /srv/app && git fetch origin main 2>&1 && git rev-parse HEAD && git rev-parse origin/main"
    );
    assert_eq!(manager.pull_command(), "cd /srv/app && git pull origin main 2>&1");
    assert_eq!(
        UpdateManager::restart_command("pixelsort-kiosk"),
        "sudo systemctl restart pixelsort-kiosk"
    );
}

#[test]
fn differing_commits_mean_an_update() {
    let mut manager = UpdateManager::new("/srv/app".to_string());
    assert_eq!(manager.record_check(&lines(&["noise", "abc1234", "def5678"])), Ok(true));
    assert!(manager.update_available);
    assert_eq!(manager.record_check(&lines(&["abc1234", "abc1234"])), Ok(false));
    assert!(!manager.update_available);
}

#[test]
fn too_few_lines_are_an_error_and_change_nothing() {
    let mut manager = UpdateManager::new("/srv/app".to_string());
    manager.record_check(&lines(&["a", "b"])).unwrap();
    assert!(manager.update_available);
    assert_eq!(manager.record_check(&lines(&["abc1234"])), Err(UpdateError::UnexpectedOutput));
    assert_eq!(manager.record_check(&lines(&[])), Err(UpdateError::UnexpectedOutput));
    assert!(manager.update_available);
}
