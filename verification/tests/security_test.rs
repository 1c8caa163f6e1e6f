//! Security tests: the system-variable protection mechanism.

use window_env_visual_control::EnvError;
use window_env_visual_control::EnvScope;
use window_env_visual_control::EnvironmentManager;

#[test]
fn test_cannot_add_system_variable() {
    let mut env_manager = EnvironmentManager::new(false);

    let result = env_manager.add_variable(
        "TEST_SYSTEM_VAR".to_string(),
        "test_value".to_string(),
        EnvScope::System,
    );

    assert!(result.is_err());
    if let Err(EnvError::PermissionDenied(msg)) = result {
        assert!(msg.contains("Cannot add system variables for safety reasons"));
    } else {
        panic!("Expected PermissionDenied error");
    }
}

#[test]
fn test_cannot_update_system_variable() {
    let mut env_manager = EnvironmentManager::new(false);

    let _ = env_manager.load_all_variables();

    let result = env_manager.update_variable("PATH", "malicious_value".to_string());

    if result.is_err() {
        if let Err(EnvError::PermissionDenied(msg)) = result {
            assert!(msg.contains("Cannot modify system variables for safety reasons"));
        }
    }
}

#[test]
fn test_cannot_delete_system_variable() {
    let mut env_manager = EnvironmentManager::new(false);

    let _ = env_manager.load_all_variables();

    let result = env_manager.delete_variable("PATH");

    if result.is_err() {
        if let Err(EnvError::PermissionDenied(msg)) = result {
            assert!(msg.contains("Cannot delete system variables for safety reasons"));
        }
    }
}

#[test]
fn test_can_add_user_variable() {
    let mut env_manager = EnvironmentManager::new(false);

    let result = env_manager.add_variable(
        "TEST_USER_VAR".to_string(),
        "test_value".to_string(),
        EnvScope::User,
    );

    assert!(result.is_ok());

    let _ = env_manager.delete_variable("TEST_USER_VAR");
}

#[test]
fn test_can_update_user_variable() {
    let mut env_manager = EnvironmentManager::new(false);

    let _ = env_manager.add_variable(
        "TEST_UPDATE_VAR".to_string(),
        "original_value".to_string(),
        EnvScope::User,
    );

    let result = env_manager.update_variable("TEST_UPDATE_VAR", "updated_value".to_string());
    assert!(result.is_ok());

    let _ = env_manager.delete_variable("TEST_UPDATE_VAR");
}

#[test]
fn test_can_delete_user_variable() {
    let mut env_manager = EnvironmentManager::new(false);

    let _ = env_manager.add_variable(
        "TEST_DELETE_VAR".to_string(),
        "test_value".to_string(),
        EnvScope::User,
    );

    let result = env_manager.delete_variable("TEST_DELETE_VAR");
    assert!(result.is_ok());
}
