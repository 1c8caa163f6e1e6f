//! Behaviour of the manager, the store, the notifier and the profiles on
//! concrete values.

use window_env_visual_control::text::split_env_entry;
use window_env_visual_control::EnvError;
use window_env_visual_control::EnvProfile;
use window_env_visual_control::EnvProfiles;
use window_env_visual_control::EnvVariable;
use window_env_visual_control::EnvVariables;
use window_env_visual_control::EnvScope;
use window_env_visual_control::EnvironmentManager;
use window_env_visual_control::EnvironmentRefresher;
use window_env_visual_control::RegistryManager;

fn manager_with_store(store: RegistryManager) -> EnvironmentManager {
    EnvironmentManager::with_parts(store, EnvironmentRefresher::new(), false)
}

fn names_of(vars: &[window_env_visual_control::EnvVariable]) -> Vec<String> {
    let mut names: Vec<String> = vars.iter().map(|v| v.name.clone()).collect();
    names.sort();
    names
}

#[test]
fn system_mutations_leave_store_unchanged() {
    let mut store = RegistryManager::new();
    store.seed(EnvScope::System, "PATH".to_string(), "C:\\Windows".to_string());
    store.seed(EnvScope::User, "EDITOR".to_string(), "vim".to_string());
    let mut mgr = manager_with_store(store);
    let _ = mgr.load_all_variables();

    let sys_before = mgr.registry_manager.get_system_env_vars().unwrap();
    let user_before = mgr.registry_manager.get_user_env_vars().unwrap();

    let add = mgr.add_variable("NEW_SYS".to_string(), "v".to_string(), EnvScope::System);
    assert!(matches!(add, Err(EnvError::PermissionDenied(_))));

    let upd = mgr.update_variable("PATH", "malicious".to_string());
    assert!(matches!(upd, Err(EnvError::PermissionDenied(_))));

    let del = mgr.delete_variable("PATH");
    assert!(matches!(del, Err(EnvError::PermissionDenied(_))));

    assert_eq!(sys_before, mgr.registry_manager.get_system_env_vars().unwrap());
    assert_eq!(user_before, mgr.registry_manager.get_user_env_vars().unwrap());
}

#[test]
fn add_then_get_returns_value() {
    let mut mgr = EnvironmentManager::new(false);
    mgr.add_variable("ALPHA".to_string(), "one".to_string(), EnvScope::User).unwrap();
    let vars = mgr.get_all_variables().unwrap();
    assert_eq!(vars.get("ALPHA").unwrap().value, "one");

    mgr.update_variable("ALPHA", "two".to_string()).unwrap();
    let vars = mgr.get_all_variables().unwrap();
    assert_eq!(vars.get("ALPHA").unwrap().value, "two");
}

#[test]
fn update_preserves_creation_time() {
    let mut mgr = EnvironmentManager::new(false);
    mgr.add_variable("KEEP".to_string(), "a".to_string(), EnvScope::User).unwrap();
    let created = mgr.get_all_variables().unwrap().get("KEEP").unwrap().created_at;
    mgr.update_variable("KEEP", "b".to_string()).unwrap();
    let after = mgr.get_all_variables().unwrap();
    let v = after.get("KEEP").unwrap();
    assert_eq!(v.created_at, created);
    assert_eq!(v.value, "b");
}

#[test]
fn delete_then_get_absent_and_reload_omits() {
    let mut mgr = EnvironmentManager::new(false);
    mgr.add_variable("GONE".to_string(), "v".to_string(), EnvScope::User).unwrap();
    mgr.delete_variable("GONE").unwrap();
    assert!(mgr.get_all_variables().unwrap().get("GONE").is_none());
    let reloaded = mgr.load_all_variables().unwrap();
    assert!(reloaded.get("GONE").is_none());
}

#[test]
fn load_all_is_idempotent() {
    let mut store = RegistryManager::new();
    store.seed(EnvScope::User, "A".to_string(), "1".to_string());
    store.seed(EnvScope::System, "B".to_string(), "2".to_string());
    let mut mgr = manager_with_store(store);

    let first = mgr.load_all_variables().unwrap();
    let second = mgr.load_all_variables().unwrap();
    assert_eq!(first.len(), second.len());
    for name in ["A", "B"] {
        let v1 = first.get(name).unwrap();
        let v2 = second.get(name).unwrap();
        assert_eq!(v1.value, v2.value);
        assert_eq!(v1.scope, v2.scope);
    }
}

#[test]
fn merge_collision_system_wins() {
    let mut store = RegistryManager::new();
    store.seed(EnvScope::User, "SHARED".to_string(), "user_value".to_string());
    store.seed(EnvScope::System, "SHARED".to_string(), "system_value".to_string());
    let mut mgr = manager_with_store(store);

    let vars = mgr.load_all_variables().unwrap();
    let v = vars.get("SHARED").unwrap();
    assert_eq!(v.scope, EnvScope::System);
    assert_eq!(v.value, "system_value");
}

#[test]
fn search_is_case_insensitive_and_exact() {
    let mut mgr = EnvironmentManager::new(false);
    mgr.add_variable("FOO_BAR".to_string(), "1".to_string(), EnvScope::User).unwrap();
    mgr.add_variable("baz".to_string(), "foovalue".to_string(), EnvScope::User).unwrap();
    mgr.add_variable("OTHER".to_string(), "2".to_string(), EnvScope::User).unwrap();

    let hits = mgr.search_variables("foo").unwrap();
    assert_eq!(names_of(&hits), vec!["FOO_BAR".to_string(), "baz".to_string()]);

    let hits_upper = mgr.search_variables("FOO").unwrap();
    assert_eq!(names_of(&hits_upper), vec!["FOO_BAR".to_string(), "baz".to_string()]);

    let all = mgr.search_variables("").unwrap();
    assert_eq!(all.len(), 3);
}

#[test]
fn filter_by_scope_splits_namespaces() {
    let mut store = RegistryManager::new();
    store.seed(EnvScope::User, "U1".to_string(), "a".to_string());
    store.seed(EnvScope::System, "S1".to_string(), "b".to_string());
    let mut mgr = manager_with_store(store);

    let users = mgr.get_variables_by_scope(EnvScope::User).unwrap();
    assert_eq!(names_of(&users), vec!["U1".to_string()]);
    let systems = mgr.get_variables_by_scope(EnvScope::System).unwrap();
    assert_eq!(names_of(&systems), vec!["S1".to_string()]);
}

#[test]
fn undecodable_entries_are_skipped_not_fatal() {
    let mut store = RegistryManager::new();
    store.seed(EnvScope::User, "GOOD".to_string(), "ok".to_string());
    store.seed_undecodable(EnvScope::User, "BAD".to_string());
    let mut mgr = manager_with_store(store);

    let entries = mgr.registry_manager.get_user_env_vars().unwrap();
    assert_eq!(entries.len(), 1);
    assert_eq!(entries[0].0, "GOOD");

    let vars = mgr.load_all_variables().unwrap();
    assert!(vars.get("GOOD").is_some());
    assert!(vars.get("BAD").is_none());
}

#[test]
fn invalid_names_are_rejected_before_io() {
    let mut mgr = EnvironmentManager::new(false);
    let empty = mgr.add_variable(String::new(), "v".to_string(), EnvScope::User);
    assert!(matches!(empty, Err(EnvError::InvalidInput(_))));
    let with_eq = mgr.add_variable("A=B".to_string(), "v".to_string(), EnvScope::User);
    assert!(matches!(with_eq, Err(EnvError::InvalidInput(_))));
    let with_ctrl = mgr.add_variable("A\u{0007}B".to_string(), "v".to_string(), EnvScope::User);
    assert!(matches!(with_ctrl, Err(EnvError::InvalidInput(_))));
    assert!(mgr.get_all_variables().unwrap().is_empty());
}

#[test]
fn unavailable_store_surfaces_store_unavailable() {
    let store = RegistryManager::with_flags(false, true, false);
    let mut mgr = manager_with_store(store);
    let add = mgr.add_variable("X".to_string(), "v".to_string(), EnvScope::User);
    assert!(matches!(add, Err(EnvError::StoreUnavailable(_))));
    let load = mgr.load_all_variables();
    assert!(matches!(load, Err(EnvError::StoreUnavailable(_))));
}

#[test]
fn absent_names_surface_not_found() {
    let mut mgr = EnvironmentManager::new(false);
    let upd = mgr.update_variable("MISSING", "v".to_string());
    assert!(matches!(upd, Err(EnvError::NotFound(_))));
    let del = mgr.delete_variable("MISSING");
    assert!(matches!(del, Err(EnvError::NotFound(_))));
}

#[test]
fn store_delete_of_absent_name_is_not_found() {
    let mut store = RegistryManager::new();
    let r = store.delete(EnvScope::User, "NOWHERE");
    assert!(matches!(r, Err(EnvError::NotFound(_))));
}

#[test]
fn apply_system_profile_without_elevation_writes_nothing() {
    let mut store = RegistryManager::new();
    store.seed(EnvScope::System, "KEEP".to_string(), "x".to_string());
    let mut mgr = manager_with_store(store);

    let mut profile = EnvProfile::new("sys".to_string(), EnvScope::System);
    profile.add_variable("INJECTED".to_string(), "y".to_string());
    profile.set_enabled(true);
    let mut profiles = EnvProfiles::new();
    profiles.add(profile);
    mgr.load_profiles(profiles);

    let sys_before = mgr.registry_manager.get_system_env_vars().unwrap();
    let user_before = mgr.registry_manager.get_user_env_vars().unwrap();
    let r = mgr.apply_profile("sys");
    assert!(matches!(r, Err(EnvError::PermissionDenied(_))));
    assert_eq!(sys_before, mgr.registry_manager.get_system_env_vars().unwrap());
    assert_eq!(user_before, mgr.registry_manager.get_user_env_vars().unwrap());
}

#[test]
fn apply_user_profile_makes_each_assignment_retrievable() {
    let mut mgr = EnvironmentManager::new(false);

    let mut profile = EnvProfile::new("dev".to_string(), EnvScope::User);
    profile.add_variable("CC".to_string(), "clang".to_string());
    profile.add_variable("CXX".to_string(), "clang++".to_string());
    profile.set_enabled(true);
    let mut profiles = EnvProfiles::new();
    profiles.add(profile);
    mgr.load_profiles(profiles);

    mgr.apply_profile("dev").unwrap();
    let vars = mgr.get_all_variables().unwrap();
    assert_eq!(vars.get("CC").unwrap().value, "clang");
    assert_eq!(vars.get("CXX").unwrap().value, "clang++");
}

#[test]
fn apply_system_profile_with_elevation_succeeds() {
    let store = RegistryManager::with_flags(true, true, true);
    let refresher = EnvironmentRefresher::with_state(true, true);
    let mut mgr = EnvironmentManager::with_parts(store, refresher, false);

    let mut profile = EnvProfile::new("machine".to_string(), EnvScope::System);
    profile.add_variable("GLOBAL".to_string(), "set".to_string());
    profile.set_enabled(true);
    let mut profiles = EnvProfiles::new();
    profiles.add(profile);
    mgr.load_profiles(profiles);

    mgr.apply_profile("machine").unwrap();
    let vars = mgr.get_all_variables().unwrap();
    let v = vars.get("GLOBAL").unwrap();
    assert_eq!(v.value, "set");
    assert_eq!(v.scope, EnvScope::System);
}

#[test]
fn toggled_off_profile_fails_with_zero_store_writes() {
    let mut mgr = EnvironmentManager::new(false);

    let mut profile = EnvProfile::new("p".to_string(), EnvScope::User);
    profile.add_variable("WOULD_WRITE".to_string(), "v".to_string());
    profile.set_enabled(true);
    let mut profiles = EnvProfiles::new();
    profiles.add(profile);
    mgr.load_profiles(profiles);

    mgr.toggle_profile("p", false).unwrap();
    let user_before = mgr.registry_manager.get_user_env_vars().unwrap();
    let r = mgr.apply_profile("p");
    assert!(matches!(r, Err(EnvError::ConfigurationError(_))));
    assert_eq!(user_before, mgr.registry_manager.get_user_env_vars().unwrap());
    assert!(user_before.is_empty());
}

#[test]
fn absent_profile_surfaces_profile_not_found() {
    let mut mgr = EnvironmentManager::new(false);
    let r = mgr.apply_profile("nope");
    assert!(matches!(r, Err(EnvError::ProfileNotFound(_))));
    let t = mgr.toggle_profile("nope", true);
    assert!(matches!(t, Err(EnvError::ProfileNotFound(_))));
}

#[test]
fn notify_async_never_raises_even_when_broadcast_fails() {
    let store = RegistryManager::new();
    let refresher = EnvironmentRefresher::with_state(false, false);
    let mgr = EnvironmentManager::with_parts(store, refresher, false);

    mgr.refresh_environment_async();

    let sync = mgr.refresh_environment();
    assert!(matches!(sync, Err(EnvError::RefreshFailed(_))));
}

#[test]
fn failed_broadcast_surfaces_refresh_failed_on_mutation() {
    let store = RegistryManager::new();
    let refresher = EnvironmentRefresher::with_state(false, false);
    let mut mgr = EnvironmentManager::with_parts(store, refresher, true);

    let r = mgr.add_variable("N".to_string(), "v".to_string(), EnvScope::User);
    assert!(matches!(r, Err(EnvError::RefreshFailed(_))));
    // The mutation itself went through; only the broadcast failed.
    assert_eq!(mgr.get_all_variables().unwrap().get("N").unwrap().value, "v");
}

#[test]
fn end_to_end_build_dir_lifecycle() {
    let mut mgr = EnvironmentManager::new(false);

    mgr.add_variable("BUILD_DIR".to_string(), "C:\\out".to_string(), EnvScope::User).unwrap();
    let vars = mgr.get_all_variables().unwrap();
    assert_eq!(vars.get("BUILD_DIR").unwrap().value, "C:\\out");

    mgr.update_variable("BUILD_DIR", "D:\\out".to_string()).unwrap();
    let vars = mgr.get_all_variables().unwrap();
    assert_eq!(vars.get("BUILD_DIR").unwrap().value, "D:\\out");

    mgr.delete_variable("BUILD_DIR").unwrap();
    let vars = mgr.get_all_variables().unwrap();
    assert!(vars.get("BUILD_DIR").is_none());
}

#[test]
fn admin_permission_follows_scope_and_elevation() {
    let plain = EnvironmentManager::new(false);
    assert!(plain.check_admin_permission(EnvScope::User));
    assert!(!plain.check_admin_permission(EnvScope::System));

    let elevated = EnvironmentManager::with_parts(
        RegistryManager::new(),
        EnvironmentRefresher::with_state(true, true),
        false,
    );
    assert!(elevated.check_admin_permission(EnvScope::User));
    assert!(elevated.check_admin_permission(EnvScope::System));

    let refresher = EnvironmentRefresher::new();
    assert!(!refresher.check_admin_permission(EnvScope::User));
    assert!(refresher.check_admin_permission(EnvScope::System));
}

#[test]
fn auto_refresh_toggle_round_trips() {
    let mut mgr = EnvironmentManager::new(false);
    assert!(!mgr.get_auto_refresh());
    mgr.set_auto_refresh(true);
    assert!(mgr.get_auto_refresh());
}

#[test]
fn profile_variable_operations_round_trip() {
    let mut profile = EnvProfile::new("edit".to_string(), EnvScope::User);
    assert!(profile.is_empty());
    profile.add_variable("K".to_string(), "v1".to_string());
    profile.add_variable("K".to_string(), "v2".to_string());
    assert_eq!(profile.len(), 1);
    assert_eq!(profile.get_variable("K").unwrap().as_str(), "v2");
    assert_eq!(profile.remove_variable("K").unwrap(), "v2");
    assert!(profile.get_variable("K").is_none());
    assert!(profile.remove_variable("K").is_none());
}

#[test]
fn env_entry_splits_at_first_equals_sign() {
    let (name, value) = split_env_entry("PATH=C:\\bin;D:\\tools").unwrap();
    assert_eq!(name, "PATH");
    assert_eq!(value, "C:\\bin;D:\\tools");

    let (name, value) = split_env_entry("A=B=C").unwrap();
    assert_eq!(name, "A");
    assert_eq!(value, "B=C");

    let (name, value) = split_env_entry("=leading").unwrap();
    assert_eq!(name, "");
    assert_eq!(value, "leading");

    assert!(split_env_entry("NO_SEPARATOR").is_none());
}

#[test]
fn search_matches_descriptions_too() {
    let mut cache = EnvVariables::new();
    let mut v = EnvVariable::new("PLAIN".to_string(), "1".to_string(), EnvScope::User);
    v.set_description("the Compiler directory".to_string());
    cache.add(v);
    cache.add(EnvVariable::new("OTHER".to_string(), "2".to_string(), EnvScope::User));

    let hits = cache.search("compiler");
    assert_eq!(hits.len(), 1);
    assert_eq!(hits[0].name, "PLAIN");
}

#[test]
fn profile_to_env_variables_carries_scope() {
    let mut profile = EnvProfile::new("bundle".to_string(), EnvScope::User);
    profile.add_variable("X".to_string(), "1".to_string());
    profile.add_variable("Y".to_string(), "2".to_string());
    let vars = profile.to_env_variables();
    assert_eq!(vars.len(), 2);
    for v in &vars {
        assert_eq!(v.scope, EnvScope::User);
        assert!(v.description.is_none());
    }
}

#[test]
fn profile_registry_search_and_toggle_partition() {
    let mut profiles = EnvProfiles::new();
    let mut a = EnvProfile::new("Alpha".to_string(), EnvScope::User);
    a.set_description("for the DEV machine".to_string());
    a.set_enabled(true);
    profiles.add(a);
    let b = EnvProfile::new("beta".to_string(), EnvScope::User);
    profiles.add(b);

    assert_eq!(profiles.len(), 2);
    assert_eq!(profiles.enabled_profiles().len(), 1);
    assert_eq!(profiles.disabled_profiles().len(), 1);

    let by_name = profiles.search("alph");
    assert_eq!(by_name.len(), 1);
    assert_eq!(by_name[0].name, "Alpha");

    let by_description = profiles.search("dev");
    assert_eq!(by_description.len(), 1);
    assert_eq!(by_description[0].name, "Alpha");
}
