use koshelf::lifecycle::{
    resolve_runtime_data_policy, RuntimeDataLifecycle, RuntimeDataPathOptions,
    RuntimeDataPolicySource, KOSHELF_DB_FILENAME, LIBRARY_DB_FILENAME,
};

fn options(data_path: Option<&str>) -> RuntimeDataPathOptions {
    RuntimeDataPathOptions {
        data_path: data_path.map(String::from),
    }
}

#[test]
fn cli_data_path_enables_persistent_policy() {
    let cli = options(Some("/cli/data"));

    let policy = resolve_runtime_data_policy(&cli);

    assert_eq!(policy.lifecycle, RuntimeDataLifecycle::Persistent);
    assert_eq!(policy.source, RuntimeDataPolicySource::DataPath);
    assert_eq!(policy.data_path, Some(String::from("/cli/data")));
    assert_eq!(policy.persistent_data_dir(), Some("/cli/data"));
}

#[test]
fn unresolved_paths_fall_back_to_ephemeral_mode() {
    let cli = options(None);

    let policy = resolve_runtime_data_policy(&cli);

    assert_eq!(policy.lifecycle, RuntimeDataLifecycle::Ephemeral);
    assert_eq!(policy.source, RuntimeDataPolicySource::AutoEphemeral);
    assert_eq!(policy.data_path, None);
    assert_eq!(policy.persistent_data_dir(), None);
}

#[test]
fn empty_paths_are_treated_as_unset() {
    let cli = options(Some(""));

    let policy = resolve_runtime_data_policy(&cli);

    assert_eq!(policy.lifecycle, RuntimeDataLifecycle::Ephemeral);
    assert_eq!(policy.source, RuntimeDataPolicySource::AutoEphemeral);
    assert_eq!(policy.data_path, None);
}

#[test]
fn library_db_path_is_derived_from_resolved_data_dir() {
    let cli = options(Some("/runtime/data"));

    let policy = resolve_runtime_data_policy(&cli);

    assert_eq!(
        policy.library_db_path(),
        Some(format!("/runtime/data/{LIBRARY_DB_FILENAME}"))
    );
}

#[test]
fn ephemeral_policy_resolves_library_db_after_setting_data_dir() {
    let cli = options(None);
    let mut policy = resolve_runtime_data_policy(&cli);

    assert!(policy.library_db_path().is_none());

    policy.set_resolved_data_dir(String::from("/tmp/koshelf-abc"));

    assert_eq!(
        policy.library_db_path(),
        Some(format!("/tmp/koshelf-abc/{LIBRARY_DB_FILENAME}"))
    );
    // persistent_data_dir still returns None for ephemeral policies
    assert_eq!(policy.persistent_data_dir(), None);
}

#[test]
fn koshelf_db_path_is_derived_from_resolved_data_dir() {
    let cli = options(Some("/runtime/data"));

    let policy = resolve_runtime_data_policy(&cli);

    assert_eq!(
        policy.koshelf_db_path(),
        Some(format!("/runtime/data/{KOSHELF_DB_FILENAME}"))
    );
}

#[test]
fn policy_source_names_are_stable() {
    assert_eq!(RuntimeDataPolicySource::DataPath.as_str(), "data_path");
    assert_eq!(RuntimeDataPolicySource::AutoEphemeral.as_str(), "auto_ephemeral");
}

#[test]
fn resolved_dir_with_trailing_slash_joins_without_doubling() {
    let mut policy = resolve_runtime_data_policy(&options(None));
    policy.set_resolved_data_dir(String::from("/data/"));
    assert_eq!(policy.resolved_data_dir(), Some("/data/"));
    assert_eq!(policy.koshelf_db_path(), Some(String::from("/data/koshelf.sqlite")));
}
