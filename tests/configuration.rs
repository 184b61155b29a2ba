use monolith_core::config::{
    normalize_default_accounts, normalize_microsoft_client_id, normalize_reference_instance,
    order_instances, Account, AccountKind, AppConfig, Instance, InstanceManifest, Loader,
    DEFAULT_MICROSOFT_CLIENT_ID,
};

fn placeholder(id: &str) -> Account {
    Account {
        id: id.to_string(),
        display_name: id.to_string(),
        kind: AccountKind::Offline,
        last_used: None,
        access_token: None,
        refresh_token: None,
        expires_at: None,
        uuid: None,
        owns_minecraft: None,
    }
}

#[test]
fn first_start_configuration() {
    let c = AppConfig::default_with_home("/home/u");
    assert_eq!(c.instance_roots.len(), 2);
    assert_eq!(c.instance_roots[0].path, "/home/u/.monolith/instances");
    assert_eq!(c.instance_roots[1].path, "/home/u/.monolith/instances-labs");
    assert_eq!(c.default_instance_root_id.as_deref(), Some("primary"));
    assert_eq!(c.settings.java.min_ram_gb, 6);
    assert_eq!(c.settings.microsoft_client_id, DEFAULT_MICROSOFT_CLIENT_ID);
}

#[test]
fn normalisations() {
    let mut c = AppConfig::default_with_home("/h");
    c.settings.microsoft_client_id = "  496760c7-41f3-40b4-9cdc-c553219b3fbc ".to_string();
    normalize_microsoft_client_id(&mut c);
    assert_eq!(c.settings.microsoft_client_id, DEFAULT_MICROSOFT_CLIENT_ID);
    c.settings.microsoft_client_id = "mine".to_string();
    normalize_microsoft_client_id(&mut c);
    assert_eq!(c.settings.microsoft_client_id, "mine");

    c.accounts = vec![placeholder("microsoft-primary"), placeholder("offline-fallback")];
    c.active_account_id = Some("offline-fallback".to_string());
    normalize_default_accounts(&mut c);
    assert!(c.accounts.is_empty());
    assert!(c.active_account_id.is_none());
    c.accounts = vec![placeholder("microsoft-primary"), placeholder("real")];
    normalize_default_accounts(&mut c);
    assert_eq!(c.accounts.len(), 2);

    normalize_reference_instance(&mut c);
    assert!(c.settings.reference_instance_id.is_none());
}

#[test]
fn manifest_round_trip() {
    let i = Instance {
        id: "a".to_string(), name: "A".to_string(), version: "1.20.1".to_string(), loader: Loader::Forge,
        loader_version: Some("47.2.0".to_string()), show_snapshots: true, root_id: Some("primary".to_string()),
        directory: "/r/a".to_string(), java_min_ram_gb: Some(2), java_max_ram_gb: Some(4), jvm_args: Some("-Dx".to_string()),
    };
    let m = InstanceManifest::from_instance(&i, Some(5));
    assert_eq!(m.directory.as_deref(), Some("/r/a"));
    assert!(m.installed_version.is_none());
    let back = m.into_instance(Some("labs".to_string()), "/l/a".to_string());
    assert_eq!(back.loader_version.as_deref(), Some("47.2.0"));
    assert_eq!(back.root_id.as_deref(), Some("labs"));
    assert_eq!(back.directory, "/l/a");
    assert_eq!(back.java_max_ram_gb, Some(4));
}

fn named(id: &str, name: &str) -> Instance {
    Instance {
        id: id.to_string(), name: name.to_string(), version: "1.20.1".to_string(), loader: Loader::Vanilla,
        loader_version: None, show_snapshots: false, root_id: None, directory: format!("/r/{}", id),
        java_min_ram_gb: None, java_max_ram_gb: None, jvm_args: None,
    }
}

#[test]
fn instances_ordered_by_case_folded_name() {
    let v = vec![named("1", "beta"), named("2", "Alpha"), named("3", "BETA"), named("4", "Ärger"), named("5", "alpha")];
    let ids: Vec<String> = order_instances(v).into_iter().map(|i| i.id).collect();
    assert_eq!(ids, vec!["2", "5", "1", "3", "4"]);
}
