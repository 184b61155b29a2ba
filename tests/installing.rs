use monolith_core::config::{AppConfig, Instance, InstanceRoot, JavaRuntime, JavaSettings, Loader, PackSync, Settings};
use monolith_core::download::{
    after_failure, append_to_partial, discard_partial, plan_download, range_header, resume_offset,
    should_retry_http, worker_count, BatchProgress, DownloadStart, Failure, RetryDecision,
};
use monolith_core::install::{
    ensure_instance_ready, forge_installer, install_state_matches, plan_asset_downloads,
    plan_library_downloads, plan_profile_downloads, should_extract, write_install_state,
    AssetObject, InstallState, ProfileLibrary, ReadyStep,
};
use monolith_core::instance::{allocate_instance_id, create_instance, sanitize_folder_name, NewInstanceRequest};
use monolith_core::maven::LibraryArtifact;
use monolith_core::rules::{OsRule, Rule};
use monolith_core::versions::{ClassifierArtifact, Library, LibraryDownloads, LibraryExtract, NativeClassifier};

fn inst(loader: Loader, lv: Option<&str>) -> Instance {
    Instance {
        id: "a".to_string(), name: "A".to_string(), version: "1.20.1".to_string(), loader,
        loader_version: lv.map(|s| s.to_string()), show_snapshots: false, root_id: None,
        directory: "/i".to_string(), java_min_ram_gb: None, java_max_ram_gb: None, jvm_args: None,
    }
}

#[test]
fn matching_install_state_needs_nothing() {
    let i = inst(Loader::Fabric, Some("0.15.0"));
    let st = Some(InstallState { version: "1.20.1".to_string(), loader: Loader::Fabric, loader_version: Some("0.15.0".to_string()) });
    assert!(install_state_matches(&st, &i));
    assert_eq!(ensure_instance_ready(&i, &st).unwrap(), ReadyStep::UpToDate);
    let older = Some(InstallState { version: "1.20.1".to_string(), loader: Loader::Fabric, loader_version: Some("0.14.0".to_string()) });
    assert_eq!(ensure_instance_ready(&i, &older).unwrap(),
        ReadyStep::InstallFabric { game_version: "1.20.1".to_string(), loader_version: "0.15.0".to_string() });
    assert_eq!(ensure_instance_ready(&inst(Loader::Forge, None), &None).unwrap_err(), "forge version is required");
    assert_eq!(ensure_instance_ready(&inst(Loader::Vanilla, None), &None).unwrap(),
        ReadyStep::InstallVanilla { game_version: "1.20.1".to_string() });
    let legacy = Some(InstallState { version: "1.19.4".to_string(), loader: Loader::Vanilla, loader_version: None });
    let (migrated, changed) = monolith_core::install::migrate_legacy_state(monolith_core::config::InstanceManifest::from_instance(&i, None), &legacy);
    assert!(changed);
    assert_eq!(migrated.installed_version.as_deref(), Some("1.19.4"));
    let (again, changed) = monolith_core::install::migrate_legacy_state(migrated, &legacy);
    assert!(!changed);
    assert_eq!(again.installed_loader, Some(Loader::Vanilla));
    let m = write_install_state(None, &i);
    assert_eq!(m.installed_version.as_deref(), Some("1.20.1"));
    assert_eq!(m.installed_loader, Some(Loader::Fabric));
}

#[test]
fn existing_destination_is_skipped() {
    assert_eq!(plan_download(true), DownloadStart::Skip);
    assert_eq!(plan_download(false), DownloadStart::Fetch);
}

#[test]
fn partial_download_resumes_or_restarts() {
    assert_eq!(resume_offset(1234), Some(1234));
    assert_eq!(resume_offset(0), None);
    assert_eq!(range_header(1234), "bytes=1234-");
    assert!(append_to_partial(Some(1234), 206));
    assert!(!append_to_partial(Some(1234), 200));
    assert!(discard_partial(Failure::Status(416)));
    assert!(!discard_partial(Failure::Status(500)));
    let mut attempts = monolith_core::download::Attempts::new();
    assert_eq!(attempts.on_download_failure(Failure::Status(416)), monolith_core::download::AttemptStep::Wait(200));
    assert_eq!(resume_offset(0), None);
    assert!(!append_to_partial(resume_offset(0), 200));
    let mut plain = monolith_core::download::Attempts::new();
    assert_eq!(plain.on_failure(Failure::Status(416)), monolith_core::download::AttemptStep::GiveUp);
    let mut last = monolith_core::download::Attempts::new();
    for _ in 0..4 {
        assert!(matches!(last.on_download_failure(Failure::Status(416)), monolith_core::download::AttemptStep::Wait(_)));
    }
    assert_eq!(last.on_download_failure(Failure::Status(416)), monolith_core::download::AttemptStep::GiveUp);
}

#[test]
fn retry_policy() {
    assert!(should_retry_http(429));
    assert!(should_retry_http(503));
    assert!(!should_retry_http(404));
    assert_eq!(after_failure(0, Failure::Transport), RetryDecision::Retry(200));
    assert_eq!(after_failure(3, Failure::Status(500)), RetryDecision::Retry(2000));
    assert_eq!(after_failure(4, Failure::Transport), RetryDecision::GiveUp);
    assert_eq!(after_failure(1, Failure::Status(404)), RetryDecision::GiveUp);
    assert_eq!(after_failure(1, Failure::Io), RetryDecision::GiveUp);
    let mut a = monolith_core::download::Attempts::new();
    let mut delays = Vec::new();
    loop {
        match a.on_failure(Failure::Status(503)) {
            monolith_core::download::AttemptStep::Wait(d) => delays.push(d),
            monolith_core::download::AttemptStep::GiveUp => break,
        }
    }
    assert_eq!(delays, vec![200, 500, 1000, 2000]);
    let mut b = monolith_core::download::Attempts::new();
    assert_eq!(b.on_failure(Failure::Status(403)), monolith_core::download::AttemptStep::GiveUp);
    assert_eq!(worker_count(Some(1)), 2);
    assert_eq!(worker_count(Some(16)), 8);
    assert_eq!(worker_count(Some(6)), 6);
    assert_eq!(worker_count(None), 4);
}

#[test]
fn batch_keeps_first_error() {
    let mut b = BatchProgress::new("assets", "Downloading assets", 3);
    let e1 = b.record(Some("ab12".to_string()), None);
    assert_eq!(e1.message, "Downloading assets (1/3)");
    assert_eq!(e1.detail.as_deref(), Some("assets: ab12"));
    b.record(None, Some("first".to_string()));
    let e3 = b.record(None, Some("second".to_string()));
    assert_eq!(e3.current, 3);
    assert_eq!(e3.detail.as_deref(), Some("assets"));
    assert_eq!(b.finish().unwrap_err(), "first");
}

#[test]
fn library_plan() {
    let artifact = |p: &str| LibraryArtifact { path: Some(p.to_string()), url: Some(format!("https://h/{}", p)), sha1: None, size: None };
    let native = Library {
        name: "org.lwjgl:lwjgl:3.2.2".to_string(),
        downloads: Some(LibraryDownloads {
            artifact: Some(artifact("lwjgl.jar")),
            classifiers: Some(vec![ClassifierArtifact { classifier: "natives-linux-64".to_string(), artifact: artifact("lwjgl-natives.jar") }]),
        }),
        rules: None,
        natives: Some(vec![NativeClassifier { os: "linux".to_string(), classifier: "natives-linux-${arch}".to_string() }]),
        extract: Some(LibraryExtract { exclude: Some(vec!["META-INF/".to_string()]) }),
        url: None,
    };
    let mac_only = Library {
        name: "ca.weblite:java-objc-bridge:1.0".to_string(),
        downloads: Some(LibraryDownloads { artifact: Some(artifact("objc.jar")), classifiers: None }),
        rules: Some(vec![Rule { action: "allow".to_string(), os: Some(OsRule { name: Some("osx".to_string()) }), features: None }]),
        natives: None,
        extract: None,
        url: None,
    };
    let dup = Library { name: "org.lwjgl:lwjgl:3.2.2".to_string(), downloads: Some(LibraryDownloads { artifact: Some(artifact("lwjgl.jar")), classifiers: None }), rules: None, natives: None, extract: None, url: None };
    let (jobs, natives) = plan_library_downloads(&vec![native, mac_only, dup], "linux", "64", "/i/libraries");
    let dests: Vec<&str> = jobs.iter().map(|j| j.dest.as_str()).collect();
    assert_eq!(dests, vec!["/i/libraries/lwjgl.jar", "/i/libraries/lwjgl-natives.jar", "/i/libraries/objc.jar"]);
    let (mac_jobs, _) = plan_library_downloads(&vec![Library {
        name: "x:y:1".to_string(),
        downloads: Some(LibraryDownloads { artifact: Some(artifact("y.jar")), classifiers: None }),
        rules: Some(vec![Rule { action: "disallow".to_string(), os: Some(OsRule { name: Some("linux".to_string()) }), features: None }]),
        natives: None, extract: None, url: None,
    }], "linux", "64", "/i/libraries");
    assert!(mac_jobs.is_empty());
    assert_eq!(jobs[1].url, "https://h/lwjgl-natives.jar");
    assert_eq!(natives.len(), 1);
    assert_eq!(natives[0].path, "/i/libraries/lwjgl-natives.jar");
    assert_eq!(natives[0].excludes, vec!["META-INF/".to_string()]);
    assert!(!should_extract("META-INF/MANIFEST.MF", &natives[0].excludes));
    assert!(!should_extract("linux/", &natives[0].excludes));
    assert!(should_extract("liblwjgl.so", &natives[0].excludes));
}

#[test]
fn asset_and_profile_jobs() {
    let objects = vec![AssetObject { hash: "ab12cd".to_string(), size: Some(1) }, AssetObject { hash: "x".to_string(), size: None }];
    let jobs = plan_asset_downloads(&objects, "/i");
    assert_eq!(jobs.len(), 1);
    assert_eq!(jobs[0].url, "https://resources.download.minecraft.net/ab/ab12cd");
    assert_eq!(jobs[0].dest, "/i/assets/objects/ab/ab12cd");
    let libs = vec![ProfileLibrary { name: "net.fabricmc:intermediary:1.20.1".to_string(), url: Some("https://maven.fabricmc.net/".to_string()) },
        ProfileLibrary { name: "broken".to_string(), url: None }];
    let jobs = plan_profile_downloads(&libs, "/i/libraries");
    assert_eq!(jobs.len(), 1);
    assert_eq!(jobs[0].url, "https://maven.fabricmc.net/net/fabricmc/intermediary/1.20.1/intermediary-1.20.1.jar");
    assert_eq!(jobs[0].dest, "/i/libraries/net/fabricmc/intermediary/1.20.1/intermediary-1.20.1.jar");
    let (url, path, full) = forge_installer("1.20.1", "47.2.0", "/i");
    assert_eq!(full, "1.20.1-47.2.0");
    assert_eq!(url, "https://maven.minecraftforge.net/net/minecraftforge/forge/1.20.1-47.2.0/forge-1.20.1-47.2.0-installer.jar");
    assert_eq!(path, "/i/installers/forge-1.20.1-47.2.0-installer.jar");
    assert_eq!(monolith_core::install::fabric_profile_url("é~€", "a_b.c-d"),
        "https://meta.fabricmc.net/v2/versions/loader/%C3%A9~%E2%82%AC/a_b.c-d/profile/json");
    assert_eq!(monolith_core::install::fabric_profile_url("1.20.1", "0.15.0+build 1"),
        "https://meta.fabricmc.net/v2/versions/loader/1.20.1/0.15.0%2Bbuild%201/profile/json");
}

fn app_config() -> AppConfig {
    AppConfig {
        config_version: 1,
        accounts: vec![],
        active_account_id: None,
        instance_roots: vec![InstanceRoot { id: "primary".to_string(), label: "Primary".to_string(), path: "/r".to_string() }],
        default_instance_root_id: None,
        instances: vec![],
        settings: Settings {
            reference_instance_id: None,
            pack_sync: PackSync { enabled: false, resourcepacks: false, shaderpacks: false, texturepacks: false, server_list: false },
            apply_to_new_instances: false,
            java: JavaSettings { min_ram_gb: 1, max_ram_gb: 2, jvm_args: String::new(), runtime: JavaRuntime::default(), overrides: vec![] },
            theme: "dark".to_string(),
            microsoft_client_id: String::new(),
        },
    }
}

fn request(name: &str, loader: Loader, lv: Option<&str>) -> NewInstanceRequest {
    NewInstanceRequest { name: name.to_string(), game_version: "1.20.1".to_string(), loader, loader_version: lv.map(|s| s.to_string()), show_snapshots: false, root_id: None }
}

#[test]
fn folder_names() {
    assert_eq!(sanitize_folder_name("  My: World?  "), "My- World-");
    assert_eq!(sanitize_folder_name("   "), "Instance");
    let taken = vec!["Pack".to_string(), "Pack 2".to_string()];
    assert_eq!(allocate_instance_id("Pack", &vec![], &taken), "Pack 3");
    assert_eq!(allocate_instance_id("Other", &vec![], &taken), "Other");
}

#[test]
fn creating_instances() {
    let mut c = app_config();
    assert_eq!(create_instance(request("  ", Loader::Vanilla, None), &mut c, &vec![]).unwrap_err(), "instance name cannot be empty");
    assert_eq!(create_instance(request("F", Loader::Fabric, None), &mut c, &vec![]).unwrap_err(), "loader version is required");
    let made = create_instance(request("Pack", Loader::Vanilla, None), &mut c, &vec!["Pack".to_string()]).unwrap();
    assert_eq!(made.id, "Pack 2");
    assert_eq!(made.directory, "/r/Pack 2");
    assert_eq!(made.root_id.as_deref(), Some("primary"));
    assert_eq!(c.instances.len(), 1);
    assert_eq!(create_instance(request("pack", Loader::Vanilla, None), &mut c, &vec![]).unwrap_err(), "instance name already exists");
    let mut r = request("Else", Loader::Vanilla, None);
    r.root_id = Some("nowhere".to_string());
    assert_eq!(create_instance(r, &mut c, &vec![]).unwrap_err(), "instance root 'nowhere' not found");
}
