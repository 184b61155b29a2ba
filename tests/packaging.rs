use monolith_core::process::{signal_command, RunningInstances};
use monolith_core::cache::{cache_key, SearchCache, SEARCH_CACHE_MAX_ENTRIES};
use monolith_core::catalog::{
    find_vanilla_version, list_forge_versions, list_fabric_game_versions, list_vanilla_versions,
    FabricGameVersion, MojangVersionRef,
};
use monolith_core::packages::{
    project_versions_url, build_search_url, get_install_record, list_installs, record_install, resolve_loader_filter,
    resolve_target_dir, select_file, select_version, uninstall_record, InstallIndex, InstallRecord,
    PackageDependency, PackageFile, PackageVersion,
};
use monolith_core::session::{InstallSession, SessionAction, SessionEvent};

fn empty_index() -> InstallIndex {
    InstallIndex { mods: vec![], resources: vec![], shaders: vec![], datapacks: vec![] }
}

fn pv(number: &str, kind: &str, date: &str, deps: Vec<PackageDependency>) -> PackageVersion {
    PackageVersion {
        version_number: number.to_string(),
        version_type: kind.to_string(),
        date_published: date.to_string(),
        files: vec![
            PackageFile { url: format!("https://cdn/{}-extra.jar", number), filename: format!("{}-extra.jar", number), primary: false },
            PackageFile { url: format!("https://cdn/{}.jar", number), filename: format!("{}.jar", number), primary: true },
        ],
        dependencies: deps,
    }
}

#[test]
fn version_choice_prefers_latest_release() {
    let vs = vec![
        pv("1.0", "release", "2023-01-01", vec![]),
        pv("2.0-beta", "beta", "2024-01-01", vec![]),
        pv("1.5", "release", "2023-06-01", vec![]),
        pv("1.5b", "release", "2023-06-01", vec![]),
    ];
    assert_eq!(select_version(&vs), Some(3));
    let betas = vec![pv("a", "beta", "2023-01-01", vec![]), pv("b", "alpha", "2023-02-01", vec![])];
    assert_eq!(select_version(&betas), Some(1));
    assert_eq!(select_version(&vec![]), None);
    assert_eq!(select_file(&vs[0]), Some(1));
}

#[test]
fn target_folders() {
    assert_eq!(resolve_target_dir("/i", "mod", None).unwrap(), "/i/mods");
    assert_eq!(resolve_target_dir("/i", "shader", None).unwrap(), "/i/shaderpacks");
    assert_eq!(resolve_target_dir("/i", "datapack", Some("w1")).unwrap(), "/i/saves/w1/datapacks");
    assert_eq!(resolve_target_dir("/i", "datapack", None).unwrap_err(), "world id is required for datapacks");
    assert_eq!(resolve_target_dir("/i", "plugin", None).unwrap_err(), "unsupported Modrinth project type");
    assert_eq!(resolve_loader_filter("resourcepack", Some("fabric")).as_deref(), Some("minecraft"));
    assert_eq!(resolve_loader_filter("mod", Some("fabric")).as_deref(), Some("fabric"));
    assert_eq!(resolve_loader_filter("shader", Some("fabric")), None);
}

#[test]
fn search_url_is_encoded() {
    let url = build_search_url("sodium extra", "mod", "1.20.1", Some("fabric"), 8, Some("downloads"),
        &Some(vec![vec![], vec!["categories:optimization".to_string()]])).unwrap();
    assert_eq!(url, "https://api.modrinth.com/v2/search?query=sodium%20extra&facets=%5B%5B%22project_type%3Amod%22%5D%2C%5B%22versions%3A1.20.1%22%5D%2C%5B%22categories%3Afabric%22%5D%2C%5B%22categories%3Aoptimization%22%5D%5D&limit=8&index=downloads");
}

#[test]
fn registry_records_replace_and_remove() {
    let mut idx = empty_index();
    let prev = record_install(&mut idx, "mod", "AANobbMI", None, InstallRecord { filename: "a.jar".to_string(), version: Some("1".to_string()) });
    assert!(prev.is_none());
    let prev = record_install(&mut idx, "mod", "AANobbMI", None, InstallRecord { filename: "b.jar".to_string(), version: Some("2".to_string()) });
    assert_eq!(prev.unwrap().filename, "a.jar");
    assert_eq!(get_install_record(&idx, "mod", "AANobbMI", None).unwrap().filename, "b.jar");
    record_install(&mut idx, "datapack", "dp", Some("w"), InstallRecord { filename: "d.zip".to_string(), version: None });
    assert_eq!(get_install_record(&idx, "datapack", "dp", Some("w")).unwrap().filename, "d.zip");
    assert!(get_install_record(&idx, "datapack", "dp", Some("other")).is_none());
    record_install(&mut idx, "mod", "P7dR8mSH", None, InstallRecord { filename: "fapi.jar".to_string(), version: None });
    assert_eq!(list_installs(&idx, "mod", None).unwrap(), vec!["AANobbMI".to_string(), "P7dR8mSH".to_string()]);
    assert_eq!(uninstall_record(&mut idx, "datapack", "dp", Some("w")).unwrap().unwrap().filename, "d.zip");
    assert!(get_install_record(&idx, "datapack", "dp", Some("w")).is_none());
    assert!(list_installs(&idx, "datapack", Some("w")).unwrap().is_empty());
    assert!(uninstall_record(&mut idx, "plugin", "x", None).is_err());
}

/// Drives a session, answering fetches from fixed data; returns the
/// downloads made and the final action.
fn drive(session: &mut InstallSession, present: &[&str]) -> (Vec<String>, Result<String, String>) {
    let mut downloads = Vec::new();
    let mut event = SessionEvent::Proceed;
    for _ in 0..100 {
        match session.advance(event) {
            SessionAction::CheckFile(path) => event = SessionEvent::FileExists(present.contains(&path.as_str())),
            SessionAction::Fetch(url, _awaited) => {
                event = if url.ends_with("/project/B") {
                    SessionEvent::ProjectType("mod".to_string())
                } else if url.contains("/project/A/version") {
                    SessionEvent::Versions(vec![pv("A1", "release", "2024-01-01", vec![PackageDependency {
                        project_id: Some("B".to_string()), version_id: None, dependency_type: "required".to_string() }])])
                } else if url.contains("/project/B/version") {
                    SessionEvent::Versions(vec![pv("B1", "release", "2024-01-01", vec![])])
                } else {
                    SessionEvent::Failed(format!("unexpected {}", url))
                }
            }
            SessionAction::Download(job) => {
                downloads.push(job.dest);
                event = SessionEvent::Downloaded;
            }
            SessionAction::DeleteFile(path) => {
                downloads.push(format!("delete {}", path));
                event = SessionEvent::Proceed;
            }
            SessionAction::Continue => event = SessionEvent::Proceed,
            SessionAction::Finished(r) => return (downloads, r.map(|x| x.filename)),
        }
    }
    panic!("session did not finish");
}

#[test]
fn install_brings_required_dependency() {
    let mut s = InstallSession::start("/i", empty_index(), "A", "mod", "1.20.1", Some("fabric"), None);
    let (downloads, r) = drive(&mut s, &[]);
    assert_eq!(downloads, vec!["/i/mods/B1.jar".to_string(), "/i/mods/A1.jar".to_string()]);
    assert_eq!(r.unwrap(), "A1.jar");
    let idx = s.into_registry();
    assert_eq!(get_install_record(&idx, "mod", "A", None).unwrap().filename, "A1.jar");
    assert_eq!(get_install_record(&idx, "mod", "B", None).unwrap().filename, "B1.jar");

    let mut again = InstallSession::start("/i", idx.clone(), "A", "mod", "1.20.1", Some("fabric"), None);
    let (downloads, r) = drive(&mut again, &["/i/mods/A1.jar", "/i/mods/B1.jar"]);
    assert!(downloads.is_empty());
    assert_eq!(r.unwrap(), "A1.jar");

    let mut missing_a = InstallSession::start("/i", idx, "A", "mod", "1.20.1", Some("fabric"), None);
    let (downloads, r) = drive(&mut missing_a, &["/i/mods/B1.jar"]);
    assert_eq!(downloads, vec!["delete /i/mods/A1.jar".to_string(), "/i/mods/A1.jar".to_string()]);
    assert_eq!(r.unwrap(), "A1.jar");
}

#[test]
fn version_listings() {
    let entries = vec![
        MojangVersionRef { id: "1.20.1".to_string(), url: "u1".to_string(), kind: "release".to_string(), release_time: Some("t".to_string()) },
        MojangVersionRef { id: "23w31a".to_string(), url: "u2".to_string(), kind: "snapshot".to_string(), release_time: None },
    ];
    let stable = list_vanilla_versions(&entries, false);
    assert_eq!(stable.len(), 1);
    assert!(stable[0].stable);
    assert_eq!(list_vanilla_versions(&entries, true).len(), 2);
    assert_eq!(find_vanilla_version(&entries, "23w31a").unwrap(), 1);
    assert_eq!(find_vanilla_version(&entries, "0.0").unwrap_err(), "vanilla version '0.0' not found");
    let fabric = vec![FabricGameVersion { version: "1.20.1".to_string(), stable: true }, FabricGameVersion { version: "24w01a".to_string(), stable: false }];
    let listed = list_fabric_game_versions(&fabric, false);
    assert_eq!(listed.len(), 1);
    assert_eq!(listed[0].kind, "game");
}

#[test]
fn forge_index_links() {
    let html = r#"<a href="https://x/net/minecraftforge/forge/1.20.1-47.2.0/forge-1.20.1-47.2.0-installer.jar">i</a>
      <a href="/net/minecraftforge/forge/1.20.1-47.2.0/forge-1.20.1-47.2.0-installer.jar">again</a>
      <a href="/net/minecraftforge/forge/1.20.1-47.1.0/forge-1.20.1-47.1.0-installer.jar">old</a>"#;
    let v = list_forge_versions(html).unwrap();
    assert_eq!(v.len(), 2);
    assert_eq!(v[0].version, "1.20.1-47.2.0");
    assert_eq!(v[0].installer_url, "https://maven.minecraftforge.net/net/minecraftforge/forge/1.20.1-47.2.0/forge-1.20.1-47.2.0-installer.jar");
    assert_eq!(v[1].version, "1.20.1-47.1.0");
}

#[test]
fn search_cache_expires_and_evicts_oldest() {
    let mut c = SearchCache::new();
    c.put("a".to_string(), vec![], 0);
    assert!(c.get("a", 599).is_some());
    assert!(c.get("a", 600).is_none());
    for i in 0..(SEARCH_CACHE_MAX_ENTRIES as u64 + 2) {
        c.put(format!("k{}", i), vec![], 1000 + i);
    }
    assert!(c.get("k0", 1100).is_none());
    assert!(c.get("k1", 1100).is_none());
    assert!(c.get("k2", 1100).is_some());
    assert!(c.get(&format!("k{}", SEARCH_CACHE_MAX_ENTRIES + 1), 1100).is_some());
    assert_eq!(cache_key("q", "mod", "1.20.1", None, 8, Some("downloads"), &None),
        "q=q|type=mod|ver=1.20.1|loader=|limit=8|sort=downloads|facets=null");
    assert_eq!(cache_key("q", "mod", "", Some("fabric"), 8, None, &Some(vec![vec!["a".to_string()]])),
        "q=q|type=mod|ver=|loader=fabric|limit=8|sort=|facets=[[\"a\"]]");
}

#[test]
fn running_processes() {
    let mut r = RunningInstances::new();
    assert_eq!(r.pid_of("a").unwrap_err(), "instance not running");
    r.record("a", 41);
    r.record("b", 7);
    r.record("a", 42);
    assert_eq!(r.pid_of("a").unwrap(), 42);
    r.remove("a");
    assert!(r.pid_of("a").is_err());
    assert_eq!(r.pid_of("b").unwrap(), 7);
    let (p, a) = signal_command(42, false, false);
    assert_eq!((p.as_str(), a), ("kill", vec!["-TERM".to_string(), "42".to_string()]));
    let (p, a) = signal_command(42, true, true);
    assert_eq!((p.as_str(), a), ("taskkill", vec!["/PID".to_string(), "42".to_string(), "/F".to_string()]));
}

#[test]
fn version_query_url_is_encoded() {
    let u = project_versions_url("AANobbMI", "1.20.1", &Some("fabric".to_string())).unwrap();
    assert_eq!(u, "https://api.modrinth.com/v2/project/AANobbMI/version?game_versions=%5B%221.20.1%22%5D&loaders=%5B%22fabric%22%5D");
    let plain = project_versions_url("x", "1.20", &None).unwrap();
    assert_eq!(plain, "https://api.modrinth.com/v2/project/x/version?game_versions=%5B%221.20%22%5D");
}

#[test]
fn failed_fetch_ends_install() {
    let mut s = InstallSession::start("/i", empty_index(), "A", "mod", "1.20.1", None, None);
    assert!(matches!(s.advance(SessionEvent::Proceed), SessionAction::Fetch(_, _)));
    match s.advance(SessionEvent::Failed("offline".to_string())) {
        SessionAction::Finished(Err(e)) => assert_eq!(e, "offline"),
        other => panic!("unexpected {:?}", other),
    }
    assert!(matches!(s.advance(SessionEvent::Proceed), SessionAction::Finished(Err(_))));
    let mut bad = InstallSession::start("/i", empty_index(), "A", "plugin", "1.20.1", None, None);
    assert!(matches!(bad.advance(SessionEvent::Proceed), SessionAction::Finished(Err(_))));
}
