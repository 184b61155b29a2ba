use monolith_core::classpath::{build_classpath, ClasspathEntry};
use monolith_core::config::{Instance, Loader};
use monolith_core::maven::{
    build_maven_path_url, parse_maven_coordinate, resolve_library_artifact, LibraryArtifact,
};
use monolith_core::rules::{
    features_match, library_allowed, rules_allow, FeatureFlags, FeatureRule, OsRule, Rule,
};
use monolith_core::versions::{
    resolve_version_chain, resolve_version_id, Argument, ChainStep, ChainWalk, Library,
    VersionArguments, VersionFile,
};

fn instance(version: &str, loader: Loader, loader_version: Option<&str>) -> Instance {
    Instance {
        id: "a".to_string(),
        name: "A".to_string(),
        version: version.to_string(),
        loader,
        loader_version: loader_version.map(|s| s.to_string()),
        show_snapshots: false,
        root_id: None,
        directory: "/tmp/a".to_string(),
        java_min_ram_gb: None,
        java_max_ram_gb: None,
        jvm_args: None,
    }
}

#[test]
fn version_id_per_loader() {
    assert_eq!(resolve_version_id(&instance("1.20.1", Loader::Vanilla, None)), "1.20.1");
    assert_eq!(
        resolve_version_id(&instance("1.20.1", Loader::Fabric, Some("0.15.0"))),
        "fabric-loader-0.15.0-1.20.1"
    );
    assert_eq!(
        resolve_version_id(&instance("1.20.1", Loader::Forge, Some("47.2.0"))),
        "forge-1.20.1-47.2.0"
    );
    assert_eq!(
        resolve_version_id(&instance("1.20.1", Loader::Forge, Some("1.20.1-47.2.0"))),
        "forge-1.20.1-47.2.0"
    );
}

fn rule(action: &str, os: Option<&str>) -> Rule {
    Rule {
        action: action.to_string(),
        os: os.map(|n| OsRule { name: Some(n.to_string()) }),
        features: None,
    }
}

#[test]
fn last_matching_rule_wins() {
    let rules = vec![rule("allow", None), rule("disallow", Some("osx"))];
    assert!(!library_allowed(Some(&rules), "osx"));
    assert!(library_allowed(Some(&rules), "windows"));
    assert!(library_allowed(None, "osx"));
    let flags = FeatureFlags::default();
    assert!(!rules_allow(&Some(rules.clone()), "osx", &flags));
    assert!(rules_allow(&Some(rules), "windows", &flags));
    assert!(rules_allow(&None, "linux", &flags));
    assert!(!rules_allow(&Some(vec![]), "linux", &flags));
}

#[test]
fn feature_rules() {
    let mut f = FeatureRule::default();
    f.has_custom_resolution = Some(true);
    let flags = FeatureFlags::default();
    assert!(!features_match(&f, &flags));
    let mut on = FeatureFlags::default();
    on.has_custom_resolution = true;
    assert!(features_match(&f, &on));
    let mut unknown = FeatureRule::default();
    unknown.extra = vec!["is_future_flag".to_string()];
    assert!(!features_match(&unknown, &flags));
    let gated = Rule { action: "allow".to_string(), os: None, features: Some(f) };
    assert!(!rules_allow(&Some(vec![gated.clone()]), "linux", &flags));
    assert!(rules_allow(&Some(vec![gated]), "linux", &on));
}

#[test]
fn maven_coordinates() {
    let c = parse_maven_coordinate("org.lwjgl:lwjgl:3.3.1:natives-linux").unwrap();
    assert_eq!(c.group, "org.lwjgl");
    assert_eq!(c.artifact, "lwjgl");
    assert_eq!(c.version, "3.3.1");
    assert_eq!(c.classifier.as_deref(), Some("natives-linux"));
    let err = parse_maven_coordinate("org.lwjgl:lwjgl").unwrap_err();
    assert_eq!(err, "invalid maven coordinate 'org.lwjgl:lwjgl'");
    let (path, url) = build_maven_path_url("https://maven.example", &c).unwrap();
    assert_eq!(path, "org/lwjgl/lwjgl/3.3.1/lwjgl-3.3.1-natives-linux.jar");
    assert_eq!(url, "https://maven.example/org/lwjgl/lwjgl/3.3.1/lwjgl-3.3.1-natives-linux.jar");
    let plain = parse_maven_coordinate("net.fabricmc:fabric-loader:0.15.0").unwrap();
    let (_, url2) = build_maven_path_url("https://maven.fabricmc.net/", &plain).unwrap();
    assert_eq!(url2, "https://maven.fabricmc.net/net/fabricmc/fabric-loader/0.15.0/fabric-loader-0.15.0.jar");
}

#[test]
fn artifact_locations() {
    let explicit = LibraryArtifact { path: Some("a/b.jar".to_string()), url: None, sha1: None, size: None };
    let (url, path) = resolve_library_artifact(&explicit, "x:y:1", None).unwrap();
    assert_eq!(path, "a/b.jar");
    assert_eq!(url, "https://libraries.minecraft.net/a/b.jar");
    let derived = LibraryArtifact { path: None, url: None, sha1: None, size: None };
    let (url, path) = resolve_library_artifact(&derived, "x.y:z:1", Some("natives-osx")).unwrap();
    assert_eq!(path, "x/y/z/1/z-1-natives-osx.jar");
    assert_eq!(url, "https://libraries.minecraft.net/x/y/z/1/z-1-natives-osx.jar");
    assert!(resolve_library_artifact(&derived, "bad", None).is_none());
}

fn entry(name: &str, path: &str) -> ClasspathEntry {
    ClasspathEntry { name: name.to_string(), path: path.to_string() }
}

#[test]
fn classpath_keeps_later_duplicate_in_place() {
    let entries = vec![
        entry("org.ow2.asm:asm:9.3", "/l/asm-9.3.jar"),
        entry("com.google:gson:2.10", "/l/gson.jar"),
        entry("org.ow2.asm:asm:9.6", "/l/asm-9.6.jar"),
        entry("org.lwjgl:lwjgl:3.3.1:natives-linux", "/l/lwjgl-natives.jar"),
        entry("org.lwjgl:lwjgl:3.3.1", "/l/lwjgl.jar"),
        entry("not-a-coordinate", "/l/odd.jar"),
        entry("also-odd", "/l/odd.jar"),
    ];
    let cp = build_classpath(&entries, "/v/1.20.1.jar", ":");
    assert_eq!(
        cp,
        "/l/asm-9.6.jar:/l/gson.jar:/l/lwjgl-natives.jar:/l/lwjgl.jar:/l/odd.jar:/v/1.20.1.jar"
    );
    assert_eq!(build_classpath(&vec![], "/v/x.jar", ";"), "/v/x.jar");
}

fn version(id: &str, parent: Option<&str>) -> VersionFile {
    VersionFile {
        id: id.to_string(),
        inherits_from: parent.map(|p| p.to_string()),
        main_class: None,
        arguments: None,
        minecraft_arguments: None,
        libraries: vec![],
        asset_index: None,
        assets: None,
        jar: None,
        logging: None,
    }
}

fn lib(name: &str) -> Library {
    Library { name: name.to_string(), downloads: None, rules: None, natives: None, extract: None, url: None }
}

#[test]
fn chain_merge_overrides_and_concatenates() {
    let mut derived = version("fabric-loader-0.15.0-1.20.1", Some("1.20.1"));
    derived.main_class = Some("net.fabricmc.loader.Main".to_string());
    derived.libraries = vec![lib("net.fabricmc:fabric-loader:0.15.0")];
    derived.arguments = Some(VersionArguments {
        game: None,
        jvm: Some(vec![Argument::Plain("-DFabric=1".to_string())]),
    });
    let mut base = version("1.20.1", None);
    base.main_class = Some("net.minecraft.client.main.Main".to_string());
    base.assets = Some("5".to_string());
    base.libraries = vec![lib("com.google:gson:2.10")];
    base.arguments = Some(VersionArguments {
        game: Some(vec![Argument::Plain("--username".to_string())]),
        jvm: Some(vec![Argument::Plain("-Xss1M".to_string())]),
    });
    let r = resolve_version_chain(vec![derived, base]);
    assert_eq!(r.main_class.as_deref(), Some("net.fabricmc.loader.Main"));
    assert_eq!(r.assets.as_deref(), Some("5"));
    assert_eq!(r.id.as_deref(), Some("fabric-loader-0.15.0-1.20.1"));
    assert_eq!(r.base_version_id.as_deref(), Some("1.20.1"));
    let names: Vec<&str> = r.libraries.iter().map(|l| l.name.as_str()).collect();
    assert_eq!(names, vec!["com.google:gson:2.10", "net.fabricmc:fabric-loader:0.15.0"]);
    let args = r.arguments.unwrap();
    assert_eq!(args.jvm.unwrap().len(), 2);
    assert_eq!(args.game.unwrap().len(), 1);
}

#[test]
fn chain_walk_detects_cycles() {
    let mut walk = ChainWalk::new("a");
    assert_eq!(walk.accept(version("a", Some("b"))).unwrap(), ChainStep::Load("b".to_string()));
    let err = walk.accept(version("b", Some("a"))).unwrap_err();
    assert_eq!(err, "version metadata contains a loop");
    let mut ok = ChainWalk::new("a");
    assert_eq!(ok.accept(version("a", Some("b"))).unwrap(), ChainStep::Load("b".to_string()));
    assert_eq!(ok.accept(version("b", None)).unwrap(), ChainStep::Complete);
    let r = ok.finish();
    assert_eq!(r.base_version_id.as_deref(), Some("b"));
}
