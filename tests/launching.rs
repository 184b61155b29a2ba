use monolith_core::versions::{resolve_version_chain, VersionArguments, VersionFile, Argument};
use monolith_core::launch::launch_arguments;
use monolith_core::classpath::ClasspathEntry;
use monolith_core::config::{
    Account, AccountKind, AppConfig, Instance, JavaOverride, JavaRuntime, JavaSettings, Loader,
    PackSync, Settings,
};
use monolith_core::launch::{
    assemble_jvm_arguments, final_arguments, game_arguments, offline_uuid, replace_tokens,
    resolve_auth, strip_quickplay_args, token_bindings, Binding, LaunchContext, heap_sizes,
    java_path_setting,
};
use monolith_core::rules::FeatureFlags;
use monolith_core::text::{split_whitespace, trim};

fn s(v: &[&str]) -> Vec<String> {
    v.iter().map(|x| x.to_string()).collect()
}

#[test]
fn quickplay_flags_and_values_removed() {
    let args = s(&["--username", "${auth_player_name}", "--quickPlayPath", "qp.json",
        "--quickPlaySingleplayer", "--demo", "--quickPlayRealms"]);
    assert_eq!(strip_quickplay_args(args), s(&["--username", "${auth_player_name}", "--demo"]));
}

fn context() -> LaunchContext {
    LaunchContext {
        player_name: "Steve".to_string(),
        uuid: "u-1".to_string(),
        access_token: "0".to_string(),
        user_type: "legacy".to_string(),
        xuid: "0".to_string(),
        client_id: "c-1".to_string(),
        version_name: "1.20.1".to_string(),
        game_dir: "/i".to_string(),
        assets_root: "/i/assets".to_string(),
        asset_index_name: "5".to_string(),
        classpath: "/a.jar:/b.jar".to_string(),
        classpath_separator: ":".to_string(),
        natives_dir: "/i/natives/1.20.1".to_string(),
        launcher_name: "monolith".to_string(),
        launcher_version: "0.1.0".to_string(),
        version_type: "release".to_string(),
    }
}

#[test]
fn tokens_substituted_once() {
    let b = token_bindings(&context());
    assert_eq!(replace_tokens("--gameDir=${game_directory}", &b), "--gameDir=/i");
    assert_eq!(replace_tokens("${user_properties}", &b), "{}");
    assert_eq!(replace_tokens("-cp ${classpath}", &b), "-cp /a.jar:/b.jar");
    assert_eq!(replace_tokens("$${unknown}$", &b), "$${unknown}$");
    let nested = vec![Binding { token: "${a}".to_string(), value: "${b}".to_string() },
        Binding { token: "${b}".to_string(), value: "x".to_string() }];
    assert_eq!(replace_tokens("${a}${b}", &nested), "${b}x");
}

#[test]
fn jvm_arguments_assembled() {
    let from_meta = s(&["-Djava.library.path=${natives_directory}", "-cp", "${classpath}",
        "-XstartOnFirstThread", "-Dos.name=Linux"]);
    let jvm = assemble_jvm_arguments(&from_meta, false, &Some("-Dlog4j=x".to_string()), 2, 4,
        "/n", "-XX:+UseG1GC  -Dx=1", &Some(" -Dy=2 ".to_string()), "${classpath}");
    assert_eq!(jvm, s(&["-Dos.name=Linux", "-Dlog4j=x", "-Xms2G", "-Xmx4G",
        "-Djava.library.path=/n", "-XX:+UseG1GC", "-Dx=1", "-Dy=2", "-cp", "${classpath}"]));
    let mac = assemble_jvm_arguments(&s(&["-XstartOnFirstThread"]), true, &None, 1, 1, "/n", "", &None, "cp");
    assert_eq!(mac[0], "-XstartOnFirstThread");
    let game = game_arguments(&None, &Some("--username ${auth_player_name} --quickPlayPath p".to_string()),
        "linux", &FeatureFlags::default());
    let all = final_arguments(&jvm, "net.minecraft.Main", &game, &token_bindings(&context()));
    assert_eq!(all.last().unwrap(), "Steve");
    assert!(all.iter().all(|a| !a.contains("${classpath}") && !a.contains("${natives_directory}")));
    assert!(all.contains(&"/a.jar:/b.jar".to_string()));
    assert!(all.iter().all(|a| !a.starts_with("--quickPlay")));
}

fn config(accounts: Vec<Account>, active: Option<&str>) -> AppConfig {
    AppConfig {
        config_version: 1,
        accounts,
        active_account_id: active.map(|a| a.to_string()),
        instance_roots: vec![],
        default_instance_root_id: None,
        instances: vec![],
        settings: Settings {
            reference_instance_id: None,
            pack_sync: PackSync { enabled: false, resourcepacks: false, shaderpacks: false, texturepacks: false, server_list: false },
            apply_to_new_instances: false,
            java: JavaSettings {
                min_ram_gb: 6,
                max_ram_gb: 12,
                jvm_args: String::new(),
                runtime: JavaRuntime { version: None, path: Some("/usr/lib/jvm".to_string()) },
                overrides: vec![JavaOverride { instance_id: "a".to_string(), version: None, path: Some("/opt/java".to_string()) }],
            },
            theme: "dark".to_string(),
            microsoft_client_id: String::new(),
        },
    }
}

fn account(id: &str, kind: AccountKind, token: Option<&str>, uuid: Option<&str>) -> Account {
    Account {
        id: id.to_string(),
        display_name: format!("{}-name", id),
        kind,
        last_used: None,
        access_token: token.map(|t| t.to_string()),
        refresh_token: None,
        expires_at: None,
        uuid: uuid.map(|u| u.to_string()),
        owns_minecraft: None,
    }
}

#[test]
fn identities() {
    let linked = config(vec![account("m", AccountKind::Microsoft, Some("tok"), Some("uu"))], Some("m"));
    let id = resolve_auth(None, &linked);
    assert_eq!((id.player_name.as_str(), id.uuid.as_str(), id.access_token.as_str(), id.user_type.as_str()),
        ("m-name", "uu", "tok", "msa"));
    let offline = config(vec![account("o", AccountKind::Offline, None, None)], Some("o"));
    let id = resolve_auth(Some("Alex".to_string()), &offline);
    assert_eq!(id.player_name, "Alex");
    assert_eq!(id.uuid, offline_uuid("Alex"));
    assert_eq!(id.user_type, "legacy");
    let nobody = config(vec![], None);
    let id = resolve_auth(None, &nobody);
    assert_eq!(id.player_name, "Player");
    assert_eq!(id.uuid, offline_uuid("Player"));
}

#[test]
fn offline_uuid_is_name_based() {
    let u = offline_uuid("Notch");
    assert_eq!(u.len(), 36);
    assert_ne!(u, "Notch");
    assert_eq!(u, offline_uuid("Notch"));
    assert_ne!(u, offline_uuid("Jeb"));
    assert_eq!(&u[14..15], "3");
}

#[test]
fn heap_and_java_settings() {
    let c = config(vec![], None);
    let mut inst = Instance {
        id: "a".to_string(), name: "A".to_string(), version: "1.20.1".to_string(), loader: Loader::Vanilla,
        loader_version: None, show_snapshots: false, root_id: None, directory: "/i".to_string(),
        java_min_ram_gb: Some(2), java_max_ram_gb: None, jvm_args: None,
    };
    assert_eq!(heap_sizes(&inst, &c.settings.java), (2, 12));
    assert_eq!(java_path_setting(&c.settings.java, &inst).as_deref(), Some("/opt/java"));
    inst.id = "b".to_string();
    assert_eq!(java_path_setting(&c.settings.java, &inst).as_deref(), Some("/usr/lib/jvm"));
}

#[test]
fn whitespace_helpers() {
    assert_eq!(split_whitespace("  a  b\tc \n"), s(&["a", "b", "c"]));
    assert!(split_whitespace("   ").is_empty());
    assert_eq!(trim("  x y  "), "x y");
}

#[test]
fn launch_arguments_end_to_end() {
    let base = VersionFile {
        id: "1.20.1".to_string(),
        inherits_from: None,
        main_class: Some("net.minecraft.client.main.Main".to_string()),
        arguments: Some(VersionArguments {
            game: Some(vec![Argument::Plain("--username".to_string()), Argument::Plain("${auth_player_name}".to_string()),
                Argument::Plain("--quickPlayPath".to_string()), Argument::Plain("${quickPlayPath}".to_string())]),
            jvm: Some(vec![Argument::Plain("-Djava.library.path=${natives_directory}".to_string()),
                Argument::Plain("-cp".to_string()), Argument::Plain("${classpath}".to_string())]),
        }),
        minecraft_arguments: None,
        libraries: vec![],
        asset_index: None,
        assets: Some("5".to_string()),
        jar: None,
        logging: None,
    };
    let resolved = resolve_version_chain(vec![base]);
    let c = config(vec![], None);
    let inst = Instance {
        id: "a".to_string(), name: "A".to_string(), version: "1.20.1".to_string(), loader: Loader::Vanilla,
        loader_version: None, show_snapshots: false, root_id: None, directory: "/i".to_string(),
        java_min_ram_gb: None, java_max_ram_gb: Some(8), jvm_args: None,
    };
    let present = vec![ClasspathEntry { name: "com.google:gson:2.10".to_string(), path: "/i/libraries/gson.jar".to_string() }];
    let args = launch_arguments(&resolved, &inst, &c, "1.20.1", "/i", &present, "linux", false, ":", "cid", Some("Alex".to_string())).unwrap();
    assert_eq!(args, s(&["-Xms6G", "-Xmx8G", "-Djava.library.path=/i/natives/1.20.1", "-cp",
        "/i/libraries/gson.jar:/i/versions/1.20.1/1.20.1.jar", "net.minecraft.client.main.Main", "--username", "Alex"]));
    let mut no_main = resolve_version_chain(vec![]);
    no_main.main_class = None;
    assert_eq!(launch_arguments(&no_main, &inst, &c, "1.20.1", "/i", &present, "linux", false, ":", "cid", None).unwrap_err(),
        "mainClass missing in version metadata");
}

#[test]
fn white_space_matches_unicode() {
    for n in 0u32..0x110000 {
        if let Some(c) = char::from_u32(n) {
            assert_eq!(monolith_core::text::char_is_whitespace(c), c.is_whitespace(), "{:x}", n);
        }
    }
    for n in [0u64, 7, 10, 99, 1234, u64::MAX] {
        assert_eq!(monolith_core::text::decimal_text(n), n.to_string());
    }
}
