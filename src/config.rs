//! Launcher configuration as the engine reads it: accounts, instance roots,
//! instances and Java settings, with the normalisations applied on load.

use vstd::prelude::*;
use crate::text::{copy_str, same_text};
use crate::packages::{text_less, text_lt};
use crate::maven::opt_text;

verus! {

/// Client id used for account linking when none (or a retired one) is configured.
pub const DEFAULT_MICROSOFT_CLIENT_ID: &'static str = "f6a09c4f-4f6d-4aad-972e-e770de1ef9c8";

/// A client id that was shipped once and is replaced by the default on load.
pub const RETIRED_MICROSOFT_CLIENT_ID: &'static str = "496760c7-41f3-40b4-9cdc-c553219b3fbc";

/// Placeholder accounts that older configurations seeded.
pub const PLACEHOLDER_MICROSOFT_ACCOUNT: &'static str = "microsoft-primary";
pub const PLACEHOLDER_OFFLINE_ACCOUNT: &'static str = "offline-fallback";

/// Name of the manifest file at each instance's root.
pub const INSTANCE_CONFIG_FILE: &'static str = "instance.json";

#[derive(Clone, Copy, Debug, PartialEq, Eq, Structural)]
pub enum AccountKind {
    Microsoft,
    Offline,
}

#[derive(Clone, Copy, Debug, PartialEq, Eq, Structural)]
pub enum Loader {
    Vanilla,
    Fabric,
    Forge,
}

#[derive(Clone, Debug, PartialEq, Eq)]
pub struct Account {
    pub id: String,
    pub display_name: String,
    pub kind: AccountKind,
    pub last_used: Option<String>,
    pub access_token: Option<String>,
    pub refresh_token: Option<String>,
    pub expires_at: Option<u64>,
    pub uuid: Option<String>,
    pub owns_minecraft: Option<bool>,
}

#[derive(Clone, Debug, PartialEq, Eq)]
pub struct InstanceRoot {
    pub id: String,
    pub label: String,
    pub path: String,
}

/// One installed game instance.
#[derive(Clone, Debug, PartialEq, Eq)]
pub struct Instance {
    pub id: String,
    pub name: String,
    pub version: String,
    pub loader: Loader,
    pub loader_version: Option<String>,
    pub show_snapshots: bool,
    pub root_id: Option<String>,
    pub directory: String,
    pub java_min_ram_gb: Option<u8>,
    pub java_max_ram_gb: Option<u8>,
    pub jvm_args: Option<String>,
}

/// The manifest file kept at an instance's root: the durable record of the
/// instance and of what is installed in it.
#[derive(Clone, Debug, PartialEq, Eq)]
pub struct InstanceManifest {
    pub id: String,
    pub name: String,
    pub version: String,
    pub loader: Loader,
    pub loader_version: Option<String>,
    pub show_snapshots: bool,
    pub created_at_unix: Option<u64>,
    pub directory: Option<String>,
    pub installed_version: Option<String>,
    pub installed_loader: Option<Loader>,
    pub installed_loader_version: Option<String>,
    pub java_min_ram_gb: Option<u8>,
    pub java_max_ram_gb: Option<u8>,
    pub jvm_args: Option<String>,
}

#[derive(Clone, Debug, PartialEq, Eq)]
pub struct PackSync {
    pub enabled: bool,
    pub resourcepacks: bool,
    pub shaderpacks: bool,
    pub texturepacks: bool,
    pub server_list: bool,
}

#[derive(Clone, Debug, PartialEq, Eq, Default)]
pub struct JavaRuntime {
    pub version: Option<String>,
    pub path: Option<String>,
}

#[derive(Clone, Debug, PartialEq, Eq)]
pub struct JavaOverride {
    pub instance_id: String,
    pub version: Option<String>,
    pub path: Option<String>,
}

#[derive(Clone, Debug, PartialEq, Eq)]
pub struct JavaSettings {
    pub min_ram_gb: u8,
    pub max_ram_gb: u8,
    pub jvm_args: String,
    pub runtime: JavaRuntime,
    pub overrides: Vec<JavaOverride>,
}

#[derive(Clone, Debug, PartialEq, Eq)]
pub struct Settings {
    pub reference_instance_id: Option<String>,
    pub pack_sync: PackSync,
    pub apply_to_new_instances: bool,
    pub java: JavaSettings,
    pub theme: String,
    pub microsoft_client_id: String,
}

#[derive(Clone, Debug, PartialEq, Eq)]
pub struct AppConfig {
    pub config_version: u8,
    pub accounts: Vec<Account>,
    pub active_account_id: Option<String>,
    pub instance_roots: Vec<InstanceRoot>,
    pub default_instance_root_id: Option<String>,
    pub instances: Vec<Instance>,
    pub settings: Settings,
}

impl AppConfig {
    /// The configuration written on first start: two instance roots under
    /// `{home}/.monolith` (`primary`, the default, and `labs`), no accounts
    /// or instances, and the stock Java and pack-sync settings.
    pub fn default_with_home(home: &str) -> (r: AppConfig)
        ensures
            r.config_version == 1,
            r.accounts@.len() == 0,
            r.active_account_id is None,
            r.instances@.len() == 0,
            r.instance_roots@.len() == 2,
            r.instance_roots@[0].id@ == "primary"@,
            r.instance_roots@[0].label@ == "Primary"@,
            r.instance_roots@[0].path@ == home@ + "/"@ + ".monolith"@ + "/"@ + "instances"@,
            r.instance_roots@[1].id@ == "labs"@,
            r.instance_roots@[1].label@ == "Experimental"@,
            r.instance_roots@[1].path@ == home@ + "/"@ + ".monolith"@ + "/"@ + "instances-labs"@,
            opt_text(r.default_instance_root_id) == Some("primary"@),
            opt_text(r.settings.reference_instance_id) == Some("aurora"@),
            r.settings.pack_sync == (PackSync {
                enabled: true,
                resourcepacks: true,
                shaderpacks: false,
                texturepacks: true,
                server_list: true,
            }),
            r.settings.apply_to_new_instances,
            r.settings.java.min_ram_gb == 6,
            r.settings.java.max_ram_gb == 12,
            r.settings.java.jvm_args@
                == "-XX:+UseG1GC -XX:MaxGCPauseMillis=80 -Dsun.rmi.dgc.server.gcInterval=2147483646"@,
            opt_text(r.settings.java.runtime.version) == Some("17"@),
            r.settings.java.runtime.path is None,
            r.settings.java.overrides@.len() == 0,
            r.settings.theme@ == "dark"@,
            r.settings.microsoft_client_id@ == DEFAULT_MICROSOFT_CLIENT_ID@,
    {
        let base = crate::text::join_path(home, ".monolith");
        let mut roots: Vec<InstanceRoot> = Vec::new();
        roots.push(
            InstanceRoot {
                id: copy_str("primary"),
                label: copy_str("Primary"),
                path: crate::text::join_path(base.as_str(), "instances"),
            },
        );
        roots.push(
            InstanceRoot {
                id: copy_str("labs"),
                label: copy_str("Experimental"),
                path: crate::text::join_path(base.as_str(), "instances-labs"),
            },
        );
        AppConfig {
            config_version: 1,
            accounts: Vec::new(),
            active_account_id: None,
            instance_roots: roots,
            default_instance_root_id: Some(copy_str("primary")),
            instances: Vec::new(),
            settings: Settings {
                reference_instance_id: Some(copy_str("aurora")),
                pack_sync: PackSync {
                    enabled: true,
                    resourcepacks: true,
                    shaderpacks: false,
                    texturepacks: true,
                    server_list: true,
                },
                apply_to_new_instances: true,
                java: JavaSettings {
                    min_ram_gb: 6,
                    max_ram_gb: 12,
                    jvm_args: copy_str(
                        "-XX:+UseG1GC -XX:MaxGCPauseMillis=80 -Dsun.rmi.dgc.server.gcInterval=2147483646",
                    ),
                    runtime: JavaRuntime { version: Some(copy_str("17")), path: None },
                    overrides: Vec::new(),
                },
                theme: copy_str("dark"),
                microsoft_client_id: copy_str(DEFAULT_MICROSOFT_CLIENT_ID),
            },
        }
    }
}

/// The manifest recording `instance`, with nothing installed yet.
pub open spec fn manifest_of(instance: Instance, created_at_unix: Option<u64>) -> InstanceManifest {
    InstanceManifest {
        id: instance.id,
        name: instance.name,
        version: instance.version,
        loader: instance.loader,
        loader_version: instance.loader_version,
        show_snapshots: instance.show_snapshots,
        created_at_unix,
        directory: Some(instance.directory),
        installed_version: None,
        installed_loader: None,
        installed_loader_version: None,
        java_min_ram_gb: instance.java_min_ram_gb,
        java_max_ram_gb: instance.java_max_ram_gb,
        jvm_args: instance.jvm_args,
    }
}

impl InstanceManifest {
    /// The manifest that records `instance`, with nothing installed yet.
    pub fn from_instance(instance: &Instance, created_at_unix: Option<u64>) -> (r: Self)
        ensures
            r == manifest_of(*instance, created_at_unix),
            r.id@ == instance.id@,
            r.name@ == instance.name@,
            r.version@ == instance.version@,
            r.loader == instance.loader,
            opt_text(r.loader_version) == opt_text(instance.loader_version),
            r.show_snapshots == instance.show_snapshots,
            r.created_at_unix == created_at_unix,
            opt_text(r.directory) == Some(instance.directory@),
            r.installed_version is None,
            r.installed_loader is None,
            r.installed_loader_version is None,
            r.java_min_ram_gb == instance.java_min_ram_gb,
            r.java_max_ram_gb == instance.java_max_ram_gb,
            opt_text(r.jvm_args) == opt_text(instance.jvm_args),
    {
        InstanceManifest {
            id: instance.id.clone(),
            name: instance.name.clone(),
            version: instance.version.clone(),
            loader: instance.loader,
            loader_version: copy_opt(&instance.loader_version),
            show_snapshots: instance.show_snapshots,
            created_at_unix,
            directory: Some(instance.directory.clone()),
            installed_version: None,
            installed_loader: None,
            installed_loader_version: None,
            java_min_ram_gb: instance.java_min_ram_gb,
            java_max_ram_gb: instance.java_max_ram_gb,
            jvm_args: copy_opt(&instance.jvm_args),
        }
    }

    /// The instance this manifest records, placed under `root_id` at
    /// `directory` (the directory the manifest was found in wins over the one
    /// it records).
    pub fn into_instance(self, root_id: Option<String>, directory: String) -> (r: Instance)
        ensures
            r.id == self.id,
            r.name == self.name,
            r.version == self.version,
            r.loader == self.loader,
            r.loader_version == self.loader_version,
            r.show_snapshots == self.show_snapshots,
            r.root_id == root_id,
            r.directory == directory,
            r.java_min_ram_gb == self.java_min_ram_gb,
            r.java_max_ram_gb == self.java_max_ram_gb,
            r.jvm_args == self.jvm_args,
    {
        Instance {
            id: self.id,
            name: self.name,
            version: self.version,
            loader: self.loader,
            loader_version: self.loader_version,
            show_snapshots: self.show_snapshots,
            root_id,
            directory,
            java_min_ram_gb: self.java_min_ram_gb,
            java_max_ram_gb: self.java_max_ram_gb,
            jvm_args: self.jvm_args,
        }
    }
}

/// A copy of an optional string.
pub fn copy_opt(o: &Option<String>) -> (r: Option<String>)
    ensures
        r == *o,
        opt_text(r) == opt_text(*o),
{
    match o {
        Some(s) => Some(s.clone()),
        None => None,
    }
}

/// The client id after normalisation: a blank or retired id becomes the default.
pub open spec fn normalized_client_id(trimmed: Seq<char>, current: Seq<char>) -> Seq<char> {
    if trimmed.len() == 0 || trimmed == RETIRED_MICROSOFT_CLIENT_ID@ {
        DEFAULT_MICROSOFT_CLIENT_ID@
    } else {
        current
    }
}

/// Replaces a blank or retired client id with the default.
pub fn normalize_microsoft_client_id(config: &mut AppConfig)
    ensures
        final(config).settings.microsoft_client_id@ == normalized_client_id(
            crate::text::trimmed(old(config).settings.microsoft_client_id@),
            old(config).settings.microsoft_client_id@,
        ),
        final(config).accounts == old(config).accounts,
        final(config).instances == old(config).instances,
        final(config).instance_roots == old(config).instance_roots,
        final(config).active_account_id == old(config).active_account_id,
        final(config).settings.java == old(config).settings.java,
        final(config).settings.reference_instance_id == old(config).settings.reference_instance_id,
{
    let trimmed = crate::text::trim(config.settings.microsoft_client_id.as_str());
    if trimmed.as_str().unicode_len() == 0 || same_text(trimmed.as_str(), RETIRED_MICROSOFT_CLIENT_ID) {
        config.settings.microsoft_client_id = copy_str(DEFAULT_MICROSOFT_CLIENT_ID);
    }
}

/// The account is one of the seeded placeholders.
pub open spec fn is_placeholder(a: Account) -> bool {
    a.id@ == PLACEHOLDER_MICROSOFT_ACCOUNT@ || a.id@ == PLACEHOLDER_OFFLINE_ACCOUNT@
}

fn placeholder(a: &Account) -> (r: bool)
    ensures
        r == is_placeholder(*a),
{
    same_text(a.id.as_str(), PLACEHOLDER_MICROSOFT_ACCOUNT) || same_text(
        a.id.as_str(),
        PLACEHOLDER_OFFLINE_ACCOUNT,
    )
}

/// Every account is a seeded placeholder.
pub open spec fn all_placeholders(accounts: Seq<Account>) -> bool {
    forall|i: int| 0 <= i < accounts.len() ==> is_placeholder(#[trigger] accounts[i])
}

/// When there are accounts and every one is a seeded placeholder, removes
/// them all and clears the active account; otherwise changes nothing.
pub fn normalize_default_accounts(config: &mut AppConfig)
    ensures
        !all_placeholders(old(config).accounts@) || old(config).accounts@.len() == 0
            ==> *final(config) == *old(config),
        all_placeholders(old(config).accounts@) && old(config).accounts@.len() > 0 ==> {
            &&& final(config).accounts@.len() == 0
            &&& final(config).active_account_id is None
            &&& final(config).settings == old(config).settings
            &&& final(config).instances == old(config).instances
            &&& final(config).instance_roots == old(config).instance_roots
            &&& final(config).default_instance_root_id == old(config).default_instance_root_id
            &&& final(config).config_version == old(config).config_version
        },
{
    let mut i: usize = 0;
    while i < config.accounts.len()
        invariant
            i <= config.accounts.len(),
            forall|j: int| 0 <= j < i ==> is_placeholder(#[trigger] config.accounts@[j]),
        decreases config.accounts.len() - i,
    {
        if !placeholder(&config.accounts[i]) {
            return;
        }
        i = i + 1;
    }
    if config.accounts.len() != 0 {
        config.accounts = Vec::new();
        config.active_account_id = None;
    }
}

/// Whether some instance has the id `id`.
pub fn has_instance_id(instances: &Vec<Instance>, id: &str) -> (r: bool)
    ensures
        r == exists|i: int| 0 <= i < instances@.len() && (#[trigger] instances@[i]).id@ == id@,
{
    let mut i: usize = 0;
    while i < instances.len()
        invariant
            i <= instances.len(),
            forall|j: int| 0 <= j < i ==> (#[trigger] instances@[j]).id@ != id@,
        decreases instances.len() - i,
    {
        if same_text(instances[i].id.as_str(), id) {
            return true;
        }
        i = i + 1;
    }
    false
}

/// Clears the reference instance when no instance has its id.
pub fn normalize_reference_instance(config: &mut AppConfig)
    ensures
        final(config).settings.reference_instance_id == (match old(
            config,
        ).settings.reference_instance_id {
            Some(r) => if exists|i: int|
                0 <= i < old(config).instances@.len() && (#[trigger] old(
                    config,
                ).instances@[i]).id@ == r@ {
                Some(r)
            } else {
                None
            },
            None => None,
        }),
        final(config).accounts == old(config).accounts,
        final(config).instances == old(config).instances,
        final(config).instance_roots == old(config).instance_roots,
        final(config).active_account_id == old(config).active_account_id,
        final(config).settings.java == old(config).settings.java,
        final(config).settings.microsoft_client_id == old(config).settings.microsoft_client_id,
{
    let found = match &config.settings.reference_instance_id {
        Some(r) => has_instance_id(&config.instances, r.as_str()),
        None => true,
    };
    if !found {
        config.settings.reference_instance_id = None;
    }
}

/// Lower-case form of a text (Unicode case mapping).
pub uninterp spec fn lower_of(s: Seq<char>) -> Seq<char>;

/// Relies on str::to_lowercase: the lower-case mapping of every character,
/// which depends on the text alone.
#[verifier::external_body]
fn lowercase(s: &str) -> (r: String)
    ensures
        r@ == lower_of(s@),
{
    s.to_lowercase()
}

/// Instances ordered by lower-cased name.
pub open spec fn name_ordered(v: Seq<Instance>) -> bool {
    forall|i: int, j: int| 0 <= i < j < v.len() ==> !text_lt(lower_of((#[trigger] v[j]).name@), lower_of((#[trigger] v[i]).name@))
}

/// `pos` places each ordered instance at its original position, and
/// instances with equal lower-cased names keep their original order.
pub open spec fn stable_positions(r: Seq<Instance>, original: Seq<Instance>, pos: Seq<int>) -> bool {
    &&& pos.len() == r.len()
    &&& forall|k: int| 0 <= k < r.len() ==> 0 <= #[trigger] pos[k] < original.len() && r[k] == original[pos[k]]
    &&& forall|a: int, b: int|
        0 <= a < b < r.len() && lower_of((#[trigger] r[a]).name@) == lower_of((#[trigger] r[b]).name@) ==> pos[a] < pos[b]
}

/// Orders instances by lower-cased name; instances with equal lower-cased
/// names keep their relative order.
pub fn order_instances(instances: Vec<Instance>) -> (r: Vec<Instance>)
    ensures
        name_ordered(r@),
        r@.to_multiset() == instances@.to_multiset(),
        exists|pos: Seq<int>| stable_positions(r@, instances@, pos),
{
    let mut input = instances;
    let ghost all = input@;
    let mut r: Vec<Instance> = Vec::new();
    let mut keys: Vec<String> = Vec::new();
    let mut i: usize = 0;
    let n = input.len();
    let ghost mut pos: Seq<int> = Seq::empty();
    proof {
        assert(all.subrange(0, 0) =~= Seq::<Instance>::empty());
        assert(r@ =~= Seq::<Instance>::empty());
    }
    while input.len() > 0
        invariant
            n == all.len(),
            i + input@.len() == n,
            input@ == all.subrange(i as int, n as int),
            keys@.len() == r@.len(),
            forall|k: int| 0 <= k < keys@.len() ==> (#[trigger] keys@[k])@ == lower_of(r@[k].name@),
            name_ordered(r@),
            r@.to_multiset() == all.subrange(0, i as int).to_multiset(),
            stable_positions(r@, all, pos),
            forall|k: int| 0 <= k < r@.len() ==> #[trigger] pos[k] < i,
        decreases input@.len(),
    {
        let ghost ib = input@;
        let x = input.remove(0);
        proof {
            assert(x == all[i as int]);
            assert(input@ =~= all.subrange(i + 1, n as int));
        }
        let key = lowercase(x.name.as_str());
        let mut k: usize = 0;
        while k < r.len() && !text_less(key.as_str(), keys[k].as_str())
            invariant
                k <= r@.len(),
                keys@.len() == r@.len(),
                forall|m: int| 0 <= m < keys@.len() ==> (#[trigger] keys@[m])@ == lower_of(r@[m].name@),
                forall|m: int| 0 <= m < k ==> !text_lt(key@, #[trigger] lower_of(r@[m].name@)),
            decreases r@.len() - k,
        {
            k = k + 1;
        }
        let ghost before = r@;
        let ghost kbefore = keys@;
        let ghost pbefore = pos;
        let ghost xv = x;
        proof {
            if k < before.len() {
                assert(text_lt(key@, lower_of(before[k as int].name@)));
            }
        }
        r.insert(k, x);
        keys.insert(k, key);
        proof {
            vstd::seq_lib::to_multiset_insert(before, k as int, xv);
            assert(all.subrange(0, i + 1) =~= all.subrange(0, i as int).push(xv));
            vstd::seq_lib::to_multiset_build(all.subrange(0, i as int), xv);
            let t = r@;
            pos = pbefore.insert(k as int, i as int);
            assert forall|m: int| 0 <= m < t.len() implies 0 <= #[trigger] pos[m] < all.len() && t[m] == all[pos[m]] && pos[m] < i + 1 by {
                if m < k {
                    assert(t[m] == before[m] && pos[m] == pbefore[m]);
                } else if m > k {
                    assert(t[m] == before[m - 1] && pos[m] == pbefore[m - 1]);
                }
            }
            assert forall|a: int, b: int|
                0 <= a < b < t.len() && lower_of((#[trigger] t[a]).name@) == lower_of((#[trigger] t[b]).name@) implies pos[a] < pos[b] by {
                if b < k {
                    assert(t[a] == before[a] && t[b] == before[b]);
                } else if b == k {
                    assert(pos[b] == i);
                    assert(pos[a] == pbefore[a]);
                } else if a == k {
                    assert(t[b] == before[b - 1]);
                    assert(text_lt(lower_of(xv.name@), lower_of(before[k as int].name@)));
                    if b - 1 > k {
                        assert(!text_lt(lower_of(before[b - 1].name@), lower_of(before[k as int].name@)));
                    } else {
                        crate::packages::lemma_text_lt_irreflexive(lower_of(xv.name@));
                    }
                } else if a < k {
                    assert(t[a] == before[a] && t[b] == before[b - 1]);
                    assert(pos[a] == pbefore[a] && pos[b] == pbefore[b - 1]);
                } else {
                    assert(t[a] == before[a - 1] && t[b] == before[b - 1]);
                    assert(pos[a] == pbefore[a - 1] && pos[b] == pbefore[b - 1]);
                }
            }
            assert forall|m: int| 0 <= m < keys@.len() implies (#[trigger] keys@[m])@ == lower_of(r@[m].name@) by {
                if m < k {
                    assert(keys@[m] == kbefore[m] && r@[m] == before[m]);
                } else if m > k {
                    assert(keys@[m] == kbefore[m - 1] && r@[m] == before[m - 1]);
                }
            }
            assert forall|a: int, b: int| 0 <= a < b < t.len() implies !text_lt(
                lower_of((#[trigger] t[b]).name@),
                lower_of((#[trigger] t[a]).name@),
            ) by {
                if b < k {
                    assert(t[a] == before[a] && t[b] == before[b]);
                } else if b == k {
                    assert(t[a] == before[a]);
                } else if a == k {
                    assert(t[b] == before[b - 1]);
                    if k < before.len() {
                        crate::packages::lemma_text_lt_asymmetric(lower_of(xv.name@), lower_of(before[k as int].name@));
                        if b - 1 > k {
                            assert(!text_lt(lower_of(before[b - 1].name@), lower_of(before[k as int].name@)));
                            crate::packages::lemma_text_lt_transitive(lower_of(xv.name@), lower_of(before[k as int].name@), lower_of(before[b - 1].name@));
                        }
                    }
                } else if a < k {
                    assert(t[a] == before[a] && t[b] == before[b - 1]);
                } else {
                    assert(t[a] == before[a - 1] && t[b] == before[b - 1]);
                }
            }
        }
        i = i + 1;
    }
    assert(all.subrange(0, n as int) =~= all);
    assert(stable_positions(r@, instances@, pos));
    r
}

} // verus!
