//! Install orchestration decisions: whether an instance needs installing,
//! the install-state record, and the download jobs of each install stage.

use vstd::prelude::*;
use crate::config::{Instance, InstanceManifest, Loader};
use crate::maven::{
    DEFAULT_LIBRARIES_URL, artifact_location, build_maven_path_url, opt_text,
    parse_maven_coordinate, resolve_library_artifact, split_on, with_slash,
};
use crate::download::DownloadJob;
use crate::launch::{Binding, binding_pairs, replace_tokens, substituted};
use crate::rules::{library_allowed, library_rules_allow};
use crate::text::{copy_str, copy_strings, join_path, same_text, texts};
use crate::versions::{ClassifierArtifact, Library, NativeClassifier};

verus! {

/// What is installed in an instance: game version, loader and loader version.
#[derive(Clone, Debug, PartialEq, Eq)]
pub struct InstallState {
    pub version: String,
    pub loader: Loader,
    pub loader_version: Option<String>,
}

/// The install state equals what the instance asks for.
pub open spec fn state_matches(state: Option<InstallState>, instance: Instance) -> bool {
    match state {
        Some(s) => s.version@ == instance.version@ && s.loader == instance.loader && opt_text(
            s.loader_version,
        ) == opt_text(instance.loader_version),
        None => false,
    }
}

/// Next step of making an instance ready.
#[derive(Debug, PartialEq, Eq)]
pub enum ReadyStep {
    /// Installed state matches the request: nothing to fetch.
    UpToDate,
    /// Install this vanilla game version.
    InstallVanilla { game_version: String },
    /// Install Fabric at this loader version on top of the game version.
    InstallFabric { game_version: String, loader_version: String },
    /// Install Forge at this loader version on top of the game version.
    InstallForge { game_version: String, loader_version: String },
}

/// The persisted install state: the manifest's own record when it has one,
/// else the legacy sidecar record.
pub open spec fn persisted_state(
    manifest: Option<InstanceManifest>,
    legacy: Option<InstallState>,
) -> Option<(Seq<char>, Option<Loader>, Option<Seq<char>>)> {
    match manifest {
        Some(m) => if m.installed_version is Some {
            Some((m.installed_version->0@, m.installed_loader, opt_text(m.installed_loader_version)))
        } else {
            match legacy {
                Some(l) => Some((l.version@, Some(l.loader), opt_text(l.loader_version))),
                None => None,
            }
        },
        None => None,
    }
}

/// Reads the install state recorded for an instance. A manifest that records
/// none takes the legacy record, when there is one; without a manifest there
/// is no state.
pub fn install_state_of(manifest: &Option<InstanceManifest>, legacy: &Option<InstallState>) -> (r: Option<InstallState>)
    ensures
        match persisted_state(*manifest, *legacy) {
            Some((v, Some(l), lv)) => r matches Some(s) && s.version@ == v && s.loader == l
                && opt_text(s.loader_version) == lv,
            _ => r is None,
        },
{
    match manifest {
        Some(m) => match &m.installed_version {
            Some(v) => match m.installed_loader {
                Some(l) => Some(
                    InstallState {
                        version: v.clone(),
                        loader: l,
                        loader_version: crate::config::copy_opt(&m.installed_loader_version),
                    },
                ),
                None => None,
            },
            None => match legacy {
                Some(l) => Some(
                    InstallState {
                        version: l.version.clone(),
                        loader: l.loader,
                        loader_version: crate::config::copy_opt(&l.loader_version),
                    },
                ),
                None => None,
            },
        },
        None => None,
    }
}

fn same_opt_text(a: &Option<String>, b: &Option<String>) -> (r: bool)
    ensures
        r == (opt_text(*a) == opt_text(*b)),
{
    match (a, b) {
        (Some(x), Some(y)) => crate::text::same_text(x.as_str(), y.as_str()),
        (None, None) => true,
        _ => false,
    }
}

/// Whether the install state equals what the instance asks for.
pub fn install_state_matches(state: &Option<InstallState>, instance: &Instance) -> (r: bool)
    ensures
        r == state_matches(*state, *instance),
{
    match state {
        Some(s) => crate::text::same_text(s.version.as_str(), instance.version.as_str()) && s.loader
            == instance.loader && same_opt_text(&s.loader_version, &instance.loader_version),
        None => false,
    }
}

/// Decides what making `instance` ready takes, given its recorded install
/// state: nothing when the state matches; else the installer of its loader.
/// Fabric and Forge need a loader version.
pub fn ensure_instance_ready(instance: &Instance, state: &Option<InstallState>) -> (r: Result<
    ReadyStep,
    String,
>)
    ensures
        state_matches(*state, *instance) ==> r == Ok::<ReadyStep, String>(ReadyStep::UpToDate),
        !state_matches(*state, *instance) ==> match instance.loader {
            Loader::Vanilla => r matches Ok(ReadyStep::InstallVanilla { game_version })
                && game_version@ == instance.version@,
            Loader::Fabric => match instance.loader_version {
                Some(lv) => r matches Ok(ReadyStep::InstallFabric { game_version, loader_version })
                    && game_version@ == instance.version@ && loader_version@ == lv@,
                None => r matches Err(e) && e@ == "fabric loader version is required"@,
            },
            Loader::Forge => match instance.loader_version {
                Some(lv) => r matches Ok(ReadyStep::InstallForge { game_version, loader_version })
                    && game_version@ == instance.version@ && loader_version@ == lv@,
                None => r matches Err(e) && e@ == "forge version is required"@,
            },
        },
{
    if install_state_matches(state, instance) {
        return Ok(ReadyStep::UpToDate);
    }
    match instance.loader {
        Loader::Vanilla => Ok(ReadyStep::InstallVanilla { game_version: instance.version.clone() }),
        Loader::Fabric => match &instance.loader_version {
            Some(lv) => Ok(
                ReadyStep::InstallFabric {
                    game_version: instance.version.clone(),
                    loader_version: lv.clone(),
                },
            ),
            None => Err(crate::text::copy_str("fabric loader version is required")),
        },
        Loader::Forge => match &instance.loader_version {
            Some(lv) => Ok(
                ReadyStep::InstallForge {
                    game_version: instance.version.clone(),
                    loader_version: lv.clone(),
                },
            ),
            None => Err(crate::text::copy_str("forge version is required")),
        },
    }
}

/// When the recorded install state equals the requested version, loader and
/// loader version, the readiness check holds, so `ensure_instance_ready`
/// answers `UpToDate`: no install step, hence no network access, follows.
pub proof fn lemma_ready_instance_needs_nothing(instance: Instance, state: Option<InstallState>)
    requires
        state matches Some(s) && s.version@ == instance.version@ && s.loader == instance.loader
            && opt_text(s.loader_version) == opt_text(instance.loader_version),
    ensures
        state_matches(state, instance),
{
}

/// Carries a legacy install record into a manifest that records none
/// itself; the flag says whether it did (and the manifest is to be saved).
pub fn migrate_legacy_state(manifest: InstanceManifest, legacy: &Option<InstallState>) -> (r: (InstanceManifest, bool))
    ensures
        r.1 == (manifest.installed_version is None && legacy is Some),
        !r.1 ==> r.0 == manifest,
        r.1 ==> r.0 == (InstanceManifest {
            installed_version: Some(legacy->0.version),
            installed_loader: Some(legacy->0.loader),
            installed_loader_version: legacy->0.loader_version,
            ..manifest
        }),
{
    let mut m = manifest;
    if m.installed_version.is_some() {
        return (m, false);
    }
    match legacy {
        Some(l) => {
            m.installed_version = Some(l.version.clone());
            m.installed_loader = Some(l.loader);
            m.installed_loader_version = crate::config::copy_opt(&l.loader_version);
            (m, true)
        },
        None => (m, false),
    }
}

/// Records in the manifest that the instance's requested version, loader and
/// loader version are installed (a manifest is made from the instance when
/// there is none).
pub fn write_install_state(manifest: Option<InstanceManifest>, instance: &Instance) -> (r: InstanceManifest)
    ensures
        r.installed_version matches Some(v) && v@ == instance.version@,
        r.installed_loader == Some(instance.loader),
        opt_text(r.installed_loader_version) == opt_text(instance.loader_version),
        manifest matches Some(m) ==> r == (InstanceManifest {
            installed_version: r.installed_version,
            installed_loader: r.installed_loader,
            installed_loader_version: r.installed_loader_version,
            ..m
        }),
        manifest is None ==> ({
            let f = crate::config::manifest_of(*instance, None);
            r == (InstanceManifest {
                installed_version: r.installed_version,
                installed_loader: r.installed_loader,
                installed_loader_version: r.installed_loader_version,
                ..f
            })
        }),
{
    let mut m = match manifest {
        Some(m) => m,
        None => InstanceManifest::from_instance(instance, None),
    };
    m.installed_version = Some(instance.version.clone());
    m.installed_loader = Some(instance.loader);
    m.installed_loader_version = crate::config::copy_opt(&instance.loader_version);
    m
}

/// The install state persisted after a successful install satisfies the
/// readiness check on the next call.
pub proof fn lemma_written_state_matches(m: InstanceManifest, instance: Instance, s: Option<InstallState>)
    requires
        m.installed_version matches Some(v) && v@ == instance.version@,
        m.installed_loader == Some(instance.loader),
        opt_text(m.installed_loader_version) == opt_text(instance.loader_version),
        match persisted_state(Some(m), None) {
            Some((v, Some(l), lv)) => s matches Some(st) && st.version@ == v && st.loader == l
                && opt_text(st.loader_version) == lv,
            _ => s is None,
        },
    ensures
        state_matches(s, instance),
{
}

/// A downloaded native-library archive and the path prefixes to leave out
/// when extracting it.
#[derive(Clone, Debug, PartialEq, Eq)]
pub struct NativeJar {
    pub path: String,
    pub excludes: Vec<String>,
}

/// Library of a loader profile: a coordinate and the repository it lives in.
#[derive(Clone, Debug, PartialEq, Eq)]
pub struct ProfileLibrary {
    pub name: String,
    pub url: Option<String>,
}

/// Object of an asset index, addressed by its content hash.
#[derive(Clone, Debug, PartialEq, Eq)]
pub struct AssetObject {
    pub hash: String,
    pub size: Option<u64>,
}

/// Host of asset objects.
pub const RESOURCES_BASE_URL: &'static str = "https://resources.download.minecraft.net";

/// Views of a download job.
pub open spec fn job_view(j: DownloadJob) -> (Seq<char>, Seq<char>) {
    (j.url@, j.dest@)
}

pub open spec fn jobs_view(v: Seq<DownloadJob>) -> Seq<(Seq<char>, Seq<char>)> {
    v.map_values(|j: DownloadJob| job_view(j))
}

/// Classifier template of the first entry for `os`.
pub open spec fn template_for(entries: Seq<NativeClassifier>, os: Seq<char>) -> Option<Seq<char>>
    decreases entries.len(),
{
    if entries.len() == 0 {
        None
    } else if entries[0].os@ == os {
        Some(entries[0].classifier@)
    } else {
        template_for(entries.drop_first(), os)
    }
}

/// Artifact of the first entry published under `classifier`.
pub open spec fn artifact_for(entries: Seq<ClassifierArtifact>, classifier: Seq<char>) -> Option<
    crate::maven::LibraryArtifact,
>
    decreases entries.len(),
{
    if entries.len() == 0 {
        None
    } else if entries[0].classifier@ == classifier {
        Some(entries[0].artifact)
    } else {
        artifact_for(entries.drop_first(), classifier)
    }
}

/// The native archive of a library on `os` (with `${arch}` read as `arch`):
/// its URL and path under the libraries directory.
pub open spec fn native_location(lib: Library, os: Seq<char>, arch: Seq<char>) -> Option<(Seq<char>, Seq<char>)> {
    match (lib.downloads, lib.natives) {
        (Some(d), Some(n)) => match template_for(n@, os) {
            Some(t) => {
                let c = substituted(t, seq![("${arch}"@, arch)]);
                match d.classifiers {
                    Some(cs) => match artifact_for(cs@, c) {
                        Some(a) => artifact_location(a, lib.name@, Some(c)),
                        None => None,
                    },
                    None => None,
                }
            },
            None => None,
        },
        _ => None,
    }
}

/// The main artifact of a library: its URL and path under the libraries directory.
pub open spec fn main_location(lib: Library) -> Option<(Seq<char>, Seq<char>)> {
    match lib.downloads {
        Some(d) => match d.artifact {
            Some(a) => artifact_location(a, lib.name@, None),
            None => None,
        },
        None => None,
    }
}

/// Download jobs a library asks for (its main artifact, then its native
/// archive), before deduplication.
pub open spec fn library_jobs(lib: Library, os: Seq<char>, arch: Seq<char>, dir: Seq<char>) -> Seq<
    (Seq<char>, Seq<char>),
> {
    if !library_rules_allow(lib.rules, os) {
        Seq::empty()
    } else {
        (match main_location(lib) {
            Some((u, p)) => seq![(u, dir + "/"@ + p)],
            None => Seq::empty(),
        }) + (match native_location(lib, os, arch) {
            Some((u, p)) => seq![(u, dir + "/"@ + p)],
            None => Seq::empty(),
        })
    }
}

/// Every job of a library list, in order, before deduplication.
pub open spec fn all_library_jobs(libs: Seq<Library>, os: Seq<char>, arch: Seq<char>, dir: Seq<char>) -> Seq<
    (Seq<char>, Seq<char>),
>
    decreases libs.len(),
{
    if libs.len() == 0 {
        Seq::empty()
    } else {
        all_library_jobs(libs.drop_last(), os, arch, dir) + library_jobs(libs.last(), os, arch, dir)
    }
}

/// Jobs with a destination already taken by an earlier job left out.
pub open spec fn dedup_dest(jobs: Seq<(Seq<char>, Seq<char>)>) -> Seq<(Seq<char>, Seq<char>)>
    decreases jobs.len(),
{
    if jobs.len() == 0 {
        jobs
    } else {
        let d = dedup_dest(jobs.drop_last());
        if exists|i: int| 0 <= i < d.len() && (#[trigger] d[i]).1 == jobs.last().1 {
            d
        } else {
            d.push(jobs.last())
        }
    }
}

/// Native archives of a library list (path and exclusions), in order.
pub open spec fn all_native_jars(libs: Seq<Library>, os: Seq<char>, arch: Seq<char>, dir: Seq<char>) -> Seq<
    (Seq<char>, Seq<Seq<char>>),
>
    decreases libs.len(),
{
    if libs.len() == 0 {
        Seq::empty()
    } else {
        let lib = libs.last();
        all_native_jars(libs.drop_last(), os, arch, dir) + if library_rules_allow(lib.rules, os) {
            match native_location(lib, os, arch) {
                Some((u, p)) => seq![
                    (
                        dir + "/"@ + p,
                        match lib.extract {
                            Some(e) => match e.exclude {
                                Some(x) => texts(x@),
                                None => Seq::empty(),
                            },
                            None => Seq::empty(),
                        },
                    ),
                ],
                None => Seq::empty(),
            }
        } else {
            Seq::empty()
        }
    }
}

pub open spec fn natives_view(v: Seq<NativeJar>) -> Seq<(Seq<char>, Seq<Seq<char>>)> {
    v.map_values(|n: NativeJar| (n.path@, texts(n.excludes@)))
}

fn find_template(entries: &Vec<NativeClassifier>, os: &str) -> (r: Option<String>)
    ensures
        opt_text(r) == template_for(entries@, os@),
{
    let mut i: usize = 0;
    assert(entries@.subrange(0, entries@.len() as int) =~= entries@);
    while i < entries.len()
        invariant
            i <= entries.len(),
            template_for(entries@, os@) == template_for(entries@.subrange(i as int, entries@.len() as int), os@),
        decreases entries.len() - i,
    {
        assert(entries@.subrange(i as int, entries@.len() as int).drop_first() =~= entries@.subrange(i + 1, entries@.len() as int));
        if same_text(entries[i].os.as_str(), os) {
            return Some(entries[i].classifier.clone());
        }
        i = i + 1;
    }
    None
}

fn find_classifier<'a>(entries: &'a Vec<ClassifierArtifact>, c: &str) -> (r: Option<&'a crate::maven::LibraryArtifact>)
    ensures
        match r {
            Some(a) => artifact_for(entries@, c@) == Some(*a),
            None => artifact_for(entries@, c@) is None,
        },
{
    let mut i: usize = 0;
    assert(entries@.subrange(0, entries@.len() as int) =~= entries@);
    while i < entries.len()
        invariant
            i <= entries.len(),
            artifact_for(entries@, c@) == artifact_for(entries@.subrange(i as int, entries@.len() as int), c@),
        decreases entries.len() - i,
    {
        assert(entries@.subrange(i as int, entries@.len() as int).drop_first() =~= entries@.subrange(i + 1, entries@.len() as int));
        if same_text(entries[i].classifier.as_str(), c) {
            return Some(&entries[i].artifact);
        }
        i = i + 1;
    }
    None
}

/// The native archive a library asks for on `os`.
fn native_of(lib: &Library, os_name: &str, arch: &str) -> (r: Option<(String, String)>)
    ensures
        match native_location(*lib, os_name@, arch@) {
            Some((u, p)) => r matches Some(x) && x.0@ == u && x.1@ == p,
            None => r is None,
        },
{
    let downloads = match &lib.downloads {
        Some(d) => d,
        None => return None,
    };
    let natives = match &lib.natives {
        Some(n) => n,
        None => return None,
    };
    assert(natives@.subrange(0, natives@.len() as int) =~= natives@);
    let template = match find_template(natives, os_name) {
        Some(t) => t,
        None => return None,
    };
    let mut arch_binding: Vec<Binding> = Vec::new();
    arch_binding.push(Binding { token: copy_str("${arch}"), value: copy_str(arch) });
    assert(binding_pairs(arch_binding@) =~= seq![("${arch}"@, arch@)]);
    let classifier = replace_tokens(template.as_str(), &arch_binding);
    let classifiers = match &downloads.classifiers {
        Some(c) => c,
        None => return None,
    };
    match find_classifier(classifiers, classifier.as_str()) {
        Some(a) => resolve_library_artifact(a, lib.name.as_str(), Some(classifier.as_str())),
        None => None,
    }
}

fn has_dest(jobs: &Vec<DownloadJob>, dest: &str) -> (r: bool)
    ensures
        r == exists|i: int| 0 <= i < jobs@.len() && (#[trigger] jobs_view(jobs@)[i]).1 == dest@,
{
    let mut i: usize = 0;
    while i < jobs.len()
        invariant
            i <= jobs.len(),
            forall|j: int| 0 <= j < i ==> (#[trigger] jobs_view(jobs@)[j]).1 != dest@,
        decreases jobs.len() - i,
    {
        if same_text(jobs[i].dest.as_str(), dest) {
            assert(jobs_view(jobs@)[i as int].1 == dest@);
            return true;
        }
        i = i + 1;
    }
    false
}

fn push_job(jobs: &mut Vec<DownloadJob>, url: String, dest: String)
    ensures
        jobs_view(final(jobs)@) == if exists|i: int|
            0 <= i < jobs_view(old(jobs)@).len() && (#[trigger] jobs_view(old(jobs)@)[i]).1 == dest@ {
            jobs_view(old(jobs)@)
        } else {
            jobs_view(old(jobs)@).push((url@, dest@))
        },
{
    if !has_dest(jobs, dest.as_str()) {
        let ghost u = url@;
        let ghost d = dest@;
        jobs.push(DownloadJob { url, dest });
        assert(jobs_view(jobs@) =~= jobs_view(old(jobs)@).push((u, d)));
    }
}

fn main_of(lib: &Library) -> (r: Option<(String, String)>)
    ensures
        match main_location(*lib) {
            Some((u, p)) => r matches Some(x) && x.0@ == u && x.1@ == p,
            None => r is None,
        },
{
    match &lib.downloads {
        Some(d) => match &d.artifact {
            Some(a) => resolve_library_artifact(a, lib.name.as_str(), None),
            None => None,
        },
        None => None,
    }
}

fn excludes_of(lib: &Library) -> (r: Vec<String>)
    ensures
        texts(r@) == match lib.extract {
            Some(e) => match e.exclude {
                Some(x) => texts(x@),
                None => Seq::empty(),
            },
            None => Seq::empty(),
        },
{
    match &lib.extract {
        Some(e) => match &e.exclude {
            Some(x) => copy_strings(x),
            None => {
                let v: Vec<String> = Vec::new();
                assert(texts(v@) =~= Seq::empty());
                v
            },
        },
        None => {
            let v: Vec<String> = Vec::new();
            assert(texts(v@) =~= Seq::empty());
            v
        },
    }
}

/// Download jobs and native archives of a version's libraries: libraries
/// the OS rules disallow are skipped; each allowed library contributes its
/// main artifact and its native archive for `os_name` (with `${arch}` read
/// as `arch`) under `libraries_dir`; a destination is fetched once.
pub fn plan_library_downloads(
    libraries: &Vec<Library>,
    os_name: &str,
    arch: &str,
    libraries_dir: &str,
) -> (r: (Vec<DownloadJob>, Vec<NativeJar>))
    ensures
        jobs_view(r.0@) == dedup_dest(all_library_jobs(libraries@, os_name@, arch@, libraries_dir@)),
        natives_view(r.1@) == all_native_jars(libraries@, os_name@, arch@, libraries_dir@),
{
    let mut jobs: Vec<DownloadJob> = Vec::new();
    let mut natives: Vec<NativeJar> = Vec::new();
    let mut i: usize = 0;
    assert(libraries@.subrange(0, 0) =~= Seq::<Library>::empty());
    assert(jobs_view(jobs@) =~= Seq::<(Seq<char>, Seq<char>)>::empty());
    assert(natives_view(natives@) =~= Seq::<(Seq<char>, Seq<Seq<char>>)>::empty());
    while i < libraries.len()
        invariant
            i <= libraries.len(),
            jobs_view(jobs@) == dedup_dest(all_library_jobs(libraries@.subrange(0, i as int), os_name@, arch@, libraries_dir@)),
            natives_view(natives@) == all_native_jars(libraries@.subrange(0, i as int), os_name@, arch@, libraries_dir@),
        decreases libraries.len() - i,
    {
        let lib = &libraries[i];
        let ghost before = all_library_jobs(libraries@.subrange(0, i as int), os_name@, arch@, libraries_dir@);
        let ghost nbefore = natives_view(natives@);
        proof {
            let pre = libraries@.subrange(0, i + 1);
            assert(pre.drop_last() =~= libraries@.subrange(0, i as int));
            assert(pre.last() == *lib);
        }
        if library_allowed(lib.rules.as_ref(), os_name) {
            let ghost mid = before;
            match main_of(lib) {
                Some((url, path)) => {
                    let dest = join_path(libraries_dir, path.as_str());
                    proof {
                        mid = before.push((url@, dest@));
                        assert(mid.drop_last() =~= before);
                    }
                    push_job(&mut jobs, url, dest);
                },
                None => {},
            }
            assert(jobs_view(jobs@) == dedup_dest(mid));
            match native_of(lib, os_name, arch) {
                Some((url, path)) => {
                    let dest = join_path(libraries_dir, path.as_str());
                    let ghost dv = dest@;
                    let excludes = excludes_of(lib);
                    natives.push(NativeJar { path: copy_str(dest.as_str()), excludes });
                    assert(natives_view(natives@) =~= nbefore.push((dv, texts(excludes@))));
                    proof {
                        assert(dedup_dest(mid.push((url@, dv))).len() >= 0);
                        assert(mid.push((url@, dv)).drop_last() =~= mid);
                    }
                    let ghost u = url@;
                    push_job(&mut jobs, url, dest);
                    proof {
                        assert(before + library_jobs(*lib, os_name@, arch@, libraries_dir@) =~= mid.push((u, dv)));
                    }
                },
                None => {
                    assert(before + library_jobs(*lib, os_name@, arch@, libraries_dir@) =~= mid);
                    assert(natives_view(natives@) =~= nbefore + Seq::<(Seq<char>, Seq<Seq<char>>)>::empty());
                },
            }
        } else {
            assert(before + library_jobs(*lib, os_name@, arch@, libraries_dir@) =~= before);
            assert(natives_view(natives@) =~= nbefore + Seq::<(Seq<char>, Seq<Seq<char>>)>::empty());
        }
        i = i + 1;
    }
    assert(libraries@.subrange(0, libraries.len() as int) =~= libraries@);
    (jobs, natives)
}

/// Download job of each asset object with a hash of two or more characters:
/// `objects/{first two}/{hash}` under the instance's assets, fetched from the
/// same path on the resources host.
pub open spec fn asset_jobs(objects: Seq<AssetObject>, instance_dir: Seq<char>) -> Seq<(Seq<char>, Seq<char>)>
    decreases objects.len(),
{
    if objects.len() == 0 {
        Seq::empty()
    } else {
        let h = objects.last().hash@;
        asset_jobs(objects.drop_last(), instance_dir) + if h.len() >= 2 {
            let prefix = h.subrange(0, 2);
            seq![
                (
                    RESOURCES_BASE_URL@ + "/"@ + prefix + "/"@ + h,
                    instance_dir + "/"@ + "assets/objects"@ + "/"@ + prefix + "/"@ + h,
                ),
            ]
        } else {
            Seq::empty()
        }
    }
}

/// Download jobs of the objects of an asset index (see `asset_jobs`).
pub fn plan_asset_downloads(objects: &Vec<AssetObject>, instance_dir: &str) -> (r: Vec<DownloadJob>)
    ensures
        jobs_view(r@) == asset_jobs(objects@, instance_dir@),
{
    let mut jobs: Vec<DownloadJob> = Vec::new();
    let mut i: usize = 0;
    assert(jobs_view(jobs@) =~= asset_jobs(objects@.subrange(0, 0), instance_dir@));
    while i < objects.len()
        invariant
            i <= objects.len(),
            jobs_view(jobs@) == asset_jobs(objects@.subrange(0, i as int), instance_dir@),
        decreases objects.len() - i,
    {
        let hash = &objects[i].hash;
        proof {
            let pre = objects@.subrange(0, i + 1);
            assert(pre.drop_last() =~= objects@.subrange(0, i as int));
            assert(pre.last() == objects@[i as int]);
        }
        let ghost before = jobs_view(jobs@);
        if hash.as_str().unicode_len() >= 2 {
            let prefix = hash.as_str().substring_char(0, 2);
            let mut url = copy_str(RESOURCES_BASE_URL);
            url.append("/");
            url.append(prefix);
            url.append("/");
            url.append(hash.as_str());
            let mut dest = join_path(instance_dir, "assets/objects");
            dest.append("/");
            dest.append(prefix);
            dest.append("/");
            dest.append(hash.as_str());
            let ghost jv = (url@, dest@);
            jobs.push(DownloadJob { url, dest });
            assert(jobs_view(jobs@) =~= before + seq![jv]);
        } else {
            assert(jobs_view(jobs@) =~= before + Seq::<(Seq<char>, Seq<char>)>::empty());
        }
        i = i + 1;
    }
    assert(objects@.subrange(0, objects.len() as int) =~= objects@);
    jobs
}

/// Download job of each loader-profile library whose name is a coordinate:
/// its repository path under `libraries_dir`, fetched from its repository
/// (the default host when it names none).
pub open spec fn profile_jobs(libs: Seq<ProfileLibrary>, libraries_dir: Seq<char>) -> Seq<(Seq<char>, Seq<char>)>
    decreases libs.len(),
{
    if libs.len() == 0 {
        Seq::empty()
    } else {
        let l = libs.last();
        profile_jobs(libs.drop_last(), libraries_dir) + if split_on(l.name@, ':').len() >= 3 {
            let base = match l.url {
                Some(u) => u@,
                None => DEFAULT_LIBRARIES_URL@,
            };
            let path = crate::maven::name_path(l.name@, None);
            seq![(with_slash(base) + path, libraries_dir + "/"@ + path)]
        } else {
            Seq::empty()
        }
    }
}

/// Download jobs of a loader profile's libraries (see `profile_jobs`).
pub fn plan_profile_downloads(libraries: &Vec<ProfileLibrary>, libraries_dir: &str) -> (r: Vec<DownloadJob>)
    ensures
        jobs_view(r@) == profile_jobs(libraries@, libraries_dir@),
{
    let mut jobs: Vec<DownloadJob> = Vec::new();
    let mut i: usize = 0;
    assert(jobs_view(jobs@) =~= profile_jobs(libraries@.subrange(0, 0), libraries_dir@));
    while i < libraries.len()
        invariant
            i <= libraries.len(),
            jobs_view(jobs@) == profile_jobs(libraries@.subrange(0, i as int), libraries_dir@),
        decreases libraries.len() - i,
    {
        let lib = &libraries[i];
        proof {
            let pre = libraries@.subrange(0, i + 1);
            assert(pre.drop_last() =~= libraries@.subrange(0, i as int));
            assert(pre.last() == *lib);
        }
        let ghost before = jobs_view(jobs@);
        match parse_maven_coordinate(lib.name.as_str()) {
            Ok(coordinate) => {
                let base = match &lib.url {
                    Some(u) => u.as_str(),
                    None => DEFAULT_LIBRARIES_URL,
                };
                match build_maven_path_url(base, &coordinate) {
                    Ok((path, url)) => {
                        let dest = join_path(libraries_dir, path.as_str());
                        let ghost jv = (url@, dest@);
                        jobs.push(DownloadJob { url, dest });
                        assert(jobs_view(jobs@) =~= before + seq![jv]);
                    },
                    Err(_) => {},
                }
            },
            Err(_) => {
                assert(jobs_view(jobs@) =~= before + Seq::<(Seq<char>, Seq<char>)>::empty());
            },
        }
        i = i + 1;
    }
    assert(libraries@.subrange(0, libraries.len() as int) =~= libraries@);
    jobs
}

/// Whether an archive entry is extracted: directories and entries under an
/// excluded prefix are not.
pub fn should_extract(name: &str, excludes: &Vec<String>) -> (r: bool)
    ensures
        r == !((name@.len() > 0 && name@.last() == '/') || exists|i: int|
            0 <= i < excludes@.len() && crate::text::has_prefix(name@, (#[trigger] excludes@[i])@)),
{
    !crate::text::ends_with_char(name, '/') && !is_excluded(name, excludes)
}

/// Whether `path` starts with one of the excluded prefixes.
pub fn is_excluded(path: &str, excludes: &Vec<String>) -> (r: bool)
    ensures
        r == exists|i: int| 0 <= i < excludes@.len() && crate::text::has_prefix(path@, (#[trigger] excludes@[i])@),
{
    let mut i: usize = 0;
    while i < excludes.len()
        invariant
            i <= excludes.len(),
            forall|j: int| 0 <= j < i ==> !crate::text::has_prefix(path@, (#[trigger] excludes@[j])@),
        decreases excludes.len() - i,
    {
        if crate::text::starts_with(path, excludes[i].as_str()) {
            return true;
        }
        i = i + 1;
    }
    false
}

/// Fabric's metadata service for loader versions.
pub const FABRIC_LOADER_URL: &'static str = "https://meta.fabricmc.net/v2/versions/loader";

/// URL of the Fabric loader versions for a game version.
pub fn fabric_loaders_url(game_version: &str) -> (r: String)
    ensures
        r@ == FABRIC_LOADER_URL@ + "/"@ + crate::packages::url_encoded(game_version@),
{
    let mut url = copy_str(FABRIC_LOADER_URL);
    url.append("/");
    let g = crate::packages::url_encode(game_version);
    url.append(g.as_str());
    url
}

/// URL of the Fabric launch profile of a game and loader version.
pub fn fabric_profile_url(game_version: &str, loader_version: &str) -> (r: String)
    ensures
        r@ == FABRIC_LOADER_URL@ + "/"@ + crate::packages::url_encoded(game_version@) + "/"@
            + crate::packages::url_encoded(loader_version@) + "/profile/json"@,
{
    let mut url = fabric_loaders_url(game_version);
    url.append("/");
    let l = crate::packages::url_encode(loader_version);
    url.append(l.as_str());
    url.append("/profile/json");
    url
}

/// Where the Forge installer of a game and loader version comes from and
/// goes to: `(url, path under the instance, full version)`.
pub fn forge_installer(game_version: &str, loader_version: &str, instance_dir: &str) -> (r: (String, String, String))
    ensures
        r.2@ == crate::versions::forge_full_version(game_version@, loader_version@),
        r.0@ == "https://maven.minecraftforge.net/net/minecraftforge/forge/"@ + r.2@ + "/forge-"@ + r.2@ + "-installer.jar"@,
        r.1@ == instance_dir@ + "/"@ + "installers"@ + "/"@ + "forge-"@ + r.2@ + "-installer.jar"@,
{
    let full = crate::versions::forge_version(game_version, loader_version);
    let mut url = copy_str("https://maven.minecraftforge.net/net/minecraftforge/forge/");
    url.append(full.as_str());
    url.append("/forge-");
    url.append(full.as_str());
    url.append("-installer.jar");
    let mut path = join_path(instance_dir, "installers");
    path.append("/");
    path.append("forge-");
    path.append(full.as_str());
    path.append("-installer.jar");
    (url, path, full)
}

} // verus!