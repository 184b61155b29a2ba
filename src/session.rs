//! Installing a registry package with its required dependencies, as a state
//! machine: the caller performs each requested action (check a file, fetch a
//! URL, download, delete) and hands back what came of it.

use vstd::prelude::*;
use crate::download::DownloadJob;
use crate::maven::opt_text;
use crate::packages::{
    InstallIndex, InstallRecord, MODRINTH_BASE_URL, PackageDependency, PackageVersion,
    best_version, chosen_file, get_install_record, known_type, loader_filter_of, opt_str,
    project_url, project_versions_url, record_install, record_view, registered,
    resolve_loader_filter, resolve_target_dir, select_file, select_version, target_dir_of,
    version_url, versions_url_of,
};
use crate::text::{copy_str, join_path, same_text};

verus! {

/// Outcome of a package install.
#[derive(Clone, Debug, PartialEq, Eq)]
pub struct InstallResult {
    pub filename: String,
    pub version: String,
    pub project_id: String,
}

/// What the caller does next.
#[derive(Debug)]
pub enum SessionAction {
    /// Report whether this file exists.
    CheckFile(String),
    /// Fetch this URL and hand back its body as the awaited value.
    Fetch(String, Awaited),
    /// Download this job (its destination's folder may need creating).
    Download(DownloadJob),
    /// Delete this file (it belonged to a replaced install), then proceed.
    DeleteFile(String),
    /// Nothing outside to do: proceed.
    Continue,
    /// The session is over.
    Finished(Result<InstallResult, String>),
}

/// What a fetch is expected to return.
#[derive(Clone, Copy, Debug, PartialEq, Eq, Structural)]
pub enum Awaited {
    /// One package version (`SessionEvent::Version`).
    Version,
    /// The versions of a project (`SessionEvent::Versions`).
    Versions,
    /// A project's type (`SessionEvent::ProjectType`).
    ProjectType,
}

/// What came of the last action.
#[derive(Debug)]
pub enum SessionEvent {
    Proceed,
    FileExists(bool),
    Version(PackageVersion),
    Versions(Vec<PackageVersion>),
    ProjectType(String),
    Downloaded,
    Failed(String),
}

/// Where the install of one project stands.
#[derive(Debug)]
pub enum Stage {
    /// About to be taken up.
    Enter,
    /// Waiting to learn whether the recorded file exists.
    CheckingFile(InstallRecord),
    /// Waiting for the version (or versions) fetched.
    AwaitVersion,
    /// Scanning the chosen version's dependencies from `dep_index` on.
    NextDependency,
    /// Waiting for the type of the dependency at `dep_index`.
    AwaitProjectType,
    /// Waiting for the replaced file to be deleted; then this file is downloaded.
    AwaitDelete(usize),
    /// Waiting for the download of this file of the chosen version.
    AwaitDownload(usize),
}

/// One project being installed.
#[derive(Debug)]
pub struct Frame {
    pub project_id: String,
    pub project_type: String,
    pub world_id: Option<String>,
    pub version_id: Option<String>,
    pub target_dir: String,
    pub stage: Stage,
    pub version: Option<PackageVersion>,
    pub dep_index: usize,
}

/// An install of one package and, recursively, its required dependencies.
pub struct InstallSession {
    instance_dir: String,
    game_version: String,
    loader: Option<String>,
    index: InstallIndex,
    visited: Vec<String>,
    frames: Vec<Frame>,
    finished: bool,
}

/// Key of a project in the set of projects visited by a session.
pub open spec fn frame_key(f: Frame) -> Seq<char> {
    f.project_type@ + ":"@ + f.project_id@
}

/// File name, version and project id of a result.
pub open spec fn result_view(r: InstallResult) -> (Seq<char>, Seq<char>, Seq<char>) {
    (r.filename@, r.version@, r.project_id@)
}

/// The result reporting a record (empty texts where there is none).
pub open spec fn record_result(rec: Option<(Seq<char>, Option<Seq<char>>)>, id: Seq<char>) -> (Seq<char>, Seq<char>, Seq<char>) {
    match rec {
        Some((f, v)) => (f, match v {
            Some(x) => x,
            None => Seq::empty(),
        }, id),
        None => (Seq::empty(), Seq::empty(), id),
    }
}

/// Two frames are about the same project, at the same chosen version.
pub open spec fn same_project(a: Frame, b: Frame) -> bool {
    &&& a.project_id@ == b.project_id@
    &&& a.project_type@ == b.project_type@
    &&& opt_text(a.world_id) == opt_text(b.world_id)
    &&& opt_text(a.version_id) == opt_text(b.version_id)
    &&& a.version == b.version
}

/// Only the current frame changed, and it is about the same project.
pub open spec fn top_updated(before: Seq<Frame>, after: Seq<Frame>) -> bool {
    &&& before.len() > 0
    &&& after.len() == before.len()
    &&& after.drop_last() == before.drop_last()
    &&& same_project(before.last(), after.last())
}

/// The frames after the current project completed: its parent resumes the
/// dependency scan after the dependency just handled.
pub open spec fn resumed(before: Seq<Frame>, after: Seq<Frame>) -> bool {
    let rest = before.drop_last();
    let p = rest.last();
    &&& after.len() == rest.len()
    &&& after.drop_last() == rest.drop_last()
    &&& same_project(p, after.last())
    &&& opt_text(Some(after.last().target_dir)) == opt_text(Some(p.target_dir))
    &&& after.last().stage is NextDependency
    &&& after.last().dep_index == (if p.dep_index < usize::MAX { (p.dep_index + 1) as usize } else { p.dep_index })
}

/// The current project completed with result `res`: the session finishes
/// with it when that project was the requested one, else its parent resumes.
pub open spec fn completion(before: Seq<Frame>, after: Seq<Frame>, done: bool, a: SessionAction, res: (Seq<char>, Seq<char>, Seq<char>)) -> bool {
    if before.len() == 1 {
        (a matches SessionAction::Finished(Ok(x)) && result_view(x) == res) && done
    } else {
        a is Continue && resumed(before, after) && !done
    }
}

/// A dependency the install pursues when its type allows.
pub open spec fn required_dep(d: PackageDependency) -> bool {
    d.dependency_type@ == "required"@ && d.project_id is Some
}

/// The action fetches the chosen version of the frame's project: the pinned
/// version when there is one, else the project's versions for the game
/// version and loader filter.
pub open spec fn fetches_versions(f: Frame, game: Seq<char>, loader: Option<Seq<char>>, a: SessionAction) -> bool {
    match f.version_id {
        Some(v) => a matches SessionAction::Fetch(u, Awaited::Version) && u@ == MODRINTH_BASE_URL@ + "/version/"@ + v@,
        None => a matches SessionAction::Fetch(u, Awaited::Versions) && u@ == versions_url_of(
            f.project_id@,
            game,
            loader_filter_of(f.project_type@, loader),
        ),
    }
}

/// The download job of file `i` of version `v` into `dir`.
pub open spec fn download_of(v: PackageVersion, i: int, dir: Seq<char>, j: DownloadJob) -> bool {
    j.url@ == v.files@[i].url@ && j.dest@ == dir + "/"@ + v.files@[i].filename@
}

fn versions_fetch(f: &Frame, game: &str, loader: &Option<String>) -> (a: SessionAction)
    ensures
        fetches_versions(*f, game@, opt_text(*loader), a),
{
    match &f.version_id {
        Some(v) => SessionAction::Fetch(version_url(v.as_str()), Awaited::Version),
        None => {
            let lref = match loader {
                Some(l) => Some(l.as_str()),
                None => None,
            };
            assert(opt_str(lref) == opt_text(*loader));
            let filter = resolve_loader_filter(f.project_type.as_str(), lref);
            match project_versions_url(f.project_id.as_str(), game, &filter) {
                Ok(u) => SessionAction::Fetch(u, Awaited::Versions),
                Err(e) => SessionAction::Finished(Err(e)),
            }
        },
    }
}

fn is_required(d: &PackageDependency) -> (r: bool)
    ensures
        r == required_dep(*d),
{
    same_text(d.dependency_type.as_str(), "required") && d.project_id.is_some()
}

/// The first required dependency at or after `from`.
fn next_required(deps: &Vec<PackageDependency>, from: usize) -> (r: Option<usize>)
    ensures
        match r {
            Some(k) => from <= k < deps@.len() && required_dep(deps@[k as int]) && forall|j: int|
                from <= j < k ==> !required_dep(#[trigger] deps@[j]),
            None => forall|j: int| from <= j < deps@.len() ==> !required_dep(#[trigger] deps@[j]),
        },
{
    let mut i = from;
    while i < deps.len()
        invariant
            from <= i,
            forall|j: int| from <= j < i && j < deps@.len() ==> !required_dep(#[trigger] deps@[j]),
        decreases deps.len() - i,
    {
        if is_required(&deps[i]) {
            return Some(i);
        }
        i = i + 1;
    }
    None
}

fn copy_version_text(o: &Option<String>) -> (r: String)
    ensures
        r@ == match *o {
            Some(v) => v@,
            None => Seq::<char>::empty(),
        },
{
    match o {
        Some(v) => v.clone(),
        None => String::new(),
    }
}

impl InstallSession {
    /// The install registry as the session has updated it.
    pub closed spec fn registry(&self) -> InstallIndex {
        self.index
    }

    /// Projects in progress, the requested one first, the current one last.
    pub closed spec fn frames(&self) -> Seq<Frame> {
        self.frames@
    }

    /// Keys (`type:id`) of the projects taken up so far.
    pub closed spec fn visited(&self) -> Seq<Seq<char>> {
        self.visited@.map_values(|s: String| s@)
    }

    /// The session is over.
    pub closed spec fn is_finished(&self) -> bool {
        self.finished
    }

    pub closed spec fn dir(&self) -> Seq<char> {
        self.instance_dir@
    }

    pub closed spec fn game(&self) -> Seq<char> {
        self.game_version@
    }

    pub closed spec fn loader_text(&self) -> Option<Seq<char>> {
        opt_text(self.loader)
    }

    /// The session has a project in progress.
    pub open spec fn live(&self) -> bool {
        !self.is_finished() && self.frames().len() > 0
    }

    /// The current project.
    pub open spec fn top(&self) -> Frame {
        self.frames().last()
    }

    /// The current project's world.
    pub open spec fn top_world(&self) -> Option<Seq<char>> {
        opt_text(self.top().world_id)
    }

    /// The registry's record of the current project.
    pub open spec fn top_record(&self) -> Option<(Seq<char>, Option<Seq<char>>)> {
        registered(self.registry(), self.top().project_type@, self.top().project_id@, self.top_world())
    }

    /// Starts installing a project into an instance, with the registry as
    /// loaded; the first action comes from `advance(SessionEvent::Proceed)`.
    pub fn start(
        instance_dir: &str,
        index: InstallIndex,
        project_id: &str,
        project_type: &str,
        game_version: &str,
        loader: Option<&str>,
        world_id: Option<&str>,
    ) -> (r: InstallSession)
        ensures
            r.registry() == index,
            r.live(),
            r.frames().len() == 1,
            r.top().project_id@ == project_id@,
            r.top().project_type@ == project_type@,
            r.top_world() == opt_str(world_id),
            r.top().version_id is None,
            r.top().stage is Enter,
            r.visited().len() == 0,
            r.dir() == instance_dir@,
            r.game() == game_version@,
            r.loader_text() == opt_str(loader),
    {
        let mut frames: Vec<Frame> = Vec::new();
        frames.push(
            Frame {
                project_id: copy_str(project_id),
                project_type: copy_str(project_type),
                world_id: match world_id {
                    Some(w) => Some(copy_str(w)),
                    None => None,
                },
                version_id: None,
                target_dir: String::new(),
                stage: Stage::Enter,
                version: None,
                dep_index: 0,
            },
        );
        let r = InstallSession {
            instance_dir: copy_str(instance_dir),
            game_version: copy_str(game_version),
            loader: match loader {
                Some(l) => Some(copy_str(l)),
                None => None,
            },
            index,
            visited: Vec::new(),
            frames,
            finished: false,
        };
        assert(r.visited() =~= Seq::<Seq<char>>::empty());
        r
    }

    /// The registry, handed back for saving.
    pub fn into_registry(self) -> (r: InstallIndex)
        ensures
            r == self.registry(),
    {
        self.index
    }

    fn finish(&mut self, r: Result<InstallResult, String>) -> (a: SessionAction)
        ensures
            final(self).index == old(self).index,
            final(self).visited == old(self).visited,
            final(self).frames == old(self).frames,
            final(self).instance_dir == old(self).instance_dir,
            final(self).game_version == old(self).game_version,
            final(self).loader == old(self).loader,
            final(self).finished,
            a == SessionAction::Finished(r),
    {
        self.finished = true;
        SessionAction::Finished(r)
    }

    fn is_visited(&self, key: &str) -> (r: bool)
        ensures
            r == self.visited().contains(key@),
    {
        let mut i: usize = 0;
        while i < self.visited.len()
            invariant
                i <= self.visited.len(),
                forall|j: int| 0 <= j < i ==> self.visited()[j] != key@,
            decreases self.visited.len() - i,
        {
            if same_text(self.visited[i].as_str(), key) {
                assert(self.visited()[i as int] == key@);
                return true;
            }
            i = i + 1;
        }
        false
    }

    /// Leaves the current project with its result (see `completion`).
    fn complete(&mut self, result: InstallResult) -> (a: SessionAction)
        requires
            old(self).frames@.len() > 0,
            !old(self).finished,
        ensures
            final(self).index == old(self).index,
            final(self).visited == old(self).visited,
            final(self).instance_dir == old(self).instance_dir,
            final(self).game_version == old(self).game_version,
            final(self).loader == old(self).loader,
            completion(old(self).frames@, final(self).frames@, final(self).finished, a, result_view(result)),
    {
        let ghost before = self.frames@;
        self.frames.pop();
        if self.frames.len() == 0 {
            let ghost rv = result_view(result);
            return self.finish(Ok(result));
        }
        let mut parent = self.frames.pop().unwrap();
        if parent.dep_index < usize::MAX {
            parent.dep_index = parent.dep_index + 1;
        }
        parent.stage = Stage::NextDependency;
        self.frames.push(parent);
        proof {
            assert(self.frames@.drop_last() =~= before.drop_last().drop_last());
        }
        SessionAction::Continue
    }

    /// The step records the current project: its awaited download of a
    /// file of the chosen version is done.
    pub open spec fn records_step(before: InstallSession, event: SessionEvent) -> bool {
        &&& event is Downloaded
        &&& before.live()
        &&& before.top().stage is AwaitDownload
        &&& before.top().version is Some
        &&& before.top().stage->AwaitDownload_0 < before.top().version->0.files@.len()
    }

    /// The step takes up a project not visited before, of a type the
    /// registry records.
    pub open spec fn takes_up(before: InstallSession, event: SessionEvent) -> bool {
        &&& before.live()
        &&& !(event is Failed)
        &&& before.top().stage is Enter
        &&& !before.visited().contains(frame_key(before.top()))
        &&& known_type(before.top().project_type@, before.top_world())
    }

    /// One step of a session: what `advance` does with `event`, taking the
    /// session from `before` to `after` and answering `a`.
    pub open spec fn step(before: InstallSession, event: SessionEvent, after: InstallSession, a: SessionAction) -> bool {
        &&& (!before.live() ==> (a matches SessionAction::Finished(Err(_))) && after.registry() == before.registry())
        &&& (before.live() && event is Failed ==> (a matches SessionAction::Finished(Err(x)) && x@ == event->Failed_0@) && after.is_finished())
        &&& (!Self::records_step(before, event) ==> after.registry() == before.registry())
        // the visited set grows only when a new project is taken up
        &&& (!Self::takes_up(before, event) ==> after.visited() == before.visited())
        // taking up a project
        &&& (before.live() && !(event is Failed) && before.top().stage is Enter ==> {
            let f = before.top();
            let key = frame_key(f);
            let w = before.top_world();
            &&& before.visited().contains(key) ==> completion(
                before.frames(),
                after.frames(),
                after.is_finished(),
                a,
                record_result(before.top_record(), f.project_id@),
            )
            &&& !before.visited().contains(key) && !known_type(f.project_type@, w) ==> (a matches SessionAction::Finished(Err(_)))
            &&& !before.visited().contains(key) && known_type(f.project_type@, w) ==> {
                &&& after.visited() == before.visited().push(key)
                &&& top_updated(before.frames(), after.frames())
                &&& Some(after.top().target_dir@) == target_dir_of(before.dir(), f.project_type@, w)
                &&& !after.is_finished()
                &&& match before.top_record() {
                    Some(rec) => (a matches SessionAction::CheckFile(path) && path@ == after.top().target_dir@ + "/"@ + rec.0)
                        && (after.top().stage matches Stage::CheckingFile(r) && record_view(r) == rec),
                    None => fetches_versions(f, before.game(), before.loader_text(), a) && after.top().stage is AwaitVersion,
                }
            }
        })
        // the recorded file exists, or not
        &&& (before.live() && before.top().stage is CheckingFile ==> {
            let f = before.top();
            let rec = f.stage->CheckingFile_0;
            &&& event == SessionEvent::FileExists(true) ==> completion(
                before.frames(),
                after.frames(),
                after.is_finished(),
                a,
                record_result(Some(record_view(rec)), f.project_id@),
            )
            &&& event == SessionEvent::FileExists(false) ==> fetches_versions(f, before.game(), before.loader_text(), a)
                && top_updated(before.frames(), after.frames()) && after.top().stage is AwaitVersion
                && after.top().target_dir == f.target_dir && !after.is_finished()
        })
        // the version was fetched
        &&& (before.live() && before.top().stage is AwaitVersion ==> {
            let f = before.top();
            &&& event is Versions ==> (event->Versions_0@.len() == 0 <==> (a matches SessionAction::Finished(Err(x))
                && x@ == "no matching Modrinth versions"@))
            &&& event is Versions && event->Versions_0@.len() > 0 ==> a is Continue && after.frames().len()
                == before.frames().len() && after.frames().drop_last() == before.frames().drop_last()
                && after.top().project_id == f.project_id && after.top().project_type == f.project_type
                && after.top().world_id == f.world_id && after.top().target_dir == f.target_dir
                && after.top().stage is NextDependency && after.top().dep_index == 0 && !after.is_finished()
                && exists|i: int| best_version(event->Versions_0@, i) && #[trigger] after.top().version == Some(event->Versions_0@[i])
            &&& event is Version ==> a is Continue && after.frames().len()
                == before.frames().len() && after.frames().drop_last() == before.frames().drop_last()
                && after.top().project_id == f.project_id && after.top().project_type == f.project_type
                && after.top().world_id == f.world_id && after.top().target_dir == f.target_dir
                && after.top().stage is NextDependency && after.top().dep_index == 0
                && after.top().version == Some(event->Version_0) && !after.is_finished()
        })
        // scanning dependencies, then the file
        &&& (before.live() && !(event is Failed) && before.top().stage is NextDependency && before.top().version is Some ==> {
            let f = before.top();
            let v = f.version->0;
            let deps = v.dependencies@;
            &&& (exists|k: int| f.dep_index <= k < deps.len() && required_dep(#[trigger] deps[k])) ==> exists|k: int|
                f.dep_index <= k < deps.len() && required_dep(#[trigger] deps[k]) && (forall|j: int|
                    f.dep_index <= j < k ==> !required_dep(#[trigger] deps[j])) && (a matches SessionAction::Fetch(u, Awaited::ProjectType)
                    && u@ == MODRINTH_BASE_URL@ + "/project/"@ + deps[k].project_id->0@) && top_updated(before.frames(), after.frames())
                    && after.top().dep_index == k && after.top().stage is AwaitProjectType
                    && after.top().target_dir == f.target_dir && !after.is_finished()
            &&& (forall|k: int| f.dep_index <= k < deps.len() ==> !required_dep(#[trigger] deps[k])) ==> {
                &&& v.files@.len() == 0 ==> (a matches SessionAction::Finished(Err(x)) && x@ == "no downloadable files for Modrinth version"@)
                &&& v.files@.len() > 0 ==> chosen_file(v.files@, after.top().dep_index as int) && top_updated(before.frames(), after.frames())
                    && after.top().target_dir == f.target_dir && !after.is_finished() && match before.top_record() {
                    Some(prev) if prev.0.len() > 0 => (a matches SessionAction::DeleteFile(path) && path@ == f.target_dir@ + "/"@ + prev.0)
                        && after.top().stage == Stage::AwaitDelete(after.top().dep_index),
                    _ => (a matches SessionAction::Download(j) && download_of(v, after.top().dep_index as int, f.target_dir@, j))
                        && after.top().stage == Stage::AwaitDownload(after.top().dep_index),
                }
            }
        })
        // the dependency's type is known
        &&& (before.live() && before.top().stage is AwaitProjectType && event is ProjectType
            && before.top().version is Some && before.top().dep_index < before.top().version->0.dependencies@.len() ==> {
            let f = before.top();
            let d = f.version->0.dependencies@[f.dep_index as int];
            let t = event->ProjectType_0@;
            &&& known_type(t, before.top_world()) ==> a is Continue && after.frames().len() == before.frames().len() + 1
                && after.frames().drop_last() == before.frames() && after.top().project_type@ == t
                && after.top().project_id@ == match d.project_id {
                    Some(p) => p@,
                    None => Seq::<char>::empty(),
                } && opt_text(after.top().version_id) == opt_text(d.version_id)
                && after.top_world() == (if t == "datapack"@ { before.top_world() } else { None })
                && after.top().stage is Enter && !after.is_finished()
            &&& !known_type(t, before.top_world()) ==> a is Continue && top_updated(before.frames(), after.frames())
                && after.top().stage is NextDependency && after.top().dep_index == f.dep_index + 1
                && after.top().target_dir == f.target_dir && !after.is_finished()
        })
        // the replaced file was deleted
        &&& (before.live() && before.top().stage is AwaitDelete && event is Proceed
            && before.top().version is Some && before.top().stage->AwaitDelete_0 < before.top().version->0.files@.len() ==> {
            let f = before.top();
            let i = f.stage->AwaitDelete_0;
            (a matches SessionAction::Download(j) && download_of(f.version->0, i as int, f.target_dir@, j))
                && top_updated(before.frames(), after.frames()) && after.top().stage == Stage::AwaitDownload(i)
                && after.top().target_dir == f.target_dir && !after.is_finished()
        })
        // the file was downloaded
        &&& (before.live() && before.top().stage is AwaitDownload && event is Downloaded
            && before.top().version is Some && before.top().stage->AwaitDownload_0 < before.top().version->0.files@.len() ==> {
            let f = before.top();
            let i = f.stage->AwaitDownload_0;
            let v = f.version->0;
            let w = before.top_world();
            &&& known_type(f.project_type@, w) ==> registered(after.registry(), f.project_type@, f.project_id@, w)
                == Some((v.files@[i as int].filename@, Some(v.version_number@)))
            &&& forall|t: Seq<char>, p: Seq<char>, x: Option<Seq<char>>|
                !(t == f.project_type@ && p == f.project_id@ && (t != "datapack"@ || x == w)) ==> #[trigger] registered(
                    after.registry(), t, p, x) == registered(before.registry(), t, p, x)
            &&& completion(
                before.frames(),
                after.frames(),
                after.is_finished(),
                a,
                (v.files@[i as int].filename@, v.version_number@, f.project_id@),
            )
        })
    }

    /// Takes what came of the last action and says what to do next (see `step`).
    pub fn advance(&mut self, event: SessionEvent) -> (a: SessionAction)
        ensures
            Self::step(*old(self), event, *final(self), a),
    {
        if self.finished || self.frames.len() == 0 {
            return self.finish(Err(copy_str("install session is over")));
        }
        if let SessionEvent::Failed(e) = event {
            return self.finish(Err(e));
        }
        let ghost before = self.frames@;
        let mut f = self.frames.pop().unwrap();
        proof {
            assert(self.frames@ == before.drop_last());
        }
        match f.stage {
            Stage::Enter => {
                let mut key = f.project_type.clone();
                key.append(":");
                key.append(f.project_id.as_str());
                let world = match &f.world_id {
                    Some(w) => Some(w.as_str()),
                    None => None,
                };
                assert(opt_str(world) == opt_text(f.world_id));
                let existing = get_install_record(&self.index, f.project_type.as_str(), f.project_id.as_str(), world);
                if self.is_visited(key.as_str()) {
                    let result = InstallResult {
                        filename: match &existing {
                            Some(r) => r.filename.clone(),
                            None => String::new(),
                        },
                        version: match &existing {
                            Some(r) => copy_version_text(&r.version),
                            None => String::new(),
                        },
                        project_id: f.project_id.clone(),
                    };
                    self.frames.push(f);
                    assert(self.frames@ =~= before);
                    assert(result_view(result) == record_result(registered(self.index, before.last().project_type@, before.last().project_id@, opt_text(before.last().world_id)), before.last().project_id@));
                    return self.complete(result);
                }
                let dir = match resolve_target_dir(self.instance_dir.as_str(), f.project_type.as_str(), world) {
                    Ok(d) => d,
                    Err(e) => {
                        self.frames.push(f);
                        return self.finish(Err(e));
                    },
                };
                let ghost vis0 = self.visited@;
                self.visited.push(key);
                assert(self.visited() =~= vis0.map_values(|s: String| s@).push(frame_key(before.last())));
                f.target_dir = dir;
                match existing {
                    Some(r) => {
                        let path = join_path(f.target_dir.as_str(), r.filename.as_str());
                        f.stage = Stage::CheckingFile(r);
                        self.frames.push(f);
                        assert(self.frames@.drop_last() =~= before.drop_last());
                        SessionAction::CheckFile(path)
                    },
                    None => {
                        let a = versions_fetch(&f, self.game_version.as_str(), &self.loader);
                        f.stage = Stage::AwaitVersion;
                        self.frames.push(f);
                        assert(self.frames@.drop_last() =~= before.drop_last());
                        a
                    },
                }
            },
            Stage::CheckingFile(r) => {
                match event {
                    SessionEvent::FileExists(true) => {
                        let result = InstallResult {
                            filename: r.filename.clone(),
                            version: copy_version_text(&r.version),
                            project_id: f.project_id.clone(),
                        };
                        f.stage = Stage::CheckingFile(r);
                        self.frames.push(f);
                        assert(self.frames@.drop_last() =~= before.drop_last());
                        assert(result_view(result) == record_result(Some(record_view(before.last().stage->CheckingFile_0)), before.last().project_id@));
                        self.complete(result)
                    },
                    SessionEvent::FileExists(false) => {
                        f.stage = Stage::AwaitVersion;
                        let a = versions_fetch(&f, self.game_version.as_str(), &self.loader);
                        self.frames.push(f);
                        assert(self.frames@.drop_last() =~= before.drop_last());
                        a
                    },
                    _ => {
                        f.stage = Stage::CheckingFile(r);
                        self.frames.push(f);
                        self.finish(Err(copy_str("unexpected answer to a file check")))
                    },
                }
            },
            Stage::AwaitVersion => {
                let version = match event {
                    SessionEvent::Version(v) => Some(v),
                    SessionEvent::Versions(vs) => match select_version(&vs) {
                        Some(i) => {
                            let mut vs = vs;
                            let ghost vv = vs@;
                            let chosen = vs.swap_remove(i);
                            assert(chosen == vv[i as int]);
                            Some(chosen)
                        },
                        None => {
                            f.stage = Stage::AwaitVersion;
                            self.frames.push(f);
                            return self.finish(Err(copy_str("no matching Modrinth versions")));
                        },
                    },
                    _ => None,
                };
                match version {
                    Some(v) => {
                        f.version = Some(v);
                        f.dep_index = 0;
                        f.stage = Stage::NextDependency;
                        self.frames.push(f);
                        assert(self.frames@.drop_last() =~= before.drop_last());
                        SessionAction::Continue
                    },
                    None => {
                        f.stage = Stage::AwaitVersion;
                        self.frames.push(f);
                        self.finish(Err(copy_str("unexpected answer to a version fetch")))
                    },
                }
            },
            Stage::NextDependency => {
                let version = match f.version {
                    Some(v) => v,
                    None => {
                        f.version = None;
                        f.stage = Stage::NextDependency;
                        self.frames.push(f);
                        return self.finish(Err(copy_str("no version selected")));
                    },
                };
                match next_required(&version.dependencies, f.dep_index) {
                    Some(k) => {
                        let dep_id = match &version.dependencies[k].project_id {
                            Some(p) => p.clone(),
                            None => String::new(),
                        };
                        let url = project_url(dep_id.as_str());
                        f.dep_index = k;
                        f.stage = Stage::AwaitProjectType;
                        f.version = Some(version);
                        self.frames.push(f);
                        assert(self.frames@.drop_last() =~= before.drop_last());
                        SessionAction::Fetch(url, Awaited::ProjectType)
                    },
                    None => match select_file(&version) {
                        Some(k) => {
                            let world = match &f.world_id {
                                Some(w) => Some(w.as_str()),
                                None => None,
                            };
                            assert(opt_str(world) == opt_text(f.world_id));
                            let prev = get_install_record(&self.index, f.project_type.as_str(), f.project_id.as_str(), world);
                            let stale = match &prev {
                                Some(p) => if p.filename.as_str().unicode_len() > 0 {
                                    Some(join_path(f.target_dir.as_str(), p.filename.as_str()))
                                } else {
                                    None
                                },
                                None => None,
                            };
                            f.dep_index = k;
                            match stale {
                                Some(path) => {
                                    f.stage = Stage::AwaitDelete(k);
                                    f.version = Some(version);
                                    self.frames.push(f);
                                    assert(self.frames@.drop_last() =~= before.drop_last());
                                    SessionAction::DeleteFile(path)
                                },
                                None => {
                                    let file = &version.files[k];
                                    let job = DownloadJob {
                                        url: file.url.clone(),
                                        dest: join_path(f.target_dir.as_str(), file.filename.as_str()),
                                    };
                                    f.stage = Stage::AwaitDownload(k);
                                    f.version = Some(version);
                                    self.frames.push(f);
                                    assert(self.frames@.drop_last() =~= before.drop_last());
                                    SessionAction::Download(job)
                                },
                            }
                        },
                        None => {
                            f.version = Some(version);
                            f.stage = Stage::NextDependency;
                            self.frames.push(f);
                            self.finish(Err(copy_str("no downloadable files for Modrinth version")))
                        },
                    },
                }
            },
            Stage::AwaitProjectType => {
                let t = match event {
                    SessionEvent::ProjectType(t) => t,
                    _ => {
                        f.stage = Stage::AwaitProjectType;
                        self.frames.push(f);
                        return self.finish(Err(copy_str("unexpected answer to a project fetch")));
                    },
                };
                let (dep_id, dep_version) = match &f.version {
                    Some(v) => if f.dep_index < v.dependencies.len() {
                        let d = &v.dependencies[f.dep_index];
                        (
                            match &d.project_id {
                                Some(p) => p.clone(),
                                None => String::new(),
                            },
                            crate::config::copy_opt(&d.version_id),
                        )
                    } else {
                        (String::new(), None)
                    },
                    None => (String::new(), None),
                };
                let is_datapack = same_text(t.as_str(), "datapack");
                let understood = same_text(t.as_str(), "mod") || same_text(t.as_str(), "resourcepack")
                    || same_text(t.as_str(), "shader") || (is_datapack && f.world_id.is_some());
                if !understood {
                    if f.dep_index < usize::MAX {
                        f.dep_index = f.dep_index + 1;
                    }
                    f.stage = Stage::NextDependency;
                    self.frames.push(f);
                    assert(self.frames@.drop_last() =~= before.drop_last());
                    return SessionAction::Continue;
                }
                let dep_world = if is_datapack {
                    crate::config::copy_opt(&f.world_id)
                } else {
                    None
                };
                f.stage = Stage::AwaitProjectType;
                self.frames.push(f);
                assert(self.frames@ =~= before);
                self.frames.push(
                    Frame {
                        project_id: dep_id,
                        project_type: t,
                        world_id: dep_world,
                        version_id: dep_version,
                        target_dir: String::new(),
                        stage: Stage::Enter,
                        version: None,
                        dep_index: 0,
                    },
                );
                assert(self.frames@.drop_last() =~= before);
                SessionAction::Continue
            },
            Stage::AwaitDelete(k) => {
                let job = match &f.version {
                    Some(v) => if k < v.files.len() {
                        Some(DownloadJob {
                            url: v.files[k].url.clone(),
                            dest: join_path(f.target_dir.as_str(), v.files[k].filename.as_str()),
                        })
                    } else {
                        None
                    },
                    None => None,
                };
                match (job, event) {
                    (Some(j), SessionEvent::Proceed) => {
                        f.stage = Stage::AwaitDownload(k);
                        self.frames.push(f);
                        assert(self.frames@.drop_last() =~= before.drop_last());
                        SessionAction::Download(j)
                    },
                    _ => {
                        f.stage = Stage::AwaitDelete(k);
                        self.frames.push(f);
                        self.finish(Err(copy_str("unexpected answer to a file deletion")))
                    },
                }
            },
            Stage::AwaitDownload(k) => {
                let ok = match event {
                    SessionEvent::Downloaded => true,
                    _ => false,
                };
                let (filename, number) = match &f.version {
                    Some(v) => if k < v.files.len() {
                        (v.files[k].filename.clone(), v.version_number.clone())
                    } else {
                        (String::new(), String::new())
                    },
                    None => (String::new(), String::new()),
                };
                let valid = match &f.version {
                    Some(v) => k < v.files.len(),
                    None => false,
                };
                if !ok || !valid {
                    f.stage = Stage::AwaitDownload(k);
                    self.frames.push(f);
                    return self.finish(Err(copy_str("unexpected answer to a download")));
                }
                let world = match &f.world_id {
                    Some(w) => Some(w.as_str()),
                    None => None,
                };
                assert(opt_str(world) == opt_text(f.world_id));
                let record = InstallRecord { filename: filename.clone(), version: Some(number.clone()) };
                let _ = record_install(&mut self.index, f.project_type.as_str(), f.project_id.as_str(), world, record);
                let result = InstallResult { filename, version: number, project_id: f.project_id.clone() };
                f.stage = Stage::AwaitDownload(k);
                self.frames.push(f);
                assert(self.frames@.drop_last() =~= before.drop_last());
                proof {
                    if before.last().version is Some && k < before.last().version->0.files@.len() {
                        let v = before.last().version->0;
                        assert(result_view(result) == (v.files@[k as int].filename@, v.version_number@, before.last().project_id@));
                    }
                }
                self.complete(result)
            },
        }
    }
}

/// File name of a record (empty when there is none).
pub open spec fn record_file(rec: Option<(Seq<char>, Option<Seq<char>>)>) -> Seq<char> {
    match rec {
        Some((f, v)) => f,
        None => Seq::empty(),
    }
}

/// A project that is recorded, whose recorded file is present, is reported
/// from its record: the session asks only whether the file exists, then
/// completes the project with the record's file name, version and project id,
/// without fetching or downloading anything and with the registry unchanged.
/// For the requested project the session finishes with that result.
pub proof fn lemma_recorded_file_present(
    s0: InstallSession,
    e0: SessionEvent,
    s1: InstallSession,
    a0: SessionAction,
    s2: InstallSession,
    a1: SessionAction,
)
    requires
        s0.live(),
        s0.top().stage is Enter,
        !(e0 is Failed),
        !s0.visited().contains(frame_key(s0.top())),
        known_type(s0.top().project_type@, s0.top_world()),
        s0.top_record() is Some,
        InstallSession::step(s0, e0, s1, a0),
        InstallSession::step(s1, SessionEvent::FileExists(true), s2, a1),
    ensures
        a0 matches SessionAction::CheckFile(path) && path@ == s1.top().target_dir@ + "/"@ + record_file(s0.top_record()),
        !(a1 is Fetch) && !(a1 is Download) && !(a1 is DeleteFile),
        completion(s1.frames(), s2.frames(), s2.is_finished(), a1, record_result(s0.top_record(), s0.top().project_id@)),
        s0.frames().len() == 1 ==> (a1 matches SessionAction::Finished(Ok(x)) && result_view(x) == record_result(
            s0.top_record(),
            s0.top().project_id@,
        )),
        s2.registry() == s0.registry(),
{
    assert(s1.live());
    assert(s1.top().stage is CheckingFile);
    assert(s1.top().project_id@ == s0.top().project_id@);
}

/// A project already taken up in this session completes at once, from its
/// record if it has one: no fetch, no download, the registry unchanged. This
/// ends dependency cycles.
pub proof fn lemma_visited_project_completes(s0: InstallSession, e0: SessionEvent, s1: InstallSession, a0: SessionAction)
    requires
        s0.live(),
        s0.top().stage is Enter,
        !(e0 is Failed),
        s0.visited().contains(frame_key(s0.top())),
        InstallSession::step(s0, e0, s1, a0),
    ensures
        !(a0 is Fetch) && !(a0 is Download) && !(a0 is DeleteFile) && !(a0 is CheckFile),
        completion(s0.frames(), s1.frames(), s1.is_finished(), a0, record_result(s0.top_record(), s0.top().project_id@)),
        s1.registry() == s0.registry(),
        s1.visited() == s0.visited(),
{
}

/// A dependency whose type came back is pursued (taken up next, in the
/// world of its parent only when it is a datapack) exactly when its type is
/// mod, resource pack or shader, or datapack with a world; otherwise the
/// scan moves on to the next dependency. Nothing is recorded either way.
pub proof fn lemma_dependency_pursuit(s0: InstallSession, t: String, s1: InstallSession, a: SessionAction)
    requires
        s0.live(),
        s0.top().stage is AwaitProjectType,
        s0.top().version is Some,
        s0.top().dep_index < s0.top().version->0.dependencies@.len(),
        InstallSession::step(s0, SessionEvent::ProjectType(t), s1, a),
    ensures
        a is Continue,
        s1.registry() == s0.registry(),
        known_type(t@, s0.top_world()) <==> s1.frames().len() == s0.frames().len() + 1,
        known_type(t@, s0.top_world()) ==> s1.top().stage is Enter && s1.top().project_type@ == t@
            && s1.frames().drop_last() == s0.frames(),
        !known_type(t@, s0.top_world()) ==> s1.top().stage is NextDependency && s1.top().dep_index == s0.top().dep_index + 1,
{
}

/// A failure ends the session with that error; every later step only
/// repeats that the session is over, so a dependency's failure stops the
/// project that required it, which is neither downloaded nor recorded.
pub proof fn lemma_failure_stops(
    s0: InstallSession,
    e: String,
    s1: InstallSession,
    a0: SessionAction,
    e1: SessionEvent,
    s2: InstallSession,
    a1: SessionAction,
)
    requires
        s0.live(),
        InstallSession::step(s0, SessionEvent::Failed(e), s1, a0),
        InstallSession::step(s1, e1, s2, a1),
    ensures
        a0 matches SessionAction::Finished(Err(x)) && x@ == e@,
        s1.registry() == s0.registry(),
        a1 matches SessionAction::Finished(Err(_)),
        s2.registry() == s1.registry(),
{
}

/// A run of a session: `states[i]` goes to `states[i + 1]` on `events[i]`,
/// answering `actions[i]`.
pub open spec fn run(states: Seq<InstallSession>, events: Seq<SessionEvent>, actions: Seq<SessionAction>) -> bool {
    &&& states.len() == events.len() + 1
    &&& actions.len() == events.len()
    &&& forall|i: int| 0 <= i < events.len() ==> #[trigger] InstallSession::step(states[i], events[i], states[i + 1], actions[i])
}

/// The step records project `p` of type `t` (in world `w` for datapacks).
pub open spec fn records_project(s: InstallSession, e: SessionEvent, t: Seq<char>, p: Seq<char>, w: Option<Seq<char>>) -> bool {
    InstallSession::records_step(s, e) && s.top().project_type@ == t && s.top().project_id@ == p && (t != "datapack"@
        || s.top_world() == w)
}

/// A record stays as it is through every later step that records no other
/// install of the same project.
pub proof fn lemma_record_persists(
    states: Seq<InstallSession>,
    events: Seq<SessionEvent>,
    actions: Seq<SessionAction>,
    t: Seq<char>,
    p: Seq<char>,
    w: Option<Seq<char>>,
    i: int,
    j: int,
)
    requires
        run(states, events, actions),
        0 <= i <= j < states.len(),
        forall|k: int| i <= k < j ==> !records_project(#[trigger] states[k], events[k], t, p, w),
    ensures
        registered(states[j].registry(), t, p, w) == registered(states[i].registry(), t, p, w),
    decreases j - i,
{
    if j > i {
        lemma_record_persists(states, events, actions, t, p, w, i, j - 1);
        let k = j - 1;
        assert(InstallSession::step(states[k], events[k], states[k + 1], actions[k]));
        assert(!records_project(states[k], events[k], t, p, w));
    }
}

/// In a run that downloads and records dependency B at step `kb`, and later
/// the requiring project A at step `ka`, both are recorded afterwards, each
/// with the file it downloaded, when no step in between records B again.
pub proof fn lemma_both_recorded(
    states: Seq<InstallSession>,
    events: Seq<SessionEvent>,
    actions: Seq<SessionAction>,
    kb: int,
    ka: int,
)
    requires
        run(states, events, actions),
        0 <= kb < ka < events.len(),
        InstallSession::records_step(states[kb], events[kb]),
        InstallSession::records_step(states[ka], events[ka]),
        known_type(states[kb].top().project_type@, states[kb].top_world()),
        known_type(states[ka].top().project_type@, states[ka].top_world()),
        forall|k: int| kb < k <= ka ==> !records_project(
            #[trigger] states[k],
            events[k],
            states[kb].top().project_type@,
            states[kb].top().project_id@,
            states[kb].top_world(),
        ),
    ensures
        ({
            let b = states[kb].top();
            let a = states[ka].top();
            let vb = b.version->0;
            let va = a.version->0;
            &&& registered(states[ka + 1].registry(), b.project_type@, b.project_id@, states[kb].top_world())
                == Some((vb.files@[b.stage->AwaitDownload_0 as int].filename@, Some(vb.version_number@)))
            &&& registered(states[ka + 1].registry(), a.project_type@, a.project_id@, states[ka].top_world())
                == Some((va.files@[a.stage->AwaitDownload_0 as int].filename@, Some(va.version_number@)))
        }),
{
    let b = states[kb].top();
    assert(InstallSession::step(states[kb], events[kb], states[kb + 1], actions[kb]));
    assert(InstallSession::step(states[ka], events[ka], states[ka + 1], actions[ka]));
    lemma_record_persists(states, events, actions, b.project_type@, b.project_id@, states[kb].top_world(), kb + 1, ka);
    assert(!records_project(states[ka], events[ka], b.project_type@, b.project_id@, states[kb].top_world()));
}

} // verus!
