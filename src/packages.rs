//! Package registry installs: the per-instance install registry, target
//! folders, version and file choice, request URLs, and the search cache's
//! bookkeeping.

use vstd::prelude::*;
use crate::maven::opt_text;
use crate::text::{copy_str, decimal, decimal_text, join_path, same_text, texts};

verus! {

/// Registry API root.
pub const MODRINTH_BASE_URL: &'static str = "https://api.modrinth.com/v2";

/// A registry-installed file: its name in the target folder and the version
/// it came from.
#[derive(Clone, Debug, PartialEq, Eq)]
pub struct InstallRecord {
    pub filename: String,
    pub version: Option<String>,
}

/// A project's install record.
#[derive(Clone, Debug, PartialEq, Eq)]
pub struct RecordEntry {
    pub project_id: String,
    pub record: InstallRecord,
}

/// Datapack records of one world.
#[derive(Clone, Debug, PartialEq, Eq)]
pub struct WorldEntries {
    pub world_id: String,
    pub entries: Vec<RecordEntry>,
}

/// The per-instance install registry: mods, resource packs and shaders by
/// project id, datapacks by world id then project id.
#[derive(Clone, Debug, PartialEq, Eq)]
pub struct InstallIndex {
    pub mods: Vec<RecordEntry>,
    pub resources: Vec<RecordEntry>,
    pub shaders: Vec<RecordEntry>,
    pub datapacks: Vec<WorldEntries>,
}

/// Views of a record: file name and version.
pub open spec fn record_view(r: InstallRecord) -> (Seq<char>, Option<Seq<char>>) {
    (r.filename@, opt_text(r.version))
}

/// Record of `project` among `entries` (the first, should there be several).
pub open spec fn lookup(entries: Seq<RecordEntry>, project: Seq<char>) -> Option<(Seq<char>, Option<Seq<char>>)>
    decreases entries.len(),
{
    if entries.len() == 0 {
        None
    } else if entries[0].project_id@ == project {
        Some(record_view(entries[0].record))
    } else {
        lookup(entries.drop_first(), project)
    }
}

/// Datapack records of `world` (the first entry, should there be several).
pub open spec fn world_lookup(worlds: Seq<WorldEntries>, world: Seq<char>) -> Option<Seq<RecordEntry>>
    decreases worlds.len(),
{
    if worlds.len() == 0 {
        None
    } else if worlds[0].world_id@ == world {
        Some(worlds[0].entries@)
    } else {
        world_lookup(worlds.drop_first(), world)
    }
}

/// Record of a project of the given type (`mod`, `resourcepack`, `shader`,
/// or `datapack` in `world`).
pub open spec fn registered(
    index: InstallIndex,
    project_type: Seq<char>,
    project: Seq<char>,
    world: Option<Seq<char>>,
) -> Option<(Seq<char>, Option<Seq<char>>)> {
    if project_type == "mod"@ {
        lookup(index.mods@, project)
    } else if project_type == "resourcepack"@ {
        lookup(index.resources@, project)
    } else if project_type == "shader"@ {
        lookup(index.shaders@, project)
    } else if project_type == "datapack"@ {
        match world {
            Some(w) => match world_lookup(index.datapacks@, w) {
                Some(e) => lookup(e, project),
                None => None,
            },
            None => None,
        }
    } else {
        None
    }
}

fn copy_record(r: &InstallRecord) -> (c: InstallRecord)
    ensures
        c == *r,
{
    InstallRecord { filename: r.filename.clone(), version: crate::config::copy_opt(&r.version) }
}

fn find_record(entries: &Vec<RecordEntry>, project: &str) -> (r: Option<InstallRecord>)
    ensures
        match r {
            Some(x) => lookup(entries@, project@) == Some(record_view(x)),
            None => lookup(entries@, project@) is None,
        },
{
    let mut i: usize = 0;
    assert(entries@.subrange(0, entries@.len() as int) =~= entries@);
    while i < entries.len()
        invariant
            i <= entries.len(),
            lookup(entries@, project@) == lookup(entries@.subrange(i as int, entries@.len() as int), project@),
        decreases entries.len() - i,
    {
        assert(entries@.subrange(i as int, entries@.len() as int).drop_first() =~= entries@.subrange(i + 1, entries@.len() as int));
        if same_text(entries[i].project_id.as_str(), project) {
            assert(entries@.subrange(i as int, entries@.len() as int)[0] == entries@[i as int]);
            return Some(copy_record(&entries[i].record));
        }
        i = i + 1;
    }
    None
}

fn find_world(worlds: &Vec<WorldEntries>, world: &str) -> (r: Option<usize>)
    ensures
        match r {
            Some(i) => i < worlds@.len() && world_lookup(worlds@, world@) == Some(worlds@[i as int].entries@)
                && worlds@[i as int].world_id@ == world@ && forall|j: int| 0 <= j < i ==> (#[trigger] worlds@[j]).world_id@ != world@,
            None => world_lookup(worlds@, world@) is None,
        },
{
    let mut i: usize = 0;
    assert(worlds@.subrange(0, worlds@.len() as int) =~= worlds@);
    while i < worlds.len()
        invariant
            i <= worlds.len(),
            world_lookup(worlds@, world@) == world_lookup(worlds@.subrange(i as int, worlds@.len() as int), world@),
            forall|j: int| 0 <= j < i ==> (#[trigger] worlds@[j]).world_id@ != world@,
        decreases worlds.len() - i,
    {
        assert(worlds@.subrange(i as int, worlds@.len() as int).drop_first() =~= worlds@.subrange(i + 1, worlds@.len() as int));
        if same_text(worlds[i].world_id.as_str(), world) {
            assert(worlds@.subrange(i as int, worlds@.len() as int)[0] == worlds@[i as int]);
            return Some(i);
        }
        i = i + 1;
    }
    None
}

/// The install record of a project (see `registered`).
pub fn get_install_record(
    index: &InstallIndex,
    project_type: &str,
    project_id: &str,
    world_id: Option<&str>,
) -> (r: Option<InstallRecord>)
    ensures
        match r {
            Some(x) => registered(*index, project_type@, project_id@, match world_id {
                Some(w) => Some(w@),
                None => None,
            }) == Some(record_view(x)),
            None => registered(*index, project_type@, project_id@, match world_id {
                Some(w) => Some(w@),
                None => None,
            }) is None,
        },
{
    if same_text(project_type, "mod") {
        find_record(&index.mods, project_id)
    } else if same_text(project_type, "resourcepack") {
        find_record(&index.resources, project_id)
    } else if same_text(project_type, "shader") {
        find_record(&index.shaders, project_id)
    } else if same_text(project_type, "datapack") {
        match world_id {
            Some(w) => match find_world(&index.datapacks, w) {
                Some(i) => find_record(&index.datapacks[i].entries, project_id),
                None => None,
            },
            None => None,
        }
    } else {
        None
    }
}

/// Sets the record of `project` in `entries`, in place when it has one
/// (returning the record it replaces), else appended.
fn put_record(entries: &mut Vec<RecordEntry>, project: &str, record: InstallRecord) -> (prev: Option<InstallRecord>)
    ensures
        lookup(final(entries)@, project@) == Some(record_view(record)),
        forall|p: Seq<char>| p != project@ ==> lookup(final(entries)@, p) == lookup(old(entries)@, p),
        match prev {
            Some(x) => lookup(old(entries)@, project@) == Some(record_view(x)),
            None => lookup(old(entries)@, project@) is None,
        },
{
    let ghost e0 = entries@;
    let mut i: usize = 0;
    assert(e0.subrange(0, e0.len() as int) =~= e0);
    while i < entries.len()
        invariant
            i <= entries.len(),
            entries@ == e0,
            e0 == old(entries)@,
            forall|j: int| 0 <= j < i ==> (#[trigger] e0[j]).project_id@ != project@,
        decreases entries.len() - i,
    {
        if same_text(entries[i].project_id.as_str(), project) {
            let prev = copy_record(&entries[i].record);
            let ghost rv = record_view(record);
            entries.set(i, RecordEntry { project_id: copy_str(project), record });
            proof {
                lemma_lookup_found(e0, i as int, project@);
                lemma_lookup_update(e0, i as int, entries@[i as int], project@);
            }
            return Some(prev);
        }
        i = i + 1;
    }
    proof {
        lemma_lookup_absent(e0, project@);
    }
    let ghost rv = record_view(record);
    entries.push(RecordEntry { project_id: copy_str(project), record });
    proof {
        lemma_lookup_push(e0, entries@.last(), project@);
    }
    None
}

proof fn lemma_lookup_found(e: Seq<RecordEntry>, i: int, p: Seq<char>)
    requires
        0 <= i < e.len(),
        e[i].project_id@ == p,
        forall|j: int| 0 <= j < i ==> (#[trigger] e[j]).project_id@ != p,
    ensures
        lookup(e, p) == Some(record_view(e[i].record)),
    decreases i,
{
    if i > 0 {
        assert forall|j: int| 0 <= j < i - 1 implies (#[trigger] e.drop_first()[j]).project_id@ != p by {
            assert(e.drop_first()[j] == e[j + 1]);
        }
        lemma_lookup_found(e.drop_first(), i - 1, p);
    }
}

proof fn lemma_lookup_absent(e: Seq<RecordEntry>, p: Seq<char>)
    requires
        forall|j: int| 0 <= j < e.len() ==> (#[trigger] e[j]).project_id@ != p,
    ensures
        lookup(e, p) is None,
    decreases e.len(),
{
    if e.len() > 0 {
        assert forall|j: int| 0 <= j < e.drop_first().len() implies (#[trigger] e.drop_first()[j]).project_id@ != p by {
            assert(e.drop_first()[j] == e[j + 1]);
        }
        lemma_lookup_absent(e.drop_first(), p);
    }
}

proof fn lemma_lookup_update(e: Seq<RecordEntry>, i: int, x: RecordEntry, p: Seq<char>)
    requires
        0 <= i < e.len(),
        e[i].project_id@ == p,
        x.project_id@ == p,
        forall|j: int| 0 <= j < i ==> (#[trigger] e[j]).project_id@ != p,
    ensures
        lookup(e.update(i, x), p) == Some(record_view(x.record)),
        forall|q: Seq<char>| q != p ==> lookup(e.update(i, x), q) == lookup(e, q),
    decreases i,
{
    if i == 0 {
        assert(e.update(0, x).drop_first() =~= e.drop_first());
        assert forall|q: Seq<char>| q != p implies lookup(e.update(i, x), q) == lookup(e, q) by {
            assert(e.update(i, x)[0] == x);
            assert(lookup(e.update(i, x), q) == lookup(e.update(i, x).drop_first(), q));
            assert(lookup(e, q) == lookup(e.drop_first(), q));
        }
    } else {
        assert(e.update(i, x).drop_first() =~= e.drop_first().update(i - 1, x));
        assert forall|j: int| 0 <= j < i - 1 implies (#[trigger] e.drop_first()[j]).project_id@ != p by {
            assert(e.drop_first()[j] == e[j + 1]);
        }
        lemma_lookup_update(e.drop_first(), i - 1, x, p);
        assert forall|q: Seq<char>| q != p implies lookup(e.update(i, x), q) == lookup(e, q) by {
            assert(e.update(i, x)[0] == e[0]);
            assert(lookup(e.drop_first().update(i - 1, x), q) == lookup(e.drop_first(), q));
            if e[0].project_id@ != q {
                assert(lookup(e.update(i, x), q) == lookup(e.update(i, x).drop_first(), q));
                assert(lookup(e, q) == lookup(e.drop_first(), q));
            }
        }
    }
}

proof fn lemma_lookup_push(e: Seq<RecordEntry>, x: RecordEntry, p: Seq<char>)
    requires
        lookup(e, p) is None,
        x.project_id@ == p,
    ensures
        lookup(e.push(x), p) == Some(record_view(x.record)),
        forall|q: Seq<char>| q != p ==> lookup(e.push(x), q) == lookup(e, q),
    decreases e.len(),
{
    if e.len() > 0 {
        assert(e.push(x).drop_first() =~= e.drop_first().push(x));
        lemma_lookup_push(e.drop_first(), x, p);
        assert forall|q: Seq<char>| q != p implies lookup(e.push(x), q) == lookup(e, q) by {
            assert(e.push(x)[0] == e[0]);
            assert(lookup(e.drop_first().push(x), q) == lookup(e.drop_first(), q));
            if e[0].project_id@ != q {
                assert(lookup(e.push(x), q) == lookup(e.push(x).drop_first(), q));
                assert(lookup(e, q) == lookup(e.drop_first(), q));
            }
        }
    } else {
        assert(e.push(x).drop_first() =~= e);
        assert forall|q: Seq<char>| q != p implies lookup(e.push(x), q) == lookup(e, q) by {
            assert(e.push(x)[0] == x);
            assert(lookup(e.push(x), q) == lookup(e.push(x).drop_first(), q));
            assert(lookup(e.push(x).drop_first(), q) is None);
        }
    }
}

fn copy_entries(v: &Vec<RecordEntry>) -> (r: Vec<RecordEntry>)
    ensures
        r@ == v@,
{
    let mut r: Vec<RecordEntry> = Vec::new();
    let mut i: usize = 0;
    while i < v.len()
        invariant
            i <= v.len(),
            r@ == v@.subrange(0, i as int),
        decreases v.len() - i,
    {
        r.push(RecordEntry { project_id: v[i].project_id.clone(), record: copy_record(&v[i].record) });
        assert(r@ =~= v@.subrange(0, i + 1));
        i = i + 1;
    }
    assert(v@.subrange(0, v.len() as int) =~= v@);
    r
}

proof fn lemma_world_update(ws: Seq<WorldEntries>, i: int, x: WorldEntries, w: Seq<char>)
    requires
        0 <= i < ws.len(),
        ws[i].world_id@ == w,
        x.world_id@ == w,
        forall|j: int| 0 <= j < i ==> (#[trigger] ws[j]).world_id@ != w,
    ensures
        world_lookup(ws.update(i, x), w) == Some(x.entries@),
        forall|q: Seq<char>| q != w ==> world_lookup(ws.update(i, x), q) == world_lookup(ws, q),
    decreases i,
{
    if i == 0 {
        assert(ws.update(0, x).drop_first() =~= ws.drop_first());
        assert forall|q: Seq<char>| q != w implies world_lookup(ws.update(i, x), q) == world_lookup(ws, q) by {
            assert(ws.update(i, x)[0] == x);
            assert(world_lookup(ws.update(i, x), q) == world_lookup(ws.update(i, x).drop_first(), q));
            assert(world_lookup(ws, q) == world_lookup(ws.drop_first(), q));
        }
    } else {
        assert(ws.update(i, x).drop_first() =~= ws.drop_first().update(i - 1, x));
        assert forall|j: int| 0 <= j < i - 1 implies (#[trigger] ws.drop_first()[j]).world_id@ != w by {
            assert(ws.drop_first()[j] == ws[j + 1]);
        }
        lemma_world_update(ws.drop_first(), i - 1, x, w);
        assert forall|q: Seq<char>| q != w implies world_lookup(ws.update(i, x), q) == world_lookup(ws, q) by {
            assert(ws.update(i, x)[0] == ws[0]);
            assert(world_lookup(ws.drop_first().update(i - 1, x), q) == world_lookup(ws.drop_first(), q));
            if ws[0].world_id@ != q {
                assert(world_lookup(ws.update(i, x), q) == world_lookup(ws.update(i, x).drop_first(), q));
                assert(world_lookup(ws, q) == world_lookup(ws.drop_first(), q));
            }
        }
    }
}

proof fn lemma_world_push(ws: Seq<WorldEntries>, x: WorldEntries, w: Seq<char>)
    requires
        world_lookup(ws, w) is None,
        x.world_id@ == w,
    ensures
        world_lookup(ws.push(x), w) == Some(x.entries@),
        forall|q: Seq<char>| q != w ==> world_lookup(ws.push(x), q) == world_lookup(ws, q),
    decreases ws.len(),
{
    if ws.len() > 0 {
        assert(ws.push(x).drop_first() =~= ws.drop_first().push(x));
        lemma_world_push(ws.drop_first(), x, w);
        assert forall|q: Seq<char>| q != w implies world_lookup(ws.push(x), q) == world_lookup(ws, q) by {
            assert(ws.push(x)[0] == ws[0]);
            assert(world_lookup(ws.drop_first().push(x), q) == world_lookup(ws.drop_first(), q));
            if ws[0].world_id@ != q {
                assert(world_lookup(ws.push(x), q) == world_lookup(ws.push(x).drop_first(), q));
                assert(world_lookup(ws, q) == world_lookup(ws.drop_first(), q));
            }
        }
    } else {
        assert(ws.push(x).drop_first() =~= ws);
        assert forall|q: Seq<char>| q != w implies world_lookup(ws.push(x), q) == world_lookup(ws, q) by {
            assert(ws.push(x)[0] == x);
            assert(world_lookup(ws.push(x), q) == world_lookup(ws.push(x).drop_first(), q));
            assert(world_lookup(ws.push(x).drop_first(), q) is None);
        }
    }
}

/// Characters of an optional text.
pub open spec fn opt_str(o: Option<&str>) -> Option<Seq<char>> {
    match o {
        Some(w) => Some(w@),
        None => None,
    }
}

/// A project type the registry records (a datapack only within a world).
pub open spec fn known_type(t: Seq<char>, world: Option<Seq<char>>) -> bool {
    t == "mod"@ || t == "resourcepack"@ || t == "shader"@ || (t == "datapack"@ && world is Some)
}

/// Records an install of a project of the given type, replacing any earlier
/// record of it; returns the replaced record, whose file the caller deletes.
/// Unknown project types, and datapacks without a world, change nothing.
pub fn record_install(
    index: &mut InstallIndex,
    project_type: &str,
    project_id: &str,
    world_id: Option<&str>,
    record: InstallRecord,
) -> (prev: Option<InstallRecord>)
    ensures
        known_type(project_type@, opt_str(world_id)) ==> registered(*final(index), project_type@, project_id@, opt_str(world_id))
            == Some(record_view(record)),
        known_type(project_type@, opt_str(world_id)) ==> match prev {
            Some(x) => registered(*old(index), project_type@, project_id@, opt_str(world_id)) == Some(record_view(x)),
            None => registered(*old(index), project_type@, project_id@, opt_str(world_id)) is None,
        },
        !known_type(project_type@, opt_str(world_id)) ==> *final(index) == *old(index) && prev is None,
        forall|t: Seq<char>, p: Seq<char>, v: Option<Seq<char>>|
            !(t == project_type@ && p == project_id@ && (t != "datapack"@ || v == opt_str(world_id)))
                ==> #[trigger] registered(*final(index), t, p, v) == registered(*old(index), t, p, v),
{
    proof {
        reveal_strlit("mod");
        reveal_strlit("resourcepack");
        reveal_strlit("shader");
        reveal_strlit("datapack");
    }
    if same_text(project_type, "mod") {
        let prev = put_record(&mut index.mods, project_id, record);
        assert forall|t: Seq<char>, p: Seq<char>, v: Option<Seq<char>>|
            !(t == project_type@ && p == project_id@ && (t != "datapack"@ || v == opt_str(world_id)))
            implies #[trigger] registered(*index, t, p, v) == registered(*old(index), t, p, v) by {
            if t == "mod"@ {
                assert("mod"@.len() != "datapack"@.len());
                assert(p != project_id@);
            }
        }
        prev
    } else if same_text(project_type, "resourcepack") {
        let prev = put_record(&mut index.resources, project_id, record);
        assert forall|t: Seq<char>, p: Seq<char>, v: Option<Seq<char>>|
            !(t == project_type@ && p == project_id@ && (t != "datapack"@ || v == opt_str(world_id)))
            implies #[trigger] registered(*index, t, p, v) == registered(*old(index), t, p, v) by {
            if t == "resourcepack"@ {
                assert("resourcepack"@.len() != "datapack"@.len());
                assert(p != project_id@);
            }
        }
        prev
    } else if same_text(project_type, "shader") {
        let prev = put_record(&mut index.shaders, project_id, record);
        assert forall|t: Seq<char>, p: Seq<char>, v: Option<Seq<char>>|
            !(t == project_type@ && p == project_id@ && (t != "datapack"@ || v == opt_str(world_id)))
            implies #[trigger] registered(*index, t, p, v) == registered(*old(index), t, p, v) by {
            if t == "shader"@ {
                assert("shader"@.len() != "datapack"@.len());
                assert(p != project_id@);
            }
        }
        prev
    } else if same_text(project_type, "datapack") {
        match world_id {
            Some(w) => match find_world(&index.datapacks, w) {
                Some(i) => {
                    let mut entries = copy_entries(&index.datapacks[i].entries);
                    let prev = put_record(&mut entries, project_id, record);
                    let ghost w0 = index.datapacks@;
                    let world = WorldEntries { world_id: copy_str(w), entries };
                    index.datapacks.set(i, world);
                    proof {
                        lemma_world_update(w0, i as int, index.datapacks@[i as int], w@);
                        assert forall|t: Seq<char>, p: Seq<char>, v: Option<Seq<char>>|
                            !(t == project_type@ && p == project_id@ && (t != "datapack"@ || v == opt_str(world_id)))
                            implies #[trigger] registered(*index, t, p, v) == registered(*old(index), t, p, v) by {
                            if t == "datapack"@ && v == Some(w@) {
                                assert(world_lookup(index.datapacks@, w@) == Some(index.datapacks@[i as int].entries@));
                            }
                        }
                    }
                    prev
                },
                None => {
                    let mut entries: Vec<RecordEntry> = Vec::new();
                    proof {
                        lemma_lookup_absent(entries@, project_id@);
                    }
                    let prev = put_record(&mut entries, project_id, record);
                    let ghost w0 = index.datapacks@;
                    index.datapacks.push(WorldEntries { world_id: copy_str(w), entries });
                    proof {
                        lemma_world_push(w0, index.datapacks@.last(), w@);
                        assert forall|t: Seq<char>, p: Seq<char>, v: Option<Seq<char>>|
                            !(t == project_type@ && p == project_id@ && (t != "datapack"@ || v == opt_str(world_id)))
                            implies #[trigger] registered(*index, t, p, v) == registered(*old(index), t, p, v) by {
                            if t == "datapack"@ && v == Some(w@) {
                                assert(lookup(Seq::<RecordEntry>::empty(), p) is None);
                            }
                        }
                    }
                    prev
                },
            },
            None => None,
        }
    } else {
        None
    }
}

/// A downloadable file of a package version.
#[derive(Clone, Debug, PartialEq, Eq)]
pub struct PackageFile {
    pub url: String,
    pub filename: String,
    pub primary: bool,
}

/// A dependency of a package version.
#[derive(Clone, Debug, PartialEq, Eq)]
pub struct PackageDependency {
    pub project_id: Option<String>,
    pub version_id: Option<String>,
    pub dependency_type: String,
}

/// A published version of a package.
#[derive(Clone, Debug, PartialEq, Eq)]
pub struct PackageVersion {
    pub version_number: String,
    pub version_type: String,
    pub date_published: String,
    pub files: Vec<PackageFile>,
    pub dependencies: Vec<PackageDependency>,
}

/// Lexicographic order of texts by code point (the order of their UTF-8 bytes).
pub open spec fn text_lt(a: Seq<char>, b: Seq<char>) -> bool
    decreases a.len(),
{
    if a.len() == 0 {
        b.len() > 0
    } else if b.len() == 0 {
        false
    } else if a[0] != b[0] {
        (a[0] as int) < (b[0] as int)
    } else {
        text_lt(a.drop_first(), b.drop_first())
    }
}

pub proof fn lemma_text_lt_transitive(a: Seq<char>, b: Seq<char>, c: Seq<char>)
    requires
        !text_lt(b, a),
        !text_lt(c, b),
    ensures
        !text_lt(c, a),
    decreases a.len(),
{
    if a.len() == 0 || b.len() == 0 || c.len() == 0 {
    } else if a[0] == b[0] && b[0] == c[0] {
        lemma_text_lt_transitive(a.drop_first(), b.drop_first(), c.drop_first());
    } else {
        assert((a[0] as int) <= (b[0] as int));
        assert((b[0] as int) <= (c[0] as int));
    }
}

pub proof fn lemma_text_lt_asymmetric(a: Seq<char>, b: Seq<char>)
    requires
        text_lt(a, b),
    ensures
        !text_lt(b, a),
    decreases a.len(),
{
    if a.len() > 0 && b.len() > 0 && a[0] == b[0] {
        lemma_text_lt_asymmetric(a.drop_first(), b.drop_first());
    }
}

/// Whether `a` comes before `b`.
pub fn text_less(a: &str, b: &str) -> (r: bool)
    ensures
        r == text_lt(a@, b@),
{
    let av = crate::text::chars_of(a);
    let bv = crate::text::chars_of(b);
    let mut i: usize = 0;
    assert(a@.subrange(0, a@.len() as int) =~= a@);
    assert(b@.subrange(0, b@.len() as int) =~= b@);
    while i < av.len() && i < bv.len()
        invariant
            av@ == a@,
            bv@ == b@,
            i <= av.len(),
            i <= bv.len(),
            forall|j: int| 0 <= j < i ==> av@[j] == bv@[j],
            text_lt(a@, b@) == text_lt(a@.subrange(i as int, a@.len() as int), b@.subrange(i as int, b@.len() as int)),
        decreases av.len() - i,
    {
        let ghost sa = a@.subrange(i as int, a@.len() as int);
        let ghost sb = b@.subrange(i as int, b@.len() as int);
        assert(sa[0] == av@[i as int]);
        assert(sb[0] == bv@[i as int]);
        if av[i] != bv[i] {
            return av[i] < bv[i];
        }
        assert(sa.drop_first() =~= a@.subrange(i + 1, a@.len() as int));
        assert(sb.drop_first() =~= b@.subrange(i + 1, b@.len() as int));
        i = i + 1;
    }
    i == av.len() && i < bv.len()
}

/// The version is a candidate: a release, or any version when none is.
pub open spec fn is_candidate(versions: Seq<PackageVersion>, i: int) -> bool {
    let any_release = exists|j: int| 0 <= j < versions.len() && (#[trigger] versions[j]).version_type@ == "release"@;
    0 <= i < versions.len() && (!any_release || versions[i].version_type@ == "release"@)
}

/// `i` is the version to install: a candidate, published no earlier than
/// any candidate, and later than every candidate listed after it.
pub open spec fn best_version(versions: Seq<PackageVersion>, i: int) -> bool {
    is_candidate(versions, i) && (forall|j: int|
        is_candidate(versions, j) ==> !text_lt(versions[i].date_published@, #[trigger] versions[j].date_published@))
        && (forall|j: int| i < j && is_candidate(versions, j) ==> text_lt(#[trigger] versions[j].date_published@, versions[i].date_published@))
}

/// Index of the version to install: among releases (or all versions when
/// there is no release), the latest published; of equally dated ones, the
/// last listed. None for an empty list.
pub fn select_version(versions: &Vec<PackageVersion>) -> (r: Option<usize>)
    ensures
        versions@.len() == 0 <==> r is None,
        r matches Some(i) ==> best_version(versions@, i as int),
{
    if versions.len() == 0 {
        return None;
    }
    let mut any_release = false;
    let mut k: usize = 0;
    while k < versions.len()
        invariant
            k <= versions.len(),
            any_release == exists|j: int| 0 <= j < k && (#[trigger] versions@[j]).version_type@ == "release"@,
        decreases versions.len() - k,
    {
        if same_text(versions[k].version_type.as_str(), "release") {
            any_release = true;
        }
        k = k + 1;
    }
    let mut best: Option<usize> = None;
    let mut i: usize = 0;
    while i < versions.len()
        invariant
            i <= versions.len(),
            any_release == exists|j: int| 0 <= j < versions@.len() && (#[trigger] versions@[j]).version_type@ == "release"@,
            match best {
                Some(b) => b < i && is_candidate(versions@, b as int) && (forall|j: int|
                    0 <= j < i && is_candidate(versions@, j) ==> !text_lt(versions@[b as int].date_published@, #[trigger] versions@[j].date_published@))
                    && (forall|j: int| b < j < i && is_candidate(versions@, j) ==> text_lt(#[trigger] versions@[j].date_published@, versions@[b as int].date_published@)),
                None => forall|j: int| 0 <= j < i ==> !is_candidate(versions@, j),
            },
        decreases versions.len() - i,
    {
        let candidate = !any_release || same_text(versions[i].version_type.as_str(), "release");
        if candidate {
            match best {
                Some(b) => {
                    let earlier = text_less(versions[i].date_published.as_str(), versions[b].date_published.as_str());
                    if earlier {
                        proof {
                            lemma_text_lt_asymmetric(versions@[i as int].date_published@, versions@[b as int].date_published@);
                        }
                    }
                    if !earlier {
                        proof {
                            assert forall|j: int|
                                0 <= j < i + 1 && is_candidate(versions@, j) implies !text_lt(
                                versions@[i as int].date_published@,
                                #[trigger] versions@[j].date_published@,
                            ) by {
                                if j < i {
                                    lemma_text_lt_transitive(versions@[j].date_published@, versions@[b as int].date_published@, versions@[i as int].date_published@);
                                } else {
                                    lemma_text_lt_irreflexive(versions@[j].date_published@);
                                }
                            }
                        }
                        best = Some(i);
                    }
                },
                None => {
                    proof {
                        lemma_text_lt_irreflexive(versions@[i as int].date_published@);
                    }
                    best = Some(i);
                },
            }
        }
        i = i + 1;
    }
    proof {
        if best is None {
            if any_release {
                let j = choose|j: int| 0 <= j < versions@.len() && (#[trigger] versions@[j]).version_type@ == "release"@;
                assert(is_candidate(versions@, j));
            } else {
                assert(is_candidate(versions@, 0));
            }
        }
    }
    best
}

pub proof fn lemma_text_lt_irreflexive(a: Seq<char>)
    ensures
        !text_lt(a, a),
    decreases a.len(),
{
    if a.len() > 0 {
        lemma_text_lt_irreflexive(a.drop_first());
    }
}

/// `i` is the file to download: the first primary file, else the first file.
pub open spec fn chosen_file(files: Seq<PackageFile>, i: int) -> bool {
    0 <= i < files.len() && if exists|j: int| 0 <= j < files.len() && (#[trigger] files[j]).primary {
        files[i].primary && forall|j: int| 0 <= j < i ==> !(#[trigger] files[j]).primary
    } else {
        i == 0
    }
}

/// Index of the file to download: the first primary file, else the first file.
pub fn select_file(version: &PackageVersion) -> (r: Option<usize>)
    ensures
        version.files@.len() == 0 <==> r is None,
        r matches Some(i) ==> chosen_file(version.files@, i as int),
{
    let mut i: usize = 0;
    while i < version.files.len()
        invariant
            i <= version.files.len(),
            forall|j: int| 0 <= j < i ==> !(#[trigger] version.files@[j]).primary,
        decreases version.files.len() - i,
    {
        if version.files[i].primary {
            return Some(i);
        }
        i = i + 1;
    }
    if version.files.len() > 0 {
        Some(0)
    } else {
        None
    }
}

/// Loader filter of a version query (see `resolve_loader_filter`).
pub open spec fn loader_filter_of(project_type: Seq<char>, loader: Option<Seq<char>>) -> Option<Seq<char>> {
    if project_type == "resourcepack"@ {
        Some("minecraft"@)
    } else if project_type == "mod"@ {
        loader
    } else {
        None
    }
}

/// Loader filter of a version query: `minecraft` for resource packs, the
/// requested loader for mods, none otherwise.
pub fn resolve_loader_filter(project_type: &str, loader: Option<&str>) -> (r: Option<String>)
    ensures
        opt_text(r) == loader_filter_of(project_type@, opt_str(loader)),
{
    if same_text(project_type, "resourcepack") {
        Some(copy_str("minecraft"))
    } else if same_text(project_type, "mod") {
        match loader {
            Some(l) => Some(copy_str(l)),
            None => None,
        }
    } else {
        None
    }
}

/// Folder a project of the given type installs into.
pub open spec fn target_dir_of(instance_dir: Seq<char>, project_type: Seq<char>, world: Option<Seq<char>>) -> Option<Seq<char>> {
    if project_type == "mod"@ {
        Some(instance_dir + "/"@ + "mods"@)
    } else if project_type == "resourcepack"@ {
        Some(instance_dir + "/"@ + "resourcepacks"@)
    } else if project_type == "shader"@ {
        Some(instance_dir + "/"@ + "shaderpacks"@)
    } else if project_type == "datapack"@ {
        match world {
            Some(w) => Some(instance_dir + "/"@ + "saves"@ + "/"@ + w + "/"@ + "datapacks"@),
            None => None,
        }
    } else {
        None
    }
}

/// Folder a project of the given type installs into; datapacks need a world.
pub fn resolve_target_dir(instance_dir: &str, project_type: &str, world_id: Option<&str>) -> (r: Result<String, String>)
    ensures
        match target_dir_of(instance_dir@, project_type@, opt_str(world_id)) {
            Some(d) => r matches Ok(x) && x@ == d,
            None => r matches Err(e) && e@ == if project_type@ == "datapack"@ {
                "world id is required for datapacks"@
            } else {
                "unsupported Modrinth project type"@
            },
        },
{
    if same_text(project_type, "mod") {
        Ok(join_path(instance_dir, "mods"))
    } else if same_text(project_type, "resourcepack") {
        Ok(join_path(instance_dir, "resourcepacks"))
    } else if same_text(project_type, "shader") {
        Ok(join_path(instance_dir, "shaderpacks"))
    } else if same_text(project_type, "datapack") {
        match world_id {
            Some(w) => {
                let mut d = join_path(instance_dir, "saves");
                d.append("/");
                d.append(w);
                d.append("/");
                d.append("datapacks");
                Ok(d)
            },
            None => Err(copy_str("world id is required for datapacks")),
        }
    } else {
        Err(copy_str("unsupported Modrinth project type"))
    }
}

/// UTF-8 bytes of a character.
pub open spec fn utf8_bytes(c: char) -> Seq<int> {
    let n = c as int;
    if n < 0x80 {
        seq![n]
    } else if n < 0x800 {
        seq![0xC0 + n / 64, 0x80 + n % 64]
    } else if n < 0x10000 {
        seq![0xE0 + n / 4096, 0x80 + (n / 64) % 64, 0x80 + n % 64]
    } else {
        seq![0xF0 + n / 262144, 0x80 + (n / 4096) % 64, 0x80 + (n / 64) % 64, 0x80 + n % 64]
    }
}

/// Upper-case hexadecimal digit of `d` (below 16).
pub open spec fn hex_upper(d: int) -> char {
    if d < 10 {
        crate::text::digit(d as nat)
    } else if d == 10 {
        'A'
    } else if d == 11 {
        'B'
    } else if d == 12 {
        'C'
    } else if d == 13 {
        'D'
    } else if d == 14 {
        'E'
    } else {
        'F'
    }
}

/// ASCII letters, digits and `-`, `.`, `_`, `~`: kept as they are.
pub open spec fn unreserved(c: char) -> bool {
    ('0' <= c && c <= '9') || ('A' <= c && c <= 'Z') || ('a' <= c && c <= 'z') || c == '-' || c == '.' || c
        == '_' || c == '~'
}

/// `%XX` for each UTF-8 byte of `bytes`, in upper-case hexadecimal.
pub open spec fn percent_bytes(bytes: Seq<int>) -> Seq<char>
    decreases bytes.len(),
{
    if bytes.len() == 0 {
        Seq::empty()
    } else {
        seq!['%', hex_upper(bytes[0] / 16), hex_upper(bytes[0] % 16)] + percent_bytes(bytes.drop_first())
    }
}

/// Percent-encoding of a text: unreserved characters kept, every UTF-8
/// byte of any other character written as `%XX`.
pub open spec fn url_encoded(s: Seq<char>) -> Seq<char>
    decreases s.len(),
{
    if s.len() == 0 {
        Seq::empty()
    } else {
        url_encoded(s.drop_last()) + if unreserved(s.last()) {
            seq![s.last()]
        } else {
            percent_bytes(utf8_bytes(s.last()))
        }
    }
}

/// Relies on urlencoding::encode: every UTF-8 byte but ASCII letters,
/// digits and `-_.~` written as `%` and two upper-case hexadecimal digits.
#[verifier::external_body]
pub(crate) fn url_encode(s: &str) -> (r: String)
    ensures
        r@ == url_encoded(s@),
{
    urlencoding::encode(s).into_owned()
}

/// Compact JSON text of a list of lists of strings.
pub uninterp spec fn json_of_lists(v: Seq<Seq<Seq<char>>>) -> Seq<char>;

/// Relies on serde_json::to_string: the compact JSON text of the value,
/// which depends on the value alone; it fails only when a `Serialize` impl
/// fails or a map key is no string, neither of which a list of lists of
/// strings has.
#[verifier::external_body]
pub(crate) fn json_lists(v: &Vec<Vec<String>>) -> (r: Option<String>)
    ensures
        r is Some,
        r matches Some(t) ==> t@ == json_of_lists(v.deep_view()),
{
    serde_json::to_string(v).ok()
}

/// Encodes a list of lists of strings as a URL query value: its JSON text,
/// percent-encoded.
pub fn encode_json_param(v: &Vec<Vec<String>>) -> (r: Result<String, String>)
    ensures
        r matches Ok(t) && t@ == url_encoded(json_of_lists(v.deep_view())),
{
    match json_lists(v) {
        Some(t) => Ok(url_encode(t.as_str())),
        None => Err(copy_str("could not encode query parameter")),
    }
}

/// Compact JSON text of a list of strings.
pub uninterp spec fn json_of_list(v: Seq<Seq<char>>) -> Seq<char>;

/// Relies on serde_json::to_string: the compact JSON text of the list, which
/// depends on the list alone; it fails only when a `Serialize` impl fails or
/// a map key is no string, neither of which a list of strings has.
#[verifier::external_body]
fn json_list(v: &Vec<String>) -> (r: Option<String>)
    ensures
        r is Some,
        r matches Some(t) ==> t@ == json_of_list(v.deep_view()),
{
    serde_json::to_string(v).ok()
}

fn single(s: &str) -> (r: Vec<String>)
    ensures
        r.deep_view() == seq![s@],
{
    let mut v: Vec<String> = Vec::new();
    v.push(copy_str(s));
    assert(v.deep_view() =~= seq![s@]);
    v
}

/// URL of the versions of a project for a game version and loader filter.
pub open spec fn versions_url_of(project_id: Seq<char>, game_version: Seq<char>, loader: Option<Seq<char>>) -> Seq<char> {
    MODRINTH_BASE_URL@ + "/project/"@ + project_id + "/version?game_versions="@ + url_encoded(
        json_of_list(seq![game_version]),
    ) + match loader {
        Some(l) => "&loaders="@ + url_encoded(json_of_list(seq![l])),
        None => Seq::empty(),
    }
}

/// URL of the versions of a project for a game version (and loader, when
/// the project type filters by one).
pub fn project_versions_url(project_id: &str, game_version: &str, loader: &Option<String>) -> (r: Result<String, String>)
    ensures
        r matches Ok(u) && u@ == versions_url_of(project_id@, game_version@, opt_text(*loader)),
{
    let mut url = copy_str(MODRINTH_BASE_URL);
    url.append("/project/");
    url.append(project_id);
    url.append("/version?game_versions=");
    let gv = single(game_version);
    let t = match json_list(&gv) {
        Some(t) => t,
        None => return Err(copy_str("could not encode query parameter")),
    };
    let e = url_encode(t.as_str());
    url.append(e.as_str());
    match loader {
        Some(l) => {
            let lv = single(l.as_str());
            let t = match json_list(&lv) {
                Some(t) => t,
                None => return Err(copy_str("could not encode query parameter")),
            };
            let e = url_encode(t.as_str());
            url.append("&loaders=");
            url.append(e.as_str());
        },
        None => {},
    }
    Ok(url)
}

/// URL of a project.
pub fn project_url(project_id: &str) -> (r: String)
    ensures
        r@ == MODRINTH_BASE_URL@ + "/project/"@ + project_id@,
{
    let mut url = copy_str(MODRINTH_BASE_URL);
    url.append("/project/");
    url.append(project_id);
    url
}

/// URL of a version.
pub fn version_url(version_id: &str) -> (r: String)
    ensures
        r@ == MODRINTH_BASE_URL@ + "/version/"@ + version_id@,
{
    let mut url = copy_str(MODRINTH_BASE_URL);
    url.append("/version/");
    url.append(version_id);
    url
}

/// Facet groups of a search: the project type, the game version (when
/// given), the loader category (when given), then each non-empty extra group.
pub open spec fn search_facets(
    project_type: Seq<char>,
    game_version: Seq<char>,
    loader: Option<Seq<char>>,
    extra: Seq<Seq<Seq<char>>>,
) -> Seq<Seq<Seq<char>>> {
    seq![seq!["project_type:"@ + project_type]] + (if game_version.len() > 0 {
        seq![seq!["versions:"@ + game_version]]
    } else {
        Seq::empty()
    }) + (match loader {
        Some(l) => seq![seq!["categories:"@ + l]],
        None => Seq::empty(),
    }) + extra.filter(|g: Seq<Seq<char>>| g.len() > 0)
}

fn prefixed(prefix: &str, s: &str) -> (r: Vec<String>)
    ensures
        r.deep_view() == seq![prefix@ + s@],
{
    let mut t = copy_str(prefix);
    t.append(s);
    single(t.as_str())
}

fn copy_group(g: &Vec<String>) -> (r: Vec<String>)
    ensures
        r.deep_view() == g.deep_view(),
{
    let r = crate::text::copy_strings(g);
    assert(texts(r@).len() == r@.len());
    assert(texts(g@).len() == g@.len());
    assert forall|i: int| 0 <= i < r@.len() implies #[trigger] r.deep_view()[i] == g.deep_view()[i] by {
        assert(texts(r@)[i] == texts(g@)[i]);
    }
    assert(r.deep_view() =~= g.deep_view());
    r
}

/// URL of a faceted search (see `search_facets`), with the query, facets and
/// sort index percent-encoded.
pub fn build_search_url(
    query: &str,
    project_type: &str,
    game_version: &str,
    loader: Option<&str>,
    limit: u32,
    index: Option<&str>,
    extra_facets: &Option<Vec<Vec<String>>>,
) -> (r: Result<String, String>)
    ensures
        r matches Ok(u) && u@ == MODRINTH_BASE_URL@ + "/search?query="@ + url_encoded(query@) + "&facets="@
            + url_encoded(json_of_lists(search_facets(project_type@, game_version@, opt_str(loader), match extra_facets {
                Some(x) => x.deep_view(),
                None => Seq::empty(),
            }))) + "&limit="@ + decimal(limit as nat) + match index {
            Some(i) => "&index="@ + url_encoded(i@),
            None => Seq::empty(),
        },
{
    let ghost extra = match extra_facets {
        Some(x) => x.deep_view(),
        None => Seq::<Seq<Seq<char>>>::empty(),
    };
    let ghost nonempty = |g: Seq<Seq<char>>| g.len() > 0;
    let mut facets: Vec<Vec<String>> = Vec::new();
    facets.push(prefixed("project_type:", project_type));
    if game_version.unicode_len() > 0 {
        facets.push(prefixed("versions:", game_version));
    }
    match loader {
        Some(l) => facets.push(prefixed("categories:", l)),
        None => {},
    }
    let ghost head = facets.deep_view();
    proof {
        reveal(Seq::filter);
        assert(head =~= search_facets(project_type@, game_version@, opt_str(loader), Seq::empty()).subrange(0, head.len() as int));
    }
    match extra_facets {
        Some(x) => {
            let mut i: usize = 0;
            assert(x.deep_view().subrange(0, 0).filter(nonempty) =~= Seq::<Seq<Seq<char>>>::empty());
            assert(facets.deep_view() =~= head + x.deep_view().subrange(0, 0).filter(nonempty));
            while i < x.len()
                invariant
                    i <= x.len(),
                    nonempty == (|g: Seq<Seq<char>>| g.len() > 0),
                    facets.deep_view() == head + x.deep_view().subrange(0, i as int).filter(nonempty),
                decreases x.len() - i,
            {
                let ghost pre = x.deep_view().subrange(0, i + 1);
                proof {
                    reveal(Seq::filter);
                    assert(pre.drop_last() =~= x.deep_view().subrange(0, i as int));
                    assert(pre.last() == x[i as int].deep_view());
                }
                if x[i].len() > 0 {
                    let g = copy_group(&x[i]);
                    let ghost before = facets.deep_view();
                    let ghost gv = g.deep_view();
                    facets.push(g);
                    assert(facets.deep_view() =~= before.push(gv));
                    assert(nonempty(pre.last()));
                    assert(facets.deep_view() =~= head + pre.filter(nonempty));
                } else {
                    assert(facets.deep_view() =~= head + pre.filter(nonempty));
                }
                i = i + 1;
            }
            assert(x.deep_view().subrange(0, x.len() as int) =~= x.deep_view());
        },
        None => {
            proof {
                reveal(Seq::filter);
            }
            assert(facets.deep_view() =~= head + Seq::<Seq<Seq<char>>>::empty().filter(nonempty));
        },
    }
    assert(facets.deep_view() =~= search_facets(project_type@, game_version@, opt_str(loader), extra));
    let param = match encode_json_param(&facets) {
        Ok(p) => p,
        Err(e) => return Err(e),
    };
    let mut url = copy_str(MODRINTH_BASE_URL);
    url.append("/search?query=");
    let q = url_encode(query);
    url.append(q.as_str());
    url.append("&facets=");
    url.append(param.as_str());
    url.append("&limit=");
    let l = decimal_text(limit as u64);
    url.append(l.as_str());
    match index {
        Some(i) => {
            url.append("&index=");
            let e = url_encode(i);
            url.append(e.as_str());
        },
        None => {},
    }
    Ok(url)
}

proof fn lemma_lookup_concat(a: Seq<RecordEntry>, b: Seq<RecordEntry>, q: Seq<char>)
    ensures
        lookup(a + b, q) == if lookup(a, q) is Some { lookup(a, q) } else { lookup(b, q) },
    decreases a.len(),
{
    if a.len() == 0 {
        assert(a + b =~= b);
    } else {
        assert((a + b).drop_first() =~= a.drop_first() + b);
        lemma_lookup_concat(a.drop_first(), b, q);
    }
}

/// Removes every record of `project` from `entries`; returns the one a
/// lookup found.
fn take_record(entries: &mut Vec<RecordEntry>, project: &str) -> (prev: Option<InstallRecord>)
    ensures
        lookup(final(entries)@, project@) is None,
        forall|q: Seq<char>| q != project@ ==> #[trigger] lookup(final(entries)@, q) == lookup(old(entries)@, q),
        match prev {
            Some(x) => lookup(old(entries)@, project@) == Some(record_view(x)),
            None => lookup(old(entries)@, project@) is None,
        },
{
    let ghost e0 = entries@;
    let n = entries.len();
    let mut kept: Vec<RecordEntry> = Vec::new();
    let mut prev: Option<InstallRecord> = None;
    let mut i: usize = 0;
    assert(kept@ + e0.subrange(0, n as int) =~= e0);
    while i < n
        invariant
            i <= n,
            n == e0.len(),
            entries@ == e0,
            e0 == old(entries)@,
            lookup(kept@, project@) is None,
            forall|q: Seq<char>| q != project@ ==> #[trigger] lookup(kept@ + e0.subrange(i as int, n as int), q) == lookup(e0, q),
            match prev {
                Some(x) => lookup(e0, project@) == Some(record_view(x)),
                None => lookup(e0, project@) == lookup(e0.subrange(i as int, n as int), project@),
            },
        decreases n - i,
    {
        let ghost k0 = kept@;
        let ghost rest = e0.subrange(i as int, n as int);
        assert(rest[0] == e0[i as int]);
        assert(rest.drop_first() =~= e0.subrange(i + 1, n as int));
        if same_text(entries[i].project_id.as_str(), project) {
            if prev.is_none() {
                prev = Some(copy_record(&entries[i].record));
            }
            proof {
                assert forall|q: Seq<char>| q != project@ implies #[trigger] lookup(k0 + e0.subrange(i + 1, n as int), q) == lookup(e0, q) by {
                    lemma_lookup_concat(k0, rest, q);
                    lemma_lookup_concat(k0, e0.subrange(i + 1, n as int), q);
                }
            }
        } else {
            let x = RecordEntry { project_id: entries[i].project_id.clone(), record: copy_record(&entries[i].record) };
            kept.push(x);
            proof {
                assert(kept@ =~= k0.push(e0[i as int]));
                assert(kept@ + e0.subrange(i + 1, n as int) =~= k0 + rest);
                lemma_lookup_concat(k0, seq![e0[i as int]], project@);
                assert(k0.push(e0[i as int]) =~= k0 + seq![e0[i as int]]);
                assert(seq![e0[i as int]].drop_first() =~= Seq::<RecordEntry>::empty());
                assert(e0[i as int].project_id@ != project@);
                assert(lookup(seq![e0[i as int]], project@) == lookup(Seq::<RecordEntry>::empty(), project@));
            }
        }
        i = i + 1;
    }
    assert(kept@ + e0.subrange(n as int, n as int) =~= kept@);
    *entries = kept;
    prev
}

/// Removes the record of a project and returns it (the caller deletes its
/// file and saves the registry); every other record stays.
/// Fails on an unknown project type, and for a datapack without a world.
pub fn uninstall_record(
    index: &mut InstallIndex,
    project_type: &str,
    project_id: &str,
    world_id: Option<&str>,
) -> (r: Result<Option<InstallRecord>, String>)
    ensures
        r is Err <==> !known_type(project_type@, opt_str(world_id)),
        r matches Err(e) ==> e@ == if project_type@ == "datapack"@ {
            "world id is required for datapacks"@
        } else {
            "unsupported Modrinth project type"@
        },
        r matches Ok(Some(x)) ==> registered(*old(index), project_type@, project_id@, opt_str(world_id)) == Some(record_view(x)),
        r matches Ok(None) ==> registered(*old(index), project_type@, project_id@, opt_str(world_id)) is None,
        r is Ok ==> registered(*final(index), project_type@, project_id@, opt_str(world_id)) is None,
        forall|t: Seq<char>, p: Seq<char>, v: Option<Seq<char>>|
            !(t == project_type@ && p == project_id@ && (t != "datapack"@ || v == opt_str(world_id)))
                ==> #[trigger] registered(*final(index), t, p, v) == registered(*old(index), t, p, v),
{
    proof {
        reveal_strlit("mod");
        reveal_strlit("resourcepack");
        reveal_strlit("shader");
        reveal_strlit("datapack");
    }
    if same_text(project_type, "mod") {
        let prev = take_record(&mut index.mods, project_id);
        assert forall|t: Seq<char>, p: Seq<char>, v: Option<Seq<char>>|
            !(t == project_type@ && p == project_id@ && (t != "datapack"@ || v == opt_str(world_id)))
            implies #[trigger] registered(*index, t, p, v) == registered(*old(index), t, p, v) by {
            if t == "mod"@ {
                assert("mod"@.len() != "datapack"@.len());
                assert(p != project_id@);
            }
        }
        Ok(prev)
    } else if same_text(project_type, "resourcepack") {
        let prev = take_record(&mut index.resources, project_id);
        assert forall|t: Seq<char>, p: Seq<char>, v: Option<Seq<char>>|
            !(t == project_type@ && p == project_id@ && (t != "datapack"@ || v == opt_str(world_id)))
            implies #[trigger] registered(*index, t, p, v) == registered(*old(index), t, p, v) by {
            if t == "resourcepack"@ {
                assert("resourcepack"@.len() != "datapack"@.len());
                assert(p != project_id@);
            }
        }
        Ok(prev)
    } else if same_text(project_type, "shader") {
        let prev = take_record(&mut index.shaders, project_id);
        assert forall|t: Seq<char>, p: Seq<char>, v: Option<Seq<char>>|
            !(t == project_type@ && p == project_id@ && (t != "datapack"@ || v == opt_str(world_id)))
            implies #[trigger] registered(*index, t, p, v) == registered(*old(index), t, p, v) by {
            if t == "shader"@ {
                assert("shader"@.len() != "datapack"@.len());
                assert(p != project_id@);
            }
        }
        Ok(prev)
    } else if same_text(project_type, "datapack") {
        match world_id {
            Some(w) => match find_world(&index.datapacks, w) {
                Some(i) => {
                    let mut entries = copy_entries(&index.datapacks[i].entries);
                    let prev = take_record(&mut entries, project_id);
                    let ghost w0 = index.datapacks@;
                    index.datapacks.set(i, WorldEntries { world_id: copy_str(w), entries });
                    proof {
                        lemma_world_update(w0, i as int, index.datapacks@[i as int], w@);
                        assert forall|t: Seq<char>, p: Seq<char>, v: Option<Seq<char>>|
                            !(t == project_type@ && p == project_id@ && (t != "datapack"@ || v == opt_str(world_id)))
                            implies #[trigger] registered(*index, t, p, v) == registered(*old(index), t, p, v) by {
                            if t == "datapack"@ && v == Some(w@) {
                                assert(world_lookup(index.datapacks@, w@) == Some(index.datapacks@[i as int].entries@));
                            }
                        }
                    }
                    Ok(prev)
                },
                None => Ok(None),
            },
            None => Err(copy_str("world id is required for datapacks")),
        }
    } else {
        Err(copy_str("unsupported Modrinth project type"))
    }
}

/// Project ids of the given type in the registry (of one world, for
/// datapacks).
pub open spec fn installed_ids(index: InstallIndex, project_type: Seq<char>, world: Option<Seq<char>>) -> Seq<Seq<char>> {
    let entries = if project_type == "mod"@ {
        index.mods@
    } else if project_type == "resourcepack"@ {
        index.resources@
    } else if project_type == "shader"@ {
        index.shaders@
    } else {
        match world {
            Some(w) => match world_lookup(index.datapacks@, w) {
                Some(e) => e,
                None => Seq::empty(),
            },
            None => Seq::empty(),
        }
    };
    entries.map_values(|e: RecordEntry| e.project_id@)
}

/// `s` is in non-decreasing text order.
pub open spec fn sorted_texts(s: Seq<Seq<char>>) -> bool {
    forall|i: int, j: int| 0 <= i < j < s.len() ==> !text_lt(#[trigger] s[j], #[trigger] s[i])
}

fn ids_of(entries: &Vec<RecordEntry>) -> (r: Vec<String>)
    ensures
        texts(r@) == entries@.map_values(|e: RecordEntry| e.project_id@),
{
    let mut r: Vec<String> = Vec::new();
    let mut i: usize = 0;
    while i < entries.len()
        invariant
            i <= entries.len(),
            texts(r@) == entries@.subrange(0, i as int).map_values(|e: RecordEntry| e.project_id@),
        decreases entries.len() - i,
    {
        let ghost prev = texts(r@);
        r.push(entries[i].project_id.clone());
        assert(texts(r@) =~= prev.push(entries@[i as int].project_id@));
        assert(texts(r@) =~= entries@.subrange(0, i + 1).map_values(|e: RecordEntry| e.project_id@));
        i = i + 1;
    }
    assert(entries@.subrange(0, entries.len() as int) =~= entries@);
    r
}

/// Sorts texts into non-decreasing order, keeping every element.
pub fn sort_texts(v: Vec<String>) -> (r: Vec<String>)
    ensures
        sorted_texts(texts(r@)),
        texts(r@).to_multiset() == texts(v@).to_multiset(),
{
    let mut r: Vec<String> = Vec::new();
    let mut i: usize = 0;
    proof {
        assert(texts(r@) =~= Seq::<Seq<char>>::empty());
        assert(texts(v@).subrange(0, 0) =~= Seq::<Seq<char>>::empty());
    }
    while i < v.len()
        invariant
            i <= v.len(),
            sorted_texts(texts(r@)),
            texts(r@).to_multiset() == texts(v@).subrange(0, i as int).to_multiset(),
        decreases v.len() - i,
    {
        let x = v[i].clone();
        let mut k: usize = 0;
        while k < r.len() && !text_less(x.as_str(), r[k].as_str())
            invariant
                k <= r.len(),
                forall|j: int| 0 <= j < k ==> !text_lt(x@, #[trigger] texts(r@)[j]),
            decreases r.len() - k,
        {
            k = k + 1;
        }
        let ghost before = texts(r@);
        let ghost xv = x@;
        r.insert(k, x);
        proof {
            assert(texts(r@) =~= before.insert(k as int, xv));
            vstd::seq_lib::to_multiset_insert(before, k as int, xv);
            assert(texts(v@).subrange(0, i + 1) =~= texts(v@).subrange(0, i as int).push(xv));
            vstd::seq_lib::to_multiset_build(texts(v@).subrange(0, i as int), xv);
            assert forall|a: int, b: int| 0 <= a < b < texts(r@).len() implies !text_lt(
                #[trigger] texts(r@)[b],
                #[trigger] texts(r@)[a],
            ) by {
                let t = texts(r@);
                if b < k {
                    assert(t[a] == before[a] && t[b] == before[b]);
                } else if b == k {
                    assert(t[a] == before[a]);
                } else if a == k {
                    assert(t[b] == before[b - 1]);
                    if k < before.len() {
                        assert(text_lt(xv, before[k as int]));
                        if b - 1 > k {
                            lemma_text_lt_asymmetric(xv, before[k as int]);
                            assert(!text_lt(before[b - 1], before[k as int]));
                            lemma_text_lt_transitive(xv, before[k as int], before[b - 1]);
                        } else {
                            lemma_text_lt_asymmetric(xv, before[k as int]);
                        }
                    }
                } else if a < k {
                    assert(t[a] == before[a] && t[b] == before[b - 1]);
                } else {
                    assert(t[a] == before[a - 1] && t[b] == before[b - 1]);
                }
            }
        }
        i = i + 1;
    }
    assert(texts(v@).subrange(0, v.len() as int) =~= texts(v@));
    r
}

/// Project ids installed of a type, in text order. Fails on an unknown
/// project type, and for datapacks without a world.
pub fn list_installs(index: &InstallIndex, project_type: &str, world_id: Option<&str>) -> (r: Result<Vec<String>, String>)
    ensures
        r is Err <==> !known_type(project_type@, opt_str(world_id)),
        r matches Ok(v) ==> sorted_texts(texts(v@)) && texts(v@).to_multiset() == installed_ids(
            *index,
            project_type@,
            opt_str(world_id),
        ).to_multiset(),
{
    proof {
        reveal_strlit("mod");
        reveal_strlit("resourcepack");
        reveal_strlit("shader");
        reveal_strlit("datapack");
    }
    let ids = if same_text(project_type, "mod") {
        ids_of(&index.mods)
    } else if same_text(project_type, "resourcepack") {
        ids_of(&index.resources)
    } else if same_text(project_type, "shader") {
        ids_of(&index.shaders)
    } else if same_text(project_type, "datapack") {
        match world_id {
            Some(w) => match find_world(&index.datapacks, w) {
                Some(i) => ids_of(&index.datapacks[i].entries),
                None => {
                    let v: Vec<String> = Vec::new();
                    assert(texts(v@) =~= installed_ids(*index, project_type@, opt_str(world_id)));
                    v
                },
            },
            None => return Err(copy_str("world id is required for datapacks")),
        }
    } else {
        return Err(copy_str("unsupported Modrinth project type"));
    };
    Ok(sort_texts(ids))
}

} // verus!
