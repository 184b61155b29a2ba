//! Creating an instance: request validation, instance-root choice, a
//! collision-free folder name, and the directory skeleton.

use vstd::prelude::*;
use crate::config::{AppConfig, Instance, InstanceRoot, Loader, copy_opt};
use crate::text::{
    chars_of, copy_str, decimal, decimal_text, digit, join_path, push_char, same_text, texts, trim, trimmed,
};

verus! {

/// A request to create an instance.
#[derive(Clone, Debug, PartialEq, Eq)]
pub struct NewInstanceRequest {
    pub name: String,
    pub game_version: String,
    pub loader: Loader,
    pub loader_version: Option<String>,
    pub show_snapshots: bool,
    pub root_id: Option<String>,
}

/// Directories of an instance's skeleton, relative to its root.
pub open spec fn layout_dirs() -> Seq<Seq<char>> {
    seq![
        "versions"@,
        "libraries"@,
        "assets/indexes"@,
        "assets/objects"@,
        "resourcepacks"@,
        "shaderpacks"@,
        "texturepacks"@,
        "config"@,
        "logs"@,
        "mods"@,
        "installers"@,
        "natives"@,
    ]
}

/// Directories to create for an instance: its root, then each skeleton
/// directory under it.
pub fn instance_layout(instance_dir: &str) -> (r: Vec<String>)
    ensures
        texts(r@) == seq![instance_dir@] + layout_dirs().map_values(|d: Seq<char>| instance_dir@ + "/"@ + d),
{
    let mut r: Vec<String> = Vec::new();
    r.push(copy_str(instance_dir));
    r.push(join_path(instance_dir, "versions"));
    r.push(join_path(instance_dir, "libraries"));
    r.push(join_path(instance_dir, "assets/indexes"));
    r.push(join_path(instance_dir, "assets/objects"));
    r.push(join_path(instance_dir, "resourcepacks"));
    r.push(join_path(instance_dir, "shaderpacks"));
    r.push(join_path(instance_dir, "texturepacks"));
    r.push(join_path(instance_dir, "config"));
    r.push(join_path(instance_dir, "logs"));
    r.push(join_path(instance_dir, "mods"));
    r.push(join_path(instance_dir, "installers"));
    r.push(join_path(instance_dir, "natives"));
    assert(texts(r@) =~= seq![instance_dir@] + layout_dirs().map_values(|d: Seq<char>| instance_dir@ + "/"@ + d));
    r
}

/// A character a folder name may not hold.
pub open spec fn path_unsafe(c: char) -> bool {
    c == '/' || c == '\\' || c == ':' || c == '*' || c == '?' || c == '"' || c == '<' || c == '>' || c == '|'
}

/// `s` with every unsafe character replaced by `-`.
pub open spec fn dashed(s: Seq<char>) -> Seq<char> {
    s.map_values(|c: char| if path_unsafe(c) { '-' } else { c })
}

/// A filesystem-safe folder name for an instance name: trimmed, unsafe
/// characters replaced by `-`, trimmed again; `Instance` when nothing is left.
pub open spec fn folder_name(name: Seq<char>) -> Seq<char> {
    let cleaned = trimmed(dashed(trimmed(name)));
    if cleaned.len() == 0 {
        "Instance"@
    } else {
        cleaned
    }
}

/// A filesystem-safe folder name (see `folder_name`).
pub fn sanitize_folder_name(name: &str) -> (r: String)
    ensures
        r@ == folder_name(name@),
{
    let t = trim(name);
    let v = chars_of(t.as_str());
    let mut d = String::new();
    let mut i: usize = 0;
    while i < v.len()
        invariant
            i <= v.len(),
            v@ == t@,
            d@ == dashed(t@.subrange(0, i as int)),
        decreases v.len() - i,
    {
        let c = v[i];
        if c == '/' || c == '\\' || c == ':' || c == '*' || c == '?' || c == '"' || c == '<' || c == '>' || c == '|' {
            push_char(&mut d, '-');
        } else {
            push_char(&mut d, c);
        }
        assert(dashed(t@.subrange(0, i + 1)) =~= dashed(t@.subrange(0, i as int)).push(
            if path_unsafe(c) { '-' } else { c },
        ));
        i = i + 1;
    }
    assert(t@.subrange(0, v.len() as int) =~= t@);
    let cleaned = trim(d.as_str());
    if cleaned.as_str().unicode_len() == 0 {
        copy_str("Instance")
    } else {
        cleaned
    }
}

/// The `k`-th folder name tried for base name `b`: `b` itself, then `b 2`,
/// `b 3`, and so on.
pub open spec fn candidate(b: Seq<char>, k: nat) -> Seq<char> {
    if k <= 1 {
        b
    } else {
        b + " "@ + decimal(k)
    }
}

proof fn lemma_decimal_len(n: nat)
    ensures
        decimal(n).len() >= 1,
        n >= 10 ==> decimal(n).len() >= 2,
    decreases n,
{
    if n >= 10 {
        lemma_decimal_len(n / 10);
    }
}

proof fn lemma_decimal_injective(a: nat, b: nat)
    requires
        decimal(a) == decimal(b),
    ensures
        a == b,
    decreases a,
{
    lemma_decimal_len(a);
    lemma_decimal_len(b);
    if a < 10 && b < 10 {
        assert(decimal(a)[0] == digit(a));
        assert(decimal(b)[0] == digit(b));
    } else if a >= 10 && b >= 10 {
        let da = decimal(a / 10);
        let db = decimal(b / 10);
        assert(decimal(a) == da.push(digit(a % 10)));
        assert(decimal(b) == db.push(digit(b % 10)));
        assert(da =~= decimal(a).drop_last());
        assert(db =~= decimal(b).drop_last());
        assert(decimal(a).last() == digit(a % 10));
        assert(decimal(b).last() == digit(b % 10));
        assert(digit(a % 10) == digit(b % 10));
        lemma_decimal_injective(a / 10, b / 10);
    } else {
        assert(decimal(a).len() != decimal(b).len());
    }
}

proof fn lemma_candidates_distinct(b: Seq<char>, j: nat, k: nat)
    requires
        1 <= j,
        1 <= k,
        candidate(b, j) == candidate(b, k),
    ensures
        j == k,
{
    reveal_strlit(" ");
    lemma_decimal_len(j);
    lemma_decimal_len(k);
    if j > 1 && k > 1 {
        let n = b.len() + 1;
        assert(candidate(b, j).subrange(n as int, candidate(b, j).len() as int) =~= decimal(j));
        assert(candidate(b, k).subrange(n as int, candidate(b, k).len() as int) =~= decimal(k));
        lemma_decimal_injective(j, k);
    } else if j > 1 || k > 1 {
        assert(candidate(b, j).len() != candidate(b, k).len());
    }
}

proof fn lemma_pigeonhole(tried: Seq<Seq<char>>, taken: Seq<Seq<char>>)
    requires
        tried.no_duplicates(),
        forall|i: int| 0 <= i < tried.len() ==> taken.contains(#[trigger] tried[i]),
    ensures
        tried.len() <= taken.len(),
{
    tried.unique_seq_to_set();
    taken.lemma_cardinality_of_set();
    assert(tried.to_set().subset_of(taken.to_set())) by {
        assert forall|x: Seq<char>| tried.to_set().contains(x) implies taken.to_set().contains(x) by {
            let i = choose|i: int| 0 <= i < tried.len() && tried[i] == x;
            assert(taken.contains(tried[i]));
        }
    }
    vstd::set_lib::lemma_len_subset(tried.to_set(), taken.to_set());
}

/// Folder names already used: the instances' ids and the entries of the
/// root directory.
pub open spec fn taken_names(instances: Seq<Instance>, on_disk: Seq<String>) -> Seq<Seq<char>> {
    instances.map_values(|i: Instance| i.id@) + texts(on_disk)
}

fn is_taken(instances: &Vec<Instance>, on_disk: &Vec<String>, name: &str) -> (r: bool)
    ensures
        r == taken_names(instances@, on_disk@).contains(name@),
{
    let ghost t = taken_names(instances@, on_disk@);
    let mut i: usize = 0;
    while i < instances.len()
        invariant
            i <= instances.len(),
            t == taken_names(instances@, on_disk@),
            forall|j: int| 0 <= j < i ==> t[j] != name@,
        decreases instances.len() - i,
    {
        if same_text(instances[i].id.as_str(), name) {
            assert(t[i as int] == name@);
            return true;
        }
        i = i + 1;
    }
    let mut k: usize = 0;
    while k < on_disk.len()
        invariant
            k <= on_disk.len(),
            t == taken_names(instances@, on_disk@),
            t.len() == instances@.len() + on_disk@.len(),
            forall|j: int| 0 <= j < instances@.len() + k ==> t[j] != name@,
        decreases on_disk.len() - k,
    {
        if same_text(on_disk[k].as_str(), name) {
            assert(t[instances@.len() + k] == name@);
            return true;
        }
        k = k + 1;
    }
    false
}

/// Picks the folder name of a new instance: the first of `candidate(base, 1)`,
/// `candidate(base, 2)`, ... that is not taken, where `base` is the sanitized
/// name. One is always free, since only finitely many names are taken.
pub fn allocate_instance_id(name: &str, instances: &Vec<Instance>, on_disk: &Vec<String>) -> (r: String)
    requires
        instances@.len() + on_disk@.len() < u64::MAX,
    ensures
        exists|k: nat|
            k >= 1 && r@ == candidate(folder_name(name@), k) && !taken_names(instances@, on_disk@).contains(r@)
                && forall|j: nat| 1 <= j < k ==> taken_names(instances@, on_disk@).contains(
                    #[trigger] candidate(folder_name(name@), j),
                ),
{
    let base = sanitize_folder_name(name);
    let ghost b = base@;
    let ghost taken = taken_names(instances@, on_disk@);
    let m = instances.len() as u64 + on_disk.len() as u64;
    let mut counter: u64 = 1;
    let mut candidate_name = copy_str(base.as_str());
    let ghost mut tried: Seq<Seq<char>> = Seq::empty();
    loop
        invariant
            b == base@,
            b == folder_name(name@),
            taken == taken_names(instances@, on_disk@),
            m == taken.len(),
            m < u64::MAX,
            1 <= counter,
            tried.len() == counter - 1,
            tried.no_duplicates(),
            forall|i: int| 0 <= i < tried.len() ==> #[trigger] tried[i] == candidate(b, (i + 1) as nat),
            forall|i: int| 0 <= i < tried.len() ==> taken.contains(#[trigger] tried[i]),
            candidate_name@ == candidate(b, counter as nat),
            counter <= m + 1,
        decreases m + 1 - counter,
    {
        if !is_taken(instances, on_disk, candidate_name.as_str()) {
            proof {
                assert forall|j: nat| 1 <= j < counter implies taken.contains(#[trigger] candidate(b, j)) by {
                    assert(tried[j - 1] == candidate(b, j));
                }
            }
            return candidate_name;
        }
        proof {
            let c = candidate(b, counter as nat);
            assert forall|i: int| 0 <= i < tried.len() implies tried[i] != c by {
                if tried[i] == c {
                    lemma_candidates_distinct(b, (i + 1) as nat, counter as nat);
                }
            }
            let t2 = tried.push(c);
            assert forall|i: int, j: int| 0 <= i < t2.len() && 0 <= j < t2.len() && i != j implies t2[i] != t2[j] by {
                if i < tried.len() && j < tried.len() {
                } else if i == tried.len() {
                    assert(tried[j] != c);
                } else {
                    assert(tried[i] != c);
                }
            }
            tried = t2;
            lemma_pigeonhole(tried, taken);
        }
        counter = counter + 1;
        candidate_name = copy_str(base.as_str());
        candidate_name.append(" ");
        let n = decimal_text(counter);
        candidate_name.append(n.as_str());
    }
}

/// Id of the root a new instance goes to (none when it cannot be chosen).
pub open spec fn root_choice(request: NewInstanceRequest, config: AppConfig) -> Option<Seq<char>> {
    match request.root_id {
        Some(id) => if exists|i: int|
            0 <= i < config.instance_roots@.len() && (#[trigger] config.instance_roots@[i]).id@ == id@ {
            Some(id@)
        } else {
            None
        },
        None => match config.default_instance_root_id {
            Some(d) => Some(d@),
            None => if config.instance_roots@.len() > 0 {
                Some(config.instance_roots@[0].id@)
            } else {
                None
            },
        },
    }
}

/// Id of the root a new instance goes to: the requested root when it exists,
/// else the configured default, else the first configured root.
pub fn resolve_root_id(request: &NewInstanceRequest, config: &AppConfig) -> (r: Result<String, String>)
    ensures
        match request.root_id {
            Some(id) => if exists|i: int|
                0 <= i < config.instance_roots@.len() && (#[trigger] config.instance_roots@[i]).id@ == id@ {
                r matches Ok(x) && x@ == id@
            } else {
                r matches Err(e) && e@ == "instance root '"@ + id@ + "' not found"@
            },
            None => match config.default_instance_root_id {
                Some(d) => r matches Ok(x) && x@ == d@,
                None => if config.instance_roots@.len() > 0 {
                    r matches Ok(x) && x@ == config.instance_roots@[0].id@
                } else {
                    r matches Err(e) && e@ == "no instance root configured"@
                },
            },
        },
{
    match &request.root_id {
        Some(id) => {
            let mut i: usize = 0;
            while i < config.instance_roots.len()
                invariant
                    i <= config.instance_roots.len(),
                    request.root_id == Some(*id),
                    forall|j: int| 0 <= j < i ==> (#[trigger] config.instance_roots@[j]).id@ != id@,
                decreases config.instance_roots.len() - i,
            {
                if same_text(config.instance_roots[i].id.as_str(), id.as_str()) {
                    assert(config.instance_roots@[i as int].id@ == id@);
                    return Ok(id.clone());
                }
                i = i + 1;
            }
            let mut e = copy_str("instance root '");
            e.append(id.as_str());
            e.append("' not found");
            Err(e)
        },
        None => match &config.default_instance_root_id {
            Some(d) => Ok(d.clone()),
            None => if config.instance_roots.len() > 0 {
                Ok(config.instance_roots[0].id.clone())
            } else {
                Err(copy_str("no instance root configured"))
            },
        },
    }
}

/// The first root with id `root_id`.
pub open spec fn root_with_id(roots: Seq<InstanceRoot>, root_id: Seq<char>) -> Option<InstanceRoot>
    decreases roots.len(),
{
    if roots.len() == 0 {
        None
    } else if roots[0].id@ == root_id {
        Some(roots[0])
    } else {
        root_with_id(roots.drop_first(), root_id)
    }
}

/// Directory of the root with id `root_id`.
pub fn resolve_root_path(config: &AppConfig, root_id: &str) -> (r: Result<String, String>)
    ensures
        match root_with_id(config.instance_roots@, root_id@) {
            Some(root) => r matches Ok(p) && p@ == root.path@,
            None => r matches Err(e) && e@ == "instance root '"@ + root_id@ + "' not found"@,
        },
{
    let roots = &config.instance_roots;
    let mut i: usize = 0;
    assert(roots@.subrange(0, roots@.len() as int) =~= roots@);
    while i < roots.len()
        invariant
            i <= roots.len(),
            roots == &config.instance_roots,
            root_with_id(roots@, root_id@) == root_with_id(roots@.subrange(i as int, roots@.len() as int), root_id@),
        decreases roots.len() - i,
    {
        assert(roots@.subrange(i as int, roots@.len() as int).drop_first() =~= roots@.subrange(i + 1, roots@.len() as int));
        if same_text(roots[i].id.as_str(), root_id) {
            assert(roots@.subrange(i as int, roots@.len() as int)[0] == roots@[i as int]);
            return Ok(roots[i].path.clone());
        }
        i = i + 1;
    }
    let mut e = copy_str("instance root '");
    e.append(root_id);
    e.append("' not found");
    Err(e)
}

/// ASCII case-insensitive equality of characters.
pub open spec fn same_letter(a: char, b: char) -> bool {
    a == b || ('A' <= a <= 'Z' && b as u32 == a as u32 + 32) || ('A' <= b <= 'Z' && a as u32 == b as u32 + 32)
}

/// ASCII case-insensitive equality of texts.
pub open spec fn same_ignoring_case(a: Seq<char>, b: Seq<char>) -> bool {
    a.len() == b.len() && forall|i: int| 0 <= i < a.len() ==> same_letter(#[trigger] a[i], b[i])
}

/// Whether two texts are equal up to ASCII case.
pub fn eq_ignore_ascii_case(a: &str, b: &str) -> (r: bool)
    ensures
        r == same_ignoring_case(a@, b@),
{
    let av = chars_of(a);
    let bv = chars_of(b);
    if av.len() != bv.len() {
        return false;
    }
    let mut i: usize = 0;
    while i < av.len()
        invariant
            av@ == a@,
            bv@ == b@,
            av.len() == bv.len(),
            i <= av.len(),
            forall|j: int| 0 <= j < i ==> same_letter(#[trigger] a@[j], b@[j]),
        decreases av.len() - i,
    {
        let x = av[i];
        let y = bv[i];
        let same = x == y || ('A' <= x && x <= 'Z' && (y as u32) == (x as u32) + 32) || ('A' <= y && y
            <= 'Z' && (x as u32) == (y as u32) + 32);
        if !same {
            return false;
        }
        i = i + 1;
    }
    true
}

/// Some instance already has the name `name`, up to ASCII case.
pub open spec fn name_in_use(instances: Seq<Instance>, name: Seq<char>) -> bool {
    exists|i: int| 0 <= i < instances.len() && same_ignoring_case((#[trigger] instances[i]).name@, name)
}

/// Validates a creation request and records the new instance in `config`:
/// the trimmed name must be non-empty and unused (up to ASCII case); Fabric
/// and Forge need a loader version; the instance goes to the resolved root,
/// in a folder named by `allocate_instance_id`. `on_disk` lists the entries
/// already in that root. The caller creates the directory skeleton and
/// writes the manifest.
pub fn create_instance(
    request: NewInstanceRequest,
    config: &mut AppConfig,
    on_disk: &Vec<String>,
) -> (r: Result<Instance, String>)
    requires
        old(config).instances@.len() + on_disk@.len() < u64::MAX,
    ensures
        trimmed(request.name@).len() == 0 ==> (r matches Err(e) && e@ == "instance name cannot be empty"@),
        trimmed(request.name@).len() > 0 && name_in_use(old(config).instances@, trimmed(request.name@))
            ==> (r matches Err(e) && e@ == "instance name already exists"@),
        trimmed(request.name@).len() > 0 && !name_in_use(old(config).instances@, trimmed(request.name@))
            && request.loader != Loader::Vanilla && request.loader_version is None ==> (r matches Err(e)
            && e@ == "loader version is required"@),
        r is Err ==> *final(config) == *old(config),
        r matches Ok(inst) ==> *final(config) == (AppConfig {
            instances: final(config).instances,
            ..*old(config)
        }),
        r matches Ok(inst) ==> {
            &&& trimmed(request.name@).len() > 0
            &&& !name_in_use(old(config).instances@, trimmed(request.name@))
            &&& (request.loader == Loader::Vanilla || request.loader_version is Some)
            &&& final(config).instances@ == old(config).instances@.push(inst)
            &&& inst.name == request.name
            &&& inst.version == request.game_version
            &&& inst.loader == request.loader
            &&& inst.loader_version == request.loader_version
            &&& inst.show_snapshots == request.show_snapshots
            &&& exists|k: nat|
                k >= 1 && inst.id@ == candidate(folder_name(request.name@), k) && !taken_names(
                    old(config).instances@,
                    on_disk@,
                ).contains(inst.id@)
            &&& inst.java_min_ram_gb is None && inst.java_max_ram_gb is None && inst.jvm_args is None
            &&& root_choice(request, *old(config)) matches Some(rid)
            &&& inst.root_id matches Some(x) && x@ == rid
            &&& root_with_id(old(config).instance_roots@, rid) matches Some(root)
            &&& inst.directory@ == root.path@ + "/"@ + inst.id@
        },
        trimmed(request.name@).len() > 0 && !name_in_use(old(config).instances@, trimmed(request.name@))
            && (request.loader == Loader::Vanilla || request.loader_version is Some) ==> (r is Ok <==> (
        root_choice(request, *old(config)) matches Some(rid) && root_with_id(old(config).instance_roots@, rid) is Some)),
{
    let t = trim(request.name.as_str());
    if t.as_str().unicode_len() == 0 {
        return Err(copy_str("instance name cannot be empty"));
    }
    let mut i: usize = 0;
    while i < config.instances.len()
        invariant
            i <= config.instances.len(),
            *config == *old(config),
            t@ == trimmed(request.name@),
            t@.len() > 0,
            forall|j: int| 0 <= j < i ==> !same_ignoring_case((#[trigger] config.instances@[j]).name@, t@),
        decreases config.instances.len() - i,
    {
        if eq_ignore_ascii_case(config.instances[i].name.as_str(), t.as_str()) {
            return Err(copy_str("instance name already exists"));
        }
        i = i + 1;
    }
    if request.loader != Loader::Vanilla && request.loader_version.is_none() {
        return Err(copy_str("loader version is required"));
    }
    let root_id = match resolve_root_id(&request, config) {
        Ok(r) => r,
        Err(e) => return Err(e),
    };
    let root_path = match resolve_root_path(config, root_id.as_str()) {
        Ok(p) => p,
        Err(e) => return Err(e),
    };
    let id = allocate_instance_id(request.name.as_str(), &config.instances, on_disk);
    let directory = join_path(root_path.as_str(), id.as_str());
    let instance = Instance {
        id,
        name: request.name,
        version: request.game_version,
        loader: request.loader,
        loader_version: request.loader_version,
        show_snapshots: request.show_snapshots,
        root_id: Some(root_id),
        directory,
        java_min_ram_gb: None,
        java_max_ram_gb: None,
        jvm_args: None,
    };
    let copy = copy_instance(&instance);
    config.instances.push(copy);
    Ok(instance)
}

/// A copy of an instance.
pub fn copy_instance(i: &Instance) -> (r: Instance)
    ensures
        r == *i,
{
    Instance {
        id: i.id.clone(),
        name: i.name.clone(),
        version: i.version.clone(),
        loader: i.loader,
        loader_version: copy_opt(&i.loader_version),
        show_snapshots: i.show_snapshots,
        root_id: copy_opt(&i.root_id),
        directory: i.directory.clone(),
        java_min_ram_gb: i.java_min_ram_gb,
        java_max_ram_gb: i.java_max_ram_gb,
        jvm_args: copy_opt(&i.jvm_args),
    }
}

} // verus!
