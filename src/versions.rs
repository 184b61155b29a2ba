//! Version metadata: the shapes of a version file, the walk along its
//! "inherits from" links, the merge of that chain into one resolved
//! descriptor, and the id of the metadata file an instance launches.

use vstd::prelude::*;
use crate::config::{Instance, Loader};
use crate::maven::{LibraryArtifact, opt_text};
use crate::rules::Rule;
use crate::text::{contains, copy_str, has_infix, same_text};

verus! {

/// Per-OS classifier template of a native library (`${arch}` stands for the
/// pointer width).
#[derive(Clone, Debug, PartialEq, Eq)]
pub struct NativeClassifier {
    pub os: String,
    pub classifier: String,
}

/// A classifier and the artifact published under it.
#[derive(Clone, Debug, PartialEq, Eq)]
pub struct ClassifierArtifact {
    pub classifier: String,
    pub artifact: LibraryArtifact,
}

#[derive(Clone, Debug, PartialEq, Eq)]
pub struct LibraryDownloads {
    pub artifact: Option<LibraryArtifact>,
    pub classifiers: Option<Vec<ClassifierArtifact>>,
}

/// Path prefixes to leave out when a native archive is extracted.
#[derive(Clone, Debug, PartialEq, Eq)]
pub struct LibraryExtract {
    pub exclude: Option<Vec<String>>,
}

/// One library entry of version metadata.
#[derive(Clone, Debug, PartialEq, Eq)]
pub struct Library {
    pub name: String,
    pub downloads: Option<LibraryDownloads>,
    pub rules: Option<Vec<Rule>>,
    pub natives: Option<Vec<NativeClassifier>>,
    pub extract: Option<LibraryExtract>,
    pub url: Option<String>,
}

#[derive(Clone, Debug, PartialEq, Eq)]
pub struct AssetIndexRef {
    pub id: String,
    pub url: String,
}

#[derive(Clone, Debug, PartialEq, Eq)]
pub struct LoggingFile {
    pub id: String,
    pub url: String,
}

#[derive(Clone, Debug, PartialEq, Eq)]
pub struct LoggingClient {
    pub argument: Option<String>,
    pub file: Option<LoggingFile>,
}

#[derive(Clone, Debug, PartialEq, Eq)]
pub struct VersionLogging {
    pub client: Option<LoggingClient>,
}

/// The value of a rule-gated argument: one string or several.
#[derive(Clone, Debug, PartialEq, Eq)]
pub enum ArgumentValue {
    Single(String),
    List(Vec<String>),
}

#[derive(Clone, Debug, PartialEq, Eq)]
pub struct ArgumentObject {
    pub rules: Option<Vec<Rule>>,
    pub value: ArgumentValue,
}

/// A launch argument: a plain string, or a value gated by rules.
#[derive(Clone, Debug, PartialEq, Eq)]
pub enum Argument {
    Plain(String),
    Gated(ArgumentObject),
}

#[derive(Clone, Debug, PartialEq, Eq)]
pub struct VersionArguments {
    pub game: Option<Vec<Argument>>,
    pub jvm: Option<Vec<Argument>>,
}

/// One version metadata file.
#[derive(Clone, Debug, PartialEq, Eq)]
pub struct VersionFile {
    pub id: String,
    pub inherits_from: Option<String>,
    pub main_class: Option<String>,
    pub arguments: Option<VersionArguments>,
    pub minecraft_arguments: Option<String>,
    pub libraries: Vec<Library>,
    pub asset_index: Option<AssetIndexRef>,
    pub assets: Option<String>,
    pub jar: Option<String>,
    pub logging: Option<VersionLogging>,
}

/// A version chain merged into one descriptor.
#[derive(Debug)]
pub struct ResolvedVersion {
    pub id: Option<String>,
    pub jar: Option<String>,
    pub main_class: Option<String>,
    pub asset_index: Option<AssetIndexRef>,
    pub assets: Option<String>,
    pub logging: Option<VersionLogging>,
    pub libraries: Vec<Library>,
    pub arguments: Option<VersionArguments>,
    pub minecraft_arguments: Option<String>,
    pub base_version_id: Option<String>,
}

/// The first present value, scanning from the most derived link.
pub open spec fn first_set<T>(s: Seq<Option<T>>) -> Option<T>
    decreases s.len(),
{
    if s.len() == 0 {
        None
    } else if s[0] is Some {
        s[0]
    } else {
        first_set(s.drop_first())
    }
}

/// Libraries of a chain, most ancestral link first.
pub open spec fn chain_libraries(c: Seq<VersionFile>) -> Seq<Library>
    decreases c.len(),
{
    if c.len() == 0 {
        Seq::empty()
    } else {
        chain_libraries(c.drop_first()) + c[0].libraries@
    }
}

/// Joins an inherited optional list with a more derived one.
pub open spec fn join_lists(base: Option<Seq<Argument>>, more: Option<Vec<Argument>>) -> Option<
    Seq<Argument>,
> {
    match (base, more) {
        (None, None) => None,
        (Some(b), None) => Some(b),
        (None, Some(m)) => Some(m@),
        (Some(b), Some(m)) => Some(b + m@),
    }
}

pub open spec fn list_view(o: Option<Vec<Argument>>) -> Option<Seq<Argument>> {
    match o {
        Some(v) => Some(v@),
        None => None,
    }
}

/// Some link of the chain carries structured arguments.
pub open spec fn any_arguments(c: Seq<VersionFile>) -> bool {
    exists|i: int| 0 <= i < c.len() && (#[trigger] c[i]).arguments is Some
}

/// Game arguments of a chain, most ancestral link first.
pub open spec fn chain_game_args(c: Seq<VersionFile>) -> Option<Seq<Argument>>
    decreases c.len(),
{
    if c.len() == 0 {
        None
    } else {
        join_lists(
            chain_game_args(c.drop_first()),
            match c[0].arguments {
                Some(a) => a.game,
                None => None,
            },
        )
    }
}

/// JVM arguments of a chain, most ancestral link first.
pub open spec fn chain_jvm_args(c: Seq<VersionFile>) -> Option<Seq<Argument>>
    decreases c.len(),
{
    if c.len() == 0 {
        None
    } else {
        join_lists(
            chain_jvm_args(c.drop_first()),
            match c[0].arguments {
                Some(a) => a.jvm,
                None => None,
            },
        )
    }
}

/// `r` is the merge of chain `c` (`c[0]` the most derived link): scalar
/// fields come from the most derived link that sets them, lists are the
/// concatenation of every link's lists from the most ancestral one on.
pub open spec fn merged(r: ResolvedVersion, c: Seq<VersionFile>) -> bool {
    &&& r.id == (if c.len() > 0 { Some(c[0].id) } else { None })
    &&& r.base_version_id == (if c.len() > 0 { Some(c.last().id) } else { None })
    &&& r.jar == first_set(c.map_values(|v: VersionFile| v.jar))
    &&& r.main_class == first_set(c.map_values(|v: VersionFile| v.main_class))
    &&& r.asset_index == first_set(c.map_values(|v: VersionFile| v.asset_index))
    &&& r.assets == first_set(c.map_values(|v: VersionFile| v.assets))
    &&& r.logging == first_set(c.map_values(|v: VersionFile| v.logging))
    &&& r.minecraft_arguments == first_set(c.map_values(|v: VersionFile| v.minecraft_arguments))
    &&& r.libraries@ == chain_libraries(c)
    &&& (r.arguments is Some <==> any_arguments(c))
    &&& (r.arguments matches Some(a) ==> list_view(a.game) == chain_game_args(c) && list_view(
        a.jvm,
    ) == chain_jvm_args(c))
}

/// Appends the lists of `current` to those of `base` (absent lists count as
/// empty only when the other side has one).
pub fn merge_arguments(base: Option<VersionArguments>, current: VersionArguments) -> (r: Option<
    VersionArguments,
>)
    ensures
        r matches Some(m) && list_view(m.game) == join_lists(
            match base {
                Some(b) => list_view(b.game),
                None => None,
            },
            current.game,
        ) && list_view(m.jvm) == join_lists(
            match base {
                Some(b) => list_view(b.jvm),
                None => None,
            },
            current.jvm,
        ),
{
    let mut merged = match base {
        Some(b) => b,
        None => VersionArguments { game: None, jvm: None },
    };
    if let Some(mut game) = current.game {
        match merged.game {
            Some(mut g) => {
                g.append(&mut game);
                merged.game = Some(g);
            },
            None => {
                merged.game = Some(game);
            },
        }
    }
    if let Some(mut jvm) = current.jvm {
        match merged.jvm {
            Some(mut g) => {
                g.append(&mut jvm);
                merged.jvm = Some(g);
            },
            None => {
                merged.jvm = Some(jvm);
            },
        }
    }
    Some(merged)
}

/// Merges a version chain (`chain[0]` the most derived link, each next one
/// the link it inherits from) into one descriptor.
pub fn resolve_version_chain(chain: Vec<VersionFile>) -> (r: ResolvedVersion)
    ensures
        merged(r, chain@),
{
    let ghost c = chain@;
    let ghost n = chain@.len() as int;
    let mut chain = chain;
    let base_version_id = if chain.len() > 0 {
        Some(chain[chain.len() - 1].id.clone())
    } else {
        None
    };
    let mut r = ResolvedVersion {
        id: None,
        jar: None,
        main_class: None,
        asset_index: None,
        assets: None,
        logging: None,
        libraries: Vec::new(),
        arguments: None,
        minecraft_arguments: None,
        base_version_id,
    };
    assert(c.subrange(n, n) =~= Seq::<VersionFile>::empty());
    while chain.len() > 0
        invariant
            chain@ == c.subrange(0, chain@.len() as int),
            chain@.len() <= n,
            n == c.len(),
            r.base_version_id == (if n > 0 { Some(c.last().id) } else { None }),
            ({
                let s = c.subrange(chain@.len() as int, n);
                &&& r.id == (if s.len() > 0 { Some(s[0].id) } else { None })
                &&& r.jar == first_set(s.map_values(|v: VersionFile| v.jar))
                &&& r.main_class == first_set(s.map_values(|v: VersionFile| v.main_class))
                &&& r.asset_index == first_set(s.map_values(|v: VersionFile| v.asset_index))
                &&& r.assets == first_set(s.map_values(|v: VersionFile| v.assets))
                &&& r.logging == first_set(s.map_values(|v: VersionFile| v.logging))
                &&& r.minecraft_arguments == first_set(
                    s.map_values(|v: VersionFile| v.minecraft_arguments),
                )
                &&& r.libraries@ == chain_libraries(s)
                &&& (r.arguments is Some <==> any_arguments(s))
                &&& (r.arguments matches Some(a) ==> list_view(a.game) == chain_game_args(s)
                    && list_view(a.jvm) == chain_jvm_args(s))
                &&& (!any_arguments(s) ==> chain_game_args(s) is None && chain_jvm_args(s) is None)
            }),
        decreases chain@.len(),
    {
        let ghost i = chain@.len() as int;
        let ghost s_old = c.subrange(i, n);
        let ghost s_new = c.subrange(i - 1, n);
        let version = chain.pop().unwrap();
        proof {
            assert(version == c[i - 1]);
            assert(s_new.drop_first() =~= s_old);
            assert(s_new[0] == version);
            assert(s_new.map_values(|v: VersionFile| v.jar).drop_first() =~= s_old.map_values(
                |v: VersionFile| v.jar,
            ));
            assert(s_new.map_values(|v: VersionFile| v.main_class).drop_first()
                =~= s_old.map_values(|v: VersionFile| v.main_class));
            assert(s_new.map_values(|v: VersionFile| v.asset_index).drop_first()
                =~= s_old.map_values(|v: VersionFile| v.asset_index));
            assert(s_new.map_values(|v: VersionFile| v.assets).drop_first() =~= s_old.map_values(
                |v: VersionFile| v.assets,
            ));
            assert(s_new.map_values(|v: VersionFile| v.logging).drop_first() =~= s_old.map_values(
                |v: VersionFile| v.logging,
            ));
            assert(s_new.map_values(|v: VersionFile| v.minecraft_arguments).drop_first()
                =~= s_old.map_values(|v: VersionFile| v.minecraft_arguments));
            if version.arguments is Some {
                assert(s_new[0].arguments is Some);
            }
            if any_arguments(s_new) {
                let k = choose|k: int| 0 <= k < s_new.len() && (#[trigger] s_new[k]).arguments is Some;
                if k > 0 {
                    assert(s_old[k - 1] == s_new[k]);
                }
            }
            if any_arguments(s_old) {
                let k = choose|k: int| 0 <= k < s_old.len() && (#[trigger] s_old[k]).arguments is Some;
                assert(s_new[k + 1] == s_old[k]);
            }
        }
        r.id = Some(version.id);
        if version.jar.is_some() {
            r.jar = version.jar;
        }
        if version.main_class.is_some() {
            r.main_class = version.main_class;
        }
        if version.asset_index.is_some() {
            r.asset_index = version.asset_index;
        }
        if version.assets.is_some() {
            r.assets = version.assets;
        }
        if version.logging.is_some() {
            r.logging = version.logging;
        }
        let mut libs = version.libraries;
        r.libraries.append(&mut libs);
        if let Some(arguments) = version.arguments {
            let base = r.arguments.take();
            r.arguments = merge_arguments(base, arguments);
        }
        if version.minecraft_arguments.is_some() {
            r.minecraft_arguments = version.minecraft_arguments;
        }
        proof {
            assert(chain@.len() == i - 1);
            assert(r.libraries@ == chain_libraries(s_new));
            assert(r.jar == first_set(s_new.map_values(|v: VersionFile| v.jar)));
            assert(r.main_class == first_set(s_new.map_values(|v: VersionFile| v.main_class)));
            assert(r.arguments is Some <==> any_arguments(s_new));
            assert(!any_arguments(s_new) ==> chain_game_args(s_new) is None);
            assert(r.arguments matches Some(a) ==> list_view(a.game) == chain_game_args(s_new));
        }
    }
    assert(c.subrange(0, n) =~= c);
    r
}

/// The first present value is that of the first link that sets one.
pub proof fn lemma_first_set_at<T>(s: Seq<Option<T>>, k: int)
    requires
        0 <= k < s.len(),
        s[k] is Some,
        forall|j: int| 0 <= j < k ==> (#[trigger] s[j]) is None,
    ensures
        first_set(s) == s[k],
    decreases k,
{
    if k > 0 {
        assert forall|j: int| 0 <= j < k - 1 implies (#[trigger] s.drop_first()[j]) is None by {
            assert(s.drop_first()[j] == s[j + 1]);
        }
        lemma_first_set_at(s.drop_first(), k - 1);
    }
}

/// Every library of every link is in the chain's library list.
pub proof fn lemma_chain_libraries_contain(c: Seq<VersionFile>, k: int, j: int)
    requires
        0 <= k < c.len(),
        0 <= j < c[k].libraries@.len(),
    ensures
        chain_libraries(c).contains(c[k].libraries@[j]),
    decreases c.len(),
{
    let rest = chain_libraries(c.drop_first());
    if k == 0 {
        assert((rest + c[0].libraries@)[rest.len() + j] == c[0].libraries@[j]);
    } else {
        assert(c.drop_first()[k - 1] == c[k]);
        lemma_chain_libraries_contain(c.drop_first(), k - 1, j);
        let i = choose|i: int| 0 <= i < rest.len() && rest[i] == c[k].libraries@[j];
        assert((rest + c[0].libraries@)[i] == rest[i]);
    }
}

/// Merging a chain of two or more links: a main class, jar, asset index,
/// assets id or logging configuration that only an inherited link sets is
/// the resolved one; one that the most derived link sets overrides every
/// inherited value; the libraries of every link are all present.
pub proof fn lemma_chain_merge(r: ResolvedVersion, c: Seq<VersionFile>, k: int)
    requires
        c.len() >= 2,
        0 <= k < c.len(),
        merged(r, c),
    ensures
        c[k].main_class is Some && (forall|j: int| 0 <= j < k ==> (#[trigger] c[j]).main_class is None)
            ==> r.main_class == c[k].main_class,
        c[k].jar is Some && (forall|j: int| 0 <= j < k ==> (#[trigger] c[j]).jar is None) ==> r.jar
            == c[k].jar,
        c[k].asset_index is Some && (forall|j: int|
            0 <= j < k ==> (#[trigger] c[j]).asset_index is None) ==> r.asset_index
            == c[k].asset_index,
        c[k].assets is Some && (forall|j: int| 0 <= j < k ==> (#[trigger] c[j]).assets is None)
            ==> r.assets == c[k].assets,
        c[k].logging is Some && (forall|j: int| 0 <= j < k ==> (#[trigger] c[j]).logging is None)
            ==> r.logging == c[k].logging,
        c[0].main_class is Some ==> r.main_class == c[0].main_class,
        c[0].assets is Some ==> r.assets == c[0].assets,
        forall|j: int| 0 <= j < c[k].libraries@.len() ==> r.libraries@.contains(#[trigger] c[k].libraries@[j]),
{
    let mains = c.map_values(|v: VersionFile| v.main_class);
    let jars = c.map_values(|v: VersionFile| v.jar);
    let indexes = c.map_values(|v: VersionFile| v.asset_index);
    let assets = c.map_values(|v: VersionFile| v.assets);
    let logs = c.map_values(|v: VersionFile| v.logging);
    if c[k].main_class is Some && (forall|j: int| 0 <= j < k ==> (#[trigger] c[j]).main_class is None) {
        assert forall|j: int| 0 <= j < k implies (#[trigger] mains[j]) is None by {
            assert(c[j].main_class is None);
        }
        lemma_first_set_at(mains, k);
    }
    if c[k].jar is Some && (forall|j: int| 0 <= j < k ==> (#[trigger] c[j]).jar is None) {
        assert forall|j: int| 0 <= j < k implies (#[trigger] jars[j]) is None by {
            assert(c[j].jar is None);
        }
        lemma_first_set_at(jars, k);
    }
    if c[k].asset_index is Some && (forall|j: int| 0 <= j < k ==> (#[trigger] c[j]).asset_index is None) {
        assert forall|j: int| 0 <= j < k implies (#[trigger] indexes[j]) is None by {
            assert(c[j].asset_index is None);
        }
        lemma_first_set_at(indexes, k);
    }
    if c[k].assets is Some && (forall|j: int| 0 <= j < k ==> (#[trigger] c[j]).assets is None) {
        assert forall|j: int| 0 <= j < k implies (#[trigger] assets[j]) is None by {
            assert(c[j].assets is None);
        }
        lemma_first_set_at(assets, k);
    }
    if c[k].logging is Some && (forall|j: int| 0 <= j < k ==> (#[trigger] c[j]).logging is None) {
        assert forall|j: int| 0 <= j < k implies (#[trigger] logs[j]) is None by {
            assert(c[j].logging is None);
        }
        lemma_first_set_at(logs, k);
    }
    if c[0].main_class is Some {
        lemma_first_set_at(mains, 0);
    }
    if c[0].assets is Some {
        lemma_first_set_at(assets, 0);
    }
    assert forall|j: int| 0 <= j < c[k].libraries@.len() implies r.libraries@.contains(
        #[trigger] c[k].libraries@[j],
    ) by {
        lemma_chain_libraries_contain(c, k, j);
    }
}

/// Walk along the "inherits from" links of version metadata. The caller
/// loads the metadata file of each id the walk asks for and hands it back.
pub struct ChainWalk {
    requested: Vec<String>,
    chain: Vec<VersionFile>,
}

/// What a walk needs next.
#[derive(Debug, PartialEq, Eq)]
pub enum ChainStep {
    /// Load the metadata file of this id.
    Load(String),
    /// The chain is complete.
    Complete,
}

impl ChainWalk {
    /// Ids asked for so far, in order.
    pub closed spec fn requested_ids(&self) -> Seq<Seq<char>> {
        self.requested@.map_values(|s: String| s@)
    }

    /// Metadata files handed back so far, most derived first.
    pub closed spec fn links(&self) -> Seq<VersionFile> {
        self.chain@
    }

    /// A walk that starts at `version_id`; its first step loads that id.
    pub fn new(version_id: &str) -> (r: ChainWalk)
        ensures
            r.requested_ids() == seq![version_id@],
            r.links().len() == 0,
    {
        let mut requested = Vec::new();
        requested.push(copy_str(version_id));
        let r = ChainWalk { requested, chain: Vec::new() };
        assert(r.requested_ids() =~= seq![version_id@]);
        r
    }

    /// Takes the metadata file of the id last asked for. Asks for its parent
    /// next; completes the chain when it has none; fails when the parent was
    /// already asked for (a cycle).
    pub fn accept(&mut self, file: VersionFile) -> (r: Result<ChainStep, String>)
        ensures
            final(self).links() == old(self).links().push(file),
            file.inherits_from is None ==> r == Ok::<ChainStep, String>(ChainStep::Complete)
                && final(self).requested_ids() == old(self).requested_ids(),
            file.inherits_from matches Some(p) ==> (r is Err <==> old(self).requested_ids().contains(
                p@,
            )),
            file.inherits_from is Some && r is Ok ==> (r matches Ok(ChainStep::Load(id))
                && id@ == file.inherits_from->0@ && final(self).requested_ids() == old(
                self,
            ).requested_ids().push(file.inherits_from->0@)),
            r matches Err(e) ==> e@ == "version metadata contains a loop"@,
    {
        let parent = copy_opt_text(&file.inherits_from);
        self.chain.push(file);
        match parent {
            None => Ok(ChainStep::Complete),
            Some(p) => {
                let mut i: usize = 0;
                while i < self.requested.len()
                    invariant
                        i <= self.requested.len(),
                        self.requested@ == old(self).requested@,
                        self.chain@ == old(self).chain@.push(file),
                        file.inherits_from is Some,
                        p@ == file.inherits_from->0@,
                        forall|j: int| 0 <= j < i ==> (#[trigger] self.requested@[j])@ != p@,
                    decreases self.requested.len() - i,
                {
                    if same_text(self.requested[i].as_str(), p.as_str()) {
                        assert(old(self).requested_ids()[i as int] == p@);
                        return Err(copy_str("version metadata contains a loop"));
                    }
                    i = i + 1;
                }
                proof {
                    if old(self).requested_ids().contains(p@) {
                        let k = choose|k: int|
                            0 <= k < old(self).requested_ids().len() && old(
                                self,
                            ).requested_ids()[k] == p@;
                        assert(self.requested@[k]@ == p@);
                    }
                }
                let q = copy_str(p.as_str());
                self.requested.push(p);
                assert(self.requested_ids() =~= old(self).requested_ids().push(q@));
                Ok(ChainStep::Load(q))
            },
        }
    }

    /// Merges the links handed back so far.
    pub fn finish(self) -> (r: ResolvedVersion)
        ensures
            merged(r, self.links()),
    {
        resolve_version_chain(self.chain)
    }
}

fn copy_opt_text(o: &Option<String>) -> (r: Option<String>)
    ensures
        opt_text(r) == opt_text(*o),
        r is Some <==> o is Some,
{
    match o {
        Some(s) => Some(s.clone()),
        None => None,
    }
}

/// The full Forge version: the loader version as is when it already embeds
/// the game version and a hyphen, else `game-loader`.
pub open spec fn forge_full_version(game: Seq<char>, loader: Seq<char>) -> Seq<char> {
    if has_infix(loader, game) && has_infix(loader, "-"@) {
        loader
    } else {
        game + "-"@ + loader
    }
}

/// Id of the metadata file an instance launches.
pub open spec fn version_id_of(loader: Loader, game: Seq<char>, loader_version: Option<Seq<char>>) -> Seq<
    char,
> {
    match loader {
        Loader::Vanilla => game,
        Loader::Fabric => match loader_version {
            Some(l) => "fabric-loader-"@ + l + "-"@ + game,
            None => game,
        },
        Loader::Forge => "forge-"@ + forge_full_version(
            game,
            match loader_version {
                Some(l) => l,
                None => game,
            },
        ),
    }
}

/// The full Forge version of a game and loader version pair.
pub fn forge_version(game: &str, loader: &str) -> (r: String)
    ensures
        r@ == forge_full_version(game@, loader@),
{
    if contains(loader, game) && contains(loader, "-") {
        copy_str(loader)
    } else {
        let mut r = copy_str(game);
        r.append("-");
        r.append(loader);
        r
    }
}

/// Id of the metadata file `instance` launches: the game version for
/// vanilla, `fabric-loader-{loader}-{game}` for Fabric, `forge-{full}` for Forge.
pub fn resolve_version_id(instance: &Instance) -> (r: String)
    ensures
        r@ == version_id_of(instance.loader, instance.version@, opt_text(instance.loader_version)),
{
    match instance.loader {
        Loader::Vanilla => instance.version.clone(),
        Loader::Fabric => match &instance.loader_version {
            Some(l) => {
                let mut r = copy_str("fabric-loader-");
                r.append(l.as_str());
                r.append("-");
                r.append(instance.version.as_str());
                r
            },
            None => instance.version.clone(),
        },
        Loader::Forge => {
            let full = match &instance.loader_version {
                Some(l) => forge_version(instance.version.as_str(), l.as_str()),
                None => forge_version(instance.version.as_str(), instance.version.as_str()),
            };
            let mut r = copy_str("forge-");
            r.append(full.as_str());
            r
        },
    }
}

} // verus!
