//! Version listings offered to the user: vanilla releases and snapshots,
//! Fabric game and loader versions, and Forge versions scraped from the
//! index page's installer links.

use vstd::prelude::*;
use crate::maven::opt_text;
use crate::text::{copy_str, same_text};

verus! {

/// Entry of the vanilla version manifest.
#[derive(Clone, Debug, PartialEq, Eq)]
pub struct MojangVersionRef {
    pub id: String,
    pub url: String,
    pub kind: String,
    pub release_time: Option<String>,
}

/// Game version known to Fabric.
#[derive(Clone, Debug, PartialEq, Eq)]
pub struct FabricGameVersion {
    pub version: String,
    pub stable: bool,
}

/// Loader version known to Fabric.
#[derive(Clone, Debug, PartialEq, Eq)]
pub struct FabricLoaderVersion {
    pub version: String,
    pub stable: bool,
}

#[derive(Clone, Debug, PartialEq, Eq)]
pub struct VersionSummary {
    pub id: String,
    pub kind: String,
    pub stable: bool,
    pub released: Option<String>,
}

#[derive(Clone, Debug, PartialEq, Eq)]
pub struct LoaderVersionSummary {
    pub version: String,
    pub stable: bool,
}

#[derive(Clone, Debug, PartialEq, Eq)]
pub struct ForgeVersionSummary {
    pub version: String,
    pub installer_url: String,
}

/// Views of a vanilla summary: id, kind, stability, release time.
pub open spec fn summary_view(s: VersionSummary) -> (Seq<char>, Seq<char>, bool, Option<Seq<char>>) {
    (s.id@, s.kind@, s.stable, opt_text(s.released))
}

/// Vanilla summaries: releases are stable; snapshots and other kinds are
/// listed only when asked for.
pub open spec fn vanilla_listing(entries: Seq<MojangVersionRef>, include_snapshots: bool) -> Seq<
    (Seq<char>, Seq<char>, bool, Option<Seq<char>>),
>
    decreases entries.len(),
{
    if entries.len() == 0 {
        Seq::empty()
    } else {
        let e = entries.last();
        let stable = e.kind@ == "release"@;
        vanilla_listing(entries.drop_last(), include_snapshots) + if include_snapshots || stable {
            seq![(e.id@, e.kind@, stable, opt_text(e.release_time))]
        } else {
            Seq::empty()
        }
    }
}

/// Lists vanilla versions from the manifest's entries (see `vanilla_listing`).
pub fn list_vanilla_versions(entries: &Vec<MojangVersionRef>, include_snapshots: bool) -> (r: Vec<VersionSummary>)
    ensures
        r@.map_values(|s: VersionSummary| summary_view(s)) == vanilla_listing(entries@, include_snapshots),
{
    let mut r: Vec<VersionSummary> = Vec::new();
    let mut i: usize = 0;
    assert(r@.map_values(|s: VersionSummary| summary_view(s)) =~= vanilla_listing(entries@.subrange(0, 0), include_snapshots));
    while i < entries.len()
        invariant
            i <= entries.len(),
            r@.map_values(|s: VersionSummary| summary_view(s)) == vanilla_listing(entries@.subrange(0, i as int), include_snapshots),
        decreases entries.len() - i,
    {
        let e = &entries[i];
        proof {
            let pre = entries@.subrange(0, i + 1);
            assert(pre.drop_last() =~= entries@.subrange(0, i as int));
            assert(pre.last() == *e);
        }
        let ghost before = r@.map_values(|s: VersionSummary| summary_view(s));
        let stable = same_text(e.kind.as_str(), "release");
        if include_snapshots || stable {
            let s = VersionSummary {
                id: e.id.clone(),
                kind: e.kind.clone(),
                stable,
                released: crate::config::copy_opt(&e.release_time),
            };
            let ghost sv = summary_view(s);
            r.push(s);
            assert(r@.map_values(|s: VersionSummary| summary_view(s)) =~= before + seq![sv]);
        } else {
            assert(r@.map_values(|s: VersionSummary| summary_view(s)) =~= before + Seq::<(Seq<char>, Seq<char>, bool, Option<Seq<char>>)>::empty());
        }
        i = i + 1;
    }
    assert(entries@.subrange(0, entries.len() as int) =~= entries@);
    r
}

/// Fabric game-version summaries: kind `game`, no release time; unstable
/// versions only when asked for.
pub open spec fn fabric_game_listing(entries: Seq<FabricGameVersion>, include_snapshots: bool) -> Seq<
    (Seq<char>, Seq<char>, bool, Option<Seq<char>>),
>
    decreases entries.len(),
{
    if entries.len() == 0 {
        Seq::empty()
    } else {
        let e = entries.last();
        fabric_game_listing(entries.drop_last(), include_snapshots) + if include_snapshots || e.stable {
            seq![(e.version@, "game"@, e.stable, None::<Seq<char>>)]
        } else {
            Seq::empty()
        }
    }
}

/// Lists the game versions Fabric supports (see `fabric_game_listing`).
pub fn list_fabric_game_versions(entries: &Vec<FabricGameVersion>, include_snapshots: bool) -> (r: Vec<VersionSummary>)
    ensures
        r@.map_values(|s: VersionSummary| summary_view(s)) == fabric_game_listing(entries@, include_snapshots),
{
    let mut r: Vec<VersionSummary> = Vec::new();
    let mut i: usize = 0;
    assert(r@.map_values(|s: VersionSummary| summary_view(s)) =~= fabric_game_listing(entries@.subrange(0, 0), include_snapshots));
    while i < entries.len()
        invariant
            i <= entries.len(),
            r@.map_values(|s: VersionSummary| summary_view(s)) == fabric_game_listing(entries@.subrange(0, i as int), include_snapshots),
        decreases entries.len() - i,
    {
        let e = &entries[i];
        proof {
            let pre = entries@.subrange(0, i + 1);
            assert(pre.drop_last() =~= entries@.subrange(0, i as int));
            assert(pre.last() == *e);
        }
        let ghost before = r@.map_values(|s: VersionSummary| summary_view(s));
        if include_snapshots || e.stable {
            let s = VersionSummary { id: e.version.clone(), kind: copy_str("game"), stable: e.stable, released: None };
            let ghost sv = summary_view(s);
            r.push(s);
            assert(r@.map_values(|s: VersionSummary| summary_view(s)) =~= before + seq![sv]);
        } else {
            assert(r@.map_values(|s: VersionSummary| summary_view(s)) =~= before + Seq::<(Seq<char>, Seq<char>, bool, Option<Seq<char>>)>::empty());
        }
        i = i + 1;
    }
    assert(entries@.subrange(0, entries.len() as int) =~= entries@);
    r
}

/// Fabric loader summaries: unstable loaders only when asked for.
pub open spec fn fabric_loader_listing(entries: Seq<FabricLoaderVersion>, include_snapshots: bool) -> Seq<(Seq<char>, bool)>
    decreases entries.len(),
{
    if entries.len() == 0 {
        Seq::empty()
    } else {
        let e = entries.last();
        fabric_loader_listing(entries.drop_last(), include_snapshots) + if include_snapshots || e.stable {
            seq![(e.version@, e.stable)]
        } else {
            Seq::empty()
        }
    }
}

/// Lists Fabric loader versions for a game version (see `fabric_loader_listing`).
pub fn list_fabric_loader_versions(entries: &Vec<FabricLoaderVersion>, include_snapshots: bool) -> (r: Vec<LoaderVersionSummary>)
    ensures
        r@.map_values(|s: LoaderVersionSummary| (s.version@, s.stable)) == fabric_loader_listing(entries@, include_snapshots),
{
    let mut r: Vec<LoaderVersionSummary> = Vec::new();
    let mut i: usize = 0;
    assert(r@.map_values(|s: LoaderVersionSummary| (s.version@, s.stable)) =~= fabric_loader_listing(entries@.subrange(0, 0), include_snapshots));
    while i < entries.len()
        invariant
            i <= entries.len(),
            r@.map_values(|s: LoaderVersionSummary| (s.version@, s.stable)) == fabric_loader_listing(entries@.subrange(0, i as int), include_snapshots),
        decreases entries.len() - i,
    {
        let e = &entries[i];
        proof {
            let pre = entries@.subrange(0, i + 1);
            assert(pre.drop_last() =~= entries@.subrange(0, i as int));
            assert(pre.last() == *e);
        }
        let ghost before = r@.map_values(|s: LoaderVersionSummary| (s.version@, s.stable));
        if include_snapshots || e.stable {
            let s = LoaderVersionSummary { version: e.version.clone(), stable: e.stable };
            let ghost sv = (s.version@, s.stable);
            r.push(s);
            assert(r@.map_values(|s: LoaderVersionSummary| (s.version@, s.stable)) =~= before + seq![sv]);
        } else {
            assert(r@.map_values(|s: LoaderVersionSummary| (s.version@, s.stable)) =~= before + Seq::<(Seq<char>, bool)>::empty());
        }
        i = i + 1;
    }
    assert(entries@.subrange(0, entries.len() as int) =~= entries@);
    r
}

/// Position of the manifest entry with id `id`.
pub fn find_vanilla_version(entries: &Vec<MojangVersionRef>, id: &str) -> (r: Result<usize, String>)
    ensures
        r matches Ok(i) ==> i < entries@.len() && entries@[i as int].id@ == id@ && forall|j: int|
            0 <= j < i ==> (#[trigger] entries@[j]).id@ != id@,
        r matches Err(e) ==> e@ == "vanilla version '"@ + id@ + "' not found"@ && forall|j: int|
            0 <= j < entries@.len() ==> (#[trigger] entries@[j]).id@ != id@,
{
    let mut i: usize = 0;
    while i < entries.len()
        invariant
            i <= entries.len(),
            forall|j: int| 0 <= j < i ==> (#[trigger] entries@[j]).id@ != id@,
        decreases entries.len() - i,
    {
        if same_text(entries[i].id.as_str(), id) {
            return Ok(i);
        }
        i = i + 1;
    }
    let mut e = copy_str("vanilla version '");
    e.append(id);
    e.append("' not found");
    Err(e)
}

/// Matches of a regular expression in a text, in order: the whole match and
/// the first capture group, when it took part.
pub uninterp spec fn pattern_captures(pattern: Seq<char>, text: Seq<char>) -> Seq<(Seq<char>, Option<Seq<char>>)>;

/// Relies on regex::Regex::new and Regex::captures_iter: the successive
/// non-overlapping matches of the pattern, with group 1 of each. The one
/// pattern it is given is valid syntax, so compiling it succeeds.
#[verifier::external_body]
fn captures_of(pattern: &str, text: &str) -> (r: Option<Vec<(String, Option<String>)>>)
    requires
        pattern@ == FORGE_INSTALLER_PATTERN@,
    ensures
        r is Some,
        r matches Some(v) ==> v@.map_values(|c: (String, Option<String>)| (c.0@, opt_text(c.1)))
            == pattern_captures(pattern@, text@),
{
    let re = regex::Regex::new(pattern).ok()?;
    Some(
        re.captures_iter(text).map(
            |c| (c.get(0).map(|m| m.as_str().to_string()).unwrap_or_default(), c.get(1).map(|m| m.as_str().to_string())),
        ).collect(),
    )
}

/// Pattern of an installer link on the Forge index page.
pub const FORGE_INSTALLER_PATTERN: &'static str = "/net/minecraftforge/forge/([^/]+)/forge-[^/]+-installer\\.jar";

/// Forge versions from installer-link matches: each non-empty version once,
/// in order of first appearance, with its installer on the Forge maven.
pub open spec fn forge_listing(caps: Seq<(Seq<char>, Option<Seq<char>>)>) -> Seq<(Seq<char>, Seq<char>)>
    decreases caps.len(),
{
    if caps.len() == 0 {
        Seq::empty()
    } else {
        let prev = forge_listing(caps.drop_last());
        let c = caps.last();
        let v = match c.1 {
            Some(v) => v,
            None => Seq::empty(),
        };
        if v.len() == 0 || exists|i: int| 0 <= i < prev.len() && (#[trigger] prev[i]).0 == v {
            prev
        } else {
            prev.push((v, "https://maven.minecraftforge.net"@ + c.0))
        }
    }
}

pub open spec fn forge_view(v: Seq<ForgeVersionSummary>) -> Seq<(Seq<char>, Seq<char>)> {
    v.map_values(|s: ForgeVersionSummary| (s.version@, s.installer_url@))
}

fn has_version(r: &Vec<ForgeVersionSummary>, v: &str) -> (found: bool)
    ensures
        found == exists|k: int| 0 <= k < r@.len() && (#[trigger] forge_view(r@)[k]).0 == v@,
{
    let ghost pv = forge_view(r@);
    let mut j: usize = 0;
    while j < r.len()
        invariant
            j <= r.len(),
            pv == forge_view(r@),
            forall|k: int| 0 <= k < j ==> (#[trigger] pv[k]).0 != v@,
        decreases r.len() - j,
    {
        if same_text(r[j].version.as_str(), v) {
            assert(pv[j as int].0 == v@);
            return true;
        }
        j = j + 1;
    }
    false
}

/// Forge versions of an index page (see `forge_listing`).
pub fn list_forge_versions(html: &str) -> (r: Result<Vec<ForgeVersionSummary>, String>)
    ensures
        r matches Ok(v) && forge_view(v@)
            == forge_listing(pattern_captures(FORGE_INSTALLER_PATTERN@, html@)),
{
    let caps = match captures_of(FORGE_INSTALLER_PATTERN, html) {
        Some(c) => c,
        None => return Err(copy_str("invalid Forge link pattern")),
    };
    let ghost cv = caps@.map_values(|c: (String, Option<String>)| (c.0@, opt_text(c.1)));
    let mut r: Vec<ForgeVersionSummary> = Vec::new();
    let mut i: usize = 0;
    assert(forge_view(r@) =~= forge_listing(cv.subrange(0, 0)));
    while i < caps.len()
        invariant
            i <= caps.len(),
            cv == caps@.map_values(|c: (String, Option<String>)| (c.0@, opt_text(c.1))),
            forge_view(r@) == forge_listing(cv.subrange(0, i as int)),
        decreases caps.len() - i,
    {
        let ghost prev = forge_view(r@);
        proof {
            let pre = cv.subrange(0, i + 1);
            assert(pre.drop_last() =~= cv.subrange(0, i as int));
            assert(pre.last() == cv[i as int]);
        }
        let version = match &caps[i].1 {
            Some(v) => v.clone(),
            None => String::new(),
        };
        proof {
            assert(version@ == match cv[i as int].1 {
                Some(v) => v,
                None => Seq::<char>::empty(),
            });
        }
        if version.as_str().unicode_len() > 0 {
            let seen = has_version(&r, version.as_str());
            if !seen {
                let mut url = copy_str("https://maven.minecraftforge.net");
                url.append(caps[i].0.as_str());
                let s = ForgeVersionSummary { version, installer_url: url };
                let ghost sv = (s.version@, s.installer_url@);
                r.push(s);
                assert(forge_view(r@) =~= prev.push(sv));
            }
        }
        i = i + 1;
    }
    assert(cv.subrange(0, caps.len() as int) =~= cv);
    Ok(r)
}

} // verus!
