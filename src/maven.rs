//! Maven coordinates (`group:artifact:version[:classifier]`) and the
//! repository layout paths and URLs derived from them.

use vstd::prelude::*;
use crate::text::{chars_of, copy_str, ends_with_char, push_char, replace_char, replace_chars};

verus! {

/// Host that serves libraries whose metadata names no other location.
pub const DEFAULT_LIBRARIES_URL: &'static str = "https://libraries.minecraft.net/";

/// A parsed Maven coordinate.
#[derive(Clone, Debug, PartialEq, Eq)]
pub struct MavenCoordinate {
    pub group: String,
    pub artifact: String,
    pub version: String,
    pub classifier: Option<String>,
}

/// Explicit download location of a library artifact, as version metadata gives it.
#[derive(Clone, Debug, PartialEq, Eq)]
pub struct LibraryArtifact {
    pub path: Option<String>,
    pub url: Option<String>,
    pub sha1: Option<String>,
    pub size: Option<u64>,
}

/// Characters of an optional string.
pub open spec fn opt_text(o: Option<String>) -> Option<Seq<char>> {
    match o {
        Some(s) => Some(s@),
        None => None,
    }
}

/// The pieces of `s` between occurrences of `sep` (one piece for a string
/// without `sep`, an empty piece at each end where `s` starts or ends with it).
pub open spec fn split_on(s: Seq<char>, sep: char) -> Seq<Seq<char>>
    decreases s.len(),
{
    if s.len() == 0 {
        seq![Seq::empty()]
    } else {
        let rest = split_on(s.drop_last(), sep);
        if s.last() == sep {
            rest.push(Seq::empty())
        } else {
            rest.update(rest.len() - 1, rest.last().push(s.last()))
        }
    }
}

pub proof fn lemma_split_nonempty(s: Seq<char>, sep: char)
    ensures
        split_on(s, sep).len() >= 1,
    decreases s.len(),
{
    if s.len() > 0 {
        lemma_split_nonempty(s.drop_last(), sep);
    }
}

/// `c` is the coordinate that `name` spells: its first three pieces, and the
/// fourth as classifier when there is one.
pub open spec fn spells(c: MavenCoordinate, name: Seq<char>) -> bool {
    let parts = split_on(name, ':');
    &&& parts.len() >= 3
    &&& c.group@ == parts[0]
    &&& c.artifact@ == parts[1]
    &&& c.version@ == parts[2]
    &&& opt_text(c.classifier) == if parts.len() > 3 {
        Some(parts[3])
    } else {
        None::<Seq<char>>
    }
}

/// Repository path of an artifact:
/// `group/with/slashes/artifact/version/artifact-version[-classifier].jar`.
pub open spec fn maven_path(
    group: Seq<char>,
    artifact: Seq<char>,
    version: Seq<char>,
    classifier: Option<Seq<char>>,
) -> Seq<char> {
    replace_char(group, '.', '/') + "/"@ + artifact + "/"@ + version + "/"@ + artifact + "-"@
        + version + match classifier {
        Some(c) => "-"@ + c,
        None => Seq::empty(),
    } + ".jar"@
}

/// Repository path of a coordinate.
pub open spec fn coordinate_path(c: MavenCoordinate) -> Seq<char> {
    maven_path(c.group@, c.artifact@, c.version@, opt_text(c.classifier))
}

/// A base URL with exactly the trailing slash it needs.
pub open spec fn with_slash(base: Seq<char>) -> Seq<char> {
    if base.len() > 0 && base.last() == '/' {
        base
    } else {
        base + "/"@
    }
}

/// Splits `s` at every `sep`.
pub fn split_char(s: &str, sep: char) -> (r: Vec<String>)
    ensures
        r@.len() == split_on(s@, sep).len(),
        forall|i: int| 0 <= i < r@.len() ==> #[trigger] r@[i]@ == split_on(s@, sep)[i],
{
    let chars = chars_of(s);
    let mut parts: Vec<String> = Vec::new();
    let mut cur = String::new();
    let mut i: usize = 0;
    while i < chars.len()
        invariant
            chars@ == s@,
            i <= chars.len(),
            parts@.len() + 1 == split_on(s@.subrange(0, i as int), sep).len(),
            forall|k: int|
                0 <= k < parts@.len() ==> #[trigger] parts@[k]@ == split_on(
                    s@.subrange(0, i as int),
                    sep,
                )[k],
            cur@ == split_on(s@.subrange(0, i as int), sep).last(),
        decreases chars.len() - i,
    {
        let c = chars[i];
        proof {
            let pre = s@.subrange(0, i + 1);
            assert(pre.drop_last() =~= s@.subrange(0, i as int));
            assert(pre.last() == c);
            lemma_split_nonempty(s@.subrange(0, i as int), sep);
        }
        if c == sep {
            parts.push(cur);
            cur = String::new();
        } else {
            push_char(&mut cur, c);
        }
        i = i + 1;
    }
    assert(s@.subrange(0, chars.len() as int) =~= s@);
    proof {
        lemma_split_nonempty(s@, sep);
    }
    parts.push(cur);
    proof {
        r_eq(&parts, s, sep);
    }
    parts
}

proof fn r_eq(parts: &Vec<String>, s: &str, sep: char)
    requires
        parts@.len() == split_on(s@, sep).len(),
        forall|k: int| 0 <= k < parts@.len() - 1 ==> #[trigger] parts@[k]@ == split_on(s@, sep)[k],
        parts@.len() >= 1,
        parts@.last()@ == split_on(s@, sep).last(),
    ensures
        forall|k: int| 0 <= k < parts@.len() ==> #[trigger] parts@[k]@ == split_on(s@, sep)[k],
{
}

/// Parses `group:artifact:version[:classifier]`; fails when fewer than three
/// pieces are present.
pub fn parse_maven_coordinate(name: &str) -> (r: Result<MavenCoordinate, String>)
    ensures
        split_on(name@, ':').len() < 3 <==> r is Err,
        r matches Ok(c) ==> spells(c, name@),
        r matches Err(e) ==> e@ == "invalid maven coordinate '"@ + name@ + "'"@,
{
    let mut parts = split_char(name, ':');
    if parts.len() < 3 {
        let mut e = String::from_str("invalid maven coordinate '");
        e.append(name);
        e.append("'");
        return Err(e);
    }
    let ghost pv = parts@;
    let classifier = if parts.len() > 3 {
        Some(parts.remove(3))
    } else {
        None
    };
    let version = parts.remove(2);
    let artifact = parts.remove(1);
    let group = parts.remove(0);
    proof {
        if pv.len() > 3 {
            assert(pv[3 as int]@ == split_on(name@, ':')[3]);
        }
        assert(pv[2 as int]@ == split_on(name@, ':')[2]);
        assert(pv[1 as int]@ == split_on(name@, ':')[1]);
        assert(pv[0 as int]@ == split_on(name@, ':')[0]);
    }
    Ok(MavenCoordinate { group, artifact, version, classifier })
}

/// Builds the repository path of a coordinate and its URL under `base_url`
/// (a trailing slash is added to the base when it lacks one). Returns
/// `(path, url)`.
pub fn build_maven_path_url(base_url: &str, coordinate: &MavenCoordinate) -> (r: Result<
    (String, String),
    String,
>)
    ensures
        r matches Ok(pu) && pu.0@ == coordinate_path(*coordinate) && pu.1@ == with_slash(base_url@)
            + coordinate_path(*coordinate),
{
    let mut path = replace_chars(coordinate.group.as_str(), '.', '/');
    path.append("/");
    path.append(coordinate.artifact.as_str());
    path.append("/");
    path.append(coordinate.version.as_str());
    path.append("/");
    path.append(coordinate.artifact.as_str());
    path.append("-");
    path.append(coordinate.version.as_str());
    match &coordinate.classifier {
        Some(c) => {
            path.append("-");
            path.append(c.as_str());
        },
        None => {},
    }
    path.append(".jar");
    let mut url = copy_str(base_url);
    if !ends_with_char(base_url, '/') {
        url.append("/");
    }
    url.append(path.as_str());
    proof {
        let g = replace_char(coordinate.group@, '.', '/');
        let a = coordinate.artifact@;
        let v = coordinate.version@;
        if coordinate.classifier is Some {
            assert(path@ =~= coordinate_path(*coordinate));
        } else {
            assert(path@ =~= coordinate_path(*coordinate));
        }
    }
    Ok((path, url))
}

/// Repository path spelled by a coordinate name, with `classifier` in
/// place of the name's own when given.
pub open spec fn name_path(name: Seq<char>, classifier: Option<Seq<char>>) -> Seq<char> {
    let parts = split_on(name, ':');
    maven_path(
        parts[0],
        parts[1],
        parts[2],
        match classifier {
            Some(k) => Some(k),
            None => if parts.len() > 3 {
                Some(parts[3])
            } else {
                None
            },
        },
    )
}

/// Download location `(url, path)` of an artifact: the explicit path of the
/// metadata (with its URL, or the default host followed by the path) when
/// there is one; else the path the coordinate `name` spells (with
/// `classifier` in place of its own, when given) on the default host; none
/// when the name is no coordinate.
pub open spec fn artifact_location(
    artifact: LibraryArtifact,
    name: Seq<char>,
    classifier: Option<Seq<char>>,
) -> Option<(Seq<char>, Seq<char>)> {
    match artifact.path {
        Some(p) => Some(
            (
                match artifact.url {
                    Some(u) => u@,
                    None => DEFAULT_LIBRARIES_URL@ + p@,
                },
                p@,
            ),
        ),
        None => if split_on(name, ':').len() >= 3 {
            Some((with_slash(DEFAULT_LIBRARIES_URL@) + name_path(name, classifier), name_path(name, classifier)))
        } else {
            None
        },
    }
}

/// Download location of an artifact as `(url, path)` (see `artifact_location`).
pub fn resolve_library_artifact(
    artifact: &LibraryArtifact,
    name: &str,
    classifier: Option<&str>,
) -> (r: Option<(String, String)>)
    ensures
        match artifact_location(
            *artifact,
            name@,
            match classifier {
                Some(k) => Some(k@),
                None => None,
            },
        ) {
            Some((u, p)) => r matches Some(x) && x.0@ == u && x.1@ == p,
            None => r is None,
        },
{
    if let Some(path) = &artifact.path {
        let url = match &artifact.url {
            Some(u) => u.clone(),
            None => {
                let mut u = copy_str(DEFAULT_LIBRARIES_URL);
                u.append(path.as_str());
                u
            },
        };
        return Some((url, path.clone()));
    }
    match parse_maven_coordinate(name) {
        Ok(mut coordinate) => {
            if let Some(k) = classifier {
                coordinate.classifier = Some(copy_str(k));
            }
            match build_maven_path_url(DEFAULT_LIBRARIES_URL, &coordinate) {
                Ok((path, url)) => Some((url, path)),
                Err(_) => None,
            }
        },
        Err(_) => None,
    }
}

} // verus!
