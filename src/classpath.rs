//! Classpath assembly: library jar locations, deduplication by
//! `group:artifact:classifier` (the later library wins, in place), and the
//! joined classpath string.

use vstd::prelude::*;
use crate::maven::{
    DEFAULT_LIBRARIES_URL, build_maven_path_url, parse_maven_coordinate,
    resolve_library_artifact, split_on, spells,
};
use crate::rules::library_allowed;
use crate::text::{copy_str, same_text};
use crate::versions::Library;

verus! {

/// A library jar that exists on disk: the library's coordinate and the
/// jar's path.
#[derive(Clone, Debug, PartialEq, Eq)]
pub struct ClasspathEntry {
    pub name: String,
    pub path: String,
}

/// Deduplication key of a coordinate: `group:artifact:classifier` (an empty
/// classifier when there is none); `None` for a name that is no coordinate.
pub open spec fn library_key(name: Seq<char>) -> Option<Seq<char>> {
    let parts = split_on(name, ':');
    if parts.len() >= 3 {
        Some(parts[0] + ":"@ + parts[1] + ":"@ + if parts.len() > 3 {
            parts[3]
        } else {
            Seq::empty()
        })
    } else {
        None
    }
}

/// Position of the entry keyed `k`.
pub open spec fn key_index(keys: Seq<Option<Seq<char>>>, k: Seq<char>) -> Option<int>
    decreases keys.len(),
{
    if keys.len() == 0 {
        None
    } else {
        match key_index(keys.drop_last(), k) {
            Some(i) => Some(i),
            None => if keys.last() == Some(k) {
                Some(keys.len() - 1)
            } else {
                None
            },
        }
    }
}

/// Classpath entries (paths and their keys) after taking in one more jar.
pub open spec fn dedup_step(
    paths: Seq<Seq<char>>,
    keys: Seq<Option<Seq<char>>>,
    e: ClasspathEntry,
) -> (Seq<Seq<char>>, Seq<Option<Seq<char>>>) {
    match library_key(e.name@) {
        Some(k) => match key_index(keys, k) {
            Some(i) => (paths.update(i, e.path@), keys),
            None => (paths.push(e.path@), keys.push(Some(k))),
        },
        None => if exists|i: int| 0 <= i < keys.len() && keys[i] is None && #[trigger] paths[i] == e.path@ {
            (paths, keys)
        } else {
            (paths.push(e.path@), keys.push(None))
        },
    }
}

/// Classpath entries (paths and their keys) after taking in `entries` in order.
pub open spec fn dedup_state(entries: Seq<ClasspathEntry>) -> (Seq<Seq<char>>, Seq<Option<Seq<char>>>)
    decreases entries.len(),
{
    if entries.len() == 0 {
        (Seq::empty(), Seq::empty())
    } else {
        let st = dedup_state(entries.drop_last());
        dedup_step(st.0, st.1, entries.last())
    }
}

pub open spec fn path_texts(v: Seq<String>) -> Seq<Seq<char>> {
    v.map_values(|s: String| s@)
}

pub open spec fn key_texts(v: Seq<Option<String>>) -> Seq<Option<Seq<char>>> {
    v.map_values(|o: Option<String>| crate::maven::opt_text(o))
}

/// `parts` joined with `sep` between each two.
pub open spec fn joined(parts: Seq<Seq<char>>, sep: Seq<char>) -> Seq<char>
    decreases parts.len(),
{
    if parts.len() == 0 {
        Seq::empty()
    } else if parts.len() == 1 {
        parts[0]
    } else {
        joined(parts.drop_last(), sep) + sep + parts.last()
    }
}

proof fn lemma_key_index_valid(keys: Seq<Option<Seq<char>>>, k: Seq<char>)
    ensures
        key_index(keys, k) matches Some(i) ==> 0 <= i < keys.len() && keys[i] == Some(k),
        key_index(keys, k) is None ==> forall|i: int| 0 <= i < keys.len() ==> keys[i] != Some(k),
    decreases keys.len(),
{
    if keys.len() > 0 {
        lemma_key_index_valid(keys.drop_last(), k);
        assert forall|i: int| 0 <= i < keys.len() - 1 implies keys.drop_last()[i] == keys[i] by {}
    }
}

/// Path of the last entry keyed `k`.
pub open spec fn last_path_with_key(e: Seq<ClasspathEntry>, k: Seq<char>) -> Option<Seq<char>>
    decreases e.len(),
{
    if e.len() == 0 {
        None
    } else if library_key(e.last().name@) == Some(k) {
        Some(e.last().path@)
    } else {
        last_path_with_key(e.drop_last(), k)
    }
}

proof fn lemma_last_path(e: Seq<ClasspathEntry>, j: int, k: Seq<char>)
    requires
        0 <= j < e.len(),
        library_key(e[j].name@) == Some(k),
        forall|m: int| j < m < e.len() ==> library_key((#[trigger] e[m]).name@) != Some(k),
    ensures
        last_path_with_key(e, k) == Some(e[j].path@),
    decreases e.len(),
{
    if j < e.len() - 1 {
        assert(library_key(e[e.len() - 1].name@) != Some(k));
        assert forall|m: int| j < m < e.drop_last().len() implies library_key(
            (#[trigger] e.drop_last()[m]).name@,
        ) != Some(k) by {
            assert(e.drop_last()[m] == e[m]);
        }
        lemma_last_path(e.drop_last(), j, k);
    }
}

proof fn lemma_dedup_invariant(e: Seq<ClasspathEntry>)
    ensures
        dedup_state(e).0.len() == dedup_state(e).1.len(),
        forall|i: int, j: int|
            0 <= i < j < dedup_state(e).1.len() && (#[trigger] dedup_state(e).1[i]) is Some
                ==> dedup_state(e).1[i] != #[trigger] dedup_state(e).1[j],
        forall|i: int|
            0 <= i < dedup_state(e).1.len() && (#[trigger] dedup_state(e).1[i]) is Some
                ==> last_path_with_key(e, dedup_state(e).1[i]->0) == Some(dedup_state(e).0[i]),
        forall|k: Seq<char>|
            (#[trigger] last_path_with_key(e, k)) is Some ==> key_index(dedup_state(e).1, k) is Some,
    decreases e.len(),
{
    if e.len() > 0 {
        let pre = e.drop_last();
        lemma_dedup_invariant(pre);
        let (p, ks) = dedup_state(pre);
        let x = e.last();
        let (paths_after, keys_after) = dedup_state(e);
        match library_key(x.name@) {
            Some(kx) => {
                lemma_key_index_valid(ks, kx);
                match key_index(ks, kx) {
                    Some(i) => {
                        assert forall|m: int|
                            0 <= m < keys_after.len() && (#[trigger] keys_after[m]) is Some implies last_path_with_key(
                            e,
                            keys_after[m]->0,
                        ) == Some(paths_after[m]) by {
                            if m != i {
                                if keys_after[m] == Some(kx) {
                                    if m < i {
                                        assert(ks[m] != ks[i]);
                                    } else {
                                        assert(ks[i] != ks[m]);
                                    }
                                }
                            }
                        }
                        assert forall|k: Seq<char>| (#[trigger] last_path_with_key(e, k)) is Some implies key_index(
                            keys_after,
                            k,
                        ) is Some by {
                            if k != kx {
                                assert(last_path_with_key(pre, k) is Some);
                            }
                        }
                    },
                    None => {
                        assert forall|a: int, b: int|
                            0 <= a < b < keys_after.len() && (#[trigger] keys_after[a]) is Some implies keys_after[a]
                            != #[trigger] keys_after[b] by {
                            if b < ks.len() {
                                assert(keys_after[a] == ks[a] && keys_after[b] == ks[b]);
                            }
                        }
                        assert forall|m: int|
                            0 <= m < keys_after.len() && (#[trigger] keys_after[m]) is Some implies last_path_with_key(
                            e,
                            keys_after[m]->0,
                        ) == Some(paths_after[m]) by {
                            if m < ks.len() {
                                assert(keys_after[m] == ks[m]);
                                assert(paths_after[m] == p[m]);
                            }
                        }
                        assert forall|k: Seq<char>| (#[trigger] last_path_with_key(e, k)) is Some implies key_index(
                            keys_after,
                            k,
                        ) is Some by {
                            lemma_key_index_valid(keys_after, k);
                            if k != kx {
                                assert(last_path_with_key(pre, k) is Some);
                                lemma_key_index_valid(ks, k);
                                let i = key_index(ks, k)->0;
                                assert(keys_after[i] == Some(k));
                            } else {
                                assert(keys_after[ks.len() as int] == Some(k));
                            }
                        }
                    },
                }
            },
            None => {
                if exists|i: int| 0 <= i < ks.len() && ks[i] is None && #[trigger] p[i] == x.path@ {
                    assert forall|k: Seq<char>| (#[trigger] last_path_with_key(e, k)) is Some implies key_index(
                        keys_after,
                        k,
                    ) is Some by {
                        assert(last_path_with_key(pre, k) is Some);
                    }
                } else {
                    assert forall|a: int, b: int|
                        0 <= a < b < keys_after.len() && (#[trigger] keys_after[a]) is Some implies keys_after[a]
                        != #[trigger] keys_after[b] by {
                        if b < ks.len() {
                            assert(keys_after[a] == ks[a] && keys_after[b] == ks[b]);
                        }
                    }
                    assert forall|m: int|
                        0 <= m < keys_after.len() && (#[trigger] keys_after[m]) is Some implies last_path_with_key(
                        e,
                        keys_after[m]->0,
                    ) == Some(paths_after[m]) by {
                        assert(keys_after[m] == ks[m]);
                        assert(paths_after[m] == p[m]);
                    }
                    assert forall|k: Seq<char>| (#[trigger] last_path_with_key(e, k)) is Some implies key_index(
                        keys_after,
                        k,
                    ) is Some by {
                        assert(last_path_with_key(pre, k) is Some);
                        lemma_key_index_valid(ks, k);
                        lemma_key_index_valid(keys_after, k);
                        let i = key_index(ks, k)->0;
                        assert(keys_after[i] == Some(k));
                    }
                }
            },
        }
    }
}

/// Libraries that share a `group:artifact:classifier` key end up as one
/// classpath entry, and that entry holds the path of the last of them.
pub proof fn lemma_classpath_collapse(entries: Seq<ClasspathEntry>, j: int, k: Seq<char>)
    requires
        0 <= j < entries.len(),
        library_key(entries[j].name@) == Some(k),
        forall|m: int| j < m < entries.len() ==> library_key((#[trigger] entries[m]).name@) != Some(k),
    ensures
        exists|i: int|
            0 <= i < dedup_state(entries).1.len() && dedup_state(entries).1[i] == Some(k)
                && dedup_state(entries).0[i] == entries[j].path@ && forall|m: int|
                0 <= m < dedup_state(entries).1.len() && #[trigger] dedup_state(entries).1[m] == Some(k)
                    ==> m == i,
{
    lemma_dedup_invariant(entries);
    lemma_last_path(entries, j, k);
    let ks = dedup_state(entries).1;
    lemma_key_index_valid(ks, k);
    let i = key_index(ks, k)->0;
    assert(ks[i] is Some);
    assert forall|m: int| 0 <= m < ks.len() && #[trigger] ks[m] == Some(k) implies m == i by {
        if m < i {
            assert(ks[m] != ks[i]);
        } else if m > i {
            assert(ks[i] != ks[m]);
        }
    }
}

proof fn lemma_split_plain(p: Seq<char>, c: char)
    requires
        !p.contains(c),
    ensures
        split_on(p, c) == seq![p],
    decreases p.len(),
{
    if p.len() > 0 {
        assert(!p.drop_last().contains(c)) by {
            if p.drop_last().contains(c) {
                let i = choose|i: int| 0 <= i < p.drop_last().len() && p.drop_last()[i] == c;
                assert(p[i] == c);
            }
        }
        lemma_split_plain(p.drop_last(), c);
        assert(p.last() != c);
        assert(p.drop_last().push(p.last()) =~= p);
    } else {
        assert(p =~= Seq::<char>::empty());
    }
}

proof fn lemma_split_append(a: Seq<char>, b: Seq<char>, c: char)
    requires
        !b.contains(c),
    ensures
        split_on(a + seq![c] + b, c) == split_on(a, c).push(b),
    decreases b.len(),
{
    crate::maven::lemma_split_nonempty(a, c);
    if b.len() == 0 {
        assert((a + seq![c] + b).drop_last() =~= a);
        assert(b =~= Seq::<char>::empty());
    } else {
        let s = a + seq![c] + b;
        assert(!b.drop_last().contains(c)) by {
            if b.drop_last().contains(c) {
                let i = choose|i: int| 0 <= i < b.drop_last().len() && b.drop_last()[i] == c;
                assert(b[i] == c);
            }
        }
        lemma_split_append(a, b.drop_last(), c);
        assert(s.drop_last() =~= a + seq![c] + b.drop_last());
        assert(s.last() == b.last());
        assert(b.last() != c);
        assert(b.drop_last().push(b.last()) =~= b);
        assert(split_on(a, c).push(b.drop_last()).update(split_on(a, c).len() as int, b.drop_last().push(b.last()))
            =~= split_on(a, c).push(b));
    }
}

/// Splitting a list joined by a one-character separator at that character
/// gives the list back, when no element holds the separator.
pub proof fn lemma_split_joined(parts: Seq<Seq<char>>, c: char)
    requires
        parts.len() >= 1,
        forall|i: int| 0 <= i < parts.len() ==> !(#[trigger] parts[i]).contains(c),
    ensures
        split_on(joined(parts, seq![c]), c) == parts,
    decreases parts.len(),
{
    if parts.len() == 1 {
        lemma_split_plain(parts[0], c);
        assert(parts =~= seq![parts[0]]);
    } else {
        lemma_split_joined(parts.drop_last(), c);
        lemma_split_append(joined(parts.drop_last(), seq![c]), parts.last(), c);
        assert(joined(parts, seq![c]) == joined(parts.drop_last(), seq![c]) + seq![c] + parts.last());
        assert(parts.drop_last().push(parts.last()) =~= parts);
    }
}

/// Libraries sharing a `group:artifact:classifier` key appear in the
/// classpath string, split at its separator, as one entry holding the path
/// of the last of them, at the place of the key's first library; the version
/// jar comes last. This holds when the separator is one character that no
/// jar path holds.
pub proof fn lemma_classpath_string_collapse(
    entries: Seq<ClasspathEntry>,
    version_jar: Seq<char>,
    c: char,
    cp: Seq<char>,
    j: int,
    k: Seq<char>,
)
    requires
        cp == joined(dedup_state(entries).0.push(version_jar), seq![c]),
        forall|i: int| 0 <= i < entries.len() ==> !(#[trigger] entries[i]).path@.contains(c),
        !version_jar.contains(c),
        0 <= j < entries.len(),
        library_key(entries[j].name@) == Some(k),
        forall|m: int| j < m < entries.len() ==> library_key((#[trigger] entries[m]).name@) != Some(k),
    ensures
        split_on(cp, c) == dedup_state(entries).0.push(version_jar),
        exists|i: int|
            0 <= i < dedup_state(entries).1.len() && dedup_state(entries).1[i] == Some(k)
                && split_on(cp, c)[i] == entries[j].path@ && forall|m: int|
                0 <= m < dedup_state(entries).1.len() && #[trigger] dedup_state(entries).1[m] == Some(k)
                    ==> m == i,
{
    lemma_dedup_invariant(entries);
    lemma_dedup_paths_from(entries);
    let parts = dedup_state(entries).0.push(version_jar);
    assert forall|i: int| 0 <= i < parts.len() implies !(#[trigger] parts[i]).contains(c) by {
        if i < dedup_state(entries).0.len() {
            let q = choose|q: int| 0 <= q < entries.len() && entries[q].path@ == dedup_state(entries).0[i];
        }
    }
    lemma_split_joined(parts, c);
    lemma_classpath_collapse(entries, j, k);
}

/// Every deduplicated path is the path of some entry.
proof fn lemma_dedup_paths_from(entries: Seq<ClasspathEntry>)
    ensures
        forall|i: int| 0 <= i < dedup_state(entries).0.len() ==> exists|q: int|
            0 <= q < entries.len() && entries[q].path@ == #[trigger] dedup_state(entries).0[i],
    decreases entries.len(),
{
    if entries.len() > 0 {
        let pre = entries.drop_last();
        lemma_dedup_paths_from(pre);
        lemma_dedup_invariant(pre);
        let (p, ks) = dedup_state(pre);
        let x = entries.last();
        let p2 = dedup_state(entries).0;
        if let Some(kx) = library_key(x.name@) {
            lemma_key_index_valid(ks, kx);
        }
        assert(dedup_state(entries) == dedup_step(p, ks, x));
        assert forall|i: int| 0 <= i < p2.len() implies exists|q: int|
            0 <= q < entries.len() && entries[q].path@ == #[trigger] p2[i] by {
            let dup = exists|m: int| 0 <= m < ks.len() && ks[m] is None && #[trigger] p[m] == x.path@;
            match library_key(x.name@) {
                Some(kx) => match key_index(ks, kx) {
                    Some(ix) => {
                        assert(p2 == p.update(ix, x.path@));
                    },
                    None => {
                        assert(p2 == p.push(x.path@));
                    },
                },
                None => {
                    if dup {
                        assert(p2 == p);
                    } else {
                        assert(p2 == p.push(x.path@));
                    }
                },
            }
            if p2[i] == x.path@ {
                assert(entries[entries.len() - 1] == x);
            } else {
                assert(i < p.len() && p2[i] == p[i]);
                let q = choose|q: int| 0 <= q < pre.len() && pre[q].path@ == p[i];
                assert(entries[q] == pre[q]);
            }
        }
    }
}

/// The deduplication key of a library name, computed.
fn key_of(name: &str) -> (r: Option<String>)
    ensures
        match r {
            Some(k) => library_key(name@) == Some(k@),
            None => library_key(name@) is None,
        },
{
    match parse_maven_coordinate(name) {
        Ok(c) => {
            let mut k = c.group;
            k.append(":");
            k.append(c.artifact.as_str());
            k.append(":");
            match &c.classifier {
                Some(cl) => k.append(cl.as_str()),
                None => {},
            }
            proof {
                let parts = split_on(name@, ':');
                if parts.len() > 3 {
                    assert(k@ =~= library_key(name@)->0);
                } else {
                    assert(k@ =~= library_key(name@)->0);
                }
            }
            Some(k)
        },
        Err(_) => None,
    }
}

/// Adds one jar to the classpath entries: a library whose key is already
/// present replaces that entry's path in place; any other is appended (a
/// library with no key only when its path is not there yet).
pub fn push_unique_library(paths: &mut Vec<String>, keys: &mut Vec<Option<String>>, entry: &ClasspathEntry)
    requires
        old(paths)@.len() == old(keys)@.len(),
    ensures
        final(paths)@.len() == final(keys)@.len(),
        (path_texts(final(paths)@), key_texts(final(keys)@)) == dedup_step(
            path_texts(old(paths)@),
            key_texts(old(keys)@),
            *entry,
        ),
{
    let ghost pv = path_texts(old(paths)@);
    let ghost kv = key_texts(old(keys)@);
    let key = key_of(entry.name.as_str());
    let mut i: usize = 0;
    while i < keys.len()
        invariant
            i <= keys.len(),
            paths@ == old(paths)@,
            keys@ == old(keys)@,
            paths@.len() == keys@.len(),
            kv == key_texts(keys@),
            pv == path_texts(paths@),
            match key {
                Some(k) => library_key(entry.name@) == Some(k@),
                None => library_key(entry.name@) is None,
            },
            key is Some ==> key_index(kv.subrange(0, i as int), key->0@) is None,
            key is None ==> forall|j: int|
                0 <= j < i ==> !(kv[j] is None && #[trigger] pv[j] == entry.path@),
        decreases keys.len() - i,
    {
        proof {
            let pre = kv.subrange(0, i + 1);
            assert(pre.drop_last() =~= kv.subrange(0, i as int));
        }
        match &key {
            Some(k) => {
                let found = match &keys[i] {
                    Some(x) => same_text(x.as_str(), k.as_str()),
                    None => false,
                };
                if found {
                    proof {
                        lemma_key_index_valid(kv.subrange(0, i as int), k@);
                        lemma_key_index_prefix(kv, i as int + 1, k@);
                    }
                    paths.set(i, entry.path.clone());
                    assert(path_texts(paths@) =~= pv.update(i as int, entry.path@));
                    assert(kv[i as int] == Some(k@));
                    assert(key_index(kv, k@) == Some(i as int));
                    assert(library_key(entry.name@) == Some(k@));
                    assert(key_texts(keys@) == kv);
                    return;
                }
            },
            None => {
                let dup = keys[i].is_none() && same_text(paths[i].as_str(), entry.path.as_str());
                if dup {
                    assert(kv[i as int] is None && pv[i as int] == entry.path@);
                    assert(library_key(entry.name@) is None);
                    assert(path_texts(paths@) == pv);
                    assert(key_texts(keys@) == kv);
                    return;
                }
            },
        }
        i = i + 1;
    }
    assert(kv.subrange(0, kv.len() as int) =~= kv);
    paths.push(entry.path.clone());
    keys.push(key);
    assert(path_texts(paths@) =~= pv.push(entry.path@));
    assert(key_texts(keys@) =~= kv.push(crate::maven::opt_text(key)));
}

proof fn lemma_key_index_prefix(keys: Seq<Option<Seq<char>>>, n: int, k: Seq<char>)
    requires
        0 < n <= keys.len(),
        key_index(keys.subrange(0, n - 1), k) is None,
        keys[n - 1] == Some(k),
    ensures
        key_index(keys, k) == Some(n - 1),
    decreases keys.len(),
{
    if n == keys.len() {
        assert(keys.drop_last() =~= keys.subrange(0, n - 1));
    } else {
        assert(keys.drop_last().subrange(0, n - 1) =~= keys.subrange(0, n - 1));
        lemma_key_index_prefix(keys.drop_last(), n, k);
    }
}

/// Paths of the libraries present on disk, deduplicated (see `dedup_state`),
/// with the version jar last, joined by `separator`.
pub fn build_classpath(entries: &Vec<ClasspathEntry>, version_jar: &str, separator: &str) -> (r: String)
    ensures
        r@ == joined(dedup_state(entries@).0.push(version_jar@), separator@),
{
    let mut paths: Vec<String> = Vec::new();
    let mut keys: Vec<Option<String>> = Vec::new();
    let mut i: usize = 0;
    assert(entries@.subrange(0, 0) =~= Seq::<ClasspathEntry>::empty());
    assert(path_texts(paths@) =~= Seq::<Seq<char>>::empty());
    assert(key_texts(keys@) =~= Seq::<Option<Seq<char>>>::empty());
    while i < entries.len()
        invariant
            i <= entries.len(),
            paths@.len() == keys@.len(),
            (path_texts(paths@), key_texts(keys@)) == dedup_state(entries@.subrange(0, i as int)),
        decreases entries.len() - i,
    {
        push_unique_library(&mut paths, &mut keys, &entries[i]);
        proof {
            let pre = entries@.subrange(0, i + 1);
            assert(pre.drop_last() =~= entries@.subrange(0, i as int));
            assert(pre.last() == entries@[i as int]);
        }
        i = i + 1;
    }
    assert(entries@.subrange(0, entries.len() as int) =~= entries@);
    paths.push(copy_str(version_jar));
    let ghost all = path_texts(paths@);
    assert(all =~= dedup_state(entries@).0.push(version_jar@));
    let mut r = String::new();
    let mut j: usize = 0;
    while j < paths.len()
        invariant
            j <= paths.len(),
            all == path_texts(paths@),
            r@ == joined(all.subrange(0, j as int), separator@),
        decreases paths.len() - j,
    {
        if j > 0 {
            r.append(separator);
        }
        r.append(paths[j].as_str());
        proof {
            let pre = all.subrange(0, j + 1);
            assert(pre.drop_last() =~= all.subrange(0, j as int));
            if j == 0 {
                assert(r@ =~= pre[0]);
            }
        }
        j = j + 1;
    }
    assert(all.subrange(0, all.len() as int) =~= all);
    r
}

/// Path under the libraries directory of a library's jar on the classpath:
/// none when the OS rules disallow it; the explicit artifact path when the
/// metadata gives one; else the path its coordinate spells.
pub open spec fn jar_path_of(lib: Library, os_name: Seq<char>) -> Option<Seq<char>> {
    if !crate::rules::library_rules_allow(lib.rules, os_name) {
        None
    } else {
        let explicit = match lib.downloads {
            Some(d) => match d.artifact {
                Some(a) => crate::maven::artifact_location(a, lib.name@, None),
                None => None,
            },
            None => None,
        };
        match explicit {
            Some((u, p)) => Some(p),
            None => if split_on(lib.name@, ':').len() >= 3 {
                Some(crate::maven::name_path(lib.name@, None))
            } else {
                None
            },
        }
    }
}

/// Candidate classpath jars (`dir/path`, see `jar_path_of`) of a library
/// list, in order; the caller keeps those present on disk.
pub open spec fn candidates_of(libs: Seq<Library>, os_name: Seq<char>, dir: Seq<char>) -> Seq<(Seq<char>, Seq<char>)>
    decreases libs.len(),
{
    if libs.len() == 0 {
        Seq::empty()
    } else {
        candidates_of(libs.drop_last(), os_name, dir) + match jar_path_of(libs.last(), os_name) {
            Some(p) => seq![(libs.last().name@, dir + "/"@ + p)],
            None => Seq::empty(),
        }
    }
}

pub open spec fn entries_view(v: Seq<ClasspathEntry>) -> Seq<(Seq<char>, Seq<char>)> {
    v.map_values(|e: ClasspathEntry| (e.name@, e.path@))
}

fn jar_path(lib: &Library, os_name: &str) -> (r: Option<String>)
    ensures
        crate::maven::opt_text(r) == jar_path_of(*lib, os_name@),
{
    if !library_allowed(lib.rules.as_ref(), os_name) {
        return None;
    }
    if let Some(d) = &lib.downloads {
        if let Some(a) = &d.artifact {
            if let Some((_, path)) = resolve_library_artifact(a, lib.name.as_str(), None) {
                return Some(path);
            }
        }
    }
    match parse_maven_coordinate(lib.name.as_str()) {
        Ok(c) => match build_maven_path_url(DEFAULT_LIBRARIES_URL, &c) {
            Ok((path, _)) => Some(path),
            Err(_) => None,
        },
        Err(_) => None,
    }
}

/// Candidate classpath jars of a library list (see `candidates_of`).
pub fn classpath_candidates(libraries: &Vec<Library>, os_name: &str, libraries_dir: &str) -> (r: Vec<ClasspathEntry>)
    ensures
        entries_view(r@) == candidates_of(libraries@, os_name@, libraries_dir@),
{
    let mut r: Vec<ClasspathEntry> = Vec::new();
    let mut i: usize = 0;
    assert(entries_view(r@) =~= candidates_of(libraries@.subrange(0, 0), os_name@, libraries_dir@));
    while i < libraries.len()
        invariant
            i <= libraries.len(),
            entries_view(r@) == candidates_of(libraries@.subrange(0, i as int), os_name@, libraries_dir@),
        decreases libraries.len() - i,
    {
        let lib = &libraries[i];
        proof {
            let pre = libraries@.subrange(0, i + 1);
            assert(pre.drop_last() =~= libraries@.subrange(0, i as int));
            assert(pre.last() == *lib);
        }
        let ghost before = entries_view(r@);
        match jar_path(lib, os_name) {
            Some(p) => {
                let path = crate::text::join_path(libraries_dir, p.as_str());
                let e = ClasspathEntry { name: lib.name.clone(), path };
                let ghost ev = (e.name@, e.path@);
                r.push(e);
                assert(entries_view(r@) =~= before + seq![ev]);
            },
            None => {
                assert(entries_view(r@) =~= before + Seq::<(Seq<char>, Seq<char>)>::empty());
            },
        }
        i = i + 1;
    }
    assert(libraries@.subrange(0, libraries.len() as int) =~= libraries@);
    r
}

} // verus!
