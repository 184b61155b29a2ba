//! Launch argument assembly: rule-gated argument lists, placeholder
//! substitution, quick-play removal, heap and classpath arguments, and the
//! player identity handed to the game.

use vstd::prelude::*;
use crate::rules::{FeatureFlags, argument_rules_allow, rules_allow};
use crate::config::{Account, AccountKind, AppConfig, Instance, JavaSettings};
use crate::maven::opt_text;
use crate::text::{
    chars_of, contains, copy_str, decimal, decimal_text, has_infix, has_prefix, join_path,
    push_char, same_text, split_whitespace, starts_with, texts, words,
};
use crate::versions::{Argument, ArgumentValue, ResolvedVersion, VersionArguments};

verus! {

/// Strings an argument contributes once its rules are evaluated.
pub open spec fn argument_strings(a: Argument, os_name: Seq<char>, flags: FeatureFlags) -> Seq<
    Seq<char>,
> {
    match a {
        Argument::Plain(s) => seq![s@],
        Argument::Gated(o) => if argument_rules_allow(o.rules, os_name, flags) {
            match o.value {
                ArgumentValue::Single(s) => seq![s@],
                ArgumentValue::List(l) => l@.map_values(|x: String| x@),
            }
        } else {
            Seq::empty()
        },
    }
}

/// A whole argument list flattened under the given OS and flags.
pub open spec fn flattened(args: Seq<Argument>, os_name: Seq<char>, flags: FeatureFlags) -> Seq<
    Seq<char>,
>
    decreases args.len(),
{
    if args.len() == 0 {
        Seq::empty()
    } else {
        flattened(args.drop_last(), os_name, flags) + argument_strings(args.last(), os_name, flags)
    }
}

/// Flattens rule-gated arguments: plain strings are kept, gated values are
/// kept when their rules allow them on `os_name` with `features`.
pub fn flatten_arguments(arguments: Option<&Vec<Argument>>, os_name: &str, features: &FeatureFlags) -> (r: Vec<String>)
    ensures
        texts(r@) == match arguments {
            Some(a) => flattened(a@, os_name@, *features),
            None => Seq::empty(),
        },
{
    let mut flat: Vec<String> = Vec::new();
    let arguments = match arguments {
        Some(a) => a,
        None => {
            assert(texts(flat@) =~= Seq::empty());
            return flat;
        },
    };
    let mut i: usize = 0;
    assert(texts(flat@) =~= flattened(arguments@.subrange(0, 0), os_name@, *features));
    while i < arguments.len()
        invariant
            i <= arguments.len(),
            texts(flat@) == flattened(arguments@.subrange(0, i as int), os_name@, *features),
        decreases arguments.len() - i,
    {
        let ghost before = flat@;
        match &arguments[i] {
            Argument::Plain(value) => {
                flat.push(value.clone());
            },
            Argument::Gated(obj) => {
                if rules_allow(&obj.rules, os_name, features) {
                    match &obj.value {
                        ArgumentValue::Single(value) => {
                            flat.push(value.clone());
                        },
                        ArgumentValue::List(list) => {
                            let mut j: usize = 0;
                            while j < list.len()
                                invariant
                                    j <= list.len(),
                                    flat@ == before + list@.subrange(0, j as int),
                                decreases list.len() - j,
                            {
                                flat.push(list[j].clone());
                                assert(list@.subrange(0, j + 1) =~= list@.subrange(0, j as int).push(
                                    list@[j as int],
                                ));
                                j = j + 1;
                            }
                            assert(list@.subrange(0, list.len() as int) =~= list@);
                        },
                    }
                }
            },
        }
        proof {
            let pre = arguments@.subrange(0, i + 1);
            assert(pre.drop_last() =~= arguments@.subrange(0, i as int));
            assert(pre.last() == arguments@[i as int]);
            assert(texts(flat@) =~= texts(before) + argument_strings(
                arguments@[i as int],
                os_name@,
                *features,
            ));
        }
        i = i + 1;
    }
    assert(arguments@.subrange(0, arguments.len() as int) =~= arguments@);
    flat
}

/// A game argument list without quick-play flags: each `--quickPlay*` flag
/// is dropped together with the value after it, unless that value is itself
/// a flag (starts with `--`).
pub open spec fn without_quickplay(s: Seq<Seq<char>>) -> Seq<Seq<char>>
    decreases s.len(),
{
    if s.len() == 0 {
        s
    } else if has_prefix(s[0], "--quickPlay"@) {
        if s.len() >= 2 && !has_prefix(s[1], "--"@) {
            without_quickplay(s.subrange(2, s.len() as int))
        } else {
            without_quickplay(s.drop_first())
        }
    } else {
        seq![s[0]] + without_quickplay(s.drop_first())
    }
}

/// Removes quick-play flags and their values (see `without_quickplay`).
pub fn strip_quickplay_args(args: Vec<String>) -> (r: Vec<String>)
    ensures
        texts(r@) == without_quickplay(texts(args@)),
{
    let ghost all = texts(args@);
    let mut filtered: Vec<String> = Vec::new();
    let mut i: usize = 0;
    assert(all.subrange(0, all.len() as int) =~= all);
    while i < args.len()
        invariant
            i <= args.len(),
            all == texts(args@),
            texts(filtered@) + without_quickplay(all.subrange(i as int, all.len() as int))
                == without_quickplay(all),
        decreases args.len() - i,
    {
        let ghost rest = all.subrange(i as int, all.len() as int);
        let arg = &args[i];
        assert(rest[0] == arg@);
        if starts_with(arg.as_str(), "--quickPlay") {
            if i + 1 < args.len() {
                let next = &args[i + 1];
                assert(rest[1] == next@);
                if !starts_with(next.as_str(), "--") {
                    assert(rest.subrange(2, rest.len() as int) =~= all.subrange(
                        i + 2,
                        all.len() as int,
                    ));
                    i = i + 2;
                    continue;
                }
            }
            assert(rest.drop_first() =~= all.subrange(i + 1, all.len() as int));
            i = i + 1;
            continue;
        }
        filtered.push(arg.clone());
        assert(rest.drop_first() =~= all.subrange(i + 1, all.len() as int));
        assert(texts(filtered@) =~= texts(filtered@.drop_last()).push(arg@));
        assert(seq![arg@] + without_quickplay(rest.drop_first()) =~= without_quickplay(rest));
        assert(texts(filtered@) + without_quickplay(rest.drop_first()) =~= texts(
            filtered@.drop_last(),
        ) + without_quickplay(rest));
        i = i + 1;
    }
    assert(all.subrange(args.len() as int, all.len() as int) =~= Seq::<Seq<char>>::empty());
    assert(texts(filtered@) + Seq::<Seq<char>>::empty() =~= texts(filtered@));
    filtered
}

/// No argument left after quick-play removal is a quick-play flag, and
/// every argument left was in the list.
pub proof fn lemma_quickplay_removed(s: Seq<Seq<char>>)
    ensures
        forall|i: int|
            0 <= i < without_quickplay(s).len() ==> !has_prefix(
                #[trigger] without_quickplay(s)[i],
                "--quickPlay"@,
            ) && s.contains(without_quickplay(s)[i]),
    decreases s.len(),
{
    if s.len() > 0 {
        lemma_quickplay_removed(s.drop_first());
        if s.len() >= 2 {
            lemma_quickplay_removed(s.subrange(2, s.len() as int));
        }
        let r = without_quickplay(s);
        assert forall|i: int| 0 <= i < r.len() implies !has_prefix(
            #[trigger] r[i],
            "--quickPlay"@,
        ) && s.contains(r[i]) by {
            if has_prefix(s[0], "--quickPlay"@) {
                if s.len() >= 2 && !has_prefix(s[1], "--"@) {
                    let t = s.subrange(2, s.len() as int);
                    assert(r[i] == without_quickplay(t)[i]);
                    assert(t.contains(without_quickplay(t)[i]));
                    let k = choose|k: int| 0 <= k < t.len() && t[k] == r[i];
                    assert(s[k + 2] == r[i]);
                } else {
                    let t = s.drop_first();
                    assert(r[i] == without_quickplay(t)[i]);
                    assert(t.contains(without_quickplay(t)[i]));
                    let k = choose|k: int| 0 <= k < t.len() && t[k] == r[i];
                    assert(s[k + 1] == r[i]);
                }
            } else if i > 0 {
                let t = s.drop_first();
                assert(r[i] == without_quickplay(t)[i - 1]);
                assert(t.contains(without_quickplay(t)[i - 1]));
                let k = choose|k: int| 0 <= k < t.len() && t[k] == without_quickplay(t)[i - 1];
                assert(s[k + 1] == r[i]);
            } else {
                assert(r[0] == s[0]);
            }
        }
    }
}

/// A placeholder token (such as `${classpath}`) and the text it stands for.
#[derive(Clone, Debug, PartialEq, Eq)]
pub struct Binding {
    pub token: String,
    pub value: String,
}

/// Tokens and values of bindings.
pub open spec fn binding_pairs(b: Seq<Binding>) -> Seq<(Seq<char>, Seq<char>)> {
    b.map_values(|x: Binding| (x.token@, x.value@))
}

/// Index of the first binding whose (non-empty) token starts `s`.
pub open spec fn binding_at(s: Seq<char>, b: Seq<(Seq<char>, Seq<char>)>) -> Option<int>
    decreases b.len(),
{
    if b.len() == 0 {
        None
    } else {
        match binding_at(s, b.drop_last()) {
            Some(k) => Some(k),
            None => if b.last().0.len() > 0 && has_prefix(s, b.last().0) {
                Some(b.len() - 1)
            } else {
                None
            },
        }
    }
}

/// `s` with every placeholder token replaced by its value, in one pass from
/// the left; text that a value brings in is not scanned again.
pub open spec fn substituted(s: Seq<char>, b: Seq<(Seq<char>, Seq<char>)>) -> Seq<char>
    decreases s.len(),
{
    if s.len() == 0 {
        s
    } else {
        match binding_at(s, b) {
            Some(k) => if 0 <= k < b.len() && b[k].0.len() > 0 && b[k].0.len() <= s.len() {
                b[k].1 + substituted(s.subrange(b[k].0.len() as int, s.len() as int), b)
            } else {
                Seq::empty()
            },
            None => seq![s[0]] + substituted(s.drop_first(), b),
        }
    }
}

proof fn lemma_binding_at_valid(s: Seq<char>, b: Seq<(Seq<char>, Seq<char>)>)
    ensures
        binding_at(s, b) matches Some(k) ==> 0 <= k < b.len() && b[k].0.len() > 0 && has_prefix(
            s,
            b[k].0,
        ),
        binding_at(s, b) is None ==> forall|k: int|
            0 <= k < b.len() && b[k].0.len() > 0 ==> !has_prefix(s, #[trigger] b[k].0),
    decreases b.len(),
{
    if b.len() > 0 {
        lemma_binding_at_valid(s, b.drop_last());
        if binding_at(s, b.drop_last()) is None {
            assert forall|k: int|
                0 <= k < b.len() - 1 && b[k].0.len() > 0 implies !has_prefix(
                s,
                #[trigger] b[k].0,
            ) by {
                assert(b.drop_last()[k] == b[k]);
            }
        } else {
            let k = binding_at(s, b.drop_last())->0;
            assert(b.drop_last()[k] == b[k]);
        }
    }
}

proof fn lemma_binding_at_prefix(s: Seq<char>, b: Seq<(Seq<char>, Seq<char>)>, n: int)
    requires
        0 <= n <= b.len(),
        binding_at(s, b.subrange(0, n)) is Some,
    ensures
        binding_at(s, b) == binding_at(s, b.subrange(0, n)),
    decreases b.len(),
{
    if n == b.len() {
        assert(b.subrange(0, n) =~= b);
    } else {
        assert(b.drop_last().subrange(0, n) =~= b.subrange(0, n));
        lemma_binding_at_prefix(s, b.drop_last(), n);
    }
}

/// Index of the first binding whose token starts `s` at position `i`.
fn find_binding(s: &Vec<char>, i: usize, bindings: &Vec<Binding>, tokens: &Vec<Vec<char>>) -> (r: Option<usize>)
    requires
        i <= s@.len(),
        tokens@.len() == bindings@.len(),
        forall|k: int| 0 <= k < tokens@.len() ==> (#[trigger] tokens@[k])@ == binding_pairs(bindings@)[k].0,
    ensures
        r matches Some(k) ==> Some(k as int) == binding_at(s@.subrange(i as int, s@.len() as int), binding_pairs(bindings@)),
        r is None ==> binding_at(s@.subrange(i as int, s@.len() as int), binding_pairs(bindings@)) is None,
{
    let ghost rest = s@.subrange(i as int, s@.len() as int);
    let sl = s.len();
    let mut k: usize = 0;
    while k < bindings.len()
        invariant
            sl == s@.len(),
            k <= bindings.len(),
            tokens@.len() == bindings@.len(),
            forall|m: int| 0 <= m < tokens@.len() ==> (#[trigger] tokens@[m])@ == binding_pairs(bindings@)[m].0,
            rest == s@.subrange(i as int, s@.len() as int),
            i <= s@.len(),
            binding_at(rest, binding_pairs(bindings@).subrange(0, k as int)) is None,
        decreases bindings.len() - k,
    {
        let t = &tokens[k];
        let mut ok = t.len() > 0 && t.len() <= s.len() - i;
        let mut j: usize = 0;
        while ok && j < t.len()
            invariant
                ok ==> t@.len() <= s@.len() - i && t@.len() > 0,
                j <= t@.len(),
                ok ==> forall|m: int| 0 <= m < j ==> s@[i + m] == t@[m],
                !ok ==> !(t@.len() > 0 && has_prefix(rest, t@)),
                rest == s@.subrange(i as int, s@.len() as int),
                i <= s@.len(),
                s@.len() <= usize::MAX,
                k < bindings@.len(),
                t@ == binding_pairs(bindings@)[k as int].0,
                tokens@.len() == bindings@.len(),
                forall|m: int| 0 <= m < tokens@.len() ==> (#[trigger] tokens@[m])@ == binding_pairs(bindings@)[m].0,
                binding_at(rest, binding_pairs(bindings@).subrange(0, k as int)) is None,
            decreases t@.len() - j,
        {
            assert(i + j < s@.len());
            if s[i + j] != t[j] {
                ok = false;
                assert(rest.subrange(0, t@.len() as int)[j as int] != t@[j as int]);
            }
            j = j + 1;
        }
        proof {
            let pre = binding_pairs(bindings@).subrange(0, k + 1);
            assert(pre.drop_last() =~= binding_pairs(bindings@).subrange(0, k as int));
            assert(pre.last() == binding_pairs(bindings@)[k as int]);
            if ok {
                assert(rest.subrange(0, t@.len() as int) =~= t@);
                assert(has_prefix(rest, pre.last().0));
                assert(binding_at(rest, pre) == Some(k as int));
                lemma_binding_at_prefix(rest, binding_pairs(bindings@), k + 1);
            }
        }
        if ok {
            return Some(k);
        }
        k = k + 1;
    }
    assert(binding_pairs(bindings@).subrange(0, bindings@.len() as int) =~= binding_pairs(bindings@));
    None
}

/// Replaces every placeholder token of `value` (see `substituted`).
pub fn replace_tokens(value: &str, bindings: &Vec<Binding>) -> (r: String)
    ensures
        r@ == substituted(value@, binding_pairs(bindings@)),
{
    let s = chars_of(value);
    let mut tokens: Vec<Vec<char>> = Vec::new();
    let mut k: usize = 0;
    while k < bindings.len()
        invariant
            k <= bindings.len(),
            tokens@.len() == k,
            forall|m: int| 0 <= m < k ==> (#[trigger] tokens@[m])@ == binding_pairs(bindings@)[m].0,
        decreases bindings.len() - k,
    {
        tokens.push(chars_of(bindings[k].token.as_str()));
        k = k + 1;
    }
    let mut r = String::new();
    let mut i: usize = 0;
    assert(value@.subrange(0, value@.len() as int) =~= value@);
    while i < s.len()
        invariant
            s@ == value@,
            i <= s.len(),
            tokens@.len() == bindings@.len(),
            forall|m: int| 0 <= m < tokens@.len() ==> (#[trigger] tokens@[m])@ == binding_pairs(bindings@)[m].0,
            r@ + substituted(value@.subrange(i as int, value@.len() as int), binding_pairs(bindings@)) == substituted(
                value@,
                binding_pairs(bindings@),
            ),
        decreases s.len() - i,
    {
        let ghost rest = value@.subrange(i as int, value@.len() as int);
        proof {
            lemma_binding_at_valid(rest, binding_pairs(bindings@));
        }
        match find_binding(&s, i, bindings, &tokens) {
            Some(k) => {
                let ghost before = r@;
                r.append(bindings[k].value.as_str());
                let n = tokens[k].len();
                proof {
                    assert(rest.subrange(n as int, rest.len() as int) =~= value@.subrange(
                        i + n,
                        value@.len() as int,
                    ));
                    assert(before + (binding_pairs(bindings@)[k as int].1 + substituted(
                        rest.subrange(n as int, rest.len() as int),
                        binding_pairs(bindings@),
                    )) =~= r@ + substituted(rest.subrange(n as int, rest.len() as int), binding_pairs(bindings@)));
                }
                i = i + n;
            },
            None => {
                let ghost before = r@;
                push_char(&mut r, s[i]);
                proof {
                    assert(rest.drop_first() =~= value@.subrange(i + 1, value@.len() as int));
                    assert(before + (seq![rest[0]] + substituted(rest.drop_first(), binding_pairs(bindings@)))
                        =~= r@ + substituted(rest.drop_first(), binding_pairs(bindings@)));
                }
                i = i + 1;
            },
        }
    }
    assert(r@ + Seq::<char>::empty() =~= r@);
    r
}

/// A template every `$` of which starts a bound token.
pub open spec fn dollars_bound(s: Seq<char>, b: Seq<(Seq<char>, Seq<char>)>) -> bool {
    forall|i: int| 0 <= i < s.len() && s[i] == '$' ==> #[trigger] binding_at(s.subrange(i, s.len() as int), b) is Some
}

/// No value of the bindings holds a `$`.
pub open spec fn values_plain(b: Seq<(Seq<char>, Seq<char>)>) -> bool {
    forall|k: int| 0 <= k < b.len() ==> !(#[trigger] b[k].1).contains('$')
}

/// Substituting into a template whose every `$` starts a bound token, with
/// values free of `$`, leaves no `$` at all: no placeholder survives, and
/// none is formed by the values.
pub proof fn lemma_no_placeholder_left(s: Seq<char>, b: Seq<(Seq<char>, Seq<char>)>)
    requires
        dollars_bound(s, b),
        values_plain(b),
    ensures
        !substituted(s, b).contains('$'),
    decreases s.len(),
{
    if s.len() > 0 {
        lemma_binding_at_valid(s, b);
        assert(s.subrange(0, s.len() as int) =~= s);
        match binding_at(s, b) {
            Some(k) => {
                let n = b[k].0.len() as int;
                let t = s.subrange(n, s.len() as int);
                assert forall|i: int| 0 <= i < t.len() && t[i] == '$' implies #[trigger] binding_at(
                    t.subrange(i, t.len() as int),
                    b,
                ) is Some by {
                    assert(s[i + n] == '$');
                    assert(t.subrange(i, t.len() as int) =~= s.subrange(i + n, s.len() as int));
                }
                lemma_no_placeholder_left(t, b);
                let r = substituted(s, b);
                assert(r =~= b[k].1 + substituted(t, b));
                if r.contains('$') {
                    let j = choose|j: int| 0 <= j < r.len() && r[j] == '$';
                    if j < b[k].1.len() {
                        assert(b[k].1[j] == '$');
                    } else {
                        assert(substituted(t, b)[j - b[k].1.len()] == '$');
                    }
                }
            },
            None => {
                assert(s[0] != '$');
                let t = s.drop_first();
                assert forall|i: int| 0 <= i < t.len() && t[i] == '$' implies #[trigger] binding_at(
                    t.subrange(i, t.len() as int),
                    b,
                ) is Some by {
                    assert(s[i + 1] == '$');
                    assert(t.subrange(i, t.len() as int) =~= s.subrange(i + 1, s.len() as int));
                }
                lemma_no_placeholder_left(t, b);
                let r = substituted(s, b);
                if r.contains('$') {
                    let j = choose|j: int| 0 <= j < r.len() && r[j] == '$';
                    if j > 0 {
                        assert(substituted(t, b)[j - 1] == '$');
                    }
                }
            },
        }
    }
}

/// Values substituted into launch arguments.
#[derive(Clone, Debug, PartialEq, Eq)]
pub struct LaunchContext {
    pub player_name: String,
    pub uuid: String,
    pub access_token: String,
    pub user_type: String,
    pub xuid: String,
    pub client_id: String,
    pub version_name: String,
    pub game_dir: String,
    pub assets_root: String,
    pub asset_index_name: String,
    pub classpath: String,
    pub classpath_separator: String,
    pub natives_dir: String,
    pub launcher_name: String,
    pub launcher_version: String,
    pub version_type: String,
}

/// Placeholder tokens and the context values they stand for.
pub open spec fn context_bindings(c: LaunchContext) -> Seq<(Seq<char>, Seq<char>)> {
    seq![
        ("${auth_player_name}"@, c.player_name@),
        ("${version_name}"@, c.version_name@),
        ("${game_directory}"@, c.game_dir@),
        ("${assets_root}"@, c.assets_root@),
        ("${assets_index_name}"@, c.asset_index_name@),
        ("${auth_uuid}"@, c.uuid@),
        ("${auth_access_token}"@, c.access_token@),
        ("${auth_xuid}"@, c.xuid@),
        ("${clientid}"@, c.client_id@),
        ("${user_type}"@, c.user_type@),
        ("${version_type}"@, c.version_type@),
        ("${user_properties}"@, "{}"@),
        ("${classpath}"@, c.classpath@),
        ("${classpath_separator}"@, c.classpath_separator@),
        ("${natives_directory}"@, c.natives_dir@),
        ("${launcher_name}"@, c.launcher_name@),
        ("${launcher_version}"@, c.launcher_version@),
    ]
}

fn bind(b: &mut Vec<Binding>, token: &str, value: &str)
    ensures
        binding_pairs(final(b)@) == binding_pairs(old(b)@).push((token@, value@)),
{
    b.push(Binding { token: copy_str(token), value: copy_str(value) });
    assert(binding_pairs(b@) =~= binding_pairs(old(b)@).push((token@, value@)));
}

/// The placeholder bindings of a launch context (see `context_bindings`).
pub fn token_bindings(c: &LaunchContext) -> (r: Vec<Binding>)
    ensures
        binding_pairs(r@) == context_bindings(*c),
{
    let mut b: Vec<Binding> = Vec::new();
    bind(&mut b, "${auth_player_name}", c.player_name.as_str());
    bind(&mut b, "${version_name}", c.version_name.as_str());
    bind(&mut b, "${game_directory}", c.game_dir.as_str());
    bind(&mut b, "${assets_root}", c.assets_root.as_str());
    bind(&mut b, "${assets_index_name}", c.asset_index_name.as_str());
    bind(&mut b, "${auth_uuid}", c.uuid.as_str());
    bind(&mut b, "${auth_access_token}", c.access_token.as_str());
    bind(&mut b, "${auth_xuid}", c.xuid.as_str());
    bind(&mut b, "${clientid}", c.client_id.as_str());
    bind(&mut b, "${user_type}", c.user_type.as_str());
    bind(&mut b, "${version_type}", c.version_type.as_str());
    bind(&mut b, "${user_properties}", "{}");
    bind(&mut b, "${classpath}", c.classpath.as_str());
    bind(&mut b, "${classpath_separator}", c.classpath_separator.as_str());
    bind(&mut b, "${natives_directory}", c.natives_dir.as_str());
    bind(&mut b, "${launcher_name}", c.launcher_name.as_str());
    bind(&mut b, "${launcher_version}", c.launcher_version.as_str());
    assert(binding_pairs(b@) =~= context_bindings(*c));
    b
}

/// A JVM argument from metadata that is kept: classpath and natives
/// placeholders (re-added canonically) and `-cp` go, and so does
/// `-XstartOnFirstThread` off macOS.
pub open spec fn jvm_kept(a: Seq<char>, is_macos: bool) -> bool {
    &&& a != "-cp"@
    &&& !has_infix(a, "${classpath}"@)
    &&& !has_infix(a, "${classpath_separator}"@)
    &&& !has_infix(a, "${natives_directory}"@)
    &&& (is_macos || a != "-XstartOnFirstThread"@)
}

/// The JVM argument list before substitution.
pub open spec fn jvm_arguments(
    from_metadata: Seq<Seq<char>>,
    is_macos: bool,
    logging_argument: Option<Seq<char>>,
    min_gb: u8,
    max_gb: u8,
    natives_dir: Seq<char>,
    global_args: Seq<char>,
    instance_args: Option<Seq<char>>,
    classpath: Seq<char>,
) -> Seq<Seq<char>> {
    from_metadata.filter(|a: Seq<char>| jvm_kept(a, is_macos)) + (match logging_argument {
        Some(l) => seq![l],
        None => Seq::empty(),
    }) + seq![
        "-Xms"@ + decimal(min_gb as nat) + "G"@,
        "-Xmx"@ + decimal(max_gb as nat) + "G"@,
        "-Djava.library.path="@ + natives_dir,
    ] + words(global_args) + (match instance_args {
        Some(x) => words(x),
        None => Seq::empty(),
    }) + seq!["-cp"@, classpath]
}

fn keep_jvm_argument(a: &str, is_macos: bool) -> (r: bool)
    ensures
        r == jvm_kept(a@, is_macos),
{
    !same_text(a, "-cp") && !contains(a, "${classpath}") && !contains(a, "${classpath_separator}")
        && !contains(a, "${natives_directory}") && (is_macos || !same_text(a, "-XstartOnFirstThread"))
}

fn push_words(v: &mut Vec<String>, s: &str)
    ensures
        texts(final(v)@) == texts(old(v)@) + words(s@),
{
    let w = split_whitespace(s);
    let mut i: usize = 0;
    while i < w.len()
        invariant
            i <= w.len(),
            w@.len() == words(s@).len(),
            forall|k: int| 0 <= k < w@.len() ==> #[trigger] w@[k]@ == words(s@)[k],
            texts(v@) == texts(old(v)@) + words(s@).subrange(0, i as int),
        decreases w.len() - i,
    {
        let ghost prev = texts(v@);
        push_text(v, w[i].clone());
        assert(words(s@).subrange(0, i + 1) =~= words(s@).subrange(0, i as int).push(w@[i as int]@));
        assert(texts(v@) =~= texts(old(v)@) + words(s@).subrange(0, i + 1));
        i = i + 1;
    }
    assert(words(s@).subrange(0, w@.len() as int) =~= words(s@));
}

fn push_text(v: &mut Vec<String>, s: String)
    ensures
        texts(final(v)@) == texts(old(v)@).push(s@),
{
    let ghost sv = s@;
    v.push(s);
    assert(texts(v@) =~= texts(old(v)@).push(sv));
}

/// Assembles the JVM arguments (see `jvm_arguments`): the metadata's
/// arguments that are kept, the logging argument, heap bounds in GiB, the
/// natives directory, the global then per-instance extra arguments, and the
/// classpath last.
pub fn assemble_jvm_arguments(
    from_metadata: &Vec<String>,
    is_macos: bool,
    logging_argument: &Option<String>,
    min_gb: u8,
    max_gb: u8,
    natives_dir: &str,
    global_args: &str,
    instance_args: &Option<String>,
    classpath: &str,
) -> (r: Vec<String>)
    ensures
        texts(r@) == jvm_arguments(
            texts(from_metadata@),
            is_macos,
            opt_text(*logging_argument),
            min_gb,
            max_gb,
            natives_dir@,
            global_args@,
            opt_text(*instance_args),
            classpath@,
        ),
{
    let ghost m = texts(from_metadata@);
    let ghost kept = |a: Seq<char>| jvm_kept(a, is_macos);
    let mut r: Vec<String> = Vec::new();
    let mut i: usize = 0;
    proof {
        reveal(Seq::filter);
    }
    assert(m.subrange(0, 0).filter(kept) =~= texts(r@));
    while i < from_metadata.len()
        invariant
            i <= from_metadata.len(),
            m == texts(from_metadata@),
            kept == (|a: Seq<char>| jvm_kept(a, is_macos)),
            texts(r@) == m.subrange(0, i as int).filter(kept),
        decreases from_metadata.len() - i,
    {
        let ghost pre = m.subrange(0, i + 1);
        proof {
            assert(pre.drop_last() =~= m.subrange(0, i as int));
            assert(pre.last() == from_metadata@[i as int]@);
            assert(kept(pre.last()) == jvm_kept(pre.last(), is_macos));
            reveal(Seq::filter);
        }
        if keep_jvm_argument(from_metadata[i].as_str(), is_macos) {
            push_text(&mut r, from_metadata[i].clone());
            assert(texts(r@) == pre.filter(kept));
        } else {
            assert(texts(r@) == pre.filter(kept));
        }
        i = i + 1;
    }
    assert(m.subrange(0, m.len() as int) =~= m);
    let ghost part1 = texts(r@);
    match logging_argument {
        Some(l) => push_text(&mut r, l.clone()),
        None => {},
    }
    let ghost part2 = texts(r@);
    let mut xms = copy_str("-Xms");
    let t = decimal_text(min_gb as u64);
    xms.append(t.as_str());
    xms.append("G");
    push_text(&mut r, xms);
    let mut xmx = copy_str("-Xmx");
    let t = decimal_text(max_gb as u64);
    xmx.append(t.as_str());
    xmx.append("G");
    push_text(&mut r, xmx);
    let mut lib = copy_str("-Djava.library.path=");
    lib.append(natives_dir);
    push_text(&mut r, lib);
    let ghost part3 = texts(r@);
    push_words(&mut r, global_args);
    let ghost part4 = texts(r@);
    match instance_args {
        Some(x) => push_words(&mut r, x.as_str()),
        None => {},
    }
    let ghost part5 = texts(r@);
    push_text(&mut r, copy_str("-cp"));
    push_text(&mut r, copy_str(classpath));
    assert(texts(r@) =~= jvm_arguments(
        m,
        is_macos,
        opt_text(*logging_argument),
        min_gb,
        max_gb,
        natives_dir@,
        global_args@,
        opt_text(*instance_args),
        classpath@,
    ));
    r
}

/// Game arguments before substitution: the structured list flattened when
/// the metadata has one, else the legacy string split on white space; then
/// without quick-play flags.
pub open spec fn game_arguments_of(
    arguments: Option<VersionArguments>,
    legacy: Option<Seq<char>>,
    os_name: Seq<char>,
    flags: FeatureFlags,
) -> Seq<Seq<char>> {
    without_quickplay(
        match arguments {
            Some(a) => match a.game {
                Some(g) => flattened(g@, os_name, flags),
                None => Seq::empty(),
            },
            None => match legacy {
                Some(l) => words(l),
                None => Seq::empty(),
            },
        },
    )
}

/// Game arguments of a resolved version (see `game_arguments_of`).
pub fn game_arguments(
    arguments: &Option<VersionArguments>,
    legacy: &Option<String>,
    os_name: &str,
    features: &FeatureFlags,
) -> (r: Vec<String>)
    ensures
        texts(r@) == game_arguments_of(*arguments, opt_text(*legacy), os_name@, *features),
{
    let raw = match arguments {
        Some(a) => flatten_arguments(a.game.as_ref(), os_name, features),
        None => match legacy {
            Some(l) => {
                let mut v: Vec<String> = Vec::new();
                push_words(&mut v, l.as_str());
                assert(texts(v@) =~= words(l@));
                v
            },
            None => {
                let v: Vec<String> = Vec::new();
                assert(texts(v@) =~= Seq::<Seq<char>>::empty());
                v
            },
        },
    };
    strip_quickplay_args(raw)
}

/// The process arguments: JVM arguments substituted, the main class, then
/// game arguments substituted.
pub open spec fn final_arguments_of(
    jvm: Seq<Seq<char>>,
    main_class: Seq<char>,
    game: Seq<Seq<char>>,
    b: Seq<(Seq<char>, Seq<char>)>,
) -> Seq<Seq<char>> {
    jvm.map_values(|a: Seq<char>| substituted(a, b)) + seq![main_class] + game.map_values(
        |a: Seq<char>| substituted(a, b),
    )
}

fn push_substituted(out: &mut Vec<String>, args: &Vec<String>, bindings: &Vec<Binding>)
    ensures
        texts(final(out)@) == texts(old(out)@) + texts(args@).map_values(
            |a: Seq<char>| substituted(a, binding_pairs(bindings@)),
        ),
{
    let ghost f = |a: Seq<char>| substituted(a, binding_pairs(bindings@));
    let mut i: usize = 0;
    while i < args.len()
        invariant
            i <= args.len(),
            f == (|a: Seq<char>| substituted(a, binding_pairs(bindings@))),
            texts(out@) == texts(old(out)@) + texts(args@).subrange(0, i as int).map_values(f),
        decreases args.len() - i,
    {
        let s = replace_tokens(args[i].as_str(), bindings);
        push_text(out, s);
        assert(texts(args@).subrange(0, i + 1).map_values(f) =~= texts(args@).subrange(
            0,
            i as int,
        ).map_values(f).push(f(args@[i as int]@)));
        assert(texts(out@) =~= texts(old(out)@) + texts(args@).subrange(0, i + 1).map_values(f));
        i = i + 1;
    }
    assert(texts(args@).subrange(0, args.len() as int) =~= texts(args@));
}

/// The process arguments (see `final_arguments_of`).
pub fn final_arguments(jvm: &Vec<String>, main_class: &str, game: &Vec<String>, bindings: &Vec<Binding>) -> (r: Vec<String>)
    ensures
        texts(r@) == final_arguments_of(texts(jvm@), main_class@, texts(game@), binding_pairs(bindings@)),
{
    let mut r: Vec<String> = Vec::new();
    push_substituted(&mut r, jvm, bindings);
    push_text(&mut r, copy_str(main_class));
    push_substituted(&mut r, game, bindings);
    assert(texts(r@) =~= final_arguments_of(texts(jvm@), main_class@, texts(game@), binding_pairs(bindings@)));
    r
}

/// No process argument holds a `$`, so neither `${classpath}` nor
/// `${natives_directory}` appears literally, when every `$` of every argument
/// template starts a bound token, no bound value holds a `$`, and the main
/// class holds none.
pub proof fn lemma_final_arguments_placeholder_free(
    jvm: Seq<Seq<char>>,
    main_class: Seq<char>,
    game: Seq<Seq<char>>,
    b: Seq<(Seq<char>, Seq<char>)>,
)
    requires
        forall|i: int| 0 <= i < jvm.len() ==> dollars_bound(#[trigger] jvm[i], b),
        forall|i: int| 0 <= i < game.len() ==> dollars_bound(#[trigger] game[i], b),
        values_plain(b),
        !main_class.contains('$'),
    ensures
        forall|i: int|
            0 <= i < final_arguments_of(jvm, main_class, game, b).len() ==> !(
            #[trigger] final_arguments_of(jvm, main_class, game, b)[i]).contains('$') && !has_infix(
                final_arguments_of(jvm, main_class, game, b)[i],
                "${classpath}"@,
            ) && !has_infix(final_arguments_of(jvm, main_class, game, b)[i], "${natives_directory}"@),
{
    reveal_strlit("${classpath}");
    reveal_strlit("${natives_directory}");
    let f = final_arguments_of(jvm, main_class, game, b);
    assert forall|i: int| 0 <= i < f.len() implies !(#[trigger] f[i]).contains('$') && !has_infix(
        f[i],
        "${classpath}"@,
    ) && !has_infix(f[i], "${natives_directory}"@) by {
        if i < jvm.len() {
            lemma_no_placeholder_left(jvm[i], b);
        } else if i > jvm.len() {
            lemma_no_placeholder_left(game[i - jvm.len() - 1], b);
        }
        if has_infix(f[i], "${classpath}"@) {
            let k = choose|k: int|
                0 <= k && k + "${classpath}"@.len() <= f[i].len() && #[trigger] f[i].subrange(
                    k,
                    k + "${classpath}"@.len(),
                ) == "${classpath}"@;
            assert(f[i].subrange(k, k + "${classpath}"@.len())[0] == '$');
        }
        if has_infix(f[i], "${natives_directory}"@) {
            let k = choose|k: int|
                0 <= k && k + "${natives_directory}"@.len() <= f[i].len() && #[trigger] f[i].subrange(
                    k,
                    k + "${natives_directory}"@.len(),
                ) == "${natives_directory}"@;
            assert(f[i].subrange(k, k + "${natives_directory}"@.len())[0] == '$');
        }
    }
}

/// Name-based (version 3, MD5) UUID of a text in the DNS namespace, in its
/// hyphenated lower-case form.
pub uninterp spec fn uuid_v3_dns(name: Seq<char>) -> Seq<char>;

/// Relies on uuid::Uuid::new_v3 with Uuid::NAMESPACE_DNS: a UUID determined
/// by the bytes of the text alone.
#[verifier::external_body]
fn name_uuid(name: &str) -> (r: String)
    ensures
        r@ == uuid_v3_dns(name@),
{
    uuid::Uuid::new_v3(&uuid::Uuid::NAMESPACE_DNS, name.as_bytes()).to_string()
}

/// UUID of an offline player: the name-based UUID of `OfflinePlayer:{name}`.
pub open spec fn offline_uuid_of(name: Seq<char>) -> Seq<char> {
    uuid_v3_dns("OfflinePlayer:"@ + name)
}

/// The deterministic UUID of an offline player name.
pub fn offline_uuid(name: &str) -> (r: String)
    ensures
        r@ == offline_uuid_of(name@),
{
    let mut s = copy_str("OfflinePlayer:");
    s.append(name);
    name_uuid(s.as_str())
}

/// Who the game is launched as.
#[derive(Clone, Debug, PartialEq, Eq)]
pub struct PlayerIdentity {
    pub player_name: String,
    pub uuid: String,
    pub access_token: String,
    pub user_type: String,
    pub xuid: String,
}

/// The first account with id `id`.
pub open spec fn account_with_id(accounts: Seq<Account>, id: Seq<char>) -> Option<Account>
    decreases accounts.len(),
{
    if accounts.len() == 0 {
        None
    } else if accounts[0].id@ == id {
        Some(accounts[0])
    } else {
        account_with_id(accounts.drop_first(), id)
    }
}

/// The active account, when one is set and exists.
pub open spec fn active_account(config: AppConfig) -> Option<Account> {
    match config.active_account_id {
        Some(id) => account_with_id(config.accounts@, id@),
        None => None,
    }
}

fn find_account<'a>(accounts: &'a Vec<Account>, id: &str) -> (r: Option<&'a Account>)
    ensures
        match r {
            Some(a) => account_with_id(accounts@, id@) == Some(*a),
            None => account_with_id(accounts@, id@) is None,
        },
{
    let mut i: usize = 0;
    assert(accounts@.subrange(0, accounts@.len() as int) =~= accounts@);
    while i < accounts.len()
        invariant
            i <= accounts.len(),
            account_with_id(accounts@, id@) == account_with_id(
                accounts@.subrange(i as int, accounts@.len() as int),
                id@,
            ),
        decreases accounts.len() - i,
    {
        assert(accounts@.subrange(i as int, accounts@.len() as int).drop_first() =~= accounts@.subrange(
            i + 1,
            accounts@.len() as int,
        ));
        if same_text(accounts[i].id.as_str(), id) {
            return Some(&accounts[i]);
        }
        i = i + 1;
    }
    None
}

fn active<'a>(config: &'a AppConfig) -> (r: Option<&'a Account>)
    ensures
        match r {
            Some(a) => active_account(*config) == Some(*a),
            None => active_account(*config) is None,
        },
{
    match &config.active_account_id {
        Some(id) => find_account(&config.accounts, id.as_str()),
        None => None,
    }
}

/// Display name of the active account.
pub fn resolve_player_name(config: &AppConfig) -> (r: Option<String>)
    ensures
        opt_text(r) == match active_account(*config) {
            Some(a) => Some(a.display_name@),
            None => None,
        },
{
    match active(config) {
        Some(a) => Some(a.display_name.clone()),
        None => None,
    }
}

/// The identity a launch uses: a linked account with a stored token and UUID
/// plays as itself (`msa`); an offline account plays under the requested
/// name (else its own) with its UUID (else the name's offline UUID); anyone
/// else plays under the requested name, else the active account's name,
/// else `Player`, with the offline UUID of that name (`legacy`).
pub open spec fn identity_of(requested: Option<Seq<char>>, config: AppConfig) -> (Seq<char>, Seq<char>, Seq<char>, Seq<char>, Seq<char>) {
    let fallback_name = match requested {
        Some(n) => n,
        None => match active_account(config) {
            Some(a) => a.display_name@,
            None => "Player"@,
        },
    };
    match active_account(config) {
        Some(a) => if a.kind == AccountKind::Microsoft && a.access_token is Some && a.uuid is Some {
            (a.display_name@, a.uuid->0@, a.access_token->0@, "msa"@, "0"@)
        } else if a.kind == AccountKind::Offline {
            let name = match requested {
                Some(n) => n,
                None => a.display_name@,
            };
            (name, match a.uuid {
                Some(u) => u@,
                None => offline_uuid_of(name),
            }, "0"@, "legacy"@, "0"@)
        } else {
            (fallback_name, offline_uuid_of(fallback_name), "0"@, "legacy"@, "0"@)
        },
        None => (fallback_name, offline_uuid_of(fallback_name), "0"@, "legacy"@, "0"@),
    }
}

/// The identity a launch uses (see `identity_of`).
pub fn resolve_auth(player_name: Option<String>, config: &AppConfig) -> (r: PlayerIdentity)
    ensures
        (r.player_name@, r.uuid@, r.access_token@, r.user_type@, r.xuid@) == identity_of(opt_text(player_name), *config),
{
    let account = active(config);
    if let Some(a) = account {
        if a.kind == AccountKind::Microsoft {
            match (&a.access_token, &a.uuid) {
                (Some(token), Some(uuid)) => {
                    return PlayerIdentity {
                        player_name: a.display_name.clone(),
                        uuid: uuid.clone(),
                        access_token: token.clone(),
                        user_type: copy_str("msa"),
                        xuid: copy_str("0"),
                    };
                },
                _ => {},
            }
        }
        if a.kind == AccountKind::Offline {
            let player = match player_name {
                Some(n) => n,
                None => a.display_name.clone(),
            };
            let uuid = match &a.uuid {
                Some(u) => u.clone(),
                None => offline_uuid(player.as_str()),
            };
            return PlayerIdentity {
                player_name: player,
                uuid,
                access_token: copy_str("0"),
                user_type: copy_str("legacy"),
                xuid: copy_str("0"),
            };
        }
    }
    let player = match player_name {
        Some(n) => n,
        None => match resolve_player_name(config) {
            Some(n) => n,
            None => copy_str("Player"),
        },
    };
    let uuid = offline_uuid(player.as_str());
    PlayerIdentity {
        player_name: player,
        uuid,
        access_token: copy_str("0"),
        user_type: copy_str("legacy"),
        xuid: copy_str("0"),
    }
}

/// Heap bounds in GiB: the instance's override, else the global setting.
pub fn heap_sizes(instance: &Instance, java: &JavaSettings) -> (r: (u8, u8))
    ensures
        r.0 == match instance.java_min_ram_gb {
            Some(v) => v,
            None => java.min_ram_gb,
        },
        r.1 == match instance.java_max_ram_gb {
            Some(v) => v,
            None => java.max_ram_gb,
        },
{
    let min = match instance.java_min_ram_gb {
        Some(v) => v,
        None => java.min_ram_gb,
    };
    let max = match instance.java_max_ram_gb {
        Some(v) => v,
        None => java.max_ram_gb,
    };
    (min, max)
}

/// Path of the first override for `instance_id`, when it names one.
pub open spec fn override_path(overrides: Seq<crate::config::JavaOverride>, instance_id: Seq<char>) -> Option<Seq<char>>
    decreases overrides.len(),
{
    if overrides.len() == 0 {
        None
    } else if overrides[0].instance_id@ == instance_id {
        opt_text(overrides[0].path)
    } else {
        override_path(overrides.drop_first(), instance_id)
    }
}

/// The Java runtime configured for an instance: its override's path, else
/// the global runtime path; none means the environment decides.
pub fn java_path_setting(java: &JavaSettings, instance: &Instance) -> (r: Option<String>)
    ensures
        opt_text(r) == match override_path(java.overrides@, instance.id@) {
            Some(p) => Some(p),
            None => opt_text(java.runtime.path),
        },
{
    let mut i: usize = 0;
    assert(java.overrides@.subrange(0, java.overrides@.len() as int) =~= java.overrides@);
    while i < java.overrides.len()
        invariant
            i <= java.overrides.len(),
            override_path(java.overrides@, instance.id@) == override_path(
                java.overrides@.subrange(i as int, java.overrides@.len() as int),
                instance.id@,
            ),
        decreases java.overrides.len() - i,
    {
        assert(java.overrides@.subrange(i as int, java.overrides@.len() as int).drop_first()
            =~= java.overrides@.subrange(i + 1, java.overrides@.len() as int));
        if same_text(java.overrides[i].instance_id.as_str(), instance.id.as_str()) {
            return match &java.overrides[i].path {
                Some(p) => Some(p.clone()),
                None => crate::config::copy_opt(&java.runtime.path),
            };
        }
        i = i + 1;
    }
    crate::config::copy_opt(&java.runtime.path)
}

/// Where a launch finds its files.
#[derive(Clone, Debug, PartialEq, Eq)]
pub struct LaunchLayout {
    pub jar_id: String,
    pub jar_path: String,
    pub asset_index_name: String,
    pub natives_dir: String,
    pub version_name: String,
}

/// The files a resolved version launches from: the jar of its own jar id,
/// else of the chain's base version, else of the launched id; the asset
/// index name (else the `assets` id, else `legacy`); the natives directory
/// of the base version (else of the jar id).
pub fn launch_layout(resolved: &ResolvedVersion, version_id: &str, instance_dir: &str) -> (r: LaunchLayout)
    ensures
        r.jar_id@ == match resolved.jar {
            Some(j) => j@,
            None => match resolved.base_version_id {
                Some(b) => b@,
                None => version_id@,
            },
        },
        r.jar_path@ == instance_dir@ + "/"@ + "versions"@ + "/"@ + r.jar_id@ + "/"@ + r.jar_id@ + ".jar"@,
        r.asset_index_name@ == match resolved.asset_index {
            Some(a) => a.id@,
            None => match resolved.assets {
                Some(a) => a@,
                None => "legacy"@,
            },
        },
        r.natives_dir@ == instance_dir@ + "/"@ + "natives"@ + "/"@ + match resolved.base_version_id {
            Some(b) => b@,
            None => r.jar_id@,
        },
        r.version_name@ == match resolved.id {
            Some(i) => i@,
            None => version_id@,
        },
{
    let jar_id = match &resolved.jar {
        Some(j) => j.clone(),
        None => match &resolved.base_version_id {
            Some(b) => b.clone(),
            None => copy_str(version_id),
        },
    };
    let mut jar_path = join_path(instance_dir, "versions");
    jar_path.append("/");
    jar_path.append(jar_id.as_str());
    jar_path.append("/");
    jar_path.append(jar_id.as_str());
    jar_path.append(".jar");
    let asset_index_name = match &resolved.asset_index {
        Some(a) => a.id.clone(),
        None => match &resolved.assets {
            Some(a) => a.clone(),
            None => copy_str("legacy"),
        },
    };
    let mut natives_dir = join_path(instance_dir, "natives");
    natives_dir.append("/");
    match &resolved.base_version_id {
        Some(b) => natives_dir.append(b.as_str()),
        None => natives_dir.append(jar_id.as_str()),
    }
    let version_name = match &resolved.id {
        Some(i) => i.clone(),
        None => copy_str(version_id),
    };
    LaunchLayout { jar_id, jar_path, asset_index_name, natives_dir, version_name }
}

/// The logging configuration file a version asks for: fetched from its URL
/// into `log_configs/{id}` under the assets root; none when the version names
/// no client logging file.
pub fn logging_download(logging: &crate::versions::VersionLogging, assets_root: &str) -> (r: Option<crate::download::DownloadJob>)
    ensures
        match logging.client {
            Some(c) => match c.file {
                Some(f) => r matches Some(j) && j.url@ == f.url@ && j.dest@ == assets_root@ + "/"@
                    + "log_configs"@ + "/"@ + f.id@,
                None => r is None,
            },
            None => r is None,
        },
{
    let client = match &logging.client {
        Some(c) => c,
        None => return None,
    };
    let file = match &client.file {
        Some(f) => f,
        None => return None,
    };
    let mut dest = join_path(assets_root, "log_configs");
    dest.append("/");
    dest.append(file.id.as_str());
    Some(crate::download::DownloadJob { url: file.url.clone(), dest })
}

/// The JVM argument a version's client logging configuration adds, if any.
pub fn logging_argument(logging: &Option<crate::versions::VersionLogging>) -> (r: Option<String>)
    ensures
        opt_text(r) == match logging {
            Some(l) => match l.client {
                Some(c) => opt_text(c.argument),
                None => None,
            },
            None => None,
        },
{
    match logging {
        Some(l) => match &l.client {
            Some(c) => crate::config::copy_opt(&c.argument),
            None => None,
        },
        None => None,
    }
}

/// The context of a launch: who plays, where the files are, and what the
/// launcher calls itself.
pub open spec fn context_matches(
    c: LaunchContext,
    identity: (Seq<char>, Seq<char>, Seq<char>, Seq<char>, Seq<char>),
    client_id: Seq<char>,
    layout: LaunchLayout,
    instance_dir: Seq<char>,
    classpath: Seq<char>,
    separator: Seq<char>,
) -> bool {
    &&& (c.player_name@, c.uuid@, c.access_token@, c.user_type@, c.xuid@) == identity
    &&& c.client_id@ == client_id
    &&& c.version_name@ == layout.version_name@
    &&& c.game_dir@ == instance_dir
    &&& c.assets_root@ == instance_dir + "/"@ + "assets"@
    &&& c.asset_index_name@ == layout.asset_index_name@
    &&& c.classpath@ == classpath
    &&& c.classpath_separator@ == separator
    &&& c.natives_dir@ == layout.natives_dir@
    &&& c.launcher_name@ == "monolith"@
    &&& c.launcher_version@ == "0.1.0"@
    &&& c.version_type@ == "release"@
}

/// The process arguments of a launch, from the resolved version chain and
/// the library jars present on disk: fails when the chain names no main
/// class; otherwise the JVM arguments (metadata arguments flattened for
/// `os_name` with all feature flags off, then the fixed ones), the main
/// class and the game arguments, with every placeholder substituted.
pub fn launch_arguments(
    resolved: &ResolvedVersion,
    instance: &Instance,
    config: &AppConfig,
    version_id: &str,
    instance_dir: &str,
    present: &Vec<crate::classpath::ClasspathEntry>,
    os_name: &str,
    is_macos: bool,
    separator: &str,
    client_id: &str,
    player_name: Option<String>,
) -> (r: Result<Vec<String>, String>)
    ensures
        resolved.main_class is None <==> r is Err,
        r matches Err(e) ==> e@ == "mainClass missing in version metadata"@,
        r matches Ok(args) ==> exists|layout: LaunchLayout, c: LaunchContext, cp: Seq<char>|
            #![trigger context_matches(c, identity_of(opt_text(player_name), *config), client_id@, layout, instance_dir@, cp, separator@)]
        {
            let flags = FeatureFlags {
                is_demo_user: false,
                has_custom_resolution: false,
                has_quick_plays_support: false,
                is_quick_play_singleplayer: false,
                is_quick_play_multiplayer: false,
                is_quick_play_realms: false,
            };
            let from_metadata = match resolved.arguments {
                Some(a) => match a.jvm {
                    Some(j) => flattened(j@, os_name@, flags),
                    None => Seq::empty(),
                },
                None => Seq::empty(),
            };
            let min = match instance.java_min_ram_gb {
                Some(v) => v,
                None => config.settings.java.min_ram_gb,
            };
            let max = match instance.java_max_ram_gb {
                Some(v) => v,
                None => config.settings.java.max_ram_gb,
            };
            let logging = match resolved.logging {
                Some(l) => match l.client {
                    Some(cl) => opt_text(cl.argument),
                    None => None,
                },
                None => None,
            };
            &&& layout.jar_id@ == match resolved.jar {
                Some(j) => j@,
                None => match resolved.base_version_id {
                    Some(b) => b@,
                    None => version_id@,
                },
            }
            &&& layout.jar_path@ == instance_dir@ + "/"@ + "versions"@ + "/"@ + layout.jar_id@ + "/"@
                + layout.jar_id@ + ".jar"@
            &&& layout.asset_index_name@ == match resolved.asset_index {
                Some(a) => a.id@,
                None => match resolved.assets {
                    Some(a) => a@,
                    None => "legacy"@,
                },
            }
            &&& layout.natives_dir@ == instance_dir@ + "/"@ + "natives"@ + "/"@ + match resolved.base_version_id {
                Some(b) => b@,
                None => layout.jar_id@,
            }
            &&& layout.version_name@ == match resolved.id {
                Some(i) => i@,
                None => version_id@,
            }
            &&& cp == crate::classpath::joined(
                crate::classpath::dedup_state(present@).0.push(layout.jar_path@),
                separator@,
            )
            &&& context_matches(
                c,
                identity_of(opt_text(player_name), *config),
                client_id@,
                layout,
                instance_dir@,
                cp,
                separator@,
            )
            &&& texts(args@) == final_arguments_of(
                jvm_arguments(
                    from_metadata,
                    is_macos,
                    logging,
                    min,
                    max,
                    layout.natives_dir@,
                    config.settings.java.jvm_args@,
                    opt_text(instance.jvm_args),
                    cp,
                ),
                resolved.main_class->0@,
                game_arguments_of(resolved.arguments, opt_text(resolved.minecraft_arguments), os_name@, flags),
                context_bindings(c),
            )
        },
{
    let main_class = match &resolved.main_class {
        Some(m) => m,
        None => return Err(copy_str("mainClass missing in version metadata")),
    };
    let layout = launch_layout(resolved, version_id, instance_dir);
    let classpath = crate::classpath::build_classpath(present, layout.jar_path.as_str(), separator);
    let identity = resolve_auth(player_name, config);
    let context = LaunchContext {
        player_name: identity.player_name,
        uuid: identity.uuid,
        access_token: identity.access_token,
        user_type: identity.user_type,
        xuid: identity.xuid,
        client_id: copy_str(client_id),
        version_name: layout.version_name.clone(),
        game_dir: copy_str(instance_dir),
        assets_root: join_path(instance_dir, "assets"),
        asset_index_name: layout.asset_index_name.clone(),
        classpath: classpath.clone(),
        classpath_separator: copy_str(separator),
        natives_dir: layout.natives_dir.clone(),
        launcher_name: copy_str("monolith"),
        launcher_version: copy_str("0.1.0"),
        version_type: copy_str("release"),
    };
    let flags = FeatureFlags {
        is_demo_user: false,
        has_custom_resolution: false,
        has_quick_plays_support: false,
        is_quick_play_singleplayer: false,
        is_quick_play_multiplayer: false,
        is_quick_play_realms: false,
    };
    let jvm_list = match &resolved.arguments {
        Some(a) => a.jvm.as_ref(),
        None => None,
    };
    let from_metadata = flatten_arguments(jvm_list, os_name, &flags);
    let (min, max) = heap_sizes(instance, &config.settings.java);
    let logging = logging_argument(&resolved.logging);
    let jvm = assemble_jvm_arguments(
        &from_metadata,
        is_macos,
        &logging,
        min,
        max,
        layout.natives_dir.as_str(),
        config.settings.java.jvm_args.as_str(),
        &instance.jvm_args,
        classpath.as_str(),
    );
    let game = game_arguments(&resolved.arguments, &resolved.minecraft_arguments, os_name, &flags);
    let bindings = token_bindings(&context);
    let args = final_arguments(&jvm, main_class.as_str(), &game, &bindings);
    assert(context_matches(
        context,
        identity_of(opt_text(player_name), *config),
        client_id@,
        layout,
        instance_dir@,
        classpath@,
        separator@,
    ));
    Ok(args)
}

} // verus!
