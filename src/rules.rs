//! Platform and feature-flag rules attached to libraries and launch arguments.
//!
//! A rule list is read as "last matching rule wins": the decision starts from
//! a default and each rule whose conditions hold overwrites it with its own
//! action.

use vstd::prelude::*;
use crate::text::same_text;

verus! {

/// Condition on the operating system's name.
#[derive(Clone, Debug, PartialEq, Eq)]
pub struct OsRule {
    pub name: Option<String>,
}

/// Condition on the launcher's feature flags. `extra` holds the flag names
/// this launcher does not know; a rule naming any of them never matches.
#[derive(Clone, Debug, PartialEq, Eq, Default)]
pub struct FeatureRule {
    pub is_demo_user: Option<bool>,
    pub has_custom_resolution: Option<bool>,
    pub has_quick_plays_support: Option<bool>,
    pub is_quick_play_singleplayer: Option<bool>,
    pub is_quick_play_multiplayer: Option<bool>,
    pub is_quick_play_realms: Option<bool>,
    pub extra: Vec<String>,
}

/// The launcher's current feature flags.
#[derive(Clone, Copy, Debug, PartialEq, Eq, Default)]
pub struct FeatureFlags {
    pub is_demo_user: bool,
    pub has_custom_resolution: bool,
    pub has_quick_plays_support: bool,
    pub is_quick_play_singleplayer: bool,
    pub is_quick_play_multiplayer: bool,
    pub is_quick_play_realms: bool,
}

/// One rule: an action (`allow` or anything else, read as disallow) and its
/// optional conditions.
#[derive(Clone, Debug, PartialEq, Eq)]
pub struct Rule {
    pub action: String,
    pub os: Option<OsRule>,
    pub features: Option<FeatureRule>,
}

/// A flag condition that is absent, or equal to the current value.
pub open spec fn flag_ok(expected: Option<bool>, current: bool) -> bool {
    match expected {
        Some(e) => e == current,
        None => true,
    }
}

/// Every flag the rule names has its current value, and it names no unknown flag.
pub open spec fn features_hold(rule: FeatureRule, flags: FeatureFlags) -> bool {
    &&& rule.extra@.len() == 0
    &&& flag_ok(rule.is_demo_user, flags.is_demo_user)
    &&& flag_ok(rule.has_custom_resolution, flags.has_custom_resolution)
    &&& flag_ok(rule.has_quick_plays_support, flags.has_quick_plays_support)
    &&& flag_ok(rule.is_quick_play_singleplayer, flags.is_quick_play_singleplayer)
    &&& flag_ok(rule.is_quick_play_multiplayer, flags.is_quick_play_multiplayer)
    &&& flag_ok(rule.is_quick_play_realms, flags.is_quick_play_realms)
}

/// The rule's OS condition is absent or names `os_name`.
pub open spec fn os_applies(rule: Rule, os_name: Seq<char>) -> bool {
    match rule.os {
        Some(os) => match os.name {
            Some(n) => n@ == os_name,
            None => false,
        },
        None => true,
    }
}

/// Both the OS condition and the feature condition of the rule hold.
pub open spec fn rule_applies(rule: Rule, os_name: Seq<char>, flags: FeatureFlags) -> bool {
    &&& os_applies(rule, os_name)
    &&& match rule.features {
        Some(f) => features_hold(f, flags),
        None => true,
    }
}

/// The rule's action is `allow`.
pub open spec fn allows(rule: Rule) -> bool {
    rule.action@ == "allow"@
}

/// Last-match-wins decision over `rules`, starting from `start`, where
/// `applies` says which rules match.
pub open spec fn last_match(rules: Seq<Rule>, start: bool, applies: spec_fn(Rule) -> bool) -> bool
    decreases rules.len(),
{
    if rules.len() == 0 {
        start
    } else if applies(rules.last()) {
        allows(rules.last())
    } else {
        last_match(rules.drop_last(), start, applies)
    }
}

/// Decision of a rule list that gates a launch argument: with no list the
/// argument is kept; with a list, it is kept only if the last matching rule allows it.
pub open spec fn argument_rules_allow(
    rules: Option<Vec<Rule>>,
    os_name: Seq<char>,
    flags: FeatureFlags,
) -> bool {
    match rules {
        None => true,
        Some(v) => last_match(v@, false, |r: Rule| rule_applies(r, os_name, flags)),
    }
}

/// Decision of a rule list that gates a library download: the OS conditions
/// alone count, and the decision starts from "allowed".
pub open spec fn library_rules_allow(rules: Option<Vec<Rule>>, os_name: Seq<char>) -> bool {
    match rules {
        None => true,
        Some(v) => last_match(v@, true, |r: Rule| os_applies(r, os_name)),
    }
}

fn flag_matches(expected: Option<bool>, current: bool) -> (r: bool)
    ensures
        r == flag_ok(expected, current),
{
    match expected {
        Some(e) => e == current,
        None => true,
    }
}

/// Whether a feature condition holds of the current flags.
pub fn features_match(rule: &FeatureRule, features: &FeatureFlags) -> (r: bool)
    ensures
        r == features_hold(*rule, *features),
{
    if rule.extra.len() != 0 {
        return false;
    }
    flag_matches(rule.is_demo_user, features.is_demo_user) && flag_matches(
        rule.has_custom_resolution,
        features.has_custom_resolution,
    ) && flag_matches(rule.has_quick_plays_support, features.has_quick_plays_support)
        && flag_matches(rule.is_quick_play_singleplayer, features.is_quick_play_singleplayer)
        && flag_matches(rule.is_quick_play_multiplayer, features.is_quick_play_multiplayer)
        && flag_matches(rule.is_quick_play_realms, features.is_quick_play_realms)
}

fn os_matches(rule: &Rule, os_name: &str) -> (r: bool)
    ensures
        r == os_applies(*rule, os_name@),
{
    match &rule.os {
        Some(os) => match &os.name {
            Some(n) => same_text(n.as_str(), os_name),
            None => false,
        },
        None => true,
    }
}

fn is_allow(rule: &Rule) -> (r: bool)
    ensures
        r == allows(*rule),
{
    same_text(rule.action.as_str(), "allow")
}

/// Decision of a rule list that gates a launch argument (see
/// `argument_rules_allow`).
pub fn rules_allow(rules: &Option<Vec<Rule>>, os_name: &str, features: &FeatureFlags) -> (r: bool)
    ensures
        r == argument_rules_allow(*rules, os_name@, *features),
{
    let rules = match rules {
        Some(rules) => rules,
        None => return true,
    };
    let ghost applies = |r: Rule| rule_applies(r, os_name@, *features);
    let mut allowed = false;
    let mut i: usize = 0;
    while i < rules.len()
        invariant
            i <= rules.len(),
            allowed == last_match(rules@.subrange(0, i as int), false, applies),
            applies == (|r: Rule| rule_applies(r, os_name@, *features)),
        decreases rules.len() - i,
    {
        let rule = &rules[i];
        let os_ok = os_matches(rule, os_name);
        let features_ok = match &rule.features {
            Some(f) => features_match(f, features),
            None => true,
        };
        if os_ok && features_ok {
            allowed = is_allow(rule);
        }
        proof {
            let pre = rules@.subrange(0, i + 1);
            assert(pre.drop_last() =~= rules@.subrange(0, i as int));
            assert(pre.last() == rules@[i as int]);
        }
        i = i + 1;
    }
    assert(rules@.subrange(0, rules.len() as int) =~= rules@);
    allowed
}

/// Decision of a rule list that gates a library download (see
/// `library_rules_allow`).
pub fn library_allowed(rules: Option<&Vec<Rule>>, os_name: &str) -> (r: bool)
    ensures
        r == library_rules_allow(
            match rules {
                Some(v) => Some(*v),
                None => None,
            },
            os_name@,
        ),
{
    let rules = match rules {
        Some(rules) => rules,
        None => return true,
    };
    let ghost applies = |r: Rule| os_applies(r, os_name@);
    let mut allowed = true;
    let mut i: usize = 0;
    while i < rules.len()
        invariant
            i <= rules.len(),
            allowed == last_match(rules@.subrange(0, i as int), true, applies),
            applies == (|r: Rule| os_applies(r, os_name@)),
        decreases rules.len() - i,
    {
        let rule = &rules[i];
        if os_matches(rule, os_name) {
            allowed = is_allow(rule);
        }
        proof {
            let pre = rules@.subrange(0, i + 1);
            assert(pre.drop_last() =~= rules@.subrange(0, i as int));
            assert(pre.last() == rules@[i as int]);
        }
        i = i + 1;
    }
    assert(rules@.subrange(0, rules.len() as int) =~= rules@);
    allowed
}

} // verus!
