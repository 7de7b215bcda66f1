//! Rules, the environment they are evaluated against, and the two ways a
//! chain of rules is aggregated into one decision.

use vstd::prelude::*;

verus! {

/// The operating system of the target platform.
#[derive(Debug, Clone, Copy, PartialEq, Eq, Structural)]
pub enum OS {
    Windows,
    MacOS,
    Linux,
}

/// The processor architecture of the target platform.
#[derive(Debug, Clone, Copy, PartialEq, Eq, Structural)]
pub enum Arch {
    X86,
    X64,
    Arm64,
}

/// The platform that a description is resolved for.
#[derive(Debug, Clone, Copy, PartialEq, Eq, Structural)]
pub struct Environment {
    pub os: OS,
    pub arch: Arch,
}

/// The feature toggles. In a rule a `true` flag is a demand; in the caller's
/// hands it says that the feature is active.
#[derive(Debug, Clone, Copy, PartialEq, Eq, Structural)]
pub struct Features {
    pub is_demo_user: bool,
    pub has_custom_resolution: bool,
    pub has_quick_plays_support: bool,
    pub is_quick_play_singleplayer: bool,
    pub is_quick_play_multiplayer: bool,
    pub is_quick_play_realms: bool,
}

/// The platform part of a rule's predicate. A missing part is a wildcard.
#[derive(Debug, Clone, Copy, PartialEq, Eq)]
pub struct OperatingSystem {
    pub name: Option<OS>,
    pub arch: Option<Arch>,
}

/// What a rule decides where its predicate matches.
#[derive(Debug, Clone, Copy, PartialEq, Eq, Structural)]
pub enum RuleAction {
    Allow,
    Disallow,
}

/// A predicate over platform and features, with the action taken where it
/// matches.
#[derive(Debug, Clone, Copy, PartialEq, Eq)]
pub struct Rule {
    pub action: RuleAction,
    pub os: Option<OperatingSystem>,
    pub features: Option<Features>,
}

/// The two resolved argument lists, kept apart.
#[derive(Debug, Clone, PartialEq, Eq)]
pub struct ResolvedArguments {
    pub game: Vec<String>,
    pub jvm: Vec<String>,
}

impl Features {
    /// No feature active.
    pub open spec fn none() -> Features {
        Features {
            is_demo_user: false,
            has_custom_resolution: false,
            has_quick_plays_support: false,
            is_quick_play_singleplayer: false,
            is_quick_play_multiplayer: false,
            is_quick_play_realms: false,
        }
    }

    /// Every flag that `demanded` sets is set in `self`.
    pub open spec fn covers(self, demanded: Features) -> bool {
        &&& demanded.is_demo_user ==> self.is_demo_user
        &&& demanded.has_custom_resolution ==> self.has_custom_resolution
        &&& demanded.has_quick_plays_support ==> self.has_quick_plays_support
        &&& demanded.is_quick_play_singleplayer ==> self.is_quick_play_singleplayer
        &&& demanded.is_quick_play_multiplayer ==> self.is_quick_play_multiplayer
        &&& demanded.is_quick_play_realms ==> self.is_quick_play_realms
    }
}

impl Default for Features {
    fn default() -> (features: Features)
        ensures
            features == Features::none(),
    {
        Features {
            is_demo_user: false,
            has_custom_resolution: false,
            has_quick_plays_support: false,
            is_quick_play_singleplayer: false,
            is_quick_play_multiplayer: false,
            is_quick_play_realms: false,
        }
    }
}

/// The features that count as active: those supplied, or none at all where
/// the caller supplied nothing.
pub open spec fn active_features(features: Option<&Features>) -> Features {
    match features {
        Some(supplied) => *supplied,
        None => Features::none(),
    }
}

impl OperatingSystem {
    /// The name, where given, is the environment's; so is the architecture.
    pub open spec fn admits(self, environment: Environment) -> bool {
        &&& self.name matches Some(name) ==> name == environment.os
        &&& self.arch matches Some(arch) ==> arch == environment.arch
    }
}

impl Rule {
    /// The rule's predicate: every part that the rule specifies holds of
    /// the environment and the active features.
    pub open spec fn matches_in(self, environment: Environment, active: Features) -> bool {
        &&& self.os matches Some(os) ==> os.admits(environment)
        &&& self.features matches Some(demanded) ==> active.covers(demanded)
    }

    /// Decides whether the rule's predicate matches. Features that were not
    /// supplied count as inactive.
    pub fn applies(&self, environment: &Environment, features: Option<&Features>) -> (matched: bool)
        ensures
            matched == self.matches_in(*environment, active_features(features)),
    {
        if let Some(os_rule) = &self.os {
            if let Some(name) = &os_rule.name {
                if *name != environment.os {
                    return false;
                }
            }
            if let Some(arch) = &os_rule.arch {
                if *arch != environment.arch {
                    return false;
                }
            }
        }
        if let Some(demanded) = &self.features {
            let active = match features {
                Some(supplied) => *supplied,
                None => Features::default(),
            };
            if demanded.is_demo_user && !active.is_demo_user {
                return false;
            }
            if demanded.has_custom_resolution && !active.has_custom_resolution {
                return false;
            }
            if demanded.has_quick_plays_support && !active.has_quick_plays_support {
                return false;
            }
            if demanded.is_quick_play_singleplayer && !active.is_quick_play_singleplayer {
                return false;
            }
            if demanded.is_quick_play_multiplayer && !active.is_quick_play_multiplayer {
                return false;
            }
            if demanded.is_quick_play_realms && !active.is_quick_play_realms {
                return false;
            }
        }
        true
    }
}

/// Whether the last rule of `rules` whose predicate matches is an `Allow`.
/// Where none matches, the answer is no.
pub open spec fn last_match_allows(rules: Seq<Rule>, environment: Environment, active: Features) -> bool
    decreases rules.len(),
{
    if rules.len() == 0 {
        false
    } else if rules.last().matches_in(environment, active) {
        rules.last().action == RuleAction::Allow
    } else {
        last_match_allows(rules.drop_last(), environment, active)
    }
}

/// Last match wins: an empty chain restricts nothing; in any other chain the
/// last matching rule decides, and a chain in which no rule matches denies.
pub open spec fn chain_allows(rules: Seq<Rule>, environment: Environment, active: Features) -> bool {
    rules.len() == 0 || last_match_allows(rules, environment, active)
}

/// All must match: every rule's predicate matches. The actions play no part.
pub open spec fn chain_matches(rules: Seq<Rule>, environment: Environment, active: Features) -> bool {
    forall|i: int| 0 <= i < rules.len() ==> (#[trigger] rules[i]).matches_in(environment, active)
}

/// Aggregates a chain by last match wins. This is the aggregation that
/// decides which platforms a library targets.
pub fn rules_allow(rules: &[Rule], environment: &Environment, features: Option<&Features>) -> (allowed: bool)
    ensures
        allowed == chain_allows(rules@, *environment, active_features(features)),
{
    if rules.len() == 0 {
        return true;
    }
    let mut allowed: bool = false;
    let mut i: usize = 0;
    while i < rules.len()
        invariant
            i <= rules.len(),
            allowed == last_match_allows(
                rules@.take(i as int),
                *environment,
                active_features(features),
            ),
        decreases rules.len() - i,
    {
        assert(rules@.take(i + 1).drop_last() =~= rules@.take(i as int));
        if rules[i].applies(environment, features) {
            allowed = match rules[i].action {
                RuleAction::Allow => true,
                RuleAction::Disallow => false,
            };
        }
        i += 1;
    }
    assert(rules@.take(i as int) =~= rules@);
    allowed
}

/// Aggregates a chain by all must match. This is the aggregation that
/// guards a conditional launch argument.
pub fn rules_match(rules: &[Rule], environment: &Environment, features: Option<&Features>) -> (matched: bool)
    ensures
        matched == chain_matches(rules@, *environment, active_features(features)),
{
    let mut i: usize = 0;
    while i < rules.len()
        invariant
            i <= rules.len(),
            forall|j: int|
                0 <= j < i ==> (#[trigger] rules@[j]).matches_in(
                    *environment,
                    active_features(features),
                ),
        decreases rules.len() - i,
    {
        if !rules[i].applies(environment, features) {
            return false;
        }
        i += 1;
    }
    true
}

/// A chain that is not empty and in which no rule's predicate matches is
/// denied under last match wins.
pub proof fn lemma_no_match_denies(rules: Seq<Rule>, environment: Environment, active: Features)
    requires
        rules.len() > 0,
        forall|i: int| 0 <= i < rules.len() ==> !(#[trigger] rules[i]).matches_in(environment, active),
    ensures
        !chain_allows(rules, environment, active),
    decreases rules.len(),
{
    let front = rules.drop_last();
    assert(!rules[rules.len() - 1].matches_in(environment, active));
    if front.len() > 0 {
        assert forall|i: int| 0 <= i < front.len() implies !(#[trigger] front[i]).matches_in(
            environment,
            active,
        ) by {
            assert(front[i] == rules[i]);
        }
        lemma_no_match_denies(front, environment, active);
    } else {
        assert(!last_match_allows(front, environment, active));
    }
}

/// Rule `i` matches and allows, and no later rule of the chain matches.
pub open spec fn is_deciding_allow(
    rules: Seq<Rule>,
    environment: Environment,
    active: Features,
    i: int,
) -> bool {
    &&& rules[i].matches_in(environment, active)
    &&& rules[i].action == RuleAction::Allow
    &&& forall|j: int| i < j < rules.len() ==> !(#[trigger] rules[j]).matches_in(environment, active)
}

/// Under last match wins a chain is allowed exactly when it is empty, or
/// some rule in it matches and allows and no rule after that one matches.
pub proof fn lemma_last_match_decides(rules: Seq<Rule>, environment: Environment, active: Features)
    ensures
        chain_allows(rules, environment, active) <==> (rules.len() == 0 || exists|i: int|
            0 <= i < rules.len() && is_deciding_allow(rules, environment, active, i)),
    decreases rules.len(),
{
    if rules.len() > 0 {
        let front = rules.drop_last();
        let last = rules.len() - 1;
        lemma_last_match_decides(front, environment, active);
        if rules.last().matches_in(environment, active) {
            if rules.last().action == RuleAction::Allow {
                assert(is_deciding_allow(rules, environment, active, last));
            } else {
                assert forall|i: int| 0 <= i < rules.len() implies !is_deciding_allow(
                    rules,
                    environment,
                    active,
                    i,
                ) by {
                    if i < last {
                        assert(rules[last].matches_in(environment, active));
                    }
                }
            }
        } else if last_match_allows(front, environment, active) {
            let i = choose|i: int| 0 <= i < front.len() && is_deciding_allow(front, environment, active, i);
            assert forall|j: int| i < j < rules.len() implies !(#[trigger] rules[j]).matches_in(
                environment,
                active,
            ) by {
                if j < last {
                    assert(rules[j] == front[j]);
                }
            }
            assert(rules[i] == front[i]);
            assert(is_deciding_allow(rules, environment, active, i));
        } else {
            assert forall|i: int| 0 <= i < rules.len() implies !is_deciding_allow(
                rules,
                environment,
                active,
                i,
            ) by {
                if i < last && is_deciding_allow(rules, environment, active, i) {
                    assert(rules[i] == front[i]);
                    assert forall|j: int| i < j < front.len() implies !(#[trigger] front[j]).matches_in(
                        environment,
                        active,
                    ) by {
                        assert(front[j] == rules[j]);
                    }
                    assert(is_deciding_allow(front, environment, active, i));
                }
            }
        }
    }
}

/// An empty chain is allowed under last match wins and matched under all
/// must match, whatever the environment and the features.
pub proof fn lemma_empty_chain(environment: Environment, active: Features)
    ensures
        chain_allows(Seq::<Rule>::empty(), environment, active),
        chain_matches(Seq::<Rule>::empty(), environment, active),
{
}

} // verus!
