use mc_launcher::minecraft::metadata::rule::{
    rules_allow, rules_match, Arch, Environment, Features, OperatingSystem, Rule, RuleAction, OS,
};

fn env(os: OS, arch: Arch) -> Environment {
    Environment { os, arch }
}

fn no_features() -> Features {
    Features::default()
}

fn on_os(action: RuleAction, os: OS) -> Rule {
    Rule { action, os: Some(OperatingSystem { name: Some(os), arch: None }), features: None }
}

fn anywhere(action: RuleAction) -> Rule {
    Rule { action, os: None, features: None }
}

fn demanding(features: Features) -> Rule {
    Rule { action: RuleAction::Allow, os: None, features: Some(features) }
}

#[test]
fn default_features_are_all_off() {
    let features = Features::default();
    assert!(!features.is_demo_user);
    assert!(!features.has_custom_resolution);
    assert!(!features.has_quick_plays_support);
    assert!(!features.is_quick_play_singleplayer);
    assert!(!features.is_quick_play_multiplayer);
    assert!(!features.is_quick_play_realms);
}

#[test]
fn rule_without_predicates_applies_everywhere() {
    let rule = anywhere(RuleAction::Allow);
    assert!(rule.applies(&env(OS::Windows, Arch::X86), None));
    assert!(rule.applies(&env(OS::Linux, Arch::Arm64), Some(&no_features())));
    assert!(anywhere(RuleAction::Disallow).applies(&env(OS::MacOS, Arch::X64), None));
}

#[test]
fn rule_with_os_name_needs_that_os() {
    let rule = on_os(RuleAction::Allow, OS::MacOS);
    assert!(rule.applies(&env(OS::MacOS, Arch::X64), None));
    assert!(!rule.applies(&env(OS::Linux, Arch::X64), None));
    assert!(!rule.applies(&env(OS::Windows, Arch::X64), None));
}

#[test]
fn rule_with_arch_needs_that_arch() {
    let rule = Rule {
        action: RuleAction::Allow,
        os: Some(OperatingSystem { name: None, arch: Some(Arch::X86) }),
        features: None,
    };
    assert!(rule.applies(&env(OS::Windows, Arch::X86), None));
    assert!(rule.applies(&env(OS::Linux, Arch::X86), None));
    assert!(!rule.applies(&env(OS::Windows, Arch::X64), None));
    assert!(!rule.applies(&env(OS::Windows, Arch::Arm64), None));
}

#[test]
fn rule_with_name_and_arch_needs_both() {
    let rule = Rule {
        action: RuleAction::Allow,
        os: Some(OperatingSystem { name: Some(OS::Windows), arch: Some(Arch::Arm64) }),
        features: None,
    };
    assert!(rule.applies(&env(OS::Windows, Arch::Arm64), None));
    assert!(!rule.applies(&env(OS::Windows, Arch::X64), None));
    assert!(!rule.applies(&env(OS::Linux, Arch::Arm64), None));
}

#[test]
fn rule_with_empty_os_part_applies_everywhere() {
    let rule = Rule {
        action: RuleAction::Allow,
        os: Some(OperatingSystem { name: None, arch: None }),
        features: None,
    };
    assert!(rule.applies(&env(OS::Linux, Arch::X64), None));
}

#[test]
fn demanded_feature_must_be_active() {
    let rule = demanding(Features { is_demo_user: true, ..Features::default() });
    let demo = Features { is_demo_user: true, ..Features::default() };
    let other = Features { has_custom_resolution: true, ..Features::default() };
    let e = env(OS::Linux, Arch::X64);
    assert!(rule.applies(&e, Some(&demo)));
    assert!(!rule.applies(&e, Some(&other)));
    assert!(!rule.applies(&e, Some(&no_features())));
}

#[test]
fn each_feature_flag_is_checked() {
    let e = env(OS::Linux, Arch::X64);
    let all = Features {
        is_demo_user: true,
        has_custom_resolution: true,
        has_quick_plays_support: true,
        is_quick_play_singleplayer: true,
        is_quick_play_multiplayer: true,
        is_quick_play_realms: true,
    };
    let demanded = [
        Features { is_demo_user: true, ..Features::default() },
        Features { has_custom_resolution: true, ..Features::default() },
        Features { has_quick_plays_support: true, ..Features::default() },
        Features { is_quick_play_singleplayer: true, ..Features::default() },
        Features { is_quick_play_multiplayer: true, ..Features::default() },
        Features { is_quick_play_realms: true, ..Features::default() },
    ];
    for one in demanded.iter() {
        assert!(demanding(*one).applies(&e, Some(one)));
        assert!(demanding(*one).applies(&e, Some(&all)));
        assert!(!demanding(*one).applies(&e, Some(&no_features())));
        assert!(demanding(all).applies(&e, Some(&all)));
        assert!(!demanding(all).applies(&e, Some(one)));
    }
}

#[test]
fn flags_that_a_rule_leaves_off_ask_nothing() {
    let rule = demanding(Features::default());
    let e = env(OS::Windows, Arch::X64);
    let active = Features { is_quick_play_realms: true, ..Features::default() };
    assert!(rule.applies(&e, Some(&active)));
    assert!(rule.applies(&e, Some(&no_features())));
    assert!(rule.applies(&e, None));
}

#[test]
fn missing_features_count_as_inactive() {
    let rule = demanding(Features { has_custom_resolution: true, ..Features::default() });
    assert!(!rule.applies(&env(OS::Windows, Arch::X64), None));
}

#[test]
fn os_and_features_are_both_needed() {
    let rule = Rule {
        action: RuleAction::Allow,
        os: Some(OperatingSystem { name: Some(OS::Linux), arch: None }),
        features: Some(Features { is_demo_user: true, ..Features::default() }),
    };
    let demo = Features { is_demo_user: true, ..Features::default() };
    assert!(rule.applies(&env(OS::Linux, Arch::X64), Some(&demo)));
    assert!(!rule.applies(&env(OS::Windows, Arch::X64), Some(&demo)));
    assert!(!rule.applies(&env(OS::Linux, Arch::X64), Some(&no_features())));
}

#[test]
fn empty_chain_allows() {
    let rules: Vec<Rule> = Vec::new();
    assert!(rules_allow(&rules, &env(OS::Linux, Arch::X64), None));
    assert!(rules_allow(&rules, &env(OS::Windows, Arch::X86), Some(&no_features())));
}

#[test]
fn chain_without_a_match_denies() {
    let rules = vec![on_os(RuleAction::Allow, OS::MacOS), on_os(RuleAction::Allow, OS::Windows)];
    assert!(!rules_allow(&rules, &env(OS::Linux, Arch::X64), None));
    let single = vec![on_os(RuleAction::Disallow, OS::MacOS)];
    assert!(!rules_allow(&single, &env(OS::Linux, Arch::X64), None));
}

#[test]
fn last_matching_rule_wins() {
    let rules = vec![anywhere(RuleAction::Allow), on_os(RuleAction::Disallow, OS::Windows)];
    assert!(!rules_allow(&rules, &env(OS::Windows, Arch::X64), None));
    assert!(rules_allow(&rules, &env(OS::Linux, Arch::X64), None));
    assert!(rules_allow(&rules, &env(OS::MacOS, Arch::X64), None));
}

#[test]
fn later_allow_overrides_earlier_disallow() {
    let rules = vec![anywhere(RuleAction::Disallow), on_os(RuleAction::Allow, OS::Linux)];
    assert!(rules_allow(&rules, &env(OS::Linux, Arch::X64), None));
    assert!(!rules_allow(&rules, &env(OS::Windows, Arch::X64), None));
    let turned = vec![on_os(RuleAction::Allow, OS::Linux), anywhere(RuleAction::Disallow)];
    assert!(!rules_allow(&turned, &env(OS::Linux, Arch::X64), None));
}

#[test]
fn single_allow_for_one_os() {
    let rules = vec![on_os(RuleAction::Allow, OS::MacOS)];
    assert!(rules_allow(&rules, &env(OS::MacOS, Arch::Arm64), None));
    assert!(!rules_allow(&rules, &env(OS::Windows, Arch::Arm64), None));
}

#[test]
fn allow_chain_looks_at_features() {
    let rules = vec![demanding(Features { is_demo_user: true, ..Features::default() })];
    let demo = Features { is_demo_user: true, ..Features::default() };
    let e = env(OS::Linux, Arch::X64);
    assert!(rules_allow(&rules, &e, Some(&demo)));
    assert!(!rules_allow(&rules, &e, Some(&no_features())));
    assert!(!rules_allow(&rules, &e, None));
}

#[test]
fn empty_chain_matches() {
    let rules: Vec<Rule> = Vec::new();
    assert!(rules_match(&rules, &env(OS::Linux, Arch::X64), None));
}

#[test]
fn all_rules_must_match() {
    let demo = Features { is_demo_user: true, ..Features::default() };
    let rules = vec![on_os(RuleAction::Allow, OS::Linux), demanding(demo)];
    assert!(rules_match(&rules, &env(OS::Linux, Arch::X64), Some(&demo)));
    assert!(!rules_match(&rules, &env(OS::Windows, Arch::X64), Some(&demo)));
    assert!(!rules_match(&rules, &env(OS::Linux, Arch::X64), Some(&no_features())));
    assert!(!rules_match(&rules, &env(OS::Linux, Arch::X64), None));
}

#[test]
fn matching_ignores_the_action() {
    let e = env(OS::Windows, Arch::X64);
    let allow = vec![anywhere(RuleAction::Allow)];
    let disallow = vec![anywhere(RuleAction::Disallow)];
    assert!(rules_match(&allow, &e, None));
    assert!(rules_match(&disallow, &e, None));
    assert!(rules_allow(&allow, &e, None));
    assert!(!rules_allow(&disallow, &e, None));
}

#[test]
fn the_two_aggregations_differ() {
    let rules = vec![anywhere(RuleAction::Allow), on_os(RuleAction::Disallow, OS::Windows)];
    let linux = env(OS::Linux, Arch::X64);
    assert!(rules_allow(&rules, &linux, None));
    assert!(!rules_match(&rules, &linux, None));
}
