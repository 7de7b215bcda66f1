use mc_launcher::minecraft::launch::arguments::{resolve_argument_list, send_arguments};
use mc_launcher::minecraft::metadata::arguments::{ArgValue, Argument, Arguments};
use mc_launcher::minecraft::metadata::rule::{
    Arch, Environment, Features, OperatingSystem, Rule, RuleAction, OS,
};

fn linux() -> Environment {
    Environment { os: OS::Linux, arch: Arch::X64 }
}

fn windows() -> Environment {
    Environment { os: OS::Windows, arch: Arch::X64 }
}

fn only_on(os: OS) -> Rule {
    Rule {
        action: RuleAction::Allow,
        os: Some(OperatingSystem { name: Some(os), arch: None }),
        features: None,
    }
}

fn simple(text: &str) -> Argument {
    Argument::Simple(text.to_string())
}

fn single(rules: Vec<Rule>, text: &str) -> Argument {
    Argument::RuleBased { rules, value: ArgValue::Single(text.to_string()) }
}

fn multiple(rules: Vec<Rule>, texts: &[&str]) -> Argument {
    Argument::RuleBased {
        rules,
        value: ArgValue::Multiple(texts.iter().map(|t| t.to_string()).collect()),
    }
}

fn strings(texts: &[&str]) -> Vec<String> {
    texts.iter().map(|t| t.to_string()).collect()
}

#[test]
fn empty_list_resolves_to_nothing() {
    let list: Vec<Argument> = Vec::new();
    assert_eq!(resolve_argument_list(&list, &linux(), &Features::default()), strings(&[]));
}

#[test]
fn simple_entries_are_kept_in_order() {
    let list = vec![simple("--username"), simple("steve"), simple("--username")];
    assert_eq!(
        resolve_argument_list(&list, &linux(), &Features::default()),
        strings(&["--username", "steve", "--username"])
    );
}

#[test]
fn excluded_entry_leaves_no_gap() {
    let list = vec![simple("a"), single(vec![only_on(OS::Windows)], "b"), simple("c")];
    assert_eq!(resolve_argument_list(&list, &linux(), &Features::default()), strings(&["a", "c"]));
    assert_eq!(
        resolve_argument_list(&list, &windows(), &Features::default()),
        strings(&["a", "b", "c"])
    );
}

#[test]
fn many_texts_expand_in_order() {
    let list = vec![multiple(vec![only_on(OS::Linux)], &["x", "y"])];
    assert_eq!(resolve_argument_list(&list, &linux(), &Features::default()), strings(&["x", "y"]));
    assert_eq!(resolve_argument_list(&list, &windows(), &Features::default()), strings(&[]));
}

#[test]
fn many_texts_expand_between_their_neighbours() {
    let list = vec![simple("first"), multiple(Vec::new(), &["x", "y", "z"]), simple("last")];
    assert_eq!(
        resolve_argument_list(&list, &linux(), &Features::default()),
        strings(&["first", "x", "y", "z", "last"])
    );
}

#[test]
fn empty_chain_always_includes() {
    let list = vec![single(Vec::new(), "always"), multiple(Vec::new(), &["p", "q"])];
    let expected = strings(&["always", "p", "q"]);
    assert_eq!(resolve_argument_list(&list, &linux(), &Features::default()), expected);
    assert_eq!(resolve_argument_list(&list, &windows(), &Features::default()), expected);
    let all = Features {
        is_demo_user: true,
        has_custom_resolution: true,
        has_quick_plays_support: true,
        is_quick_play_singleplayer: true,
        is_quick_play_multiplayer: true,
        is_quick_play_realms: true,
    };
    assert_eq!(
        resolve_argument_list(&list, &Environment { os: OS::MacOS, arch: Arch::Arm64 }, &all),
        expected
    );
}

#[test]
fn empty_many_contributes_nothing() {
    let list = vec![simple("a"), multiple(Vec::new(), &[]), simple("b")];
    assert_eq!(resolve_argument_list(&list, &linux(), &Features::default()), strings(&["a", "b"]));
}

#[test]
fn guarded_argument_needs_every_rule() {
    let demo = Features { is_demo_user: true, ..Features::default() };
    let wants_demo = Rule { action: RuleAction::Allow, os: None, features: Some(demo) };
    let list = vec![single(vec![only_on(OS::Linux), wants_demo], "--demo")];
    assert_eq!(resolve_argument_list(&list, &linux(), &demo), strings(&["--demo"]));
    assert_eq!(resolve_argument_list(&list, &linux(), &Features::default()), strings(&[]));
    assert_eq!(resolve_argument_list(&list, &windows(), &demo), strings(&[]));
}

#[test]
fn guarded_argument_ignores_the_action() {
    let disallow = Rule { action: RuleAction::Disallow, os: None, features: None };
    let list = vec![single(vec![disallow], "kept")];
    assert_eq!(resolve_argument_list(&list, &linux(), &Features::default()), strings(&["kept"]));
}

#[test]
fn duplicates_are_kept() {
    let list = vec![simple("-v"), single(Vec::new(), "-v"), multiple(Vec::new(), &["-v", "-v"])];
    assert_eq!(
        resolve_argument_list(&list, &linux(), &Features::default()),
        strings(&["-v", "-v", "-v", "-v"])
    );
}

#[test]
fn resolution_custom_resolution_arguments() {
    let wants = Features { has_custom_resolution: true, ..Features::default() };
    let rule = Rule { action: RuleAction::Allow, os: None, features: Some(wants) };
    let list = vec![
        simple("--version"),
        multiple(vec![rule], &["--width", "${resolution_width}", "--height", "${resolution_height}"]),
    ];
    assert_eq!(
        resolve_argument_list(&list, &linux(), &wants),
        strings(&["--version", "--width", "${resolution_width}", "--height", "${resolution_height}"])
    );
    assert_eq!(
        resolve_argument_list(&list, &linux(), &Features::default()),
        strings(&["--version"])
    );
}

#[test]
fn game_and_jvm_lists_stay_apart() {
    let arguments = Arguments {
        game: vec![simple("--demo"), single(vec![only_on(OS::Windows)], "--win")],
        jvm: vec![single(vec![only_on(OS::Linux)], "-Xss1M"), simple("-cp")],
    };
    let on_linux = send_arguments(&arguments, &linux(), &Features::default());
    assert_eq!(on_linux.game, strings(&["--demo"]));
    assert_eq!(on_linux.jvm, strings(&["-Xss1M", "-cp"]));
    let on_windows = send_arguments(&arguments, &windows(), &Features::default());
    assert_eq!(on_windows.game, strings(&["--demo", "--win"]));
    assert_eq!(on_windows.jvm, strings(&["-cp"]));
}

#[test]
fn resolving_twice_gives_the_same_list() {
    let list = vec![
        simple("a"),
        multiple(vec![only_on(OS::Linux)], &["x", "y"]),
        single(vec![only_on(OS::Windows)], "w"),
        simple("c"),
    ];
    let first = resolve_argument_list(&list, &linux(), &Features::default());
    let second = resolve_argument_list(&list, &linux(), &Features::default());
    assert_eq!(first, second);
    assert_eq!(first, strings(&["a", "x", "y", "c"]));
}

#[test]
fn values_of_a_simple_argument() {
    assert_eq!(simple("one").values(), vec!["one"]);
}

#[test]
fn values_of_a_guarded_argument() {
    assert_eq!(single(vec![only_on(OS::Windows)], "one").values(), vec!["one"]);
    assert_eq!(multiple(vec![only_on(OS::Windows)], &["x", "y"]).values(), vec!["x", "y"]);
    let none: Vec<&str> = Vec::new();
    assert_eq!(multiple(Vec::new(), &[]).values(), none);
}

#[test]
fn texts_of_a_value() {
    assert_eq!(ArgValue::Single("s".to_string()).texts(), vec!["s"]);
    assert_eq!(ArgValue::Multiple(strings(&["a", "b", "c"])).texts(), vec!["a", "b", "c"]);
}
