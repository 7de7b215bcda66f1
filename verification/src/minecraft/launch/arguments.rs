//! Resolution of argument lists: the texts of the entries that apply, in
//! the order of the entries.

use crate::minecraft::metadata::arguments::{ArgValue, ArgValueModel, Argument, ArgumentModel, Arguments};
use crate::minecraft::metadata::rule::{chain_matches, rules_match, Environment, Features, ResolvedArguments, Rule};
use vstd::prelude::*;

verus! {

/// The texts that one entry contributes: its text where it is unconditional;
/// its value's texts where every rule of its chain matches; nothing
/// otherwise.
pub open spec fn entry_texts(
    entry: ArgumentModel,
    environment: Environment,
    active: Features,
) -> Seq<Seq<char>> {
    match entry {
        ArgumentModel::Simple(text) => seq![text],
        ArgumentModel::RuleBased { rules, value } => if chain_matches(rules, environment, active) {
            value.texts()
        } else {
            Seq::empty()
        },
    }
}

/// The resolved list: what each entry contributes, one after the other.
pub open spec fn resolved(
    entries: Seq<ArgumentModel>,
    environment: Environment,
    active: Features,
) -> Seq<Seq<char>>
    decreases entries.len(),
{
    if entries.len() == 0 {
        Seq::empty()
    } else {
        resolved(entries.drop_last(), environment, active) + entry_texts(
            entries.last(),
            environment,
            active,
        )
    }
}

/// Resolves one argument list. Entries are taken in order; nothing is
/// reordered and nothing is dropped as a duplicate.
pub fn resolve_argument_list(list: &[Argument], environment: &Environment, features: &Features) -> (out:
    Vec<String>)
    ensures
        out.deep_view() == resolved(list.deep_view(), *environment, *features),
{
    let mut out: Vec<String> = Vec::new();
    let mut i: usize = 0;
    assert(out.deep_view() =~= Seq::<Seq<char>>::empty());
    while i < list.len()
        invariant
            i <= list.len(),
            out.deep_view() == resolved(list.deep_view().take(i as int), *environment, *features),
        decreases list.len() - i,
    {
        let ghost before = out.deep_view();
        let ghost entry = list.deep_view()[i as int];
        assert(list.deep_view().take(i + 1).drop_last() =~= list.deep_view().take(i as int));
        assert(list.deep_view().take(i + 1).last() == entry);
        assert(entry == list@[i as int].deep_view());
        match &list[i] {
            Argument::Simple(text) => {
                out.push(text.clone());
                assert(out.deep_view() =~= before + seq![text@]);
            },
            Argument::RuleBased { rules, value } => {
                if rules_match(rules.as_slice(), environment, Some(features)) {
                    match value {
                        ArgValue::Single(text) => {
                            out.push(text.clone());
                            assert(out.deep_view() =~= before + seq![text@]);
                        },
                        ArgValue::Multiple(texts) => {
                            let mut j: usize = 0;
                            assert(out.deep_view() =~= before + texts.deep_view().take(0));
                            while j < texts.len()
                                invariant
                                    j <= texts.len(),
                                    out.deep_view() == before + texts.deep_view().take(j as int),
                                decreases texts.len() - j,
                            {
                                let ghost so_far = out.deep_view();
                                out.push(texts[j].clone());
                                assert(out.deep_view() =~= so_far.push(texts@[j as int]@));
                                j += 1;
                                assert(so_far.push(texts@[j - 1]@) =~= before + texts.deep_view().take(
                                    j as int,
                                ));
                            }
                            assert(texts.deep_view().take(j as int) =~= texts.deep_view());
                        },
                    }
                } else {
                    assert(out.deep_view() =~= before + Seq::<Seq<char>>::empty());
                }
            },
        }
        i += 1;
    }
    assert(list.deep_view().take(i as int) =~= list.deep_view());
    out
}

/// Resolves the game arguments and the jvm arguments, each on its own.
pub fn send_arguments(arguments: &Arguments, environment: &Environment, features: &Features) -> (out:
    ResolvedArguments)
    ensures
        out.game.deep_view() == resolved(arguments.game.deep_view(), *environment, *features),
        out.jvm.deep_view() == resolved(arguments.jvm.deep_view(), *environment, *features),
{
    let game = resolve_argument_list(arguments.game.as_slice(), environment, features);
    let jvm = resolve_argument_list(arguments.jvm.as_slice(), environment, features);
    ResolvedArguments { game, jvm }
}

/// Resolution goes entry by entry: a list made of two parts resolves to the
/// resolution of the first part followed by that of the second.
pub proof fn lemma_resolved_concat(
    first: Seq<ArgumentModel>,
    second: Seq<ArgumentModel>,
    environment: Environment,
    active: Features,
)
    ensures
        resolved(first + second, environment, active) == resolved(first, environment, active)
            + resolved(second, environment, active),
    decreases second.len(),
{
    if second.len() == 0 {
        assert(first + second =~= first);
        assert(resolved(first, environment, active) + Seq::<Seq<char>>::empty() =~= resolved(
            first,
            environment,
            active,
        ));
    } else {
        assert((first + second).drop_last() =~= first + second.drop_last());
        assert((first + second).last() == second.last());
        lemma_resolved_concat(first, second.drop_last(), environment, active);
        assert(resolved(first + second, environment, active) =~= resolved(first, environment, active)
            + resolved(second, environment, active));
    }
}

/// An entry contributes its texts at its own place: between what the
/// entries before it contribute and what the entries after it contribute.
pub proof fn lemma_entry_in_place(
    before: Seq<ArgumentModel>,
    entry: ArgumentModel,
    after: Seq<ArgumentModel>,
    environment: Environment,
    active: Features,
)
    ensures
        resolved(before.push(entry) + after, environment, active) == resolved(
            before,
            environment,
            active,
        ) + entry_texts(entry, environment, active) + resolved(after, environment, active),
{
    lemma_resolved_concat(before.push(entry), after, environment, active);
    assert(before.push(entry).drop_last() =~= before);
}

/// A guarded entry whose chain is empty is always included: it contributes
/// its value's texts whatever the environment and the features.
pub proof fn lemma_empty_chain_includes(
    value: ArgValueModel,
    environment: Environment,
    active: Features,
)
    ensures
        entry_texts(
            ArgumentModel::RuleBased { rules: Seq::<Rule>::empty(), value },
            environment,
            active,
        ) == value.texts(),
{
}

/// A guarded entry with a rule that does not match contributes nothing, so
/// that the entries around it follow one another without a gap.
pub proof fn lemma_unsatisfied_leaves_no_gap(
    before: Seq<ArgumentModel>,
    rules: Seq<Rule>,
    value: ArgValueModel,
    after: Seq<ArgumentModel>,
    environment: Environment,
    active: Features,
)
    requires
        !chain_matches(rules, environment, active),
    ensures
        resolved(
            before.push(ArgumentModel::RuleBased { rules, value }) + after,
            environment,
            active,
        ) == resolved(before, environment, active) + resolved(after, environment, active),
{
    let entry = ArgumentModel::RuleBased { rules, value };
    lemma_entry_in_place(before, entry, after, environment, active);
    assert(resolved(before, environment, active) + Seq::<Seq<char>>::empty() =~= resolved(
        before,
        environment,
        active,
    ));
}

/// A guarded entry with many texts whose chain is satisfied contributes all
/// of them, next to one another and in the order given.
pub proof fn lemma_satisfied_expands(
    before: Seq<ArgumentModel>,
    rules: Seq<Rule>,
    texts: Seq<Seq<char>>,
    after: Seq<ArgumentModel>,
    environment: Environment,
    active: Features,
)
    requires
        chain_matches(rules, environment, active),
    ensures
        resolved(
            before.push(ArgumentModel::RuleBased { rules, value: ArgValueModel::Multiple(texts) })
                + after,
            environment,
            active,
        ) == resolved(before, environment, active) + texts + resolved(after, environment, active),
{
    let entry = ArgumentModel::RuleBased { rules, value: ArgValueModel::Multiple(texts) };
    lemma_entry_in_place(before, entry, after, environment, active);
}

/// Resolution is a function of the entries, the environment and the
/// features: two lists that both resolve the same input are the same list,
/// text by text and in the same order.
pub proof fn lemma_resolution_is_deterministic(
    entries: Seq<ArgumentModel>,
    environment: Environment,
    active: Features,
    first: Seq<Seq<char>>,
    second: Seq<Seq<char>>,
)
    requires
        first == resolved(entries, environment, active),
        second == resolved(entries, environment, active),
    ensures
        first.len() == second.len(),
        forall|i: int| 0 <= i < first.len() ==> first[i] == second[i],
        first == second,
{
}

} // verus!
