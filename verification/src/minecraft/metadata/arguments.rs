//! Launch arguments as the description lists them: plain texts, and texts
//! guarded by a chain of rules.

pub use super::rule::{Features, Rule};
use vstd::prelude::*;

verus! {

/// The text or texts that a guarded argument stands for.
#[derive(Debug, Clone, PartialEq, Eq)]
pub enum ArgValue {
    Single(String),
    Multiple(Vec<String>),
}

/// One entry of an argument list.
#[derive(Debug, Clone, PartialEq, Eq)]
pub enum Argument {
    /// A text that is always passed.
    Simple(String),
    /// A value that is passed only where the chain of rules is satisfied.
    RuleBased { rules: Vec<Rule>, value: ArgValue },
}

/// The two argument lists of a description.
#[derive(Debug, Clone, PartialEq, Eq)]
pub struct Arguments {
    pub game: Vec<Argument>,
    pub jvm: Vec<Argument>,
}

/// What an `ArgValue` holds, as sequences of characters.
pub enum ArgValueModel {
    Single(Seq<char>),
    Multiple(Seq<Seq<char>>),
}

/// What an `Argument` holds.
pub enum ArgumentModel {
    Simple(Seq<char>),
    RuleBased { rules: Seq<Rule>, value: ArgValueModel },
}

/// What an `Arguments` holds.
pub struct ArgumentsModel {
    pub game: Seq<ArgumentModel>,
    pub jvm: Seq<ArgumentModel>,
}

impl ArgValueModel {
    /// The texts in the order given: the single one, or all of the many.
    pub open spec fn texts(self) -> Seq<Seq<char>> {
        match self {
            ArgValueModel::Single(text) => seq![text],
            ArgValueModel::Multiple(texts) => texts,
        }
    }
}

impl ArgumentModel {
    /// The texts that the entry stands for, whether or not its rules are
    /// satisfied.
    pub open spec fn texts(self) -> Seq<Seq<char>> {
        match self {
            ArgumentModel::Simple(text) => seq![text],
            ArgumentModel::RuleBased { rules, value } => value.texts(),
        }
    }
}

impl DeepView for ArgValue {
    type V = ArgValueModel;

    open spec fn deep_view(&self) -> ArgValueModel {
        match self {
            ArgValue::Single(text) => ArgValueModel::Single(text@),
            ArgValue::Multiple(texts) => ArgValueModel::Multiple(texts.deep_view()),
        }
    }
}

impl DeepView for Argument {
    type V = ArgumentModel;

    open spec fn deep_view(&self) -> ArgumentModel {
        match self {
            Argument::Simple(text) => ArgumentModel::Simple(text@),
            Argument::RuleBased { rules, value } => ArgumentModel::RuleBased {
                rules: rules@,
                value: value.deep_view(),
            },
        }
    }
}

impl DeepView for Arguments {
    type V = ArgumentsModel;

    open spec fn deep_view(&self) -> ArgumentsModel {
        ArgumentsModel { game: self.game.deep_view(), jvm: self.jvm.deep_view() }
    }
}

impl ArgValue {
    /// The texts of the value, borrowed, in the order given.
    pub fn texts(&self) -> (out: Vec<&str>)
        ensures
            out.deep_view() == self.deep_view().texts(),
    {
        let mut out: Vec<&str> = Vec::new();
        match self {
            ArgValue::Single(text) => {
                out.push(text.as_str());
                assert(out.deep_view() =~= seq![text@]);
            },
            ArgValue::Multiple(texts) => {
                let mut i: usize = 0;
                while i < texts.len()
                    invariant
                        i <= texts.len(),
                        out.len() == i,
                        forall|j: int| 0 <= j < i ==> (#[trigger] out@[j])@ == texts@[j]@,
                    decreases texts.len() - i,
                {
                    out.push(texts[i].as_str());
                    i += 1;
                }
                assert(out.deep_view() =~= texts.deep_view());
            },
        }
        out
    }
}

impl Argument {
    /// The texts that the entry stands for, whether or not its rules are
    /// satisfied.
    pub fn values(&self) -> (out: Vec<&str>)
        ensures
            out.deep_view() == self.deep_view().texts(),
    {
        match self {
            Argument::Simple(text) => {
                let mut out: Vec<&str> = Vec::new();
                out.push(text.as_str());
                assert(out.deep_view() =~= seq![text@]);
                out
            },
            Argument::RuleBased { value, .. } => value.texts(),
        }
    }
}

} // verus!
