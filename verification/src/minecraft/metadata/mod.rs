//! The typed launch description of one game version.

pub mod arguments;
pub mod library;
pub mod rule;

pub use self::rule::{Arch, Environment, Features, ResolvedArguments, Rule, RuleAction, OS};

use self::arguments::Arguments;
use self::library::{summarize_libraries, Library, Tally};
use crate::text::{append_decimal, decimal};
use vstd::prelude::*;

verus! {

/// The description of one game version, fully typed.
#[derive(Debug, Clone, PartialEq, Eq)]
pub struct Metadata {
    pub id: String,
    pub main_class: String,
    pub java_version: JavaVersion,
    pub arguments: Arguments,
    pub libraries: Vec<Library>,
    pub asset_index: AssetIndex,
    pub client_download: ClientDownload,
    pub compliance_level: Option<u8>,
}

/// The Java runtime that a version asks for.
#[derive(Debug, Clone, PartialEq, Eq)]
pub struct JavaVersion {
    pub component: String,
    pub major_version: u8,
}

/// Where the index of a version's assets is found.
#[derive(Debug, Clone, PartialEq, Eq)]
pub struct AssetIndex {
    pub id: String,
    pub sha1: String,
    pub size: u64,
    pub total_size: u64,
    pub url: String,
}

/// Where the client itself is found.
#[derive(Debug, Clone, PartialEq, Eq)]
pub struct ClientDownload {
    pub sha1: String,
    pub size: u64,
    pub url: String,
}

impl JavaVersion {
    /// The runtime in short: the component, then the major version in
    /// brackets.
    pub open spec fn label_text(self) -> Seq<char> {
        self.component@ + " (major version "@ + decimal(self.major_version as nat) + ")"@
    }

    /// Writes the runtime in short, as in `java-runtime (major version 21)`.
    pub fn label(&self) -> (label: String)
        ensures
            label@ == self.label_text(),
    {
        let mut label = self.component.clone();
        label.append(" (major version ");
        append_decimal(&mut label, self.major_version as u128);
        label.append(")");
        label
    }
}

impl Metadata {
    /// The libraries in short: how many there are, then in brackets the
    /// summary of the operating systems that they are meant for.
    pub open spec fn libraries_label_text(self) -> Seq<char> {
        decimal(self.libraries@.len()) + " ("@ + Tally::of(self.libraries.deep_view()).summary()
            + ")"@
    }

    /// Writes the libraries in short, as in `3 (linux: 2, windows: 1)`.
    pub fn libraries_label(&self) -> (label: String)
        ensures
            label@ == self.libraries_label_text(),
    {
        let summary = summarize_libraries(self.libraries.as_slice());
        let mut label = String::new();
        append_decimal(&mut label, self.libraries.len() as u128);
        label.append(" (");
        label.append(summary.as_str());
        label.append(")");
        assert(label@ =~= self.libraries_label_text());
        label
    }
}

} // verus!
