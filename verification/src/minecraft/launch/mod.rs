//! From a description to what a launch needs: the arguments that apply and
//! the files to fetch.

pub mod arguments;
pub mod download;
pub mod library;
pub mod path;

use self::arguments::{resolved, send_arguments};
use self::download::DownloadTask;
use self::library::{planned, resolve_libraries};
use crate::minecraft::metadata::rule::{Environment, Features, ResolvedArguments};
use crate::minecraft::metadata::Metadata;
use vstd::prelude::*;

verus! {

/// What a launch needs: the resolved arguments and the download plan.
#[derive(Debug, Clone, PartialEq, Eq)]
pub struct LaunchPlan {
    pub arguments: ResolvedArguments,
    pub downloads: Vec<DownloadTask>,
}

/// Resolves both argument lists of the description for the environment and
/// the features, and plans the download of every library under
/// `libraries_dir`. Nothing is fetched here.
pub fn prepare_launch(
    metadata: &Metadata,
    environment: &Environment,
    features: &Features,
    libraries_dir: &str,
) -> (plan: LaunchPlan)
    ensures
        plan.arguments.game.deep_view() == resolved(
            metadata.arguments.game.deep_view(),
            *environment,
            *features,
        ),
        plan.arguments.jvm.deep_view() == resolved(
            metadata.arguments.jvm.deep_view(),
            *environment,
            *features,
        ),
        plan.downloads.deep_view() == planned(metadata.libraries.deep_view(), libraries_dir@),
{
    let arguments = send_arguments(&metadata.arguments, environment, features);
    let downloads = resolve_libraries(metadata.libraries.as_slice(), libraries_dir);
    LaunchPlan { arguments, downloads }
}

} // verus!
