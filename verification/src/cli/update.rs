//! Updating the program: which release, and which file of it.

use crate::text::{
    chars_at, chars_of, contains_text, ends_with, has_part, has_suffix, same_text, text_of,
};
use vstd::prelude::*;

verus! {

/// Arguments of `update`.
pub struct UpdateArgs {
    /// Only check for updates, don't install.
    pub check: bool,
}

/// A downloadable file of a release.
pub struct Asset {
    pub name: String,
    pub browser_download_url: String,
}

/// A published release.
pub struct Release {
    pub tag_name: String,
    pub assets: Vec<Asset>,
}

/// What is left of a tag without the `v`s in front.
pub open spec fn version_of(tag: Seq<char>) -> Seq<char>
    decreases tag.len(),
{
    if tag.len() > 0 && tag[0] == 'v' {
        version_of(tag.skip(1))
    } else {
        tag
    }
}

/// The version that a release's tag stands for.
pub fn release_version(tag: &str) -> (version: String)
    ensures
        version@ == version_of(tag@),
{
    let chars = chars_of(tag);
    let n: usize = chars.len();
    let mut i: usize = 0;
    assert(tag@.skip(0) =~= tag@);
    while i < n && chars[i] == 'v'
        invariant
            i <= n == tag@.len(),
            chars@ == tag@,
            version_of(tag@.skip(i as int)) == version_of(tag@),
        decreases n - i,
    {
        assert(tag@.skip(i as int).skip(1) =~= tag@.skip(i + 1));
        i = i + 1;
    }
    let version = text_of(chars_at(chars.as_slice(), i, n));
    assert(version@ =~= tag@.skip(i as int));
    version
}

/// The name of the platform in the names of a release's files.
pub open spec fn target_name(arch: Seq<char>, os: Seq<char>) -> Seq<char> {
    if os == "linux"@ {
        arch + "-unknown-linux-musl"@
    } else if os == "macos"@ {
        arch + "-apple-darwin"@
    } else {
        arch + "-"@ + os
    }
}

/// The platform of an architecture and an operating system.
pub fn current_target(arch: &str, os: &str) -> (target: String)
    ensures
        target@ == target_name(arch@, os@),
{
    let mut target = String::new();
    target.push_str(arch);
    if same_text(os, "linux") {
        target.push_str("-unknown-linux-musl");
    } else if same_text(os, "macos") {
        target.push_str("-apple-darwin");
    } else {
        target.push_str("-");
        target.push_str(os);
    }
    assert(target@ =~= target_name(arch@, os@));
    target
}

/// An archive for the given platform.
pub open spec fn fits(name: Seq<char>, target: Seq<char>) -> bool {
    contains_text(name, target) && ends_with(name, ".tar.gz"@)
}

/// The first archive for the given platform.
pub fn choose_asset(assets: &Vec<Asset>, target: &str) -> (r: Option<usize>)
    ensures
        match r {
            Some(i) => {
                &&& i < assets@.len()
                &&& fits(assets@[i as int].name@, target@)
                &&& forall|j: int| 0 <= j < i ==> !fits(#[trigger] assets@[j].name@, target@)
            },
            None => forall|j: int|
                0 <= j < assets@.len() ==> !fits(#[trigger] assets@[j].name@, target@),
        },
{
    let n: usize = assets.len();
    for i in 0..n
        invariant
            n == assets@.len(),
            forall|j: int| 0 <= j < i ==> !fits(#[trigger] assets@[j].name@, target@),
    {
        let chars = chars_of(assets[i].name.as_str());
        if has_part(chars.as_slice(), target) && has_suffix(chars.as_slice(), ".tar.gz") {
            return Some(i);
        }
    }
    None
}

/// What to do about the latest release.
#[derive(Debug, Clone, Copy, PartialEq, Eq, Structural)]
pub enum UpdatePlan {
    /// The running version is the latest.
    UpToDate,
    /// Another version is out, and was only asked for.
    Available,
    /// Install the asset with this index.
    Install(usize),
    /// No asset is for this platform.
    NoAsset,
}

/// Decide on the latest release, for the version and the platform that run.
pub fn plan_update(
    release: &Release,
    current: &str,
    target: &str,
    args: &UpdateArgs,
) -> (plan: UpdatePlan)
    ensures
        version_of(release.tag_name@) == current@ <==> plan == UpdatePlan::UpToDate,
        version_of(release.tag_name@) != current@ && args.check <==> plan == UpdatePlan::Available,
        match plan {
            UpdatePlan::Install(i) => {
                &&& i < release.assets@.len()
                &&& fits(release.assets@[i as int].name@, target@)
                &&& forall|j: int|
                    0 <= j < i ==> !fits(#[trigger] release.assets@[j].name@, target@)
            },
            UpdatePlan::NoAsset => forall|j: int|
                0 <= j < release.assets@.len() ==> !fits(
                    #[trigger] release.assets@[j].name@,
                    target@,
                ),
            _ => true,
        },
{
    let latest = release_version(release.tag_name.as_str());
    if same_text(latest.as_str(), current) {
        return UpdatePlan::UpToDate;
    }
    if args.check {
        return UpdatePlan::Available;
    }
    match choose_asset(&release.assets, target) {
        Some(i) => UpdatePlan::Install(i),
        None => UpdatePlan::NoAsset,
    }
}

} // verus!
