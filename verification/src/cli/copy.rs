//! Copying to a remote: where the receiver is, before anything is sent.

use crate::cli::ssh::{inner, spec_parts, split_remote};
use crate::text::{decimal, push_decimal};
use vstd::prelude::*;

verus! {

/// Arguments of `cp`.
pub struct CopyArgs {
    /// Source path (local file or directory).
    pub src: String,
    /// Destination: `user@host:/path`, or a local `/path` with `direct`.
    pub dest: String,
    /// Disable compression, which is on by default.
    pub no_compress: bool,
    /// Skip SSH bootstrap; use this pre-started SEAM line directly.
    pub direct: Option<String>,
}

/// Arguments of `send`.
pub struct SendArgs {
    /// Source path (file or directory) to send.
    pub src: String,
    /// UDP port to listen on; 0 lets the system choose.
    pub port: u16,
    /// Exit after one transfer.
    pub once: bool,
    /// Disable compression, which is on by default.
    pub no_compress: bool,
}

/// Arguments of `recv`.
pub struct RecvArgs {
    /// Destination directory for received files.
    pub dest: String,
    /// UDP port to listen on; 0 lets the system choose.
    pub port: u16,
    /// Exit after one transfer.
    pub once: bool,
}

/// The host of a receiver that was started beforehand.
pub const LOCAL_HOST: &'static str = "127.0.0.1";

/// Why a copy cannot start.
#[derive(Debug, Clone, Copy, PartialEq, Eq, Structural)]
pub enum CopyError {
    SourceNotFound,
    RemoteSource,
    LocalDestination,
}

impl CopyError {
    pub open spec fn text(self, src: Seq<char>) -> Seq<char> {
        match self {
            CopyError::SourceNotFound => "source not found: "@ + src,
            CopyError::RemoteSource =>
                "remote source not yet supported — use: seam cp /local user@host:/remote"@,
            CopyError::LocalDestination =>
                "DEST must be remote (user@host:/path) or use --direct"@,
        }
    }

    /// The error in words, for the source that was to be copied.
    pub fn message(self, src: &str) -> (text: String)
        ensures
            text@ == self.text(src@),
    {
        let mut text = String::new();
        match self {
            CopyError::SourceNotFound => {
                text.push_str("source not found: ");
                text.push_str(src);
            },
            CopyError::RemoteSource => text.push_str(
                "remote source not yet supported — use: seam cp /local user@host:/remote",
            ),
            CopyError::LocalDestination => text.push_str(
                "DEST must be remote (user@host:/path) or use --direct",
            ),
        }
        assert(text@ =~= self.text(src@));
        text
    }
}

/// How a copy reaches its receiver.
pub enum Route {
    /// The receiver runs: this is its SEAM line.
    Direct(String),
    /// Start a receiver over SSH on the host of this name.
    Bootstrap(String),
}

/// The route of a copy, or why there is none.
pub open spec fn is_route(
    args: CopyArgs,
    src_exists: bool,
    r: Result<Route, CopyError>,
) -> bool {
    if !src_exists {
        r == Err::<Route, CopyError>(CopyError::SourceNotFound)
    } else {
        match inner(args.direct) {
            Some(line) => match r {
                Ok(Route::Direct(l)) => l@ == line,
                _ => false,
            },
            None => if spec_parts(args.src@) is Some {
                r == Err::<Route, CopyError>(CopyError::RemoteSource)
            } else {
                match spec_parts(args.dest@) {
                    Some(parts) => match r {
                        Ok(Route::Bootstrap(host)) => host@ == parts.host,
                        _ => false,
                    },
                    None => r == Err::<Route, CopyError>(CopyError::LocalDestination),
                }
            },
        }
    }
}

/// Decide how a copy reaches its receiver.
pub fn plan_copy(args: &CopyArgs, src_exists: bool) -> (r: Result<Route, CopyError>)
    ensures
        is_route(*args, src_exists, r),
{
    if !src_exists {
        return Err(CopyError::SourceNotFound);
    }
    if let Some(line) = &args.direct {
        return Ok(Route::Direct(line.as_str().to_owned()));
    }
    if split_remote(args.src.as_str()).is_some() {
        return Err(CopyError::RemoteSource);
    }
    match split_remote(args.dest.as_str()) {
        Some((_, host, _)) => Ok(Route::Bootstrap(host)),
        None => Err(CopyError::LocalDestination),
    }
}

/// `host:port`.
pub fn address_text(host: &str, port: u16) -> (text: String)
    ensures
        text@ == host@ + ":"@ + decimal(port as nat),
{
    let mut text = String::new();
    text.push_str(host);
    text.push_str(":");
    push_decimal(&mut text, port as u64);
    assert(text@ =~= host@ + ":"@ + decimal(port as nat));
    text
}

/// The name of the file that keeps the session ticket of a host.
pub fn ticket_file(host: &str) -> (name: String)
    ensures
        name@ == host@ + ".ticket"@,
{
    let mut name = String::new();
    name.push_str(host);
    name.push_str(".ticket");
    assert(name@ =~= host@ + ".ticket"@);
    name
}

/// Arguments of `completions`.
pub struct CompletionsArgs {
    pub shell: ShellKind,
}

/// Shells that completions can be written for.
#[derive(Debug, Clone, Copy, PartialEq, Eq, Structural)]
pub enum ShellKind {
    Bash,
    Zsh,
    Fish,
}

} // verus!
