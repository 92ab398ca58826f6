//! Remote targets and the `ssh` commands that reach them.

use crate::cli::connect::{quoted, shell_quote};
use crate::text::{
    char_code, char_views, chars_at, chars_of, decimal, find_char, lines, parse_number, parsed_number,
    push_decimal, split_lines, starts_with, strip_prefix, text_of, trim, trimmed,
};
use vstd::prelude::*;

verus! {

/// A host to reach over SSH.
pub struct RemoteInfo {
    pub host: String,
    pub user: Option<String>,
    pub ssh_port: Option<u16>,
}

/// What a [`RemoteInfo`] stands for.
#[verifier::ext_equal]
pub struct RemoteView {
    pub host: Seq<char>,
    pub user: Option<Seq<char>>,
    pub ssh_port: Option<u16>,
}

/// The text inside, if there is any.
pub open spec fn inner(text: Option<String>) -> Option<Seq<char>> {
    match text {
        Some(text) => Some(text@),
        None => None,
    }
}

impl View for RemoteInfo {
    type V = RemoteView;

    open spec fn view(&self) -> RemoteView {
        RemoteView { host: self.host@, user: inner(self.user), ssh_port: self.ssh_port }
    }
}

/// What the texts hold.
pub open spec fn text_views(list: Seq<String>) -> Seq<Seq<char>> {
    list.map_values(|s: String| s@)
}

impl RemoteView {
    /// `user@host`, or the host alone.
    pub open spec fn target(self) -> Seq<char> {
        match self.user {
            Some(user) => user + seq!['@'] + self.host,
            None => self.host,
        }
    }

    /// The port argument, with the given flag.
    pub open spec fn port_args(self, flag: Seq<char>) -> Seq<Seq<char>> {
        match self.ssh_port {
            Some(port) => seq![flag, decimal(port as nat)],
            None => Seq::empty(),
        }
    }

    /// Arguments of an `ssh` that may ask for a password.
    pub open spec fn ssh_args(self) -> Seq<Seq<char>> {
        seq!["-o"@, "StrictHostKeyChecking=accept-new"@, "-o"@, "ConnectTimeout=10"@]
            + self.port_args("-p"@) + seq![self.target()]
    }

    /// Arguments of an `ssh` that never asks.
    pub open spec fn ssh_batch_args(self) -> Seq<Seq<char>> {
        seq!["-o"@, "BatchMode=yes"@] + self.ssh_args()
    }

    /// Arguments of the `scp` that copies the program to the remote.
    pub open spec fn scp_args(self, program: Seq<char>) -> Seq<Seq<char>> {
        seq!["-o"@, "StrictHostKeyChecking=accept-new"@, "-o"@, "ConnectTimeout=10"@]
            + self.port_args("-P"@) + seq![program, self.target() + ":.local/bin/seam"@]
    }
}

fn push_text(list: &mut Vec<String>, text: &str)
    ensures
        text_views(final(list)@) == text_views(old(list)@).push(text@),
{
    list.push(text.to_owned());
    assert(text_views(list@) =~= text_views(old(list)@).push(text@));
}

impl RemoteInfo {
    /// `user@host`, or the host alone.
    pub fn target(&self) -> (text: String)
        ensures
            text@ == self@.target(),
    {
        let mut text = String::new();
        if let Some(user) = &self.user {
            text.push_str(user.as_str());
            text.push('@');
        }
        text.push_str(self.host.as_str());
        assert(text@ =~= self@.target());
        text
    }

    fn push_port(&self, list: &mut Vec<String>, flag: &str)
        ensures
            text_views(final(list)@) == text_views(old(list)@) + self@.port_args(flag@),
    {
        if let Some(port) = self.ssh_port {
            push_text(list, flag);
            let mut text = String::new();
            push_decimal(&mut text, port as u64);
            push_text(list, text.as_str());
            assert(text@ =~= decimal(port as nat));
        }
        assert(text_views(list@) =~= text_views(old(list)@) + self@.port_args(flag@));
    }

    /// SSH arguments for quick non-interactive checks (no password prompt).
    pub fn ssh_base_batch(&self) -> (list: Vec<String>)
        ensures
            text_views(list@) == self@.ssh_batch_args(),
    {
        let mut list: Vec<String> = Vec::new();
        push_text(&mut list, "-o");
        push_text(&mut list, "BatchMode=yes");
        let mut rest = self.ssh_base();
        let ghost front = list@;
        let ghost back = rest@;
        list.append(&mut rest);
        assert(text_views(list@) =~= text_views(front) + text_views(back));
        assert(text_views(list@) =~= self@.ssh_batch_args());
        list
    }

    /// SSH arguments for interactive operations (allows password prompts).
    pub fn ssh_base(&self) -> (list: Vec<String>)
        ensures
            text_views(list@) == self@.ssh_args(),
    {
        let mut list: Vec<String> = Vec::new();
        push_text(&mut list, "-o");
        push_text(&mut list, "StrictHostKeyChecking=accept-new");
        push_text(&mut list, "-o");
        push_text(&mut list, "ConnectTimeout=10");
        self.push_port(&mut list, "-p");
        let target = self.target();
        push_text(&mut list, target.as_str());
        assert(text_views(list@) =~= self@.ssh_args());
        list
    }

    /// Arguments of the `scp` that copies the program at `program` to the remote.
    pub fn scp_base(&self, program: &str) -> (list: Vec<String>)
        ensures
            text_views(list@) == self@.scp_args(program@),
    {
        let mut list: Vec<String> = Vec::new();
        push_text(&mut list, "-o");
        push_text(&mut list, "StrictHostKeyChecking=accept-new");
        push_text(&mut list, "-o");
        push_text(&mut list, "ConnectTimeout=10");
        self.push_port(&mut list, "-P");
        push_text(&mut list, program);
        let mut target = self.target();
        target.push_str(":.local/bin/seam");
        push_text(&mut list, target.as_str());
        assert(text_views(list@) =~= self@.scp_args(program@));
        list
    }

    /// The path of seam on the remote, from what the remote printed when asked
    /// for it; nothing if it printed nothing.
    pub fn seam_path(&self, output: &str) -> (r: Option<String>)
        ensures
            match r {
                Some(path) => path@ == trimmed(output@) && path@.len() > 0,
                None => trimmed(output@).len() == 0,
            },
    {
        let chars = chars_of(output);
        let path = trim(chars.as_slice());
        if path.len() == 0 {
            None
        } else {
            Some(text_of(path))
        }
    }
}

/// The remote command for a subcommand of seam.
pub fn remote_command(seam_bin: &str, subcmd: &str) -> (text: String)
    ensures
        text@ == seam_bin@ + seq![' '] + subcmd@,
{
    let mut text = String::new();
    text.push_str(seam_bin);
    text.push(' ');
    text.push_str(subcmd);
    assert(text@ =~= seam_bin@ + seq![' '] + subcmd@);
    text
}

/// The subcommand that receives into `dest`.
pub fn recv_subcommand(dest: &str) -> (text: String)
    ensures
        text@ == "recv "@ + dest@ + " --port 0 --once"@,
{
    let mut text = String::new();
    text.push_str("recv ");
    text.push_str(dest);
    text.push_str(" --port 0 --once");
    assert(text@ =~= "recv "@ + dest@ + " --port 0 --once"@);
    text
}

/// The subcommand that lists `path`, which is quoted for the remote shell.
pub fn ls_subcommand(path: &str) -> (text: String)
    ensures
        text@ == "_ls-recv "@ + quoted(path@) + " --port 0"@,
{
    let mut text = String::new();
    text.push_str("_ls-recv ");
    text.push_str(shell_quote(path).as_str());
    text.push_str(" --port 0");
    assert(text@ =~= "_ls-recv "@ + quoted(path@) + " --port 0"@);
    text
}

/// The line that a remote worker prints when it is ready.
pub fn is_ready_line(line: &str) -> (yes: bool)
    ensures
        yes == starts_with(line@, "SEAM "@),
{
    let chars = chars_of(line);
    strip_prefix(chars.as_slice(), "SEAM ").is_some()
}

// ── Remote specifications ────────────────────────────────────────────────────
/// What the user's SSH configuration says of a host.
pub struct SshConfig {
    pub user: Option<String>,
    pub port: Option<u16>,
    pub hostname: Option<String>,
}

/// What an [`SshConfig`] stands for.
#[verifier::ext_equal]
pub struct ConfigView {
    pub user: Option<Seq<char>>,
    pub port: Option<u16>,
    pub hostname: Option<Seq<char>>,
}

impl View for SshConfig {
    type V = ConfigView;

    open spec fn view(&self) -> ConfigView {
        ConfigView { user: inner(self.user), port: self.port, hostname: inner(self.hostname) }
    }
}

/// The configuration after one more line of `ssh -G`. A later line counts more
/// than an earlier one.
pub open spec fn take_line(config: ConfigView, line: Seq<char>) -> ConfigView {
    if starts_with(line, "hostname "@) {
        ConfigView { hostname: Some(line.skip("hostname "@.len() as int)), ..config }
    } else if starts_with(line, "user "@) {
        ConfigView { user: Some(line.skip("user "@.len() as int)), ..config }
    } else if starts_with(line, "port "@) {
        ConfigView {
            port: match parsed_number(line.skip("port "@.len() as int), 65535) {
                Some(port) => Some(port as u16),
                None => None,
            },
            ..config
        }
    } else {
        config
    }
}

/// The configuration after all lines.
pub open spec fn take_lines(list: Seq<Seq<char>>) -> ConfigView
    decreases list.len(),
{
    if list.len() == 0 {
        ConfigView { user: None, port: None, hostname: None }
    } else {
        take_line(take_lines(list.drop_last()), list.last())
    }
}

/// A configuration that says nothing, for a host of which nothing is known.
pub fn no_config() -> (config: SshConfig)
    ensures
        config@ == (ConfigView { user: None, port: None, hostname: None }),
{
    SshConfig { user: None, port: None, hostname: None }
}

/// Read what `ssh -G` printed.
pub fn parse_ssh_config(text: &str) -> (config: SshConfig)
    ensures
        config@ == take_lines(lines(text@)),
{
    let chars = chars_of(text);
    let list = split_lines(chars.as_slice());
    let ghost all = lines(text@);
    let n: usize = list.len();
    let mut config = no_config();
    assert(char_views(list@).len() == n);
    assert(all.take(0) =~= Seq::empty());
    for i in 0..n
        invariant
            n == list@.len() == all.len(),
            char_views(list@) == all,
            config@ == take_lines(all.take(i as int)),
    {
        let line = list[i].as_slice();
        proof {
            assert(line@ == all[i as int]);
            assert(all.take(i + 1).drop_last() =~= all.take(i as int));
        }
        if let Some(v) = strip_prefix(line, "hostname ") {
            config.hostname = Some(text_of(v));
        } else if let Some(v) = strip_prefix(line, "user ") {
            config.user = Some(text_of(v));
        } else if let Some(v) = strip_prefix(line, "port ") {
            config.port = match parse_number(v, 65535) {
                Some(port) => Some(port as u16),
                None => None,
            };
        }
    }
    assert(all.take(n as int) =~= all);
    config
}

/// The parts of a remote specification.
#[verifier::ext_equal]
pub struct SpecParts {
    pub user: Option<Seq<char>>,
    pub host: Seq<char>,
    pub path: Seq<char>,
}

/// The place of the first `c` from `from` on; the length if there is none.
pub open spec fn place_of(text: Seq<char>, c: char, from: int) -> int
    decreases text.len() - from,
{
    if from >= text.len() {
        text.len() as int
    } else if text[from] == c {
        from
    } else {
        place_of(text, c, from + 1)
    }
}

pub proof fn place_is(text: Seq<char>, c: char, from: int, i: int)
    requires
        0 <= from <= i <= text.len(),
        forall|j: int| from <= j < i ==> text[j] != c,
        i < text.len() ==> text[i] == c,
    ensures
        place_of(text, c, from) == i,
    decreases i - from,
{
    if from < i {
        place_is(text, c, from + 1, i);
    }
}

/// `user@host:path` or `host:path`. A text without a colon is not remote, and
/// neither is one with a single ASCII character before it: that is a drive
/// letter.
pub open spec fn spec_parts(text: Seq<char>) -> Option<SpecParts> {
    let colon = place_of(text, ':', 0);
    let front = text.take(colon);
    let at = place_of(front, '@', 0);
    if colon >= text.len() || (colon == 1 && (text[0] as int) < 0x80) {
        None
    } else if at >= front.len() {
        Some(SpecParts { user: None, host: front, path: text.skip(colon + 1) })
    } else {
        Some(
            SpecParts {
                user: Some(front.take(at)),
                host: front.skip(at + 1),
                path: text.skip(colon + 1),
            },
        )
    }
}

/// Split a remote specification into user, host and path.
pub fn split_remote(s: &str) -> (r: Option<(Option<String>, String, String)>)
    ensures
        match r {
            Some(parts) => spec_parts(s@) == Some(
                (SpecParts { user: inner(parts.0), host: parts.1@, path: parts.2@ }),
            ),
            None => spec_parts(s@) is None,
        },
{
    let chars = chars_of(s);
    let n: usize = chars.len();
    let colon: usize = match find_char(chars.as_slice(), ':') {
        Some(i) => i,
        None => {
            proof {
                place_is(s@, ':', 0, n as int);
            }
            return None;
        },
    };
    proof {
        place_is(s@, ':', 0, colon as int);
    }
    // A single-letter prefix is a drive letter, not a remote.
    if colon == 1 && char_code(chars[0]) < 0x80 {
        return None;
    }
    let front = chars_at(chars.as_slice(), 0, colon);
    let path = text_of(chars_at(chars.as_slice(), colon + 1, n));
    assert(front@ =~= s@.take(colon as int));
    assert(path@ =~= s@.skip(colon + 1));
    match find_char(front, '@') {
        Some(at) => {
            proof {
                place_is(front@, '@', 0, at as int);
            }
            let user = text_of(chars_at(front, 0, at));
            let host = text_of(chars_at(front, at + 1, front.len()));
            assert(user@ =~= front@.take(at as int));
            assert(host@ =~= front@.skip(at + 1));
            Some((Some(user), host, path))
        },
        None => {
            proof {
                place_is(front@, '@', 0, front@.len() as int);
            }
            Some((None, text_of(front), path))
        },
    }
}

/// The remote that a specification and the configuration of its host give: an
/// explicit user counts more than a configured one, a configured host name
/// more than the written one.
pub open spec fn resolved(parts: SpecParts, config: ConfigView) -> RemoteView {
    RemoteView {
        host: match config.hostname {
            Some(name) => name,
            None => parts.host,
        },
        user: match parts.user {
            Some(user) => Some(user),
            None => config.user,
        },
        ssh_port: config.port,
    }
}

/// Parse `"user@host:/path"` or `"host:/path"` into remote and path, given
/// what the SSH configuration says of the host.
pub fn parse_remote(s: &str, config: SshConfig) -> (r: Option<(RemoteInfo, String)>)
    ensures
        match r {
            Some(remote) => match spec_parts(s@) {
                Some(parts) => remote.0@ == resolved(parts, config@) && remote.1@ == parts.path,
                None => false,
            },
            None => spec_parts(s@) is None,
        },
{
    match split_remote(s) {
        Some((explicit_user, written_host, path)) => {
            let user = match explicit_user {
                Some(user) => Some(user),
                None => config.user,
            };
            let host = match config.hostname {
                Some(name) => name,
                None => written_host,
            };
            Some((RemoteInfo { host, user, ssh_port: config.port }, path))
        },
        None => None,
    }
}

proof fn place_in_joined(front: Seq<char>, c: char, back: Seq<char>)
    requires
        !front.contains(c),
    ensures
        place_of(front + seq![c] + back, c, 0) == front.len(),
{
    let all = front + seq![c] + back;
    assert forall|j: int| 0 <= j < front.len() implies all[j] != c by {
        assert(all[j] == front[j]);
        assert(front.contains(front[j]));
    }
    place_is(all, c, 0, front.len() as int);
}

/// A specification says what it was put together from, if user and host hold
/// no separators.
pub proof fn spec_round_trip(user: Seq<char>, host: Seq<char>, path: Seq<char>)
    requires
        !user.contains('@'),
        !user.contains(':'),
        !host.contains(':'),
    ensures
        user.len() + host.len() > 0 ==> spec_parts(
            user + seq!['@'] + host + seq![':'] + path,
        ) == Some(SpecParts { user: Some(user), host, path }),
        host.len() > 1 && !host.contains('@') ==> spec_parts(host + seq![':'] + path) == Some(
            SpecParts { user: None, host, path },
        ),
{
    let front = user + seq!['@'] + host;
    assert(!front.contains(':')) by {
        if front.contains(':') {
            let i = front.index_of(':');
            if i < user.len() {
                assert(user[i] == ':');
            } else if i > user.len() {
                assert(host[i - user.len() - 1] == ':');
            }
        }
    }
    let full = front + seq![':'] + path;
    place_in_joined(front, ':', path);
    place_in_joined(user, '@', host);
    assert(full.take(front.len() as int) =~= front);
    assert(full.skip(front.len() as int + 1) =~= path);
    assert(front.take(user.len() as int) =~= user);
    assert(front.skip(user.len() as int + 1) =~= host);
    let plain = host + seq![':'] + path;
    place_in_joined(host, ':', path);
    assert(plain.take(host.len() as int) =~= host);
    assert(plain.skip(host.len() as int + 1) =~= path);
    if !host.contains('@') {
        assert forall|j: int| 0 <= j < host.len() implies host[j] != '@' by {
            assert(host.contains(host[j]));
        }
        place_is(host, '@', 0, host.len() as int);
    }
}

} // verus!
