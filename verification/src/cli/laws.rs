//! What holds of the command's decisions, beyond single calls.

use crate::cli::connect::{take_word, LineError, LineFields};
use crate::cli::copy::{is_route, CopyArgs, CopyError, Route};
use crate::cli::ls::{entry_fields, is_list_step, ls_target, mode_text, ListStep};
use crate::cli::names::{level, PathStyle};
use crate::cli::proto::extracted;
use crate::cli::ssh::{
    place_is, place_of, resolved, spec_parts, take_line, ConfigView, RemoteView, SpecParts,
};
use crate::cli::transfer::{
    carried, data_frame_of, file_info, hello, parsed_hello, parsed_info, Receiver, SendEvent,
    SendStage, Sender, Stage, StepView, TransferError,
};
use crate::cli::update::{fits, target_name, version_of};
use crate::text::{contains_text, decimal, decimal_round_trip, ends_with, starts_with};
use crate::wire::be_value;
use vstd::prelude::*;

verus! {

// ── Transfers ────────────────────────────────────────────────────────────────
/// A receiver greets back once and notes whether data will be compressed; a
/// second byte of 1, and no other, says so. Anything but a greeting is refused.
pub proof fn greeting_is_taken_first(r: Receiver, frame: Seq<u8>)
    requires
        r.stage is Hello,
    ensures
        frame.len() == 0 ==> r.step(frame) == Err::<(StepView, Receiver), TransferError>(
            TransferError::NotHello(0),
        ),
        frame.len() > 0 && frame[0] != 1 ==> r.step(frame) == Err::<
            (StepView, Receiver),
            TransferError,
        >(TransferError::NotHello(frame[0])),
        frame.len() > 0 && frame[0] == 1 ==> (r.step(frame) matches Ok((step, after)) && step
            is SendAck && after.stage is Idle && after.paths == r.paths && (after.compress
            <==> frame.len() > 1 && frame[1] == 1)),
{
}

/// Between files a receiver takes an announcement or the end, and nothing else.
/// An announced file is opened under its name, if that stays inside; one of no
/// bytes is complete at once. The end is final.
pub proof fn announcements_open_files(r: Receiver, frame: Seq<u8>, size: u64, name: Seq<char>)
    ensures
        r.stage is Idle && frame.len() == 0 ==> r.step(frame) == Err::<
            (StepView, Receiver),
            TransferError,
        >(TransferError::EmptyFrame),
        r.stage is Idle && frame.len() > 0 && frame[0] == 4 ==> (r.step(frame) matches Ok(
            (step, after),
        ) && step is Finished && after.stage is Finished),
        r.stage is Idle && frame.len() > 0 && frame[0] != 2 && frame[0] != 4 ==> r.step(frame)
            == Err::<(StepView, Receiver), TransferError>(TransferError::UnexpectedType(frame[0])),
        r.stage is Idle && frame.len() > 0 && frame[0] == 2 && parsed_info(frame) == Ok::<
            (u64, Seq<char>),
            TransferError,
        >((size, name)) && r.paths.stays_inside(name) ==> (r.step(frame) matches Ok((step, after))
            && step == (StepView::OpenFile { name, size }) && after.compress == r.compress
            && after.paths == r.paths && (size == 0 ==> after.stage is Idle) && (size > 0
            ==> after.stage == (Stage::File { size, received: 0 }))),
        r.stage is Finished ==> r.step(frame) == Err::<(StepView, Receiver), TransferError>(
            TransferError::AfterEnd,
        ),
{
}

/// Every data frame of a file is written out, whatever it holds, and counted;
/// the file is complete with the frame that brings it to its announced size, and
/// not before.
pub proof fn file_is_complete_at_its_size(
    r: Receiver,
    frame: Seq<u8>,
    size: u64,
    received: u64,
    data: Seq<u8>,
)
    requires
        r.stage == (Stage::File { size, received }),
        carried(frame, r.compress) == Ok::<Seq<u8>, TransferError>(data),
        received + data.len() <= u64::MAX,
    ensures
        r.step(frame) matches Ok((step, after)) && {
            &&& step == (StepView::Write { data, complete: received + data.len() >= size })
            &&& received + data.len() >= size ==> after.stage is Idle
            &&& received + data.len() < size ==> after.stage == (Stage::File {
                size,
                received: (received + data.len()) as u64,
            })
            &&& after.compress == r.compress
            &&& after.paths == r.paths
        },
{
}

/// Inside a file only data counts, and uncompressed data is taken as it is.
pub proof fn only_data_fills_files(r: Receiver, frame: Seq<u8>, raw: Seq<u8>)
    ensures
        r.stage is File && (frame.len() == 0 || frame[0] != 3) ==> r.step(frame) == Err::<
            (StepView, Receiver),
            TransferError,
        >(TransferError::NotData),
        carried(seq![3u8] + raw, false) == Ok::<Seq<u8>, TransferError>(raw),
        data_frame_of(raw, false) == Some(seq![3u8] + raw),
{
    assert((seq![3u8] + raw).skip(1) =~= raw);
}

/// A sender greets, waits for the answer, then announces files, sends their data
/// and ends; each of these is refused at any other time, and changes nothing else.
pub proof fn sender_keeps_its_order(s: Sender, size: u64, name: Seq<char>, raw: Seq<u8>, frame: Seq<u8>)
    ensures
        s.stage is Start ==> s.step(SendEvent::Begin) == Ok::<
            (Option<Seq<u8>>, Sender),
            TransferError,
        >((Some(hello(s.compress)), Sender { stage: SendStage::Greeted, compress: s.compress })),
        !(s.stage is Start) ==> s.step(SendEvent::Begin) is Err,
        s.stage is Greeted && frame.len() > 0 && frame[0] == 5 ==> s.step(SendEvent::Answer(frame))
            == Ok::<(Option<Seq<u8>>, Sender), TransferError>(
            (None, Sender { stage: SendStage::Ready, compress: s.compress }),
        ),
        s.stage is Greeted && (frame.len() == 0 || frame[0] != 5) ==> s.step(
            SendEvent::Answer(frame),
        ) == Err::<(Option<Seq<u8>>, Sender), TransferError>(TransferError::NotAck),
        !(s.stage is Greeted) ==> s.step(SendEvent::Answer(frame)) is Err,
        s.stage is Ready || s.stage is File ==> s.step(SendEvent::File { size, name }) == Ok::<
            (Option<Seq<u8>>, Sender),
            TransferError,
        >((Some(file_info(size, name)), Sender { stage: SendStage::File, compress: s.compress })),
        !(s.stage is Ready || s.stage is File) ==> s.step(SendEvent::File { size, name }) is Err,
        s.stage is File && !s.compress ==> s.step(SendEvent::Chunk(raw)) == Ok::<
            (Option<Seq<u8>>, Sender),
            TransferError,
        >((Some(seq![3u8] + raw), s)),
        !(s.stage is File) ==> s.step(SendEvent::Chunk(raw)) is Err,
        s.stage is Ready || s.stage is File ==> s.step(SendEvent::End) == Ok::<
            (Option<Seq<u8>>, Sender),
            TransferError,
        >((Some(seq![4u8]), Sender { stage: SendStage::Finished, compress: s.compress })),
        !(s.stage is Ready || s.stage is File) ==> s.step(SendEvent::End) is Err,
        parsed_hello(hello(s.compress)) == Ok::<bool, TransferError>(s.compress),
{
}

/// A frame is taken out of a buffer once all of it is there: its length in the
/// first four bytes, most significant first, and that many bytes behind them.
pub proof fn frames_are_taken_whole(buf: Seq<u8>)
    ensures
        buf.len() < 4 ==> extracted(buf) is None,
        buf.len() >= 4 ==> {
            let len = be_value(buf.subrange(0, 4)) as int;
            &&& buf.len() < 4 + len ==> extracted(buf) is None
            &&& buf.len() >= 4 + len ==> (extracted(buf) matches Some((payload, rest))
                && payload.len() == len && payload == buf.subrange(4, 4 + len) && payload + rest
                == buf.skip(4))
        },
{
    if buf.len() >= 4 && buf.len() >= 4 + be_value(buf.subrange(0, 4)) {
        let (payload, rest) = extracted(buf)->0;
        assert(payload + rest =~= buf.skip(4));
    }
}

// ── Names ────────────────────────────────────────────────────────────────────
/// A path leads one further down with each part, one up again with `..`, and
/// nowhere with `.` or an empty part.
pub proof fn each_part_leads(parts: Seq<Seq<char>>, part: Seq<char>)
    ensures
        level(Seq::empty()) == 0,
        part.len() == 0 || part == seq!['.'] ==> level(parts.push(part)) == level(parts),
        part == seq!['.', '.'] ==> level(parts.push(part)) == level(parts) - 1,
        part.len() > 0 && part != seq!['.'] && part != seq!['.', '.'] ==> level(parts.push(part))
            == level(parts) + 1,
{
    assert(parts.push(part).drop_last() =~= parts);
}

/// A path has at least one part, and no part holds a separator.
pub proof fn parts_hold_no_separator(style: PathStyle, name: Seq<char>)
    ensures
        style.parts(name).len() > 0,
        forall|i: int, j: int|
            0 <= i < style.parts(name).len() && 0 <= j < (#[trigger] style.parts(name)[i]).len()
                ==> !style.is_separator(#[trigger] style.parts(name)[i][j]),
    decreases name.len(),
{
    if name.len() > 0 {
        parts_hold_no_separator(style, name.drop_last());
        let before = style.parts(name.drop_last());
        let after = style.parts(name);
        assert forall|i: int, j: int|
            0 <= i < after.len() && 0 <= j < (#[trigger] after[i]).len() implies !style.is_separator(
            #[trigger] after[i][j],
        ) by {
            if style.is_separator(name.last()) {
                if i < before.len() {
                    assert(after[i] == before[i]);
                    assert(!style.is_separator(before[i][j]));
                }
            } else if i < before.len() - 1 {
                assert(after[i] == before[i]);
                assert(!style.is_separator(before[i][j]));
            } else {
                let last = before[before.len() - 1];
                assert(after[i] == last.push(name.last()));
                if j < last.len() {
                    assert(!style.is_separator(before[before.len() - 1][j]));
                }
            }
        }
    }
}

/// A path without a separator is one part; a separator divides the parts before
/// it from those behind it.
pub proof fn separators_divide(style: PathStyle, front: Seq<char>, c: char, back: Seq<char>)
    requires
        style.is_separator(c),
    ensures
        style.parts(front + seq![c] + back) == style.parts(front) + style.parts(back),
        (forall|i: int| 0 <= i < front.len() ==> !style.is_separator(#[trigger] front[i]))
            ==> style.parts(front) == seq![front],
    decreases front.len() + back.len(),
{
    let all = front + seq![c] + back;
    if back.len() == 0 {
        assert(all.drop_last() =~= front);
        assert(style.parts(all) =~= style.parts(front) + style.parts(back));
    } else {
        separators_divide(style, front, c, back.drop_last());
        assert(all.drop_last() =~= front + seq![c] + back.drop_last());
        parts_hold_no_separator(style, back.drop_last());
        let a = style.parts(front);
        let b = style.parts(back.drop_last());
        assert((a + b).drop_last() =~= a + b.drop_last());
        assert((a + b).last() == b.last());
        assert(style.parts(all) =~= a + style.parts(back));
    }
    one_part(style, front);
}

proof fn one_part(style: PathStyle, name: Seq<char>)
    ensures
        (forall|i: int| 0 <= i < name.len() ==> !style.is_separator(#[trigger] name[i]))
            ==> style.parts(name) == seq![name],
    decreases name.len(),
{
    if name.len() == 0 {
        assert(name =~= Seq::empty());
    } else if forall|i: int| 0 <= i < name.len() ==> !style.is_separator(#[trigger] name[i]) {
        let front = name.drop_last();
        assert forall|i: int| 0 <= i < front.len() implies !style.is_separator(
            #[trigger] front[i],
        ) by {
            assert(front[i] == name[i]);
        }
        one_part(style, front);
        assert(!style.is_separator(name[name.len() - 1]));
        assert(front.push(name.last()) =~= name);
        assert(style.parts(name) =~= seq![name]);
    }
}

/// Slashes separate parts everywhere, backslashes on Windows alone; a path that
/// starts with a separator is rooted, and on Windows one that starts with a
/// letter and a colon. A rooted path stays nowhere inside.
pub proof fn rooted_paths_leave(style: PathStyle, name: Seq<char>)
    ensures
        style.is_separator('/'),
        PathStyle::Windows.is_separator('\\'),
        !PathStyle::Unix.is_separator('\\'),
        name.len() > 0 && name[0] == '/' ==> !style.stays_inside(name),
        name.len() > 0 && name[0] == '\\' ==> !PathStyle::Windows.stays_inside(name),
        name.len() > 1 && name[1] == ':' && ('a' <= name[0] <= 'z' || 'A' <= name[0] <= 'Z')
            ==> !PathStyle::Windows.stays_inside(name),
{
}

// ── Remotes ──────────────────────────────────────────────────────────────────
proof fn place_is_first(text: Seq<char>, c: char, from: int)
    requires
        0 <= from <= text.len(),
    ensures
        from <= place_of(text, c, from) <= text.len(),
        forall|j: int| from <= j < place_of(text, c, from) ==> #[trigger] text[j] != c,
        place_of(text, c, from) < text.len() ==> text[place_of(text, c, from)] == c,
    decreases text.len() - from,
{
    if from < text.len() && text[from] != c {
        place_is_first(text, c, from + 1);
    }
}

/// A remote is what has a colon: the part before the first one names user and
/// host, divided at the first `@` if there is one, and what follows is the path.
/// Put together again, the parts are the text. One ASCII character before the
/// colon is a drive, and no remote.
pub proof fn remote_parts_make_up_the_text(text: Seq<char>)
    ensures
        !text.contains(':') ==> spec_parts(text) is None,
        text.len() > 1 && text[1] == ':' && text[0] != ':' && (text[0] as int) < 0x80
            ==> spec_parts(text) is None,
        spec_parts(text) is None ==> !text.contains(':') || (text.len() > 1 && text[1] == ':'),
        spec_parts(text) matches Some(parts) ==> {
            &&& !parts.host.contains(':')
            &&& parts.user matches Some(user) ==> !user.contains('@') && !user.contains(':')
                && user + seq!['@'] + parts.host + seq![':'] + parts.path == text
            &&& parts.user is None ==> !parts.host.contains('@') && parts.host + seq![':']
                + parts.path == text
        },
{
    let colon = place_of(text, ':', 0);
    place_is_first(text, ':', 0);
    let front = text.take(colon);
    let at = place_of(front, '@', 0);
    place_is_first(front, '@', 0);
    if text.contains(':') {
        let i = text.index_of(':');
        assert(text[i] == ':');
    }
    if text.len() > 1 && text[1] == ':' && text[0] != ':' {
        place_is(text, ':', 0, 1);
    }
    assert(colon < text.len() ==> text.contains(text[colon]));
    if let Some(parts) = spec_parts(text) {
        assert forall|c: char| #[trigger] front.contains(c) implies c != ':' by {
            let i = front.index_of(c);
            assert(text[i] == front[i]);
        }
        assert(front + seq![':'] + parts.path =~= text);
        if parts.host.contains(':') {
            let i = parts.host.index_of(':');
            assert(front.contains(parts.host[i])) by {
                if parts.user is Some {
                    assert(front[at + 1 + i] == parts.host[i]);
                }
            }
        }
        match parts.user {
            Some(user) => {
                assert(user + seq!['@'] + parts.host =~= front);
                assert(user + seq!['@'] + parts.host + seq![':'] + parts.path =~= text);
                if user.contains('@') {
                    let i = user.index_of('@');
                    assert(front[i] == '@');
                }
                if user.contains(':') {
                    let i = user.index_of(':');
                    assert(front[i] == ':');
                    assert(front.contains(front[i]));
                }
            },
            None => {
                if parts.host.contains('@') {
                    let i = parts.host.index_of('@');
                    assert(front[i] == '@');
                }
            },
        }
    }
}

/// What was asked for counts more than the configuration for the user, and less
/// for the host's name; the port is the configuration's.
pub proof fn configuration_fills_in(parts: SpecParts, config: ConfigView)
    ensures
        config.hostname is None ==> resolved(parts, config).host == parts.host,
        config.hostname matches Some(name) ==> resolved(parts, config).host == name,
        parts.user is Some ==> resolved(parts, config).user == parts.user,
        parts.user is None ==> resolved(parts, config).user == config.user,
        resolved(parts, config).ssh_port == config.port,
{
}

/// A line of the configuration sets what its keyword names to what follows the
/// keyword, and leaves the rest alone; lines with other keywords say nothing.
pub proof fn configuration_lines(config: ConfigView, value: Seq<char>, port: u16)
    ensures
        take_line(config, "hostname "@ + value) == (ConfigView {
            hostname: Some(value),
            ..config
        }),
        take_line(config, "user "@ + value) == (ConfigView { user: Some(value), ..config }),
        take_line(config, "port "@ + decimal(port as nat)) == (ConfigView {
            port: Some(port),
            ..config
        }),
{
    reveal_strlit("hostname ");
    reveal_strlit("user ");
    reveal_strlit("port ");
    let h = "hostname "@;
    let u = "user "@;
    let p = "port "@;
    let d = decimal(port as nat);
    decimal_round_trip(port as nat, 65535);
    assert((h + value).take(9) =~= h);
    assert((h + value).skip(9) =~= value);
    assert((u + value).take(5) =~= u);
    assert((u + value).skip(5) =~= value);
    assert((p + d).take(5) =~= p);
    assert((p + d).skip(5) =~= d);
    assert(!starts_with(u + value, h)) by {
        if starts_with(u + value, h) {
            assert((u + value).take(9)[0] == 'u');
        }
    }
    assert(!starts_with(p + d, h)) by {
        if starts_with(p + d, h) {
            assert((p + d).take(9)[0] == 'p');
        }
    }
    assert(!starts_with(p + d, u)) by {
        if starts_with(p + d, u) {
            assert((p + d).take(5)[0] == 'p');
        }
    }
}

/// The remote is addressed by its user, if one is known, and its host, and the
/// port is passed on if one is known, with `-p` to `ssh` and `-P` to `scp`.
pub proof fn remotes_are_addressed(r: RemoteView, program: Seq<char>)
    ensures
        r.user is None ==> r.target() == r.host,
        r.user matches Some(user) ==> r.target() == user + seq!['@'] + r.host,
        r.ssh_args().last() == r.target(),
        r.ssh_batch_args().last() == r.target(),
        r.ssh_batch_args().skip(2) == r.ssh_args(),
        r.scp_args(program).last() == r.target() + ":.local/bin/seam"@,
        r.ssh_port is None ==> r.ssh_args().len() == 5 && r.scp_args(program).len() == 6
            && r.scp_args(program)[4] == program,
        r.ssh_port matches Some(port) ==> r.ssh_args().len() == 7 && r.ssh_args()[4] == "-p"@
            && r.ssh_args()[5] == decimal(port as nat) && r.scp_args(program).len() == 8
            && r.scp_args(program)[4] == "-P"@ && r.scp_args(program)[5] == decimal(port as nat)
            && r.scp_args(program)[6] == program,
{
    assert(r.ssh_batch_args().skip(2) =~= r.ssh_args());
}

/// A listing is asked for where the text says: of a path on a remote, or, without
/// a colon, of a remote's home, with the user before the first `@` if there is one.
pub proof fn listing_goes_where_it_was_asked_for(remote: Seq<char>, port: Option<u16>)
    ensures
        ls_target(remote, port).0.ssh_port == port,
        spec_parts(remote) matches Some(parts) ==> ls_target(remote, port).0.host == parts.host
            && ls_target(remote, port).0.user == parts.user && ls_target(remote, port).1
            == parts.path,
        spec_parts(remote) is None ==> ls_target(remote, port).1.len() == 0 && match ls_target(
            remote,
            port,
        ).0.user {
            Some(user) => user + seq!['@'] + ls_target(remote, port).0.host == remote
                && !user.contains('@'),
            None => ls_target(remote, port).0.host == remote && !remote.contains('@'),
        },
{
    let at = place_of(remote, '@', 0);
    place_is_first(remote, '@', 0);
    if spec_parts(remote) is None {
        let (view, _) = ls_target(remote, port);
        match view.user {
            Some(user) => {
                assert(user + seq!['@'] + view.host =~= remote);
                if user.contains('@') {
                    let i = user.index_of('@');
                    assert(remote[i] == '@');
                }
            },
            None => {
                if remote.contains('@') {
                    let i = remote.index_of('@');
                    assert(remote[i] == '@');
                }
            },
        }
    }
}

/// Each of the ten characters of a mode depends on one bit alone, and is a dash
/// without it: the type's, then those of owner, group and others.
pub proof fn mode_shows_each_bit(mode: u32)
    ensures
        mode_text(mode).len() == 10,
        mode_text(mode)[0] == (if mode & 0x4000 != 0 {
            'd'
        } else {
            '-'
        }),
        forall|i: int|
            1 <= i < 10 ==> #[trigger] mode_text(mode)[i] == '-' || mode_text(mode)[i] == (if i % 3
                == 1 {
                'r'
            } else if i % 3 == 2 {
                'w'
            } else {
                'x'
            }),
        mode & 0x100 != 0 <==> mode_text(mode)[1] == 'r',
        mode & 0x80 != 0 <==> mode_text(mode)[2] == 'w',
        mode & 0x40 != 0 <==> mode_text(mode)[3] == 'x',
        mode & 0x20 != 0 <==> mode_text(mode)[4] == 'r',
        mode & 0x10 != 0 <==> mode_text(mode)[5] == 'w',
        mode & 0x8 != 0 <==> mode_text(mode)[6] == 'x',
        mode & 0x4 != 0 <==> mode_text(mode)[7] == 'r',
        mode & 0x2 != 0 <==> mode_text(mode)[8] == 'w',
        mode & 0x1 != 0 <==> mode_text(mode)[9] == 'x',
{
}

/// An entry is read if and only if all of it is there.
pub proof fn entries_are_read_whole(frame: Seq<u8>)
    ensures
        frame.len() < 15 ==> entry_fields(frame) is None,
        frame.len() >= 15 ==> (entry_fields(frame) is Some <==> frame.len() >= 15 + be_value(
            frame.subrange(1, 3),
        )),
        entry_fields(frame) matches Some(fields) ==> fields.0.len() == be_value(
            frame.subrange(1, 3),
        ),
{
}

/// A copy needs a source that is there. A line that was handed over is used as it
/// is; without one the source must be local and the destination remote, and a
/// receiver is started on the destination's host.
pub proof fn copies_take_their_route(args: CopyArgs, exists_here: bool, r: Result<Route, CopyError>)
    requires
        is_route(args, exists_here, r),
    ensures
        !exists_here <==> r == Err::<Route, CopyError>(CopyError::SourceNotFound),
        r matches Ok(Route::Direct(line)) ==> args.direct matches Some(given) && line@ == given@,
        exists_here && args.direct is Some ==> r matches Ok(Route::Direct(_)),
        exists_here && args.direct is None && spec_parts(args.src@) is Some ==> r == Err::<
            Route,
            CopyError,
        >(CopyError::RemoteSource),
        exists_here && args.direct is None && spec_parts(args.src@) is None ==> match spec_parts(
            args.dest@,
        ) {
            Some(parts) => r matches Ok(Route::Bootstrap(host)) && host@ == parts.host,
            None => r == Err::<Route, CopyError>(CopyError::LocalDestination),
        },
{
}

/// Every frame of a listing is an entry, the end, or refused; an entry that
/// cannot be read is passed over, and one that can is shown with its size and mode.
pub proof fn listings_show_their_entries(frame: Seq<u8>, r: Result<ListStep, TransferError>)
    requires
        is_list_step(frame, r),
    ensures
        frame.len() == 0 ==> r is Err,
        frame.len() > 0 && frame[0] == 4 ==> r matches Ok(ListStep::End),
        frame.len() > 0 && frame[0] == 8 ==> match entry_fields(frame) {
            Some(fields) => r matches Ok(ListStep::Show(entry)) && entry.size == fields.1
                && entry.mode == fields.2,
            None => r matches Ok(ListStep::Skip),
        },
        frame.len() > 0 && frame[0] != 4 && frame[0] != 8 ==> r == Err::<ListStep, TransferError>(
            TransferError::UnexpectedType(frame[0]),
        ),
{
}

// ── The connection line ──────────────────────────────────────────────────────
/// A word of a connection line sets the field that it names, and no other; a
/// key is only taken with its full length, in hexadecimal.
pub proof fn words_set_their_own_field(fields: LineFields, word: Seq<char>)
    ensures
        take_word(fields, word) matches Ok(after) ==> {
            &&& after.port == fields.port || starts_with(word, "PORT="@)
            &&& after.x25519 == fields.x25519 || starts_with(word, "X25519="@)
            &&& after.kem == fields.kem || starts_with(word, "KEM="@)
            &&& after.x25519 != fields.x25519 ==> after.x25519 is Some && after.x25519->0.len()
                == 32
            &&& after.kem != fields.kem ==> after.kem is Some && after.kem->0.len() == 1184
        },
        !starts_with(word, "PORT="@) && !starts_with(word, "X25519="@) && !starts_with(
            word,
            "KEM="@,
        ) ==> take_word(fields, word) == Ok::<LineFields, LineError>(fields),
{
}

// ── Updates ──────────────────────────────────────────────────────────────────
/// The platform's name starts with the architecture, and ends as its system
/// has it; an archive is for a platform if its name holds the platform's name and
/// ends with `.tar.gz`.
pub proof fn platforms_are_named(arch: Seq<char>, os: Seq<char>, name: Seq<char>)
    ensures
        starts_with(target_name(arch, os), arch),
        os == "linux"@ ==> target_name(arch, os).skip(arch.len() as int)
            == "-unknown-linux-musl"@,
        os == "macos"@ ==> target_name(arch, os).skip(arch.len() as int) == "-apple-darwin"@,
        os != "linux"@ && os != "macos"@ ==> target_name(arch, os).skip(arch.len() as int) == "-"@
            + os,
        fits(name, arch) <==> contains_text(name, arch) && ends_with(name, ".tar.gz"@),
{
    reveal_strlit("linux");
    reveal_strlit("macos");
    assert("linux"@[0] == 'l');
    assert("macos"@[0] == 'm');
    assert("linux"@ != "macos"@);
    let t = target_name(arch, os);
    assert(t.take(arch.len() as int) =~= arch);
    if os == "linux"@ {
        assert(t.skip(arch.len() as int) =~= "-unknown-linux-musl"@);
    } else if os == "macos"@ {
        assert(t.skip(arch.len() as int) =~= "-apple-darwin"@);
    } else {
        assert(t.skip(arch.len() as int) =~= "-"@ + os);
    }
}

/// A version is a tag without the letters `v` in front of it, however many.
pub proof fn versions_do_not_start_with_v(tag: Seq<char>)
    ensures
        version_of(tag).len() <= tag.len(),
        version_of(tag) == tag.skip(tag.len() - version_of(tag).len()),
        version_of(tag).len() > 0 ==> version_of(tag)[0] != 'v',
        forall|i: int| 0 <= i < tag.len() - version_of(tag).len() ==> #[trigger] tag[i] == 'v',
    decreases tag.len(),
{
    if tag.len() > 0 && tag[0] == 'v' {
        let rest = tag.skip(1);
        versions_do_not_start_with_v(rest);
        assert forall|i: int| 0 <= i < tag.len() - version_of(tag).len() implies #[trigger] tag[i]
            == 'v' by {
            if i > 0 {
                assert(rest[i - 1] == 'v');
            }
        }
        assert(version_of(tag) =~= tag.skip(tag.len() - version_of(tag).len()));
    } else {
        assert(tag.skip(0) =~= tag);
    }
}

} // verus!
