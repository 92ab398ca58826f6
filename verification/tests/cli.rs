use seam_protocol::cli::connect::{format_seam_line, parse_seam_line, shell_quote, LineError};
use seam_protocol::cli::copy::{
    address_text, plan_copy, ticket_file, CopyArgs, CopyError, Route, LOCAL_HOST,
};
use seam_protocol::cli::doctor::{
    all_critical_passed, is_private, permission_bits, wants_larger_buffers,
};
use seam_protocol::cli::ls::{
    build_entry, is_list_request, list_step, ls_remote, mode_to_str, ListStep,
};
use seam_protocol::cli::names::{name_stays_inside, PathStyle};
use seam_protocol::cli::proto::{
    build_frame, extract_frame, frame_step, is_backpressure, stream_step, FrameError, FrameStep,
    StreamStep, ACK, DATA, DONE, ENTRY, FILE_INFO, HELLO, LS,
};
use seam_protocol::cli::ssh::{
    is_ready_line, ls_subcommand, no_config, parse_remote, parse_ssh_config, recv_subcommand,
    remote_command, split_remote, RemoteInfo,
};
use seam_protocol::cli::transfer::{
    build_file_info, check_ack, data_frame, hello_frame, pace_us, short_frame, total_bytes, Receiver,
    RecvStep, SendStage, Sender, Stage, TransferError, CHUNK,
};
use seam_protocol::cli::update::{
    choose_asset, current_target, plan_update, release_version, Asset, Release, UpdateArgs,
    UpdatePlan,
};
use seam_protocol::error::SeamError;
use seam_protocol::handshake::{pk_to_bytes, IdentityKeypair};
use seam_protocol::session::SessionEvent;

// ── Connection lines ─────────────────────────────────────────────────────────

#[test]
fn seam_line_is_read_back() {
    let id = IdentityKeypair::generate();
    let line = format_seam_line(4433, id.x25519_public.as_bytes(), &id.kem_pk);
    let expected = format!(
        "SEAM PORT=4433 X25519={} KEM={}",
        hex::encode(id.x25519_public.as_bytes()),
        hex::encode(pk_to_bytes(&id.kem_pk))
    );
    assert_eq!(line, expected);
    assert!(is_ready_line(&line));
    let (port, x25519, kem) = parse_seam_line(&line).unwrap();
    assert_eq!(port, 4433);
    assert_eq!(&x25519, id.x25519_public.as_bytes());
    assert_eq!(pk_to_bytes(&kem), pk_to_bytes(&id.kem_pk));
}

#[test]
fn seam_line_errors_are_named() {
    let key = "00".repeat(32);
    let err = |line: &str| parse_seam_line(line).err().unwrap();
    assert_eq!(err("SEAM PORT=70000"), LineError::BadPort);
    assert_eq!(err("SEAM PORT=x"), LineError::BadPort);
    assert_eq!(err("SEAM PORT=1 X25519=zz"), LineError::BadX25519Hex);
    assert_eq!(err("SEAM PORT=1 X25519=00ff"), LineError::X25519Length);
    assert_eq!(err("SEAM KEM=0"), LineError::BadKemHex);
    assert_eq!(err("SEAM KEM=00"), LineError::InvalidKem);
    assert_eq!(err("SEAM"), LineError::MissingPort);
    assert_eq!(err("SEAM PORT=1"), LineError::MissingX25519);
    assert_eq!(
        err(&format!("SEAM PORT=1 X25519={key}")),
        LineError::MissingKem
    );
    // The first word is skipped, whatever it is.
    assert_eq!(err("PORT=1"), LineError::MissingPort);
    assert_eq!(LineError::BadPort.message(), "bad PORT");
    assert_eq!(
        LineError::X25519Length.message(),
        "X25519 must be 32 bytes"
    );
}

#[test]
fn quoted_words_survive_the_shell() {
    assert_eq!(shell_quote("plain"), "'plain'");
    assert_eq!(shell_quote(""), "''");
    assert_eq!(shell_quote("it's $HOME"), "'it'\\''s $HOME'");
}

// ── Remotes ──────────────────────────────────────────────────────────────────

#[test]
fn remote_specs_are_split() {
    assert_eq!(
        split_remote("me@host:/a:b"),
        Some((Some("me".into()), "host".into(), "/a:b".into()))
    );
    assert_eq!(
        split_remote("host:"),
        Some((None, "host".into(), "".into()))
    );
    assert_eq!(split_remote("/local/path"), None);
    assert_eq!(split_remote("C:\\data"), None);
    assert_eq!(split_remote("é:/x"), Some((None, "é".into(), "/x".into())));
}

#[test]
fn ssh_config_fills_in_what_is_missing() {
    let text = "host box\nuser cfg\nhostname 192.0.2.7\nport 2222\nuser later\n";
    let config = parse_ssh_config(text);
    assert_eq!(config.user.as_deref(), Some("later"));
    assert_eq!(config.port, Some(2222));
    assert_eq!(config.hostname.as_deref(), Some("192.0.2.7"));

    let (remote, path) = parse_remote("box:/srv", config).unwrap();
    assert_eq!(remote.target(), "later@192.0.2.7");
    assert_eq!(remote.ssh_port, Some(2222));
    assert_eq!(path, "/srv");

    let (remote, _) = parse_remote("me@box:/srv", parse_ssh_config(text)).unwrap();
    assert_eq!(remote.target(), "me@192.0.2.7");
    let (remote, _) = parse_remote("box:/srv", no_config()).unwrap();
    assert_eq!(remote.target(), "box");
    assert!(parse_remote("/local", no_config()).is_none());
    assert_eq!(parse_ssh_config("port many\n").port, None);
    assert_eq!(parse_ssh_config("port 1\nport x").port, None);
}

#[test]
fn ssh_arguments_are_complete() {
    let remote = RemoteInfo {
        host: "h".into(),
        user: Some("u".into()),
        ssh_port: Some(22),
    };
    assert_eq!(
        remote.ssh_base(),
        [
            "-o",
            "StrictHostKeyChecking=accept-new",
            "-o",
            "ConnectTimeout=10",
            "-p",
            "22",
            "u@h"
        ]
    );
    assert_eq!(remote.ssh_base_batch()[..2], ["-o", "BatchMode=yes"]);
    assert_eq!(remote.ssh_base_batch()[2..], remote.ssh_base()[..]);
    assert_eq!(
        remote.scp_base("/bin/seam")[4..],
        ["-P", "22", "/bin/seam", "u@h:.local/bin/seam"]
    );
    let plain = RemoteInfo {
        host: "h".into(),
        user: None,
        ssh_port: None,
    };
    assert_eq!(plain.ssh_base().len(), 5);
    assert_eq!(plain.seam_path(" /usr/bin/seam\n").unwrap(), "/usr/bin/seam");
    assert_eq!(plain.seam_path(" \n"), None);
}

#[test]
fn remote_commands_are_put_together() {
    assert_eq!(remote_command("seam", "recv x"), "seam recv x");
    assert_eq!(recv_subcommand("/srv"), "recv /srv --port 0 --once");
    assert_eq!(ls_subcommand("a b"), "_ls-recv 'a b' --port 0");
    assert!(is_ready_line("SEAM PORT=1"));
    assert!(!is_ready_line("SEAMLESS"));
    assert!(!is_ready_line(" SEAM "));
    assert_eq!(address_text("127.0.0.1", 80), "127.0.0.1:80");
    assert_eq!(ticket_file("example.org"), "example.org.ticket");
}

// ── Copying ──────────────────────────────────────────────────────────────────

fn copy_args(src: &str, dest: &str, direct: Option<&str>) -> CopyArgs {
    CopyArgs {
        src: src.into(),
        dest: dest.into(),
        no_compress: false,
        direct: direct.map(|s| s.into()),
    }
}

#[test]
fn copies_find_their_receiver() {
    let args = copy_args("a", "me@host:/x", None);
    assert!(matches!(plan_copy(&args, true), Ok(Route::Bootstrap(h)) if h == "host"));
    assert_eq!(plan_copy(&args, false).err(), Some(CopyError::SourceNotFound));
    let args = copy_args("host:/a", "host:/b", None);
    assert_eq!(plan_copy(&args, true).err(), Some(CopyError::RemoteSource));
    let args = copy_args("a", "/b", None);
    assert_eq!(plan_copy(&args, true).err(), Some(CopyError::LocalDestination));
    let args = copy_args("host:/a", "/b", Some("SEAM x"));
    assert!(matches!(plan_copy(&args, true), Ok(Route::Direct(l)) if l == "SEAM x"));
    assert_eq!(LOCAL_HOST, "127.0.0.1");
    assert_eq!(CopyError::SourceNotFound.message("f"), "source not found: f");
    assert_eq!(
        CopyError::LocalDestination.message("f"),
        "DEST must be remote (user@host:/path) or use --direct"
    );
}

#[test]
fn frames_are_extracted_from_a_buffer() {
    let mut buf = build_frame(b"one");
    assert_eq!(buf, [0, 0, 0, 3, b'o', b'n', b'e']);
    buf.extend_from_slice(&build_frame(b""));
    buf.extend_from_slice(&[0, 0, 0, 2, 9]);
    assert_eq!(extract_frame(&mut buf).unwrap(), b"one");
    assert_eq!(extract_frame(&mut buf).unwrap(), b"");
    assert!(extract_frame(&mut buf).is_none());
    buf.push(8);
    assert_eq!(extract_frame(&mut buf).unwrap(), [9, 8]);
    assert!(buf.is_empty());
    assert!(extract_frame(&mut vec![0, 0]).is_none());
}

#[test]
fn events_drive_the_reader_of_frames() {
    assert_eq!(
        frame_step(Some(&SessionEvent::DataAvailable(3)), 3),
        FrameStep::Read
    );
    assert_eq!(
        frame_step(Some(&SessionEvent::DataAvailable(5)), 3),
        FrameStep::Wait
    );
    assert_eq!(
        frame_step(Some(&SessionEvent::StreamFinished(3)), 3),
        FrameStep::Fail(FrameError::StreamClosed(3))
    );
    assert_eq!(
        frame_step(None, 3),
        FrameStep::Fail(FrameError::ConnectionClosed)
    );
    assert_eq!(
        FrameError::StreamClosed(3).message(),
        "stream 3 closed before frame complete"
    );
    assert_eq!(
        stream_step(Some(&SessionEvent::NewStream(2))),
        StreamStep::Opened(2)
    );
    assert_eq!(stream_step(Some(&SessionEvent::DatagramReceived)), StreamStep::Wait);
    assert_eq!(stream_step(None), StreamStep::Closed);
    assert!(is_backpressure(&SeamError::FlowControlBlocked {
        available: 0,
        requested: 1
    }));
    assert!(!is_backpressure(&SeamError::AuthFailed));
}

fn receive(compress: bool, chunks: &[&[u8]]) -> Vec<u8> {
    let size: usize = chunks.iter().map(|c| c.len()).sum();
    let mut r = Receiver::new(PathStyle::Unix);
    assert!(matches!(
        r.on_frame(&hello_frame(compress)).unwrap(),
        RecvStep::SendAck
    ));
    match r.on_frame(&build_file_info(size as u64, "dir/é.txt")).unwrap() {
        RecvStep::OpenFile { name, size: s } => {
            assert_eq!(name, "dir/é.txt");
            assert_eq!(s, size as u64);
        }
        _ => panic!("expected a file"),
    }
    let mut file = Vec::new();
    for (i, c) in chunks.iter().enumerate() {
        match r.on_frame(&data_frame(c, compress).unwrap()).unwrap() {
            RecvStep::Write { data, complete } => {
                file.extend(data);
                assert_eq!(complete, i + 1 == chunks.len());
            }
            _ => panic!("expected data"),
        }
    }
    assert!(matches!(
        r.on_frame(&short_frame(DONE)).unwrap(),
        RecvStep::Finished
    ));
    file
}

#[test]
fn files_arrive() {
    let big = vec![7u8; CHUNK];
    let file = receive(false, &[&big, b"tail"]);
    assert_eq!(file.len(), CHUNK + 4);
    assert_eq!(&file[CHUNK..], b"tail");
    assert_eq!(receive(true, &[&big, b"tail"]), file);
}

#[test]
fn transfers_of_several_files_arrive() {
    let mut frames = vec![hello_frame(true)];
    frames.push(build_file_info(3, "a"));
    frames.push(data_frame(b"xy", true).unwrap());
    frames.push(data_frame(b"z", true).unwrap());
    frames.push(build_file_info(0, "empty"));
    frames.push(build_file_info(1, "dir/b"));
    frames.push(data_frame(b"!", true).unwrap());
    frames.push(short_frame(DONE));
    let mut r = Receiver::new(PathStyle::Unix);
    let mut files: Vec<(String, Vec<u8>)> = Vec::new();
    for f in &frames {
        match r.on_frame(f).unwrap() {
            RecvStep::OpenFile { name, .. } => files.push((name, Vec::new())),
            RecvStep::Write { data, .. } => files.last_mut().unwrap().1.extend(data),
            RecvStep::SendAck | RecvStep::Finished => {}
        }
    }
    assert_eq!(r.stage, Stage::Finished);
    assert_eq!(
        files,
        [
            ("a".to_string(), b"xyz".to_vec()),
            ("empty".to_string(), Vec::new()),
            ("dir/b".to_string(), b"!".to_vec()),
        ]
    );
}

#[test]
fn what_a_sender_sends_arrives() {
    for compress in [false, true] {
        let mut s = Sender::new(compress);
        let mut frames = vec![s.begin().unwrap()];
        s.on_answer(&[ACK]).unwrap();
        frames.push(s.announce(3, "a").unwrap());
        frames.push(s.chunk(b"xy").unwrap());
        frames.push(s.chunk(b"z").unwrap());
        frames.push(s.announce(0, "empty").unwrap());
        frames.push(s.end().unwrap());
        assert_eq!(s.stage, SendStage::Finished);
        assert_eq!(frames[0], hello_frame(compress));
        assert_eq!(frames[1], build_file_info(3, "a"));
        assert_eq!(frames[2], data_frame(b"xy", compress).unwrap());
        assert_eq!(frames[5], [DONE]);
        let mut r = Receiver::new(PathStyle::Unix);
        let mut files: Vec<(String, Vec<u8>)> = Vec::new();
        for f in &frames {
            match r.on_frame(f).unwrap() {
                RecvStep::OpenFile { name, .. } => files.push((name, Vec::new())),
                RecvStep::Write { data, .. } => files.last_mut().unwrap().1.extend(data),
                RecvStep::SendAck | RecvStep::Finished => {}
            }
        }
        assert_eq!(
            files,
            [
                ("a".to_string(), b"xyz".to_vec()),
                ("empty".to_string(), Vec::new()),
            ]
        );
    }
}

#[test]
fn senders_keep_to_the_order() {
    let mut s = Sender::new(false);
    assert_eq!(s.announce(1, "a").err(), Some(TransferError::OutOfOrder));
    assert_eq!(s.on_answer(&[ACK]).err(), Some(TransferError::OutOfOrder));
    s.begin().unwrap();
    assert_eq!(s.begin().err(), Some(TransferError::OutOfOrder));
    assert_eq!(s.on_answer(&[DONE]).err(), Some(TransferError::NotAck));
    assert_eq!(s.on_answer(&[]).err(), Some(TransferError::NotAck));
    s.on_answer(&[ACK, 1]).unwrap();
    assert_eq!(s.chunk(b"x").err(), Some(TransferError::OutOfOrder));
    s.announce(1, "a").unwrap();
    s.chunk(b"x").unwrap();
    s.end().unwrap();
    assert_eq!(s.end().err(), Some(TransferError::OutOfOrder));
    assert_eq!(s.chunk(b"x").err(), Some(TransferError::OutOfOrder));
}

#[test]
fn names_that_leave_the_destination_are_refused() {
    let leaving = [
        "../x", "/tmp/x", "a/../../x", "..", "./../x", "a/b/../../../c", "a//../../x", "/",
        "../a/b", "a/./../..",
    ];
    for name in leaving {
        assert!(!name_stays_inside(PathStyle::Unix, name), "{name}");
        assert!(!name_stays_inside(PathStyle::Windows, name), "{name}");
        let mut r = Receiver::new(PathStyle::Unix);
        r.on_frame(&hello_frame(false)).unwrap();
        assert_eq!(
            r.on_frame(&build_file_info(1, name)).err(),
            Some(TransferError::NameLeaves)
        );
        assert_eq!(r.stage, Stage::Idle);
    }
    let inside = [
        "x", "dir/x", "..x", "x..", "a/...", "a..b/c", ".hidden", "./x", "", "10:30", "a/../b",
        "a/b/../../c", "a/..", ".../x", "a/./b//c",
    ];
    for name in inside {
        assert!(name_stays_inside(PathStyle::Unix, name), "{name}");
        assert!(name_stays_inside(PathStyle::Windows, name), "{name}");
    }
    // Backslashes and drives mean something on one system only.
    for name in ["a:b", "C:x", "\\x", "..\\x", "a\\..\\..\\x"] {
        assert!(name_stays_inside(PathStyle::Unix, name), "{name}");
        assert!(!name_stays_inside(PathStyle::Windows, name), "{name}");
    }
    assert!(name_stays_inside(PathStyle::Windows, "a\\..\\b"));
    assert_eq!(
        TransferError::NameLeaves.message(),
        "file name leaves the destination"
    );
}

#[test]
fn nothing_follows_the_end_of_a_transfer() {
    let mut r = Receiver::new(PathStyle::Unix);
    r.on_frame(&hello_frame(false)).unwrap();
    r.on_frame(&[DONE]).unwrap();
    assert_eq!(r.stage, Stage::Finished);
    assert_eq!(
        r.on_frame(&build_file_info(0, "late")).err(),
        Some(TransferError::AfterEnd)
    );
    assert_eq!(r.on_frame(&[DONE]).err(), Some(TransferError::AfterEnd));
}

#[test]
fn compressed_frames_hold_compressed_data() {
    let big = vec![7u8; CHUNK];
    let frame = data_frame(&big, true).unwrap();
    assert_eq!(frame[0], DATA);
    assert!(frame.len() < 200);
    assert_eq!(frame[1..], zstd::encode_all(&big[..], 3).unwrap()[..]);
    assert_eq!(zstd::decode_all(&frame[1..]).unwrap(), big);
    assert_eq!(data_frame(b"ab", false).unwrap(), [DATA, b'a', b'b']);
}

#[test]
fn file_announcements_have_the_documented_format() {
    assert_eq!(
        build_file_info(0x0102, "ab"),
        [FILE_INFO, 0, 0, 0, 0, 0, 0, 1, 2, 0, 2, b'a', b'b', 0, 0, 0, 0]
    );
}

#[test]
fn broken_transfers_are_refused() {
    let mut r = Receiver::new(PathStyle::Unix);
    assert_eq!(r.on_frame(&[]).err(), Some(TransferError::NotHello(0)));
    assert_eq!(r.on_frame(&[9]).err(), Some(TransferError::NotHello(9)));
    assert_eq!(
        TransferError::NotHello(9).message(),
        "expected HELLO, got 09"
    );
    r.on_frame(&[HELLO]).unwrap();
    assert!(!r.compress);
    assert_eq!(r.on_frame(&[]).err(), Some(TransferError::EmptyFrame));
    assert_eq!(
        r.on_frame(&[0xAB]).err(),
        Some(TransferError::UnexpectedType(0xAB))
    );
    assert_eq!(
        TransferError::UnexpectedType(0xAB).message(),
        "unexpected frame type 0xab"
    );
    assert_eq!(
        r.on_frame(&[FILE_INFO, 0]).err(),
        Some(TransferError::InfoTooShort)
    );
    let mut info = build_file_info(5, "name");
    info[10] = 60;
    assert_eq!(r.on_frame(&info).err(), Some(TransferError::NameTruncated));
    let mut info = build_file_info(5, "name");
    info[11] = 0xFF;
    assert_eq!(r.on_frame(&info).err(), Some(TransferError::BadName));
    // An empty file is complete at once.
    r.on_frame(&build_file_info(0, "empty")).unwrap();
    assert_eq!(r.stage, Stage::Idle);
    r.on_frame(&build_file_info(5, "name")).unwrap();
    assert_eq!(r.on_frame(&[DONE]).err(), Some(TransferError::NotData));
    assert_eq!(r.on_frame(&[]).err(), Some(TransferError::NotData));

    let mut r = Receiver::new(PathStyle::Unix);
    r.on_frame(&hello_frame(true)).unwrap();
    r.on_frame(&build_file_info(5, "name")).unwrap();
    assert_eq!(
        r.on_frame(&[DATA, 1, 2, 3]).err(),
        Some(TransferError::BadCompression)
    );
    assert_eq!(check_ack(&[ACK]), Ok(()));
    assert_eq!(check_ack(&[DONE]), Err(TransferError::NotAck));
    assert_eq!(check_ack(&[]), Err(TransferError::NotAck));
}

#[test]
fn transfers_are_paced() {
    assert_eq!(pace_us(1024), 100);
    assert_eq!(pace_us(1025), 100);
    assert_eq!(pace_us(32769), 3200);
    assert_eq!(pace_us(0), 0);
    assert_eq!(total_bytes(&[1, 2, 3]), 6);
    assert_eq!(total_bytes(&[u64::MAX, 2]), u64::MAX);
}

// ── Listing ──────────────────────────────────────────────────────────────────

#[test]
fn entries_are_read_back() {
    let frame = build_entry("ü", 258, 0o100644);
    assert_eq!(frame[..5], [ENTRY, 0, 2, 0xC3, 0xBC]);
    assert_eq!(frame.len(), 17);
    match list_step(&frame).unwrap() {
        ListStep::Show(e) => {
            assert_eq!(e.name, "ü");
            assert_eq!((e.size, e.mode), (258, 0o100644));
        }
        _ => panic!("expected an entry"),
    }
    // Invalid UTF-8 is replaced.
    let mut bad = frame.clone();
    bad[3] = 0xFF;
    match list_step(&bad).unwrap() {
        ListStep::Show(e) => assert_eq!(e.name, "\u{FFFD}\u{FFFD}"),
        _ => panic!("expected an entry"),
    }
    assert!(matches!(list_step(&frame[..16]), Ok(ListStep::Skip)));
    assert!(matches!(list_step(&[ENTRY, 0]), Ok(ListStep::Skip)));
    assert!(matches!(list_step(&[DONE]), Ok(ListStep::End)));
    assert_eq!(list_step(&[]).err(), Some(TransferError::EmptyFrame));
    assert_eq!(
        list_step(&[DATA]).err(),
        Some(TransferError::UnexpectedType(DATA))
    );
    assert!(is_list_request(&[LS]));
    assert!(!is_list_request(&[]));
    assert!(!is_list_request(&[DONE]));
}

#[test]
fn modes_look_like_ls() {
    assert_eq!(mode_to_str(0o040755), "drwxr-xr-x");
    assert_eq!(mode_to_str(0o100640), "-rw-r-----");
    assert_eq!(mode_to_str(0), "----------");
    assert_eq!(mode_to_str(0o777), "-rwxrwxrwx");
}

#[test]
fn listed_remotes_are_found() {
    let (remote, path) = ls_remote("me@host:/var/log", Some(22));
    assert_eq!(remote.target(), "me@host");
    assert_eq!((remote.host.as_str(), remote.ssh_port), ("host", Some(22)));
    assert_eq!(path, "/var/log");
    let (remote, path) = ls_remote("me@host", None);
    assert_eq!((remote.target(), path), ("me@host".into(), "".into()));
    let (remote, path) = ls_remote("host", None);
    assert_eq!((remote.target(), path), ("host".into(), "".into()));
}

// ── Updating and checking ────────────────────────────────────────────────────

fn release(tag: &str, names: &[&str]) -> Release {
    Release {
        tag_name: tag.into(),
        assets: names
            .iter()
            .map(|n| Asset {
                name: n.to_string(),
                browser_download_url: format!("https://example.org/{n}"),
            })
            .collect(),
    }
}

#[test]
fn updates_pick_the_first_fitting_archive() {
    let target = current_target("x86_64", "linux");
    assert_eq!(target, "x86_64-unknown-linux-musl");
    assert_eq!(current_target("aarch64", "macos"), "aarch64-apple-darwin");
    assert_eq!(current_target("riscv64", "freebsd"), "riscv64-freebsd");
    let r = release(
        "v1.2.0",
        &[
            "seam-aarch64-apple-darwin.tar.gz",
            "seam-x86_64-unknown-linux-musl.sha256",
            "seam-x86_64-unknown-linux-musl.tar.gz",
            "other-x86_64-unknown-linux-musl.tar.gz",
        ],
    );
    assert_eq!(choose_asset(&r.assets, &target), Some(2));
    let install = UpdateArgs { check: false };
    assert_eq!(plan_update(&r, "1.1.0", &target, &install), UpdatePlan::Install(2));
    assert_eq!(plan_update(&r, "1.2.0", &target, &install), UpdatePlan::UpToDate);
    assert_eq!(plan_update(&r, "1.1.0", "vax", &install), UpdatePlan::NoAsset);
    assert_eq!(
        plan_update(&r, "1.1.0", "vax", &UpdateArgs { check: true }),
        UpdatePlan::Available
    );
    assert_eq!(release_version("vv2"), "2");
    assert_eq!(release_version("2.0v"), "2.0v");
}

#[test]
fn doctor_judges_what_it_finds() {
    assert!(is_private(0o100600));
    assert!(!is_private(0o100640));
    assert_eq!(permission_bits(0o100640), 0o640);
    assert!(wants_larger_buffers(2_097_151, 8_388_608));
    assert!(!wants_larger_buffers(2_097_152, 2_097_152));
    assert!(all_critical_passed(true, true));
    assert!(!all_critical_passed(true, false));
    assert!(!all_critical_passed(false, true));
}
