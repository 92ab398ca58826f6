//! Sending and receiving files: the frames of a transfer, and its two sides as
//! state machines.

use crate::cli::names::{name_stays_inside, PathStyle};
use crate::cli::proto::{
    be_round_trip, ACK, COMPRESS_NONE, COMPRESS_ZSTD, DATA, DONE, FILE_INFO, HELLO,
};
use crate::session::stream::clamp_u64;
use crate::text::{hex_byte, push_hex_byte};
use crate::wire::{
    be_bytes, be_value, bytes_at, pow256_values, put_len_be, put_u32_be, put_u64_be, u16_be_at,
    u64_be_at,
};
use vstd::prelude::*;
use vstd::slice::slice_to_vec;
use vstd::utf8::{decode_utf8, encode_utf8, valid_utf8};

verus! {

/// How much of a file one frame carries.
pub const CHUNK: usize = 32768;

/// The compression level of file data.
pub const ZSTD_LEVEL: i32 = 3;

/// What `zstd` makes of `data` at the given level; nothing if it fails.
pub uninterp spec fn zstd_encoded(data: Seq<u8>, level: int) -> Option<Seq<u8>>;

/// What `zstd` decompresses `text` to; nothing if it is not in its format.
pub uninterp spec fn zstd_decoded(text: Seq<u8>) -> Option<Seq<u8>>;

/// `zstd::encode_all`: the data compressed, a function of data and level.
/// Decompression gives the data back. On data in memory the call fails only
/// where `zstd` cannot allocate, which the name counts as a result.
#[verifier::external_body]
fn zstd_encode(data: &[u8], level: i32) -> (r: Option<Vec<u8>>)
    ensures
        match r {
            Some(text) => {
                &&& zstd_encoded(data@, level as int) == Some(text@)
                &&& zstd_decoded(text@) == Some(data@)
            },
            None => zstd_encoded(data@, level as int) is None,
        },
{
    zstd::encode_all(data, level).ok()
}

/// `zstd::decode_all`: the data that a compressed text stands for.
#[verifier::external_body]
fn zstd_decode(text: &[u8]) -> (r: Option<Vec<u8>>)
    ensures
        match r {
            Some(data) => zstd_decoded(text@) == Some(data@),
            None => zstd_decoded(text@) is None,
        },
{
    zstd::decode_all(text).ok()
}

/// `std::string::String::from_utf8`: the text that the bytes encode; it fails
/// on bytes that are not valid UTF-8.
#[verifier::external_body]
fn text_from_utf8(data: Vec<u8>) -> (r: Option<String>)
    ensures
        match r {
            Some(text) => valid_utf8(data@) && text@ == decode_utf8(data@),
            None => !valid_utf8(data@),
        },
{
    String::from_utf8(data).ok()
}

/// Why a transfer fails.
#[derive(Debug, Clone, Copy, PartialEq, Eq, Structural)]
pub enum TransferError {
    EmptyFrame,
    NotHello(u8),
    NotAck,
    UnexpectedType(u8),
    InfoTooShort,
    NameTruncated,
    BadName,
    NotData,
    BadCompression,
    /// The name of a file would lead out of the destination directory.
    NameLeaves,
    /// A frame came after the end of the transfer.
    AfterEnd,
    /// The sender was told something out of order.
    OutOfOrder,
    CannotCompress,
}

impl TransferError {
    pub open spec fn text(self) -> Seq<char> {
        match self {
            TransferError::EmptyFrame => "empty frame"@,
            TransferError::NotHello(b) => "expected HELLO, got "@ + hex_byte(b),
            TransferError::NotAck => "expected ACK from receiver"@,
            TransferError::UnexpectedType(b) => "unexpected frame type 0x"@ + hex_byte(b),
            TransferError::InfoTooShort => "FILE_INFO too short"@,
            TransferError::NameTruncated => "FILE_INFO name truncated"@,
            TransferError::BadName => "file name is not valid UTF-8"@,
            TransferError::NotData => "expected DATA frame"@,
            TransferError::BadCompression => "file data cannot be decompressed"@,
            TransferError::NameLeaves => "file name leaves the destination"@,
            TransferError::AfterEnd => "frame after the end of the transfer"@,
            TransferError::OutOfOrder => "transfer out of order"@,
            TransferError::CannotCompress => "file data cannot be compressed"@,
        }
    }

    /// The error in words.
    pub fn message(self) -> (text: String)
        ensures
            text@ == self.text(),
    {
        let mut text = String::new();
        match self {
            TransferError::EmptyFrame => text.push_str("empty frame"),
            TransferError::NotHello(b) => {
                text.push_str("expected HELLO, got ");
                push_hex_byte(&mut text, b);
            },
            TransferError::NotAck => text.push_str("expected ACK from receiver"),
            TransferError::UnexpectedType(b) => {
                text.push_str("unexpected frame type 0x");
                push_hex_byte(&mut text, b);
            },
            TransferError::InfoTooShort => text.push_str("FILE_INFO too short"),
            TransferError::NameTruncated => text.push_str("FILE_INFO name truncated"),
            TransferError::BadName => text.push_str("file name is not valid UTF-8"),
            TransferError::NotData => text.push_str("expected DATA frame"),
            TransferError::BadCompression => text.push_str("file data cannot be decompressed"),
            TransferError::NameLeaves => text.push_str("file name leaves the destination"),
            TransferError::AfterEnd => text.push_str("frame after the end of the transfer"),
            TransferError::OutOfOrder => text.push_str("transfer out of order"),
            TransferError::CannotCompress => text.push_str("file data cannot be compressed"),
        }
        assert(text@ =~= self.text());
        text
    }
}

// ── Greeting ─────────────────────────────────────────────────────────────────
/// The greeting: whether file data is compressed.
pub open spec fn hello(compress: bool) -> Seq<u8> {
    seq![
        HELLO,
        if compress {
            COMPRESS_ZSTD
        } else {
            COMPRESS_NONE
        },
    ]
}

/// What a greeting says.
pub open spec fn parsed_hello(frame: Seq<u8>) -> Result<bool, TransferError> {
    if frame.len() == 0 {
        Err(TransferError::NotHello(0))
    } else if frame[0] != HELLO {
        Err(TransferError::NotHello(frame[0]))
    } else {
        Ok(frame.len() > 1 && frame[1] == COMPRESS_ZSTD)
    }
}

/// The greeting of a sender.
pub fn hello_frame(compress: bool) -> (frame: Vec<u8>)
    ensures
        frame@ == hello(compress),
        parsed_hello(frame@) == Ok::<bool, TransferError>(compress),
{
    let mut frame: Vec<u8> = Vec::new();
    frame.push(HELLO);
    frame.push(
        if compress {
            COMPRESS_ZSTD
        } else {
            COMPRESS_NONE
        },
    );
    assert(frame@ =~= hello(compress));
    frame
}

fn parse_hello(frame: &[u8]) -> (r: Result<bool, TransferError>)
    ensures
        r == parsed_hello(frame@),
{
    if frame.len() == 0 {
        return Err(TransferError::NotHello(0));
    }
    if frame[0] != HELLO {
        return Err(TransferError::NotHello(frame[0]));
    }
    Ok(frame.len() > 1 && frame[1] == COMPRESS_ZSTD)
}

/// The receiver's answer must be an acknowledgement.
pub fn check_ack(frame: &[u8]) -> (r: Result<(), TransferError>)
    ensures
        r == (if frame@.len() > 0 && frame@[0] == ACK {
            Ok(())
        } else {
            Err(TransferError::NotAck)
        }),
{
    if frame.len() == 0 || frame[0] != ACK {
        return Err(TransferError::NotAck);
    }
    Ok(())
}

/// A frame of one byte: an acknowledgement or the end of a transfer.
pub fn short_frame(kind: u8) -> (frame: Vec<u8>)
    ensures
        frame@ == seq![kind],
{
    let mut frame: Vec<u8> = Vec::new();
    frame.push(kind);
    assert(frame@ =~= seq![kind]);
    frame
}

// ── Files ────────────────────────────────────────────────────────────────────
/// The announcement of a file: type, size, length of the name, name, mode.
pub open spec fn file_info(size: u64, name: Seq<char>) -> Seq<u8> {
    seq![FILE_INFO] + be_bytes(size as nat, 8) + be_bytes(encode_utf8(name).len(), 2) + encode_utf8(
        name,
    ) + be_bytes(0, 4)
}

/// What an announcement says: size and name. What follows the name is ignored.
pub open spec fn parsed_info(frame: Seq<u8>) -> Result<(u64, Seq<char>), TransferError> {
    let len = be_value(frame.subrange(9, 11)) as int;
    let name = frame.subrange(11, 11 + len);
    if frame.len() < 11 {
        Err(TransferError::InfoTooShort)
    } else if frame.len() < 11 + len {
        Err(TransferError::NameTruncated)
    } else if !valid_utf8(name) {
        Err(TransferError::BadName)
    } else {
        Ok((be_value(frame.subrange(1, 9)) as u64, decode_utf8(name)))
    }
}

/// Announce a file. Its name is read back if it is not longer than the length
/// field can say.
pub fn build_file_info(size: u64, name: &str) -> (frame: Vec<u8>)
    ensures
        frame@ == file_info(size, name@),
        encode_utf8(name@).len() <= 0xFFFF ==> parsed_info(frame@) == Ok::<
            (u64, Seq<char>),
            TransferError,
        >((size, name@)),
{
    let name_bytes = name.as_bytes();
    let mut frame: Vec<u8> = Vec::new();
    frame.push(FILE_INFO);
    put_u64_be(&mut frame, size);
    put_len_be(&mut frame, name_bytes.len(), 2);
    frame.extend_from_slice(name_bytes);
    put_u32_be(&mut frame, 0);
    proof {
        assert(frame@ =~= file_info(size, name@));
        if encode_utf8(name@).len() <= 0xFFFF {
            info_round_trip(size, name@);
        }
    }
    frame
}

/// The announcement of a file is read back.
pub proof fn info_round_trip(size: u64, name: Seq<char>)
    requires
        encode_utf8(name).len() <= 0xFFFF,
    ensures
        parsed_info(file_info(size, name)) == Ok::<(u64, Seq<char>), TransferError>((size, name)),
{
    let frame = file_info(size, name);
    let name_bytes = encode_utf8(name);
    pow256_values();
    be_round_trip(size as nat, 8);
    be_round_trip(name_bytes.len(), 2);
    be_round_trip(0, 4);
    assert(frame.subrange(1, 9) =~= be_bytes(size as nat, 8));
    assert(frame.subrange(9, 11) =~= be_bytes(name_bytes.len(), 2));
    assert(frame.subrange(11, 11 + name_bytes.len() as int) =~= name_bytes);
    vstd::utf8::encode_utf8_valid_utf8(name);
    vstd::utf8::encode_utf8_decode_utf8(name);
}

fn parse_file_info(frame: &[u8]) -> (r: Result<(u64, String), TransferError>)
    ensures
        match r {
            Ok(info) => parsed_info(frame@) == Ok::<(u64, Seq<char>), TransferError>(
                (info.0, info.1@),
            ),
            Err(e) => parsed_info(frame@) == Err::<(u64, Seq<char>), TransferError>(e),
        },
{
    if frame.len() < 11 {
        return Err(TransferError::InfoTooShort);
    }
    let size: u64 = u64_be_at(frame, 1);
    let len: usize = u16_be_at(frame, 9) as usize;
    if frame.len() < 11 + len {
        return Err(TransferError::NameTruncated);
    }
    match text_from_utf8(slice_to_vec(bytes_at(frame, 11, len))) {
        Some(name) => Ok((size, name)),
        None => Err(TransferError::BadName),
    }
}

/// The file data that a frame carries.
pub open spec fn carried(frame: Seq<u8>, compress: bool) -> Result<Seq<u8>, TransferError> {
    if frame.len() == 0 || frame[0] != DATA {
        Err(TransferError::NotData)
    } else if !compress {
        Ok(frame.skip(1))
    } else {
        match zstd_decoded(frame.skip(1)) {
            Some(data) => Ok(data),
            None => Err(TransferError::BadCompression),
        }
    }
}

/// The frame that carries file data, compressed or not; nothing if the data
/// cannot be compressed.
pub open spec fn data_frame_of(raw: Seq<u8>, compress: bool) -> Option<Seq<u8>> {
    if !compress {
        Some(seq![DATA] + raw)
    } else {
        match zstd_encoded(raw, ZSTD_LEVEL as int) {
            Some(text) => Some(seq![DATA] + text),
            None => None,
        }
    }
}

/// A frame that carries file data, compressed or not. The receiver gets the
/// data back.
pub fn data_frame(raw: &[u8], compress: bool) -> (r: Option<Vec<u8>>)
    ensures
        match r {
            Some(frame) => {
                &&& data_frame_of(raw@, compress) == Some(frame@)
                &&& carried(frame@, compress) == Ok::<Seq<u8>, TransferError>(raw@)
            },
            None => compress && zstd_encoded(raw@, ZSTD_LEVEL as int) is None,
        },
{
    let mut frame: Vec<u8> = Vec::new();
    frame.push(DATA);
    if compress {
        match zstd_encode(raw, ZSTD_LEVEL) {
            Some(mut text) => {
                let ghost encoded = text@;
                frame.append(&mut text);
                assert(frame@.skip(1) =~= encoded);
                assert(frame@ =~= seq![DATA] + encoded);
            },
            None => {
                return None;
            },
        }
    } else {
        frame.extend_from_slice(raw);
        assert(frame@.skip(1) =~= raw@);
        assert(frame@ =~= seq![DATA] + raw@);
    }
    Some(frame)
}

fn parse_data(frame: &[u8], compress: bool) -> (r: Result<Vec<u8>, TransferError>)
    ensures
        match r {
            Ok(data) => carried(frame@, compress) == Ok::<Seq<u8>, TransferError>(data@),
            Err(e) => carried(frame@, compress) == Err::<Seq<u8>, TransferError>(e),
        },
{
    if frame.len() == 0 || frame[0] != DATA {
        return Err(TransferError::NotData);
    }
    let raw = bytes_at(frame, 1, frame.len() - 1);
    assert(raw@ =~= frame@.skip(1));
    if !compress {
        return Ok(slice_to_vec(raw));
    }
    match zstd_decode(raw) {
        Some(data) => Ok(data),
        None => Err(TransferError::BadCompression),
    }
}

/// Microseconds to pause after a frame, for a pace of about 10 MB/s.
pub fn pace_us(frame_len: usize) -> (us: u64)
    ensures
        us == frame_len * 100 / 1024,
{
    let len: u64 = frame_len as u64;
    len / 1024 * 100 + len % 1024 * 100 / 1024
}

/// The sizes added up.
pub open spec fn sum(sizes: Seq<u64>) -> nat
    decreases sizes.len(),
{
    if sizes.len() == 0 {
        0
    } else {
        sum(sizes.drop_last()) + sizes.last() as nat
    }
}

/// How much there is to send in all, as far as a number can hold it.
pub fn total_bytes(sizes: &[u64]) -> (total: u64)
    ensures
        total == clamp_u64(sum(sizes@) as int),
{
    let mut total: u64 = 0;
    let n: usize = sizes.len();
    for i in 0..n
        invariant
            n == sizes@.len(),
            total == clamp_u64(sum(sizes@.take(i as int)) as int),
    {
        assert(sizes@.take(i + 1).drop_last() =~= sizes@.take(i as int));
        total = total.saturating_add(sizes[i]);
    }
    assert(sizes@.take(n as int) =~= sizes@);
    total
}

// ── The receiver ─────────────────────────────────────────────────────────────
/// Where a receiver is.
#[derive(Debug, Clone, Copy, PartialEq, Eq, Structural)]
pub enum Stage {
    /// Waits for the greeting.
    Hello,
    /// Waits for a file or the end.
    Idle,
    /// Receives a file.
    File { size: u64, received: u64 },
    Finished,
}

/// The receiving side of a transfer.
#[derive(Debug, Clone, Copy)]
pub struct Receiver {
    pub stage: Stage,
    pub compress: bool,
    /// How paths are read where the files are written.
    pub paths: PathStyle,
}

/// What a receiver does about a frame.
pub enum RecvStep {
    /// Answer the greeting.
    SendAck,
    /// Create the file; it is complete at once if it is empty.
    OpenFile { name: String, size: u64 },
    /// Append to the file; then it may be complete.
    Write { data: Vec<u8>, complete: bool },
    /// The transfer is over.
    Finished,
}

/// What a receiver does about a frame.
#[verifier::ext_equal]
pub enum StepView {
    SendAck,
    OpenFile { name: Seq<char>, size: u64 },
    Write { data: Seq<u8>, complete: bool },
    Finished,
}

impl View for RecvStep {
    type V = StepView;

    open spec fn view(&self) -> StepView {
        match *self {
            RecvStep::SendAck => StepView::SendAck,
            RecvStep::OpenFile { name, size } => StepView::OpenFile { name: name@, size },
            RecvStep::Write { data, complete } => StepView::Write { data: data@, complete },
            RecvStep::Finished => StepView::Finished,
        }
    }
}

impl Receiver {
    /// What the receiver does about a frame, and where it is then.
    pub open spec fn step(self, frame: Seq<u8>) -> Result<(StepView, Receiver), TransferError> {
        match self.stage {
            Stage::Hello => match parsed_hello(frame) {
                Ok(compress) => Ok(
                    (StepView::SendAck, Receiver { stage: Stage::Idle, compress, ..self }),
                ),
                Err(e) => Err(e),
            },
            Stage::Finished => Err(TransferError::AfterEnd),
            Stage::Idle => if frame.len() == 0 {
                Err(TransferError::EmptyFrame)
            } else if frame[0] == FILE_INFO {
                match parsed_info(frame) {
                    Ok((size, name)) => if self.paths.stays_inside(name) {
                        Ok(
                            (
                                StepView::OpenFile { name, size },
                                Receiver {
                                    stage: if size == 0 {
                                        Stage::Idle
                                    } else {
                                        Stage::File { size, received: 0 }
                                    },
                                    ..self
                                },
                            ),
                        )
                    } else {
                        Err(TransferError::NameLeaves)
                    },
                    Err(e) => Err(e),
                }
            } else if frame[0] == DONE {
                Ok((StepView::Finished, Receiver { stage: Stage::Finished, ..self }))
            } else {
                Err(TransferError::UnexpectedType(frame[0]))
            },
            Stage::File { size, received } => match carried(frame, self.compress) {
                Ok(data) => {
                    let now = clamp_u64(received + data.len()) as u64;
                    Ok(
                        (
                            StepView::Write { data, complete: now >= size },
                            Receiver {
                                stage: if now >= size {
                                    Stage::Idle
                                } else {
                                    Stage::File { size, received: now }
                                },
                                ..self
                            },
                        ),
                    )
                },
                Err(e) => Err(e),
            },
        }
    }

    /// A receiver that waits for the greeting.
    pub fn new(paths: PathStyle) -> (r: Self)
        ensures
            r == (Receiver { stage: Stage::Hello, compress: false, paths }),
    {
        Receiver { stage: Stage::Hello, compress: false, paths }
    }

    /// Take a frame. A frame that fails changes nothing. No file is opened
    /// under a name that leaves the destination.
    pub fn on_frame(&mut self, frame: &[u8]) -> (r: Result<RecvStep, TransferError>)
        ensures
            r matches Ok(RecvStep::OpenFile { name, .. }) ==> old(self).paths.stays_inside(name@),
            match r {
                Ok(step) => old(self).step(frame@) == Ok::<(StepView, Receiver), TransferError>(
                    (step@, *final(self)),
                ),
                Err(e) => old(self).step(frame@) == Err::<(StepView, Receiver), TransferError>(e)
                    && *final(self) == *old(self),
            },
    {
        match self.stage {
            Stage::Hello => match parse_hello(frame) {
                Ok(compress) => {
                    self.compress = compress;
                    self.stage = Stage::Idle;
                    Ok(RecvStep::SendAck)
                },
                Err(e) => Err(e),
            },
            Stage::Finished => Err(TransferError::AfterEnd),
            Stage::Idle => {
                if frame.len() == 0 {
                    return Err(TransferError::EmptyFrame);
                }
                if frame[0] == FILE_INFO {
                    match parse_file_info(frame) {
                        Ok((size, name)) => {
                            if !name_stays_inside(self.paths, name.as_str()) {
                                return Err(TransferError::NameLeaves);
                            }
                            self.stage = if size == 0 {
                                Stage::Idle
                            } else {
                                Stage::File { size, received: 0 }
                            };
                            Ok(RecvStep::OpenFile { name, size })
                        },
                        Err(e) => Err(e),
                    }
                } else if frame[0] == DONE {
                    self.stage = Stage::Finished;
                    Ok(RecvStep::Finished)
                } else {
                    Err(TransferError::UnexpectedType(frame[0]))
                }
            },
            Stage::File { size, received } => match parse_data(frame, self.compress) {
                Ok(data) => {
                    let now: u64 = received.saturating_add(data.len() as u64);
                    let complete: bool = now >= size;
                    self.stage = if complete {
                        Stage::Idle
                    } else {
                        Stage::File { size, received: now }
                    };
                    Ok(RecvStep::Write { data, complete })
                },
                Err(e) => Err(e),
            },
        }
    }
}

/// Whatever frame comes, no file is opened under a name that leaves the
/// destination: such an announcement is refused.
pub proof fn names_stay_inside(r: Receiver, frame: Seq<u8>)
    ensures
        match r.step(frame) {
            Ok((StepView::OpenFile { name, .. }, _)) => r.paths.stays_inside(name),
            _ => true,
        },
        r.stage is Idle && frame.len() > 0 && frame[0] == FILE_INFO ==> (parsed_info(frame) matches
            Ok(info) && !r.paths.stays_inside(info.1) ==> r.step(frame) is Err),
{
}

// ── The sender ───────────────────────────────────────────────────────────────
/// Where a sender is.
#[derive(Debug, Clone, Copy, PartialEq, Eq, Structural)]
pub enum SendStage {
    /// Has sent nothing.
    Start,
    /// Has sent the greeting; waits for the answer.
    Greeted,
    /// Was answered; has announced no file yet.
    Ready,
    /// Has announced a file, and sends its data.
    File,
    Finished,
}

/// The sending side of a transfer.
#[derive(Debug, Clone, Copy)]
pub struct Sender {
    pub stage: SendStage,
    pub compress: bool,
}

/// What a sender is told.
#[verifier::ext_equal]
pub enum SendEvent {
    /// Begin.
    Begin,
    /// The receiver has answered the greeting.
    Answer(Seq<u8>),
    /// A file follows.
    File { size: u64, name: Seq<char> },
    /// More of the file's data.
    Chunk(Seq<u8>),
    /// There is no more file.
    End,
}

impl Sender {
    /// The frame to send for an event, if any, and where the sender is then.
    pub open spec fn step(self, event: SendEvent) -> Result<
        (Option<Seq<u8>>, Sender),
        TransferError,
    > {
        let has_answer = self.stage is Ready || self.stage is File;
        match event {
            SendEvent::Begin => if self.stage is Start {
                Ok((Some(hello(self.compress)), Sender { stage: SendStage::Greeted, ..self }))
            } else {
                Err(TransferError::OutOfOrder)
            },
            SendEvent::Answer(frame) => if !(self.stage is Greeted) {
                Err(TransferError::OutOfOrder)
            } else if frame.len() > 0 && frame[0] == ACK {
                Ok((None, Sender { stage: SendStage::Ready, ..self }))
            } else {
                Err(TransferError::NotAck)
            },
            SendEvent::File { size, name } => if has_answer {
                Ok((Some(file_info(size, name)), Sender { stage: SendStage::File, ..self }))
            } else {
                Err(TransferError::OutOfOrder)
            },
            SendEvent::Chunk(raw) => if !(self.stage is File) {
                Err(TransferError::OutOfOrder)
            } else {
                match data_frame_of(raw, self.compress) {
                    Some(frame) => Ok((Some(frame), self)),
                    None => Err(TransferError::CannotCompress),
                }
            },
            SendEvent::End => if has_answer {
                Ok((Some(seq![DONE]), Sender { stage: SendStage::Finished, ..self }))
            } else {
                Err(TransferError::OutOfOrder)
            },
        }
    }

    /// The outcome `r` of telling the sender something, which sends a frame.
    pub open spec fn sends(
        self,
        event: SendEvent,
        r: Result<Vec<u8>, TransferError>,
        after: Sender,
    ) -> bool {
        match r {
            Ok(frame) => self.step(event) == Ok::<(Option<Seq<u8>>, Sender), TransferError>(
                (Some(frame@), after),
            ),
            Err(e) => self.step(event) == Err::<(Option<Seq<u8>>, Sender), TransferError>(e)
                && after == self,
        }
    }

    pub fn new(compress: bool) -> (s: Self)
        ensures
            s == (Sender { stage: SendStage::Start, compress }),
    {
        Sender { stage: SendStage::Start, compress }
    }

    /// Begin: the greeting.
    pub fn begin(&mut self) -> (r: Result<Vec<u8>, TransferError>)
        ensures
            old(self).sends(SendEvent::Begin, r, *final(self)),
    {
        match self.stage {
            SendStage::Start => {
                self.stage = SendStage::Greeted;
                Ok(hello_frame(self.compress))
            },
            _ => Err(TransferError::OutOfOrder),
        }
    }

    /// The receiver has answered the greeting.
    pub fn on_answer(&mut self, frame: &[u8]) -> (r: Result<(), TransferError>)
        ensures
            match r {
                Ok(()) => old(self).step(SendEvent::Answer(frame@)) == Ok::<
                    (Option<Seq<u8>>, Sender),
                    TransferError,
                >((None, *final(self))),
                Err(e) => old(self).step(SendEvent::Answer(frame@)) == Err::<
                    (Option<Seq<u8>>, Sender),
                    TransferError,
                >(e) && *final(self) == *old(self),
            },
    {
        match self.stage {
            SendStage::Greeted => match check_ack(frame) {
                Ok(()) => {
                    self.stage = SendStage::Ready;
                    Ok(())
                },
                Err(e) => Err(e),
            },
            _ => Err(TransferError::OutOfOrder),
        }
    }

    /// A file follows: its announcement.
    pub fn announce(&mut self, size: u64, name: &str) -> (r: Result<Vec<u8>, TransferError>)
        ensures
            old(self).sends(SendEvent::File { size, name: name@ }, r, *final(self)),
    {
        match self.stage {
            SendStage::Ready | SendStage::File => {
                self.stage = SendStage::File;
                Ok(build_file_info(size, name))
            },
            _ => Err(TransferError::OutOfOrder),
        }
    }

    /// More of the file's data: the frame that carries it.
    pub fn chunk(&mut self, raw: &[u8]) -> (r: Result<Vec<u8>, TransferError>)
        ensures
            old(self).sends(SendEvent::Chunk(raw@), r, *final(self)),
            r matches Ok(frame) ==> carried(frame@, old(self).compress) == Ok::<
                Seq<u8>,
                TransferError,
            >(raw@),
    {
        match self.stage {
            SendStage::File => match data_frame(raw, self.compress) {
                Some(frame) => Ok(frame),
                None => Err(TransferError::CannotCompress),
            },
            _ => Err(TransferError::OutOfOrder),
        }
    }

    /// There is no more file: the end of the transfer.
    pub fn end(&mut self) -> (r: Result<Vec<u8>, TransferError>)
        ensures
            old(self).sends(SendEvent::End, r, *final(self)),
    {
        match self.stage {
            SendStage::Ready | SendStage::File => {
                self.stage = SendStage::Finished;
                Ok(short_frame(DONE))
            },
            _ => Err(TransferError::OutOfOrder),
        }
    }
}

/// A sender, and the frames that it has sent.
#[verifier::ext_equal]
pub struct Departure {
    pub sender: Sender,
    pub frames: Seq<Seq<u8>>,
}

impl Departure {
    /// A sender that has sent nothing.
    pub open spec fn new(compress: bool) -> Departure {
        Departure { sender: Sender { stage: SendStage::Start, compress }, frames: Seq::empty() }
    }

    /// What comes of one more event; nothing if it fails.
    pub open spec fn take(self, event: SendEvent) -> Option<Departure> {
        match self.sender.step(event) {
            Ok((frame, sender)) => Some(
                Departure {
                    sender,
                    frames: match frame {
                        Some(frame) => self.frames.push(frame),
                        None => self.frames,
                    },
                },
            ),
            Err(_) => None,
        }
    }

    /// What comes of a run of events; nothing if one of them fails.
    pub open spec fn take_all(self, events: Seq<SendEvent>) -> Option<Departure>
        decreases events.len(),
    {
        if events.len() == 0 {
            Some(self)
        } else {
            match self.take_all(events.drop_last()) {
                Some(before) => before.take(events.last()),
                None => None,
            }
        }
    }
}

/// A receiver, and the files that it has written: name and content of each.
#[verifier::ext_equal]
pub struct Arrival {
    pub receiver: Receiver,
    pub files: Seq<(Seq<char>, Seq<u8>)>,
}

impl Arrival {
    /// A receiver that waits for the greeting.
    pub open spec fn new(paths: PathStyle) -> Arrival {
        Arrival {
            receiver: Receiver { stage: Stage::Hello, compress: false, paths },
            files: Seq::empty(),
        }
    }

    /// What comes of one more frame; nothing if it fails.
    pub open spec fn take(self, frame: Seq<u8>) -> Option<Arrival> {
        match self.receiver.step(frame) {
            Ok((step, receiver)) => Some(
                Arrival {
                    receiver,
                    files: match step {
                        StepView::OpenFile { name, .. } => self.files.push((name, Seq::empty())),
                        StepView::Write { data, .. } => {
                            let (name, content) = self.files.last();
                            self.files.drop_last().push((name, content + data))
                        },
                        StepView::SendAck | StepView::Finished => self.files,
                    },
                },
            ),
            Err(_) => None,
        }
    }

    /// What comes of a run of frames; nothing if one of them fails.
    pub open spec fn take_all(self, frames: Seq<Seq<u8>>) -> Option<Arrival>
        decreases frames.len(),
    {
        if frames.len() == 0 {
            Some(self)
        } else {
            match self.take_all(frames.drop_last()) {
                Some(before) => before.take(frames.last()),
                None => None,
            }
        }
    }
}

proof fn runs_add_up(a: Arrival, one: Seq<Seq<u8>>, two: Seq<Seq<u8>>)
    ensures
        a.take_all(one + two) == (match a.take_all(one) {
            Some(between) => between.take_all(two),
            None => None,
        }),
    decreases two.len(),
{
    if two.len() == 0 {
        assert(one + two =~= one);
    } else {
        runs_add_up(a, one, two.drop_last());
        assert((one + two).drop_last() =~= one + two.drop_last());
    }
}

/// The chunks one after the other.
pub open spec fn joined(chunks: Seq<Seq<u8>>) -> Seq<u8>
    decreases chunks.len(),
{
    if chunks.len() == 0 {
        Seq::empty()
    } else {
        joined(chunks.drop_last()) + chunks.last()
    }
}

/// A file as it is sent: the chunks in which it was read, and the frames that
/// carry them.
pub struct SentFile {
    pub name: Seq<char>,
    pub chunks: Seq<Seq<u8>>,
    pub frames: Seq<Seq<u8>>,
}

impl SentFile {
    /// The size that the file's announcement gives.
    pub open spec fn size(self) -> u64 {
        joined(self.chunks).len() as u64
    }

    /// Every frame carries its chunk, no chunk is empty, size and name fit into
    /// the announcement, and the name does not leave the destination.
    pub open spec fn is_sound(self, compress: bool, paths: PathStyle) -> bool {
        &&& encode_utf8(self.name).len() <= 0xFFFF
        &&& paths.stays_inside(self.name)
        &&& joined(self.chunks).len() <= u64::MAX
        &&& carry(self.frames, self.chunks, compress)
    }

    /// All frames of the file, its announcement first.
    pub open spec fn all_frames(self) -> Seq<Seq<u8>> {
        seq![file_info(self.size(), self.name)] + self.frames
    }
}

/// The frames carry the chunks, none of which is empty.
pub open spec fn carry(frames: Seq<Seq<u8>>, chunks: Seq<Seq<u8>>, compress: bool) -> bool {
    &&& frames.len() == chunks.len()
    &&& forall|k: int| #![trigger frames[k]] #![trigger chunks[k]]
        0 <= k < frames.len() ==> chunks[k].len() > 0 && carried(frames[k], compress) == Ok::<
            Seq<u8>,
            TransferError,
        >(chunks[k])
}

/// All frames of all files.
pub open spec fn frames_of(files: Seq<SentFile>) -> Seq<Seq<u8>>
    decreases files.len(),
{
    if files.len() == 0 {
        Seq::empty()
    } else {
        frames_of(files.drop_last()) + files.last().all_frames()
    }
}

/// Name and content of each file.
pub open spec fn contents_of(files: Seq<SentFile>) -> Seq<(Seq<char>, Seq<u8>)> {
    files.map_values(|f: SentFile| (f.name, joined(f.chunks)))
}

/// After the frames of its chunks the receiver has written exactly the chunks
/// in order, and is done with the file exactly when all of it has arrived.
proof fn chunks_arrive(
    compress: bool,
    paths: PathStyle,
    size: u64,
    name: Seq<char>,
    chunks: Seq<Seq<u8>>,
    frames: Seq<Seq<u8>>,
    files: Seq<(Seq<char>, Seq<u8>)>,
)
    requires
        size > 0,
        carry(frames, chunks, compress),
        joined(chunks).len() <= size,
    ensures
        (Arrival {
            receiver: Receiver { stage: Stage::File { size, received: 0 }, compress, paths },
            files: files.push((name, Seq::empty())),
        }).take_all(frames) == Some(
            Arrival {
                receiver: Receiver {
                    stage: if joined(chunks).len() == size {
                        Stage::Idle
                    } else {
                        Stage::File { size, received: joined(chunks).len() as u64 }
                    },
                    compress,
                    paths,
                },
                files: files.push((name, joined(chunks))),
            },
        ),
    decreases chunks.len(),
{
    if chunks.len() > 0 {
        let n = chunks.len() - 1;
        assert(chunks[n].len() > 0);
        assert forall|k: int| #![trigger frames.drop_last()[k]] #![trigger chunks.drop_last()[k]]
            0 <= k < n implies chunks.drop_last()[k].len() > 0 && carried(
            frames.drop_last()[k],
            compress,
        ) == Ok::<Seq<u8>, TransferError>(chunks.drop_last()[k]) by {
            assert(frames.drop_last()[k] == frames[k]);
            assert(chunks.drop_last()[k] == chunks[k]);
        }
        chunks_arrive(compress, paths, size, name, chunks.drop_last(), frames.drop_last(), files);
        assert(carried(frames[n], compress) == Ok::<Seq<u8>, TransferError>(chunks[n]));
        let before = joined(chunks.drop_last());
        assert(files.push((name, before)).drop_last() =~= files);
    }
}

proof fn one_file_arrives(
    compress: bool,
    paths: PathStyle,
    file: SentFile,
    files: Seq<(Seq<char>, Seq<u8>)>,
)
    requires
        file.is_sound(compress, paths),
    ensures
        (Arrival { receiver: Receiver { stage: Stage::Idle, compress, paths }, files }).take_all(
            file.all_frames(),
        ) == Some(
            Arrival {
                receiver: Receiver { stage: Stage::Idle, compress, paths },
                files: files.push((file.name, joined(file.chunks))),
            },
        ),
{
    let idle = Arrival { receiver: Receiver { stage: Stage::Idle, compress, paths }, files };
    let info = file_info(file.size(), file.name);
    info_round_trip(file.size(), file.name);
    assert(info[0] == FILE_INFO);
    runs_add_up(idle, seq![info], file.frames);
    assert(seq![info].drop_last() =~= Seq::empty());
    let opened = idle.take(info);
    assert(idle.take_all(seq![info].drop_last()) == Some(idle));
    assert(idle.take_all(seq![info]) == opened);
    if file.size() > 0 {
        chunks_arrive(compress, paths, file.size(), file.name, file.chunks, file.frames, files);
    } else if file.chunks.len() > 0 {
        assert(file.chunks.last().len() > 0);
    } else {
        assert(joined(file.chunks) =~= Seq::empty());
    }
}

proof fn files_arrive(compress: bool, paths: PathStyle, files: Seq<SentFile>)
    requires
        forall|k: int| 0 <= k < files.len() ==> (#[trigger] files[k]).is_sound(compress, paths),
    ensures
        (Arrival {
            receiver: Receiver { stage: Stage::Idle, compress, paths },
            files: Seq::empty(),
        }).take_all(frames_of(files)) == Some(
            Arrival {
                receiver: Receiver { stage: Stage::Idle, compress, paths },
                files: contents_of(files),
            },
        ),
    decreases files.len(),
{
    let idle = Arrival {
        receiver: Receiver { stage: Stage::Idle, compress, paths },
        files: Seq::empty(),
    };
    if files.len() == 0 {
        assert(contents_of(files) =~= Seq::empty());
    } else {
        let rest = files.drop_last();
        assert forall|k: int| 0 <= k < rest.len() implies (#[trigger] rest[k]).is_sound(
            compress,
            paths,
        ) by {
            assert(rest[k] == files[k]);
        }
        files_arrive(compress, paths, rest);
        let last = files.last();
        assert(files[files.len() - 1].is_sound(compress, paths));
        one_file_arrives(compress, paths, last, contents_of(rest));
        runs_add_up(idle, frames_of(rest), last.all_frames());
        assert(contents_of(files) =~= contents_of(rest).push((last.name, joined(last.chunks))));
    }
}

/// A transfer arrives as it was sent: after the greeting, the frames of the
/// files and the end, the receiver has written the same files in the same
/// order, each with its name and its content.
pub proof fn transfer_arrives(compress: bool, paths: PathStyle, files: Seq<SentFile>)
    requires
        forall|k: int| 0 <= k < files.len() ==> (#[trigger] files[k]).is_sound(compress, paths),
    ensures
        Arrival::new(paths).take_all(seq![hello(compress)] + frames_of(files) + seq![seq![DONE]])
            == Some(
            Arrival {
                receiver: Receiver { stage: Stage::Finished, compress, paths },
                files: contents_of(files),
            },
        ),
{
    let start = Arrival::new(paths);
    let greeting = seq![hello(compress)];
    let end = seq![seq![DONE]];
    files_arrive(compress, paths, files);
    assert(greeting.drop_last() =~= Seq::empty());
    assert(start.take_all(greeting.drop_last()) == Some(start));
    runs_add_up(start, greeting, frames_of(files));
    runs_add_up(start, greeting + frames_of(files), end);
    let idle = Arrival {
        receiver: Receiver { stage: Stage::Idle, compress, paths },
        files: contents_of(files),
    };
    assert(end.drop_last() =~= Seq::empty());
    assert(idle.take_all(end.drop_last()) == Some(idle));
}

impl SentFile {
    /// The frames are those that a sender makes of the chunks.
    pub open spec fn is_sent(self, compress: bool) -> bool {
        &&& self.frames.len() == self.chunks.len()
        &&& forall|k: int| #![trigger self.frames[k]] #![trigger self.chunks[k]]
            0 <= k < self.frames.len() ==> data_frame_of(self.chunks[k], compress) == Some(
                self.frames[k],
            )
    }

    /// What a sender is told of the file.
    pub open spec fn events(self) -> Seq<SendEvent> {
        seq![SendEvent::File { size: self.size(), name: self.name }] + self.chunks.map_values(
            |c: Seq<u8>| SendEvent::Chunk(c),
        )
    }
}

/// What a sender is told of all files.
pub open spec fn events_of(files: Seq<SentFile>) -> Seq<SendEvent>
    decreases files.len(),
{
    if files.len() == 0 {
        Seq::empty()
    } else {
        events_of(files.drop_last()) + files.last().events()
    }
}

proof fn departures_add_up(d: Departure, one: Seq<SendEvent>, two: Seq<SendEvent>)
    ensures
        d.take_all(one + two) == (match d.take_all(one) {
            Some(between) => between.take_all(two),
            None => None,
        }),
    decreases two.len(),
{
    if two.len() == 0 {
        assert(one + two =~= one);
    } else {
        departures_add_up(d, one, two.drop_last());
        assert((one + two).drop_last() =~= one + two.drop_last());
    }
}

proof fn chunks_depart(compress: bool, file: SentFile, frames: Seq<Seq<u8>>, n: int)
    requires
        file.is_sent(compress),
        0 <= n <= file.chunks.len(),
    ensures
        (Departure { sender: Sender { stage: SendStage::File, compress }, frames }).take_all(
            file.chunks.map_values(|c: Seq<u8>| SendEvent::Chunk(c)).take(n),
        ) == Some(
            Departure {
                sender: Sender { stage: SendStage::File, compress },
                frames: frames + file.frames.take(n),
            },
        ),
    decreases n,
{
    let events = file.chunks.map_values(|c: Seq<u8>| SendEvent::Chunk(c));
    let start = Departure { sender: Sender { stage: SendStage::File, compress }, frames };
    if n == 0 {
        assert(frames + file.frames.take(0) =~= frames);
    } else {
        chunks_depart(compress, file, frames, n - 1);
        assert(events.take(n).drop_last() =~= events.take(n - 1));
        assert(events.take(n).last() == SendEvent::Chunk(file.chunks[n - 1]));
        assert(data_frame_of(file.chunks[n - 1], compress) == Some(file.frames[n - 1]));
        assert(frames + file.frames.take(n) =~= (frames + file.frames.take(n - 1)).push(
            file.frames[n - 1],
        ));
    }
}

proof fn one_file_departs(d: Departure, file: SentFile)
    requires
        d.sender.stage is Ready || d.sender.stage is File,
        file.is_sent(d.sender.compress),
    ensures
        d.take_all(file.events()) == Some(
            Departure {
                sender: Sender { stage: SendStage::File, ..d.sender },
                frames: d.frames + file.all_frames(),
            },
        ),
{
    let info = SendEvent::File { size: file.size(), name: file.name };
    let chunks = file.chunks.map_values(|c: Seq<u8>| SendEvent::Chunk(c));
    let announced = d.frames.push(file_info(file.size(), file.name));
    departures_add_up(d, seq![info], chunks);
    assert(seq![info].drop_last() =~= Seq::empty());
    assert(d.take_all(seq![info].drop_last()) == Some(d));
    assert(d.take_all(seq![info]) == d.take(info));
    chunks_depart(d.sender.compress, file, announced, file.chunks.len() as int);
    assert(chunks.take(file.chunks.len() as int) =~= chunks);
    assert(announced + file.frames.take(file.chunks.len() as int) =~= d.frames
        + file.all_frames());
}

proof fn files_depart(d: Departure, files: Seq<SentFile>)
    requires
        d.sender.stage is Ready,
        forall|k: int| 0 <= k < files.len() ==> (#[trigger] files[k]).is_sent(d.sender.compress),
    ensures
        d.take_all(events_of(files)) == Some(
            Departure {
                sender: Sender {
                    stage: if files.len() == 0 {
                        SendStage::Ready
                    } else {
                        SendStage::File
                    },
                    ..d.sender
                },
                frames: d.frames + frames_of(files),
            },
        ),
    decreases files.len(),
{
    if files.len() == 0 {
        assert(d.frames + frames_of(files) =~= d.frames);
    } else {
        let rest = files.drop_last();
        assert forall|k: int| 0 <= k < rest.len() implies (#[trigger] rest[k]).is_sent(
            d.sender.compress,
        ) by {
            assert(rest[k] == files[k]);
        }
        files_depart(d, rest);
        assert(files[files.len() - 1].is_sent(d.sender.compress));
        departures_add_up(d, events_of(rest), files.last().events());
        let between = d.take_all(events_of(rest))->0;
        one_file_departs(between, files.last());
        assert(d.frames + frames_of(files) =~= between.frames + files.last().all_frames());
    }
}

/// What a sender sends arrives: told to begin, answered, told of the files and
/// their data and then of the end, it sends frames from which the receiver
/// writes the same files in the same order, each with its name and its content.
pub proof fn sent_files_arrive(compress: bool, paths: PathStyle, files: Seq<SentFile>)
    requires
        forall|k: int| 0 <= k < files.len() ==> (#[trigger] files[k]).is_sound(compress, paths),
        forall|k: int| 0 <= k < files.len() ==> (#[trigger] files[k]).is_sent(compress),
    ensures
        ({
            let told = seq![SendEvent::Begin, SendEvent::Answer(seq![ACK])] + events_of(files)
                + seq![SendEvent::End];
            Departure::new(compress).take_all(told) matches Some(departed) && {
                &&& departed.sender.stage is Finished
                &&& departed.frames == seq![hello(compress)] + frames_of(files) + seq![seq![DONE]]
                &&& Arrival::new(paths).take_all(departed.frames) matches Some(arrived)
                    && arrived.receiver.stage is Finished && arrived.files == contents_of(files)
            }
        }),
{
    let start = Departure::new(compress);
    let greeting = seq![SendEvent::Begin, SendEvent::Answer(seq![ACK])];
    let begin = greeting.drop_last();
    let end = seq![SendEvent::End];
    assert(begin =~= seq![SendEvent::Begin]);
    assert(begin.drop_last() =~= Seq::empty());
    assert(start.take_all(begin.drop_last()) == Some(start));
    let greeted = start.take(SendEvent::Begin)->0;
    assert(start.take_all(begin) == Some(greeted));
    let ready = greeted.take(SendEvent::Answer(seq![ACK]))->0;
    assert(start.take_all(greeting) == Some(ready));
    assert(ready.frames =~= seq![hello(compress)]);
    files_depart(ready, files);
    departures_add_up(start, greeting, events_of(files));
    departures_add_up(start, greeting + events_of(files), end);
    let sent = ready.take_all(events_of(files))->0;
    assert(end.drop_last() =~= Seq::empty());
    assert(sent.take_all(end.drop_last()) == Some(sent));
    assert(sent.take_all(end) == sent.take(SendEvent::End));
    assert(sent.frames.push(seq![DONE]) =~= seq![hello(compress)] + frames_of(files)
        + seq![seq![DONE]]);
    transfer_arrives(compress, paths, files);
}

} // verus!
