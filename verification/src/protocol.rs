//! The sync protocol.
//!
//! Messages travel in frames: the length of the message in four bytes, highest byte
//! first, then the message. A length of zero ends the stream. What a side of a
//! connection does next is decided by its session from what happened last; reading,
//! writing and turning bytes into messages is left to the caller.

use crate::assoc;
use crate::change;
use crate::change::{BatchModel, ChangeBatch, ChangeModel, MessageModel, SyncMessage};
use crate::common;
use crate::error::{Error, ErrorModel, Result};
use crate::peer::EndpointId;
use crate::sync;
use crate::sync::{SyncManager, SyncModel, SyncState};
use vstd::prelude::*;

verus! {

/// Protocol ALPN identifier, `surrealdb/iroh-sync/1`
pub const ALPN: [u8; 21] = [
    115, 117, 114, 114, 101, 97, 108, 100, 98, 47, 105, 114, 111, 104, 45, 115, 121, 110, 99, 47,
    49,
];

/// Maximum message size to prevent allocation attacks (16MB).
/// A malicious peer sending a larger length prefix would cause OOM.
pub const MAX_MESSAGE_SIZE: usize = 16 * 1024 * 1024;

/// How many changes a client asks for at a time.
pub const REQUEST_LIMIT: usize = 1000;

/// What the four bytes before a message say.
#[derive(Debug, Clone, Copy, PartialEq, Eq, Structural)]
pub enum FrameHeader {
    /// The stream ends here
    End,
    /// A message of so many bytes follows
    Message(u32),
    /// A message follows that is larger than allowed
    TooLarge,
}

/// The number in four bytes, highest byte first.
pub open spec fn be_value(bytes: Seq<u8>) -> int {
    bytes[0] * 0x100_0000 + bytes[1] * 0x1_0000 + bytes[2] * 0x100 + bytes[3]
}

/// The four bytes of a number, highest byte first.
pub open spec fn be_bytes(n: u32) -> Seq<u8> {
    seq![
        (n / 0x100_0000) as u8,
        (n / 0x1_0000 % 0x100) as u8,
        (n / 0x100 % 0x100) as u8,
        (n % 0x100) as u8,
    ]
}

/// The four bytes of a number hold that number.
pub proof fn lemma_be_bytes(n: u32)
    ensures
        be_bytes(n).len() == 4,
        be_value(be_bytes(n)) == n,
{
}

/// What the header of a frame says.
pub open spec fn header_of(bytes: Seq<u8>) -> FrameHeader {
    let n = be_value(bytes);
    if n == 0 {
        FrameHeader::End
    } else if n > MAX_MESSAGE_SIZE {
        FrameHeader::TooLarge
    } else {
        FrameHeader::Message(n as u32)
    }
}

/// The frame of a message: its length, then the message.
pub open spec fn frame_of(message: Seq<u8>) -> Seq<u8> {
    be_bytes((message.len() % 0x1_0000_0000) as u32) + message
}

/// The header of a frame says how long the message is, for a message that is not
/// empty and not too large; what follows the header is the message.
pub proof fn frame_roundtrip(message: Seq<u8>)
    requires
        0 < message.len() <= MAX_MESSAGE_SIZE,
    ensures
        frame_of(message).len() == 4 + message.len(),
        header_of(frame_of(message).take(4)) == FrameHeader::Message(message.len() as u32),
        frame_of(message).skip(4) == message,
{
    assert(frame_of(message).skip(4) =~= message);
}

/// A message that is larger than allowed is seen as such, as long as its length fits
/// the header.
pub proof fn large_frame_is_refused(message: Seq<u8>)
    requires
        MAX_MESSAGE_SIZE < message.len() < 0x1_0000_0000,
    ensures
        header_of(frame_of(message).take(4)) == FrameHeader::TooLarge,
{
}

/// Four zero bytes end the stream.
pub proof fn zero_ends_the_stream()
    ensures
        header_of(be_bytes(0)) == FrameHeader::End,
{
}

/// Read the header of a frame.
pub fn read_header(bytes: [u8; 4]) -> (h: FrameHeader)
    ensures
        h == header_of(bytes@),
{
    let n: u32 = bytes[0] as u32 * 0x100_0000 + bytes[1] as u32 * 0x1_0000 + bytes[2] as u32 * 0x100
        + bytes[3] as u32;
    if n == 0 {
        FrameHeader::End
    } else if n as usize > MAX_MESSAGE_SIZE {
        FrameHeader::TooLarge
    } else {
        FrameHeader::Message(n)
    }
}

/// Write the header of a frame for a message of the given length.
pub fn write_header(len: usize) -> (bytes: [u8; 4])
    ensures
        bytes@ == be_bytes((len as int % 0x1_0000_0000) as u32),
{
    let n: u32 = (len as u64 % 0x1_0000_0000) as u32;
    let bytes: [u8; 4] = [
        (n / 0x100_0000) as u8,
        (n / 0x1_0000 % 0x100) as u8,
        (n / 0x100 % 0x100) as u8,
        (n % 0x100) as u8,
    ];
    assert(bytes@ =~= be_bytes((len as int % 0x1_0000_0000) as u32));
    bytes
}

/// Frame a message.
pub fn frame(message: &Vec<u8>) -> (bytes: Vec<u8>)
    ensures
        bytes@ == frame_of(message@),
{
    let header = write_header(message.len());
    let mut bytes: Vec<u8> = Vec::new();
    bytes.extend_from_slice(header.as_slice());
    bytes.extend_from_slice(message.as_slice());
    assert(bytes@ =~= frame_of(message@));
    bytes
}

/// The changes that answer a request, at most as many as the limit.
pub open spec fn limited(changes: Seq<ChangeModel>, limit: Option<usize>) -> Seq<ChangeModel> {
    match limit {
        Some(n) => if n < changes.len() {
            changes.take(n as int)
        } else {
            changes
        },
        None => changes,
    }
}

/// The batch that answers a request.
pub open spec fn answer(m: SyncModel, offset: u64, limit: Option<usize>) -> BatchModel {
    let changes = limited(m.since(offset), limit);
    let new_offset = (offset + changes.len()) as u64;
    BatchModel {
        offset: new_offset,
        changes,
        is_final: changes.len() == 0 || m.offset <= new_offset,
    }
}

/// The reply to a message.
pub open spec fn reply(m: SyncModel, msg: MessageModel, local_offset: u64) -> MessageModel {
    match msg {
        MessageModel::Request { offset, limit } => MessageModel::Response(answer(m, offset, limit)),
        MessageModel::Response(batch) => MessageModel::Ack { offset: batch.offset },
        MessageModel::Ack { .. } => MessageModel::Ack { offset: local_offset },
        MessageModel::Ping => MessageModel::Pong,
        MessageModel::Pong => MessageModel::Ping,
    }
}

/// The manager after a message was processed: the changes of a response are recorded,
/// other messages change nothing.
pub open spec fn processed(m: SyncModel, msg: MessageModel) -> SyncModel {
    match msg {
        MessageModel::Response(batch) => m.recorded_all(batch.changes),
        _ => m,
    }
}

/// Process a sync message and generate a response.
pub fn process_message(
    manager: &mut SyncManager,
    msg: &SyncMessage,
    local_offset: u64,
) -> (r: Result<SyncMessage>)
    ensures
        r is Ok,
        r->Ok_0@ == reply(old(manager)@, msg@, local_offset),
        final(manager)@ == processed(old(manager)@, msg@),
{
    match msg {
        SyncMessage::Request { offset, limit } => {
            let mut changes = manager.get_changes_since(*offset);
            let ghost all = change::changes_view(changes@);
            match limit {
                Some(n) => {
                    changes.truncate(*n);
                },
                None => {},
            }
            assert(change::changes_view(changes@) =~= limited(all, *limit));
            let new_offset: u64 = *offset + changes.len() as u64;
            let is_final = changes.is_empty() || manager.offset() <= new_offset;
            Ok(SyncMessage::Response(ChangeBatch { offset: new_offset, is_final, changes }))
        },
        SyncMessage::Response(batch) => {
            let ghost views = change::changes_view(batch.changes@);
            let mut i: usize = 0;
            assert(views.take(0) =~= Seq::<ChangeModel>::empty());
            while i < batch.changes.len()
                invariant
                    i <= batch.changes.len(),
                    views == change::changes_view(batch.changes@),
                    manager@ == old(manager)@.recorded_all(views.take(i as int)),
                decreases batch.changes.len() - i,
            {
                let _ = manager.record_change(batch.changes[i].clone());
                assert(views.take(i + 1).drop_last() =~= views.take(i as int));
                i = i + 1;
            }
            assert(views.take(i as int) =~= views);
            Ok(SyncMessage::Ack { offset: batch.offset })
        },
        SyncMessage::Ack { .. } => Ok(SyncMessage::Ack { offset: local_offset }),
        SyncMessage::Ping => Ok(SyncMessage::Pong),
        SyncMessage::Pong => Ok(SyncMessage::Ping),
    }
}

/// A batch that answers a request starts what is left to send and moves the offset
/// past it: the batch and what there is since its offset are what there was since the
/// request's offset. It is final just if nothing is left.
///
/// This holds while the log still keeps all changes since the offset.
pub proof fn batch_and_rest(m: SyncModel, offset: u64, limit: Option<usize>)
    requires
        offset <= m.offset,
        m.offset - offset <= m.changes.len(),
    ensures
        ({
            let batch = answer(m, offset, limit);
            &&& batch.changes + m.since(batch.offset) == m.since(offset)
            &&& batch.offset == offset + batch.changes.len()
            &&& batch.offset <= m.offset
            &&& limit != Some(0usize) ==> (batch.is_final <==> m.since(batch.offset).len() == 0)
        }),
{
    let batch = answer(m, offset, limit);
    assert(batch.changes + m.since(batch.offset) =~= m.since(offset));
}

/// What a peer receives that asks again from the offset of the last batch until a
/// batch is final.
pub open spec fn pages(m: SyncModel, offset: u64, limit: Option<usize>) -> Seq<ChangeModel>
    decreases m.offset - offset,
{
    let batch = answer(m, offset, limit);
    if batch.is_final || !(offset < batch.offset <= m.offset) {
        batch.changes
    } else {
        batch.changes + pages(m, batch.offset, limit)
    }
}

/// Asking for batch after batch gives all changes since the first offset, in order and
/// each once, while the log still keeps them all.
pub proof fn pages_make_up_the_whole(m: SyncModel, offset: u64, limit: Option<usize>)
    requires
        offset <= m.offset,
        m.offset - offset <= m.changes.len(),
        limit != Some(0usize),
    ensures
        pages(m, offset, limit) == m.since(offset),
    decreases m.offset - offset,
{
    batch_and_rest(m, offset, limit);
    let batch = answer(m, offset, limit);
    if batch.is_final {
        assert(batch.changes + m.since(batch.offset) =~= batch.changes);
    } else {
        pages_make_up_the_whole(m, batch.offset, limit);
    }
}

/// A batch that is sent as a response is recorded by the receiver and acknowledged
/// with its offset: a receiver at the request's offset is then at the batch's offset.
pub proof fn response_is_recorded_and_acknowledged(
    sender: SyncModel,
    receiver: SyncModel,
    limit: Option<usize>,
    local_offset: u64,
)
    requires
        receiver.offset <= sender.offset,
        sender.offset - receiver.offset <= sender.changes.len(),
        receiver.changes.len() <= receiver.max_changes,
    ensures
        ({
            let batch = answer(sender, receiver.offset, limit);
            let msg = MessageModel::Response(batch);
            let after = processed(receiver, msg);
            &&& reply(receiver, msg, local_offset) == (MessageModel::Ack { offset: batch.offset })
            &&& after.offset == batch.offset
            &&& after.changes == sync::newest(
                receiver.changes + batch.changes,
                receiver.max_changes as int,
            )
        }),
{
    batch_and_rest(sender, receiver.offset, limit);
    sync::recording_keeps_the_newest(
        receiver,
        answer(sender, receiver.offset, limit).changes,
    );
}

/// What happened on a connection that a peer opened.
#[derive(Debug)]
pub enum ServerEvent {
    /// The peer opened a stream
    Opened,
    /// The stream could not be accepted
    OpenFailed(String),
    /// The header of a frame was read
    Header([u8; 4]),
    /// The header could not be read; the peer may have closed the stream
    HeaderLost,
    /// The message could not be read
    BodyLost,
    /// The message could not be decoded
    Undecodable,
    /// A message was received
    Received(SyncMessage),
    /// The reply could not be encoded
    EncodeFailed(String),
    /// The reply was sent
    Sent,
    /// The reply could not be sent
    SendFailed(String),
    /// The stream was finished and the connection is closed
    Closed,
    /// The stream could not be finished
    FinishFailed(String),
}

/// What to do next on a connection that a peer opened.
#[derive(Debug)]
pub enum ServerAction {
    /// Read the header of the next frame
    ReadHeader,
    /// Read a message of so many bytes and decode it
    ReadBody(u32),
    /// Encode a message and send it in a frame
    Send(SyncMessage),
    /// Finish the stream and wait for the connection to close
    Finish,
    /// The connection is done
    Done,
    /// Give the connection up with an error
    Fail(Error),
}

/// What happened, free of how messages are held.
pub enum ServerEventModel {
    Opened,
    OpenFailed(Seq<char>),
    Header(Seq<u8>),
    HeaderLost,
    BodyLost,
    Undecodable,
    Received(MessageModel),
    EncodeFailed(Seq<char>),
    Sent,
    SendFailed(Seq<char>),
    Closed,
    FinishFailed(Seq<char>),
}

impl View for ServerEvent {
    type V = ServerEventModel;

    open spec fn view(&self) -> ServerEventModel {
        match self {
            ServerEvent::Opened => ServerEventModel::Opened,
            ServerEvent::OpenFailed(s) => ServerEventModel::OpenFailed(s@),
            ServerEvent::Header(b) => ServerEventModel::Header(b@),
            ServerEvent::HeaderLost => ServerEventModel::HeaderLost,
            ServerEvent::BodyLost => ServerEventModel::BodyLost,
            ServerEvent::Undecodable => ServerEventModel::Undecodable,
            ServerEvent::Received(m) => ServerEventModel::Received(m@),
            ServerEvent::EncodeFailed(s) => ServerEventModel::EncodeFailed(s@),
            ServerEvent::Sent => ServerEventModel::Sent,
            ServerEvent::SendFailed(s) => ServerEventModel::SendFailed(s@),
            ServerEvent::Closed => ServerEventModel::Closed,
            ServerEvent::FinishFailed(s) => ServerEventModel::FinishFailed(s@),
        }
    }
}

/// What to do next, free of how messages are held.
pub enum ServerActionModel {
    ReadHeader,
    ReadBody(u32),
    Send(MessageModel),
    Finish,
    Done,
    Fail(ErrorModel),
}

impl View for ServerAction {
    type V = ServerActionModel;

    open spec fn view(&self) -> ServerActionModel {
        match self {
            ServerAction::ReadHeader => ServerActionModel::ReadHeader,
            ServerAction::ReadBody(n) => ServerActionModel::ReadBody(*n),
            ServerAction::Send(m) => ServerActionModel::Send(m@),
            ServerAction::Finish => ServerActionModel::Finish,
            ServerAction::Done => ServerActionModel::Done,
            ServerAction::Fail(e) => ServerActionModel::Fail(e@),
        }
    }
}

/// A connection that a peer opened.
#[derive(Debug)]
pub struct ServerSession {
    peer_id: EndpointId,
    local_offset: u64,
}

/// What a session knows: the peer, and the offset of the log when the stream opened.
pub struct SessionModel {
    pub peer_id: Seq<u8>,
    pub local_offset: u64,
}

impl View for ServerSession {
    type V = SessionModel;

    closed spec fn view(&self) -> SessionModel {
        SessionModel { peer_id: self.peer_id@, local_offset: self.local_offset }
    }
}

/// The error for a message that is larger than allowed.
pub open spec fn too_large() -> ErrorModel {
    ErrorModel::Connection("message size exceeds maximum allowed"@)
}

/// The manager after the state of a peer was set.
pub open spec fn peer_set(m: SyncModel, peer_id: Seq<u8>, state: SyncState) -> SyncModel {
    SyncModel { peers: sync::with_state(m.peers, peer_id, state), ..m }
}

/// What a session on a connection that a peer opened does on an event.
pub open spec fn server_action(
    s: SessionModel,
    m: SyncModel,
    event: ServerEventModel,
) -> ServerActionModel {
    match event {
        ServerEventModel::Opened => ServerActionModel::ReadHeader,
        ServerEventModel::OpenFailed(text) => ServerActionModel::Fail(ErrorModel::Connection(text)),
        ServerEventModel::Header(bytes) => match header_of(bytes) {
            FrameHeader::End => ServerActionModel::Finish,
            FrameHeader::Message(n) => ServerActionModel::ReadBody(n),
            FrameHeader::TooLarge => ServerActionModel::Fail(too_large()),
        },
        ServerEventModel::HeaderLost => ServerActionModel::Finish,
        ServerEventModel::BodyLost => ServerActionModel::Finish,
        ServerEventModel::Undecodable => ServerActionModel::Finish,
        ServerEventModel::Received(msg) => ServerActionModel::Send(reply(m, msg, s.local_offset)),
        ServerEventModel::EncodeFailed(text) => ServerActionModel::Fail(ErrorModel::Encoding(text)),
        ServerEventModel::Sent => ServerActionModel::ReadHeader,
        ServerEventModel::SendFailed(text) => ServerActionModel::Fail(ErrorModel::Connection(text)),
        ServerEventModel::Closed => ServerActionModel::Done,
        ServerEventModel::FinishFailed(text) => ServerActionModel::Fail(
            ErrorModel::ConnectionClosed(text),
        ),
    }
}

/// The manager after an event on a connection that a peer opened.
pub open spec fn server_manager(
    s: SessionModel,
    m: SyncModel,
    event: ServerEventModel,
) -> SyncModel {
    match event {
        ServerEventModel::Opened => peer_set(m, s.peer_id, SyncState::Syncing),
        ServerEventModel::Received(msg) => processed(m, msg),
        ServerEventModel::Closed => peer_set(m, s.peer_id, SyncState::Synchronized),
        _ => m,
    }
}

/// The session after an event: it takes the offset of the log when the stream opens.
pub open spec fn session_after(
    s: SessionModel,
    m: SyncModel,
    opened: bool,
) -> SessionModel {
    if opened {
        SessionModel { local_offset: m.offset, ..s }
    } else {
        s
    }
}

impl ServerSession {
    /// Start a session on a connection from a peer.
    pub fn new(peer_id: EndpointId) -> (s: Self)
        ensures
            s@ == (SessionModel { peer_id: peer_id@, local_offset: 0 }),
    {
        ServerSession { peer_id, local_offset: 0 }
    }

    /// Take in what happened and decide what to do next.
    pub fn step(&mut self, manager: &mut SyncManager, event: ServerEvent) -> (action: ServerAction)
        ensures
            action@ == server_action(old(self)@, old(manager)@, event@),
            final(manager)@ == server_manager(old(self)@, old(manager)@, event@),
            final(self)@ == session_after(old(self)@, old(manager)@, event is Opened),
            old(manager)@.wf() ==> final(manager)@.wf(),
    {
        match event {
            ServerEvent::Opened => {
                manager.update_peer_state(&self.peer_id, SyncState::Syncing);
                self.local_offset = manager.offset();
                ServerAction::ReadHeader
            },
            ServerEvent::OpenFailed(text) => ServerAction::Fail(Error::Connection(text)),
            ServerEvent::Header(bytes) => match read_header(bytes) {
                FrameHeader::End => ServerAction::Finish,
                FrameHeader::Message(n) => ServerAction::ReadBody(n),
                FrameHeader::TooLarge => ServerAction::Fail(
                    Error::Connection("message size exceeds maximum allowed".to_owned()),
                ),
            },
            ServerEvent::HeaderLost => ServerAction::Finish,
            ServerEvent::BodyLost => ServerAction::Finish,
            ServerEvent::Undecodable => ServerAction::Finish,
            ServerEvent::Received(msg) => {
                proof {
                    lemma_processed_wf(manager@, msg@);
                }
                match process_message(manager, &msg, self.local_offset) {
                    Ok(response) => ServerAction::Send(response),
                    Err(e) => ServerAction::Fail(e),
                }
            },
            ServerEvent::EncodeFailed(text) => ServerAction::Fail(Error::Encoding(text)),
            ServerEvent::Sent => ServerAction::ReadHeader,
            ServerEvent::SendFailed(text) => ServerAction::Fail(Error::Connection(text)),
            ServerEvent::Closed => {
                manager.update_peer_state(&self.peer_id, SyncState::Synchronized);
                ServerAction::Done
            },
            ServerEvent::FinishFailed(text) => ServerAction::Fail(Error::ConnectionClosed(text)),
        }
    }
}

/// Recording changes does not touch the peers.
proof fn lemma_recorded_all_peers(m: SyncModel, changes: Seq<ChangeModel>)
    ensures
        m.recorded_all(changes).peers == m.peers,
    decreases changes.len(),
{
    if changes.len() > 0 {
        lemma_recorded_all_peers(m, changes.drop_last());
    }
}

/// Processing a message does not touch the peers.
proof fn lemma_processed_wf(m: SyncModel, msg: MessageModel)
    ensures
        processed(m, msg).peers == m.peers,
{
    match msg {
        MessageModel::Response(batch) => lemma_recorded_all_peers(m, batch.changes),
        _ => {},
    }
}

/// What happened on a connection that this side opened.
#[derive(Debug)]
pub enum ClientEvent {
    /// The peer could not be connected to
    ConnectFailed(String),
    /// The connection is there and a stream was opened
    Opened,
    /// The stream could not be opened
    OpenFailed(String),
    /// The request could not be encoded
    EncodeFailed(String),
    /// The request was sent
    Sent,
    /// The request, or the end of the stream, could not be sent
    SendFailed(String),
    /// The header of a frame was read
    Header([u8; 4]),
    /// The header could not be read; the peer may have closed the stream
    HeaderLost,
    /// The message could not be read
    BodyLost(String),
    /// The message could not be decoded
    Undecodable(String),
    /// A message was received
    Received(SyncMessage),
    /// The end of the stream was sent
    EndSent,
    /// The stream was finished
    Finished,
    /// The stream could not be finished
    FinishFailed(String),
}

/// What to do next on a connection that this side opened.
#[derive(Debug)]
pub enum ClientAction {
    /// Encode a message and send it in a frame
    Send(SyncMessage),
    /// Read the header of the next frame
    ReadHeader,
    /// Read a message of so many bytes and decode it
    ReadBody(u32),
    /// Send the header that ends the stream
    SendEnd([u8; 4]),
    /// Finish the stream
    Finish,
    /// Close the connection; the sync is done
    Close,
    /// Give the connection up with an error
    Fail(Error),
}

/// What happened, free of how messages are held.
pub enum ClientEventModel {
    ConnectFailed(Seq<char>),
    Opened,
    OpenFailed(Seq<char>),
    EncodeFailed(Seq<char>),
    Sent,
    SendFailed(Seq<char>),
    Header(Seq<u8>),
    HeaderLost,
    BodyLost(Seq<char>),
    Undecodable(Seq<char>),
    Received(MessageModel),
    EndSent,
    Finished,
    FinishFailed(Seq<char>),
}

impl View for ClientEvent {
    type V = ClientEventModel;

    open spec fn view(&self) -> ClientEventModel {
        match self {
            ClientEvent::ConnectFailed(s) => ClientEventModel::ConnectFailed(s@),
            ClientEvent::Opened => ClientEventModel::Opened,
            ClientEvent::OpenFailed(s) => ClientEventModel::OpenFailed(s@),
            ClientEvent::EncodeFailed(s) => ClientEventModel::EncodeFailed(s@),
            ClientEvent::Sent => ClientEventModel::Sent,
            ClientEvent::SendFailed(s) => ClientEventModel::SendFailed(s@),
            ClientEvent::Header(b) => ClientEventModel::Header(b@),
            ClientEvent::HeaderLost => ClientEventModel::HeaderLost,
            ClientEvent::BodyLost(s) => ClientEventModel::BodyLost(s@),
            ClientEvent::Undecodable(s) => ClientEventModel::Undecodable(s@),
            ClientEvent::Received(m) => ClientEventModel::Received(m@),
            ClientEvent::EndSent => ClientEventModel::EndSent,
            ClientEvent::Finished => ClientEventModel::Finished,
            ClientEvent::FinishFailed(s) => ClientEventModel::FinishFailed(s@),
        }
    }
}

/// What to do next, free of how messages are held.
pub enum ClientActionModel {
    Send(MessageModel),
    ReadHeader,
    ReadBody(u32),
    SendEnd(Seq<u8>),
    Finish,
    Close,
    Fail(ErrorModel),
}

impl View for ClientAction {
    type V = ClientActionModel;

    open spec fn view(&self) -> ClientActionModel {
        match self {
            ClientAction::Send(m) => ClientActionModel::Send(m@),
            ClientAction::ReadHeader => ClientActionModel::ReadHeader,
            ClientAction::ReadBody(n) => ClientActionModel::ReadBody(*n),
            ClientAction::SendEnd(b) => ClientActionModel::SendEnd(b@),
            ClientAction::Finish => ClientActionModel::Finish,
            ClientAction::Close => ClientActionModel::Close,
            ClientAction::Fail(e) => ClientActionModel::Fail(e@),
        }
    }
}

/// A connection that this side opened.
#[derive(Debug)]
pub struct ClientSession {
    peer_id: EndpointId,
}

impl View for ClientSession {
    type V = Seq<u8>;

    closed spec fn view(&self) -> Seq<u8> {
        self.peer_id@
    }
}

/// What a session on a connection that this side opened does on an event.
pub open spec fn client_action(m: SyncModel, event: ClientEventModel) -> ClientActionModel {
    match event {
        ClientEventModel::ConnectFailed(text) => ClientActionModel::Fail(
            ErrorModel::Connection(text),
        ),
        ClientEventModel::Opened => ClientActionModel::Send(
            MessageModel::Request { offset: m.offset, limit: Some(REQUEST_LIMIT) },
        ),
        ClientEventModel::OpenFailed(text) => ClientActionModel::Fail(ErrorModel::Connection(text)),
        ClientEventModel::EncodeFailed(text) => ClientActionModel::Fail(ErrorModel::Encoding(text)),
        ClientEventModel::Sent => ClientActionModel::ReadHeader,
        ClientEventModel::SendFailed(text) => ClientActionModel::Fail(ErrorModel::Connection(text)),
        ClientEventModel::Header(bytes) => match header_of(bytes) {
            FrameHeader::End => ClientActionModel::SendEnd(be_bytes(0)),
            FrameHeader::Message(n) => ClientActionModel::ReadBody(n),
            FrameHeader::TooLarge => ClientActionModel::Fail(too_large()),
        },
        ClientEventModel::HeaderLost => ClientActionModel::SendEnd(be_bytes(0)),
        ClientEventModel::BodyLost(text) => ClientActionModel::Fail(ErrorModel::Connection(text)),
        ClientEventModel::Undecodable(text) => ClientActionModel::Fail(ErrorModel::Encoding(text)),
        ClientEventModel::Received(msg) => match msg {
            MessageModel::Ack { .. } => ClientActionModel::SendEnd(be_bytes(0)),
            _ => ClientActionModel::ReadHeader,
        },
        ClientEventModel::EndSent => ClientActionModel::Finish,
        ClientEventModel::Finished => ClientActionModel::Close,
        ClientEventModel::FinishFailed(text) => ClientActionModel::Fail(
            ErrorModel::ConnectionClosed(text),
        ),
    }
}

/// The manager after an event on a connection that this side opened.
pub open spec fn client_manager(
    peer_id: Seq<u8>,
    m: SyncModel,
    event: ClientEventModel,
) -> SyncModel {
    match event {
        ClientEventModel::Opened => peer_set(m, peer_id, SyncState::Syncing),
        ClientEventModel::Received(MessageModel::Response(batch)) => SyncModel {
            offset: sync::raised(m.offset, batch.changes),
            ..m
        },
        ClientEventModel::Finished => peer_set(m, peer_id, SyncState::Synchronized),
        _ => m,
    }
}

/// How many changes an event brings.
pub open spec fn changes_brought(event: ClientEventModel) -> nat {
    match event {
        ClientEventModel::Received(MessageModel::Response(batch)) => batch.changes.len(),
        _ => 0,
    }
}

impl ClientSession {
    /// Start a session with a peer.
    pub fn new(peer_id: EndpointId) -> (s: Self)
        ensures
            s@ == peer_id@,
    {
        ClientSession { peer_id }
    }

    /// Take in what happened and decide what to do next.
    pub fn step(&mut self, manager: &mut SyncManager, event: ClientEvent) -> (action: ClientAction)
        requires
            old(manager)@.offset + changes_brought(event@) <= u64::MAX,
        ensures
            action@ == client_action(old(manager)@, event@),
            final(manager)@ == client_manager(old(self)@, old(manager)@, event@),
            final(self)@ == old(self)@,
            old(manager)@.wf() ==> final(manager)@.wf(),
    {
        match event {
            ClientEvent::ConnectFailed(text) => ClientAction::Fail(Error::Connection(text)),
            ClientEvent::Opened => {
                manager.update_peer_state(&self.peer_id, SyncState::Syncing);
                ClientAction::Send(
                    SyncMessage::Request { offset: manager.offset(), limit: Some(REQUEST_LIMIT) },
                )
            },
            ClientEvent::OpenFailed(text) => ClientAction::Fail(Error::Connection(text)),
            ClientEvent::EncodeFailed(text) => ClientAction::Fail(Error::Encoding(text)),
            ClientEvent::Sent => ClientAction::ReadHeader,
            ClientEvent::SendFailed(text) => ClientAction::Fail(Error::Connection(text)),
            ClientEvent::Header(bytes) => match read_header(bytes) {
                FrameHeader::End => ClientAction::SendEnd(write_header(0)),
                FrameHeader::Message(n) => ClientAction::ReadBody(n),
                FrameHeader::TooLarge => ClientAction::Fail(
                    Error::Connection("message size exceeds maximum allowed".to_owned()),
                ),
            },
            ClientEvent::HeaderLost => ClientAction::SendEnd(write_header(0)),
            ClientEvent::BodyLost(text) => ClientAction::Fail(Error::Connection(text)),
            ClientEvent::Undecodable(text) => ClientAction::Fail(Error::Encoding(text)),
            ClientEvent::Received(msg) => match msg {
                SyncMessage::Response(batch) => match manager.apply_changes(batch.changes) {
                    Ok(_) => ClientAction::ReadHeader,
                    Err(e) => ClientAction::Fail(e),
                },
                SyncMessage::Ack { .. } => ClientAction::SendEnd(write_header(0)),
                _ => ClientAction::ReadHeader,
            },
            ClientEvent::EndSent => ClientAction::Finish,
            ClientEvent::Finished => {
                manager.update_peer_state(&self.peer_id, SyncState::Synchronized);
                ClientAction::Close
            },
            ClientEvent::FinishFailed(text) => ClientAction::Fail(Error::ConnectionClosed(text)),
        }
    }
}

/// A session that comes to its end leaves the peer synchronized, on either side.
pub proof fn finished_session_is_synchronized(m: SyncModel, s: SessionModel)
    requires
        m.wf(),
    ensures
        assoc::lookup(
            server_manager(s, m, ServerEventModel::Closed).peers,
            common::base64_of(s.peer_id),
        )->0.state == SyncState::Synchronized,
        assoc::lookup(
            client_manager(s.peer_id, m, ClientEventModel::Finished).peers,
            common::base64_of(s.peer_id),
        )->0.state == SyncState::Synchronized,
{
    sync::set_state_is_seen(m, s.peer_id, SyncState::Synchronized);
}

/// What a request is answered with: the changes since its offset that the log still keeps,
/// in order, from the first on and no more than its limit; how far these reach; and whether
/// nothing is left to ask for. The log does not change.
pub proof fn request_is_answered_with_the_changes_since(
    m: &mut SyncManager,
    offset: u64,
    limit: Option<usize>,
    local_offset: u64,
    r: Result<SyncMessage>,
)
    requires
        call_ensures(
            process_message,
            (m, &SyncMessage::Request { offset, limit }, local_offset),
            r,
        ),
        offset <= old(m)@.offset,
    ensures
        r is Ok,
        r->Ok_0 is Response,
        final(m)@ == old(m)@,
        ({
            let batch = r->Ok_0->Response_0;
            let all = old(m)@.changes;
            let behind = old(m)@.offset - offset;
            let there = if behind < all.len() { behind } else { all.len() as int };
            let given = if limit is Some && limit->0 < there { limit->0 as int } else { there };
            &&& batch.changes@.len() == given
            &&& forall|i: int|
                0 <= i < given ==> (#[trigger] batch.changes@[i])@ == all[all.len() - there + i]
            &&& batch.offset == offset + given
            &&& batch.is_final <==> given == 0 || offset + given >= old(m)@.offset
        }),
{
    let msg = SyncMessage::Request { offset, limit };
    let batch = r->Ok_0->Response_0;
    assert(r->Ok_0@ == reply(old(m)@, msg@, local_offset));
    assert(r->Ok_0 is Response);
    let views = change::changes_view(batch.changes@);
    assert(views == answer(old(m)@, offset, limit).changes);
    assert forall|i: int| 0 <= i < views.len() implies (#[trigger] batch.changes@[i])@ == views[i] by {}
}

/// A request for more than there is, from an offset that the log has not reached, is
/// answered with no changes, as the last answer.
pub proof fn peer_that_is_ahead_gets_nothing(
    m: &mut SyncManager,
    offset: u64,
    limit: Option<usize>,
    local_offset: u64,
    r: Result<SyncMessage>,
)
    requires
        call_ensures(
            process_message,
            (m, &SyncMessage::Request { offset, limit }, local_offset),
            r,
        ),
        offset >= old(m)@.offset,
    ensures
        r is Ok,
        r->Ok_0 is Response,
        r->Ok_0->Response_0.changes@.len() == 0,
        r->Ok_0->Response_0.offset == offset,
        r->Ok_0->Response_0.is_final,
        final(m)@ == old(m)@,
{
    let msg = SyncMessage::Request { offset, limit };
    assert(r->Ok_0@ == reply(old(m)@, msg@, local_offset));
    assert(r->Ok_0 is Response);
    let batch = r->Ok_0->Response_0;
    assert(change::changes_view(batch.changes@) == answer(old(m)@, offset, limit).changes);
    assert(change::changes_view(batch.changes@).len() == batch.changes@.len());
}

/// How the other messages are answered: a response with an acknowledgment of its offset, an
/// acknowledgment with one of our own offset, and a sign of life with another. Only the
/// changes of a response are recorded, each one and in order.
pub proof fn other_messages_are_answered(
    m: &mut SyncManager,
    msg: SyncMessage,
    local_offset: u64,
    r: Result<SyncMessage>,
)
    requires
        call_ensures(process_message, (m, &msg, local_offset), r),
        !(msg is Request),
        old(m)@.changes.len() <= old(m)@.max_changes,
        msg is Response ==> old(m)@.offset + msg->Response_0.changes@.len() <= u64::MAX,
    ensures
        r is Ok,
        msg is Response ==> r->Ok_0 == (SyncMessage::Ack { offset: msg->Response_0.offset }),
        msg is Ack ==> r->Ok_0 == (SyncMessage::Ack { offset: local_offset }),
        msg is Ping ==> r->Ok_0 is Pong,
        msg is Pong ==> r->Ok_0 is Ping,
        !(msg is Response) ==> final(m)@ == old(m)@,
        msg is Response ==> {
            let more = msg->Response_0.changes@;
            let all = old(m)@.changes.len() + more.len();
            let after = final(m)@;
            &&& after.offset == old(m)@.offset + more.len()
            &&& after.peers == old(m)@.peers
            &&& after.max_changes == old(m)@.max_changes
            &&& after.changes.len() == if all <= after.max_changes { all } else { after.max_changes }
            &&& forall|i: int|
                0 <= i < more.len() && more.len() - i <= after.changes.len() ==> after.changes[after.changes.len() - more.len() + i] == (#[trigger] more[i])@
        },
{
    match msg {
        SyncMessage::Response(batch) => {
            let views = change::changes_view(batch.changes@);
            assert(msg@ == MessageModel::Response(batch@));
            sync::recording_keeps_the_newest(old(m)@, views);
            assert(r->Ok_0@ == (MessageModel::Ack { offset: batch.offset }));
            let more = batch.changes@;
            assert forall|i: int|
                0 <= i < more.len() && more.len() - i <= final(m)@.changes.len() implies
                final(m)@.changes[final(m)@.changes.len() - more.len() + i] == (#[trigger] more[i])@ by {
                assert(views[i] == more[i]@);
            }
        },
        _ => {},
    }
}

/// A client asks a peer for what it lacks: its request names the offset of its own log and
/// a thousand changes at most. So the answer of the peer holds the changes that the peer
/// has recorded since that offset, from the first on and no more than a thousand of them,
/// and peers at the same offset exchange no changes.
pub proof fn client_gets_what_it_lacks(
    client: &mut ClientSession,
    mine: &mut SyncManager,
    request: ClientAction,
    server: &mut ServerSession,
    theirs: &mut SyncManager,
    msg: SyncMessage,
    answer: ServerAction,
)
    requires
        call_ensures(ClientSession::step, (client, mine, ClientEvent::Opened), request),
        request is Send,
        msg@ == request->Send_0@,
        call_ensures(ServerSession::step, (server, theirs, ServerEvent::Received(msg)), answer),
    ensures
        answer is Send,
        answer->Send_0 is Response,
        final(theirs)@ == old(theirs)@,
        ({
            let batch = answer->Send_0->Response_0;
            let all = old(theirs)@.changes;
            let behind = old(theirs)@.offset - old(mine)@.offset;
            let there = if behind <= 0 {
                0
            } else if behind < all.len() {
                behind
            } else {
                all.len() as int
            };
            let given = if there > 1000 { 1000 } else { there };
            &&& batch.changes@.len() == given
            &&& forall|i: int|
                0 <= i < given ==> (#[trigger] batch.changes@[i])@ == all[all.len() - there + i]
            &&& batch.offset == old(mine)@.offset + given
            &&& batch.is_final <==> given == 0 || batch.offset >= old(theirs)@.offset
            &&& old(mine)@.offset == old(theirs)@.offset ==> batch.changes@.len() == 0
        }),
{
    let first = ClientEvent::Opened;
    let received = ServerEvent::Received(msg);
    assert(first@ == ClientEventModel::Opened);
    assert(received@ == ServerEventModel::Received(msg@));
    assert(request@ == ClientActionModel::Send(request->Send_0@));
    assert(answer is Send);
    let reply = answer->Send_0;
    assert(answer@ == ServerActionModel::Send(reply@));
    assert(reply is Response);
    let batch = reply->Response_0;
    let views = change::changes_view(batch.changes@);
    assert(views == self::answer(old(theirs)@, old(mine)@.offset, Some(REQUEST_LIMIT)).changes);
    assert(views.len() == batch.changes@.len());
    assert forall|i: int| 0 <= i < views.len() implies (#[trigger] batch.changes@[i])@ == views[i] by {}
}

/// Opening a session sends a request on the client's side and waits for one on the
/// server's; either side counts the other as syncing from then on, and neither log changes.
pub proof fn opening_starts_the_sync(
    client: &mut ClientSession,
    mine: &mut SyncManager,
    first: ClientAction,
    server: &mut ServerSession,
    theirs: &mut SyncManager,
    waits: ServerAction,
)
    requires
        call_ensures(ClientSession::step, (client, mine, ClientEvent::Opened), first),
        call_ensures(ServerSession::step, (server, theirs, ServerEvent::Opened), waits),
        old(mine)@.wf(),
        old(theirs)@.wf(),
    ensures
        first is Send,
        first->Send_0 == (SyncMessage::Request {
            offset: old(mine)@.offset,
            limit: Some(1000usize),
        }),
        waits is ReadHeader,
        final(mine)@.offset == old(mine)@.offset,
        final(mine)@.changes == old(mine)@.changes,
        final(theirs)@.offset == old(theirs)@.offset,
        final(theirs)@.changes == old(theirs)@.changes,
        assoc::lookup(final(mine)@.peers, common::base64_of(old(client)@)) is Some,
        assoc::lookup(final(mine)@.peers, common::base64_of(old(client)@))->0.state is Syncing,
        assoc::lookup(final(theirs)@.peers, common::base64_of(old(server)@.peer_id)) is Some,
        assoc::lookup(
            final(theirs)@.peers,
            common::base64_of(old(server)@.peer_id),
        )->0.state is Syncing,
        final(server)@.local_offset == old(theirs)@.offset,
        final(server)@.peer_id == old(server)@.peer_id,
{
    let opened = ClientEvent::Opened;
    let accepted = ServerEvent::Opened;
    assert(opened@ == ClientEventModel::Opened);
    assert(accepted@ == ServerEventModel::Opened);
    assert(first is Send);
    assert(first@ == ClientActionModel::Send(first->Send_0@));
    sync::set_state_is_seen(old(mine)@, old(client)@, SyncState::Syncing);
    sync::set_state_is_seen(old(theirs)@, old(server)@.peer_id, SyncState::Syncing);
}

/// A header is read as it was written, highest byte first: zero ends the stream, a length
/// of up to sixteen megabytes is that of a message, and a greater one is refused.
pub proof fn header_holds_the_length(bytes: [u8; 4], h: FrameHeader, len: usize, out: [u8; 4])
    requires
        call_ensures(read_header, (bytes,), h),
        call_ensures(write_header, (len,), out),
        len < 0x1_0000_0000,
    ensures
        ({
            let n = bytes[0] * 0x100_0000 + bytes[1] * 0x1_0000 + bytes[2] * 0x100 + bytes[3];
            &&& n == 0 <==> h is End
            &&& 0 < n <= 16_777_216 <==> h is Message
            &&& h is Message ==> h->Message_0 == n
            &&& n > 16_777_216 <==> h is TooLarge
        }),
        out[0] * 0x100_0000 + out[1] * 0x1_0000 + out[2] * 0x100 + out[3] == len,
{
    assert(out@ == be_bytes(len as u32));
    lemma_be_bytes(len as u32);
}

/// A frame is the length of the message in four bytes, highest byte first, and the message
/// itself.
pub proof fn frame_is_length_and_message(message: Vec<u8>, bytes: Vec<u8>)
    requires
        call_ensures(frame, (&message,), bytes),
        message@.len() < 0x1_0000_0000,
    ensures
        bytes@.len() == 4 + message@.len(),
        bytes@[0] * 0x100_0000 + bytes@[1] * 0x1_0000 + bytes@[2] * 0x100 + bytes@[3]
            == message@.len(),
        forall|i: int| 0 <= i < message@.len() ==> bytes@[4 + i] == #[trigger] message@[i],
{
    let n = message@.len() as u32;
    assert(bytes@ == be_bytes(n) + message@);
    lemma_be_bytes(n);
    assert(bytes@.take(4) =~= be_bytes(n));
    assert forall|k: int| 0 <= k < 4 implies bytes@[k] == be_bytes(n)[k] by {}
}

/// What a server does on each event: it reads a header after the stream opened and after
/// each reply; a message of the length that the header says; it replies to what it received
/// as any message is replied to; it finishes the stream at its end, and where a message is
/// lost or cannot be decoded; and it gives the connection up on a message that is too large
/// and where it can no longer send.
pub proof fn server_goes_from_event_to_event(
    s: &mut ServerSession,
    m: &mut SyncManager,
    event: ServerEvent,
    action: ServerAction,
)
    requires
        call_ensures(ServerSession::step, (s, m, event), action),
    ensures
        action is ReadHeader <==> event is Opened || event is Sent,
        event is Header ==> {
            let b = event->Header_0;
            let n = b[0] * 0x100_0000 + b[1] * 0x1_0000 + b[2] * 0x100 + b[3];
            &&& n == 0 ==> action is Finish
            &&& 0 < n <= 16_777_216 ==> action is ReadBody && action->ReadBody_0 == n
            &&& n > 16_777_216 ==> action is Fail && action->Fail_0 is Connection
        },
        event is HeaderLost || event is BodyLost || event is Undecodable ==> action is Finish,
        event is Received <==> action is Send,
        event is Closed <==> action is Done,
        event is OpenFailed || event is SendFailed ==> action is Fail && action->Fail_0 is Connection,
        event is EncodeFailed ==> action is Fail && action->Fail_0 is Encoding,
        event is FinishFailed ==> action is Fail && action->Fail_0 is ConnectionClosed,
        !(event is Received) ==> final(m)@.offset == old(m)@.offset && final(m)@.changes
            == old(m)@.changes,
        !(event is Opened || event is Closed) ==> final(m)@.peers == old(m)@.peers,
        final(s)@.peer_id == old(s)@.peer_id,
        event is Opened ==> final(s)@.local_offset == old(m)@.offset,
        !(event is Opened) ==> final(s)@.local_offset == old(s)@.local_offset,
{
    match event {
        ServerEvent::Received(msg) => {
            lemma_processed_wf(old(m)@, msg@);
        },
        _ => {},
    }
}

/// What a client does on each event: it reads a header after it sent its request and after
/// each message but an acknowledgment; a message of the length that the header says; it
/// ends the stream with four zero bytes after an acknowledgment, and where the peer has
/// nothing more; it finishes and closes; and it gives the connection up, with the reason,
/// where something fails.
pub proof fn client_goes_from_event_to_event(
    s: &mut ClientSession,
    m: &mut SyncManager,
    event: ClientEvent,
    action: ClientAction,
)
    requires
        call_ensures(ClientSession::step, (s, m, event), action),
        old(m)@.offset + changes_brought(event@) <= u64::MAX,
    ensures
        event is Opened <==> action is Send,
        event is Sent ==> action is ReadHeader,
        event is Header ==> {
            let b = event->Header_0;
            let n = b[0] * 0x100_0000 + b[1] * 0x1_0000 + b[2] * 0x100 + b[3];
            &&& n == 0 ==> action is SendEnd
            &&& 0 < n <= 16_777_216 ==> action is ReadBody && action->ReadBody_0 == n
            &&& n > 16_777_216 ==> action is Fail && action->Fail_0 is Connection
        },
        event is HeaderLost ==> action is SendEnd,
        event is Received && event->Received_0 is Ack ==> action is SendEnd,
        event is Received && !(event->Received_0 is Ack) ==> action is ReadHeader,
        action is SendEnd ==> action->SendEnd_0@ == seq![0u8, 0u8, 0u8, 0u8],
        event is EndSent <==> action is Finish,
        event is Finished <==> action is Close,
        event is ConnectFailed || event is OpenFailed || event is SendFailed || event is BodyLost
            ==> action is Fail && action->Fail_0 is Connection,
        event is EncodeFailed || event is Undecodable ==> action is Fail
            && action->Fail_0 is Encoding,
        event is FinishFailed ==> action is Fail && action->Fail_0 is ConnectionClosed,
        event is ConnectFailed ==> action->Fail_0->Connection_0@ == event->ConnectFailed_0@,
        event is SendFailed ==> action->Fail_0->Connection_0@ == event->SendFailed_0@,
        event is BodyLost ==> action->Fail_0->Connection_0@ == event->BodyLost_0@,
        event is Undecodable ==> action->Fail_0->Encoding_0@ == event->Undecodable_0@,
        final(m)@.changes == old(m)@.changes,
        final(m)@.max_changes == old(m)@.max_changes,
        !(event is Opened || event is Finished) ==> final(m)@.peers == old(m)@.peers,
        !(event is Received && event->Received_0 is Response) ==> final(m)@.offset
            == old(m)@.offset,
{
    if action is SendEnd {
        assert(be_bytes(0) =~= seq![0u8, 0u8, 0u8, 0u8]);
        assert(action@ == ClientActionModel::SendEnd(action->SendEnd_0@));
    }
}

/// A client that receives changes raises its offset to the greatest sequence number among
/// them, unless it is there already.
pub proof fn client_catches_up(
    s: &mut ClientSession,
    m: &mut SyncManager,
    batch: ChangeBatch,
    action: ClientAction,
)
    requires
        call_ensures(
            ClientSession::step,
            (s, m, ClientEvent::Received(SyncMessage::Response(batch))),
            action,
        ),
        old(m)@.offset + batch.changes@.len() <= u64::MAX,
    ensures
        final(m)@.offset >= old(m)@.offset,
        forall|i: int|
            0 <= i < batch.changes@.len() ==> final(m)@.offset >= sync::change_sequence(
                (#[trigger] batch.changes@[i])@,
            ),
        final(m)@.offset == old(m)@.offset || exists|i: int|
            0 <= i < batch.changes@.len() && final(m)@.offset == sync::change_sequence(
                (#[trigger] batch.changes@[i])@,
            ),
{
    let msg = SyncMessage::Response(batch);
    let event = ClientEvent::Received(msg);
    assert(event@ == ClientEventModel::Received(msg@));
    let views = change::changes_view(batch.changes@);
    sync::applying_raises_the_offset(old(m)@.offset, views);
    assert forall|i: int| 0 <= i < batch.changes@.len() implies final(m)@.offset
        >= sync::change_sequence((#[trigger] batch.changes@[i])@) by {
        assert(views[i] == batch.changes@[i]@);
    }
    if final(m)@.offset != old(m)@.offset {
        let i = choose|i: int|
            0 <= i < views.len() && sync::raised(old(m)@.offset, views) == sync::change_sequence(
                #[trigger] views[i],
            );
        assert(views[i] == batch.changes@[i]@);
    }
}

/// A server answers the other messages too: changes that a peer sends are recorded, in
/// order, and acknowledged with their offset; an acknowledgment with the offset that the log
/// had when the stream opened; and a sign of life with another.
pub proof fn server_answers_each_message(
    s: &mut ServerSession,
    m: &mut SyncManager,
    msg: SyncMessage,
    action: ServerAction,
)
    requires
        call_ensures(ServerSession::step, (s, m, ServerEvent::Received(msg)), action),
        !(msg is Request),
        old(m)@.changes.len() <= old(m)@.max_changes,
        msg is Response ==> old(m)@.offset + msg->Response_0.changes@.len() <= u64::MAX,
    ensures
        action is Send,
        msg is Response ==> action->Send_0 == (SyncMessage::Ack {
            offset: msg->Response_0.offset,
        }),
        msg is Response ==> final(m)@.offset == old(m)@.offset + msg->Response_0.changes@.len(),
        msg is Response && old(m)@.changes.len() + msg->Response_0.changes@.len()
            <= old(m)@.max_changes ==> final(m)@.changes == old(m)@.changes
            + change::changes_view(msg->Response_0.changes@),
        msg is Ack ==> action->Send_0 == (SyncMessage::Ack { offset: old(s)@.local_offset }),
        msg is Ping ==> action->Send_0 is Pong,
        msg is Pong ==> action->Send_0 is Ping,
        !(msg is Response) ==> final(m)@ == old(m)@,
{
    let event = ServerEvent::Received(msg);
    assert(event@ == ServerEventModel::Received(msg@));
    assert(action is Send);
    assert(action@ == ServerActionModel::Send(action->Send_0@));
    match msg {
        SyncMessage::Response(batch) => {
            assert(msg@ == MessageModel::Response(batch@));
            sync::recording_keeps_the_newest(old(m)@, change::changes_view(batch.changes@));
        },
        _ => {},
    }
}

/// When a session is over, either side counts the other as synchronized; the logs stay.
pub proof fn session_ends_synchronized(
    client: &mut ClientSession,
    mine: &mut SyncManager,
    closes: ClientAction,
    server: &mut ServerSession,
    theirs: &mut SyncManager,
    done: ServerAction,
)
    requires
        call_ensures(ClientSession::step, (client, mine, ClientEvent::Finished), closes),
        call_ensures(ServerSession::step, (server, theirs, ServerEvent::Closed), done),
        old(mine)@.wf(),
        old(theirs)@.wf(),
    ensures
        closes is Close,
        done is Done,
        assoc::lookup(final(mine)@.peers, common::base64_of(old(client)@)) is Some,
        assoc::lookup(
            final(mine)@.peers,
            common::base64_of(old(client)@),
        )->0.state is Synchronized,
        assoc::lookup(final(theirs)@.peers, common::base64_of(old(server)@.peer_id)) is Some,
        assoc::lookup(
            final(theirs)@.peers,
            common::base64_of(old(server)@.peer_id),
        )->0.state is Synchronized,
        final(mine)@.changes == old(mine)@.changes && final(mine)@.offset == old(mine)@.offset,
        final(theirs)@.changes == old(theirs)@.changes && final(theirs)@.offset
            == old(theirs)@.offset,
{
    let finished = ClientEvent::Finished;
    let closed = ServerEvent::Closed;
    assert(finished@ == ClientEventModel::Finished);
    assert(closed@ == ServerEventModel::Closed);
    sync::set_state_is_seen(old(mine)@, old(client)@, SyncState::Synchronized);
    sync::set_state_is_seen(old(theirs)@, old(server)@.peer_id, SyncState::Synchronized);
}

/// The protocol is known by the name `surrealdb/iroh-sync/1`.
pub proof fn protocol_has_a_name(i: int)
    requires
        0 <= i < 21,
    ensures
        "surrealdb/iroh-sync/1"@.len() == 21,
        ALPN@[i] == "surrealdb/iroh-sync/1"@[i] as u8,
{
    reveal_strlit("surrealdb/iroh-sync/1");
}

}
