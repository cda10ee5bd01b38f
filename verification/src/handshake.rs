//! The handshake as a state machine: from the state of a session and what the
//! stream reported, to the next state and what to do on the stream.
//!
//! The library never touches the stream. The caller performs each `Action`
//! and reports how it went as an `Event`.

use chrono::{DateTime, Utc};
use vstd::prelude::*;
use vstd::utf8::encode_utf8;

use crate::messages::{
    checksum, get_checksum, HeaderFields, MessageHeader, VersionFields, VersionMessagePayload,
};
use crate::endian::{be_value, Endianess};
use crate::ipv4::{ipv4_mapped, ipv4_octets};
use crate::types::{
    BigEndian, HandshakeError, HeaderCommand, LittleEndian, MagicBytes, NodeAddress,
    NodeInformation, UInt,
};

verus! {

/// The protocol version that this node speaks.
pub const PROTOCOL_VERSION: u32 = 70015;

/// The port of the main network.
pub const MAINNET_PORT: u16 = 8333;

/// The length of a message header.
pub const HEADER_MESSAGE_LENGTH: usize = 24;

/// Seconds since the Unix epoch: the system clock, turned into a date by
/// chrono's `DateTime::<Utc>::from` and into seconds by `DateTime::timestamp`.
/// A clock that stands before 1970 gives a negative number. Nothing is known
/// of the value.
#[verifier::external_body]
fn unix_time_now() -> i64 {
    DateTime::<Utc>::from(std::time::SystemTime::now()).timestamp()
}

/// The 64 bits that a signed number of seconds is written as: the number
/// itself, or for a negative one its distance from 2^64.
pub fn timestamp_bits(seconds: i64) -> (bits: u64)
    ensures
        seconds >= 0 ==> bits == seconds,
        seconds < 0 ==> bits == seconds + 0x1_0000_0000_0000_0000,
{
    if seconds >= 0 {
        seconds as u64
    } else {
        let below: u64 = (-(seconds + 1)) as u64;
        u64::MAX - below
    }
}

/// What one end of a handshake is set up with.
#[derive(Debug, Clone, Copy, PartialEq, Eq)]
pub struct HandshakeConfig {
    /// The protocol version to announce.
    pub protocol_version: u32,
    /// The remote peer.
    pub receiver: NodeInformation,
    /// The local node.
    pub sender: NodeInformation,
    /// How many messages other than `verack` are let pass while the peer's
    /// `verack` is awaited. One is always let pass: a bound of 0 counts as 1.
    pub max_skipped: u32,
}

/// How many messages other than `verack` a session lets pass by default.
pub const MAX_SKIPPED_MESSAGES: u32 = 16;

/// The record of a node of the main network that offers no services and
/// stands at the IPv4 address `octets`.
pub open spec fn mainnet_node(octets: Seq<u8>) -> NodeAddress {
    NodeAddress {
        services: 0,
        ip_address: be_value(ipv4_mapped(octets)),
        port: MAINNET_PORT as nat,
    }
}

impl HandshakeConfig {
    /// How many messages other than `verack` a session with this set-up lets
    /// pass: `max_skipped`, and 1 where that is 0.
    pub open spec fn tolerated(self) -> u32 {
        if self.max_skipped == 0 {
            1
        } else {
            self.max_skipped
        }
    }

    /// How many messages other than `verack` a session with this set-up lets
    /// pass.
    pub fn tolerance(&self) -> (bound: u32)
        ensures
            bound == self.tolerated(),
            bound >= 1,
    {
        if self.max_skipped == 0 {
            1
        } else {
            self.max_skipped
        }
    }

    /// The set-up of a handshake on the main network between the local node
    /// at `local_ip` and the peer at `remote_ip`, both dotted-decimal IPv4
    /// addresses. `AddressParseError` where one of them is none.
    pub fn mainnet(remote_ip: &str, local_ip: &str) -> (r: Result<Self, HandshakeError>)
        ensures
            match r {
                Ok(config) => {
                    &&& ipv4_octets(encode_utf8(remote_ip@)) matches Some(remote)
                    &&& ipv4_octets(encode_utf8(local_ip@)) matches Some(local)
                    &&& config.protocol_version == PROTOCOL_VERSION
                    &&& config.receiver@ == mainnet_node(remote)
                    &&& config.sender@ == mainnet_node(local)
                    &&& config.max_skipped == MAX_SKIPPED_MESSAGES
                },
                Err(e) => e == HandshakeError::AddressParseError && (ipv4_octets(
                    encode_utf8(remote_ip@),
                ) is None || ipv4_octets(encode_utf8(local_ip@)) is None),
            },
    {
        let receiver = match NodeInformation::new(0, remote_ip, MAINNET_PORT) {
            Ok(node) => node,
            Err(e) => {
                return Err(e);
            },
        };
        let sender = match NodeInformation::new(0, local_ip, MAINNET_PORT) {
            Ok(node) => node,
            Err(e) => {
                return Err(e);
            },
        };
        Ok(
            HandshakeConfig {
                protocol_version: PROTOCOL_VERSION,
                receiver,
                sender,
                max_skipped: MAX_SKIPPED_MESSAGES,
            },
        )
    }
}

/// The header that announces `payload` under `command`: the main network,
/// the length of the payload and its checksum.
pub open spec fn header_for(command: HeaderCommand, payload: Seq<u8>) -> HeaderFields {
    HeaderFields {
        magic: MagicBytes::Mainnet,
        command,
        size: payload.len(),
        checksum: checksum(payload),
    }
}

/// The version payload that a node with `config` sends at `timestamp`: no
/// services, an empty user agent, start height 0.
pub open spec fn version_fields(config: HandshakeConfig, timestamp: u64, nonce: u64)
    -> VersionFields {
    VersionFields {
        protocol_version: config.protocol_version as nat,
        services: Seq::new(8, |i: int| 0u8),
        timestamp: timestamp as nat,
        receiver: config.receiver@,
        sender: config.sender@,
        nonce: nonce as nat,
        user_agent_size: 0,
        user_agent: Seq::empty(),
        start_height: 0,
    }
}

/// Builds the header of a message from its command and payload.
pub fn get_version_message_header(command: HeaderCommand, payload: &Vec<u8>) -> (header:
    MessageHeader)
    requires
        payload@.len() <= u32::MAX,
    ensures
        header@ == header_for(command, payload@),
        header@.describes(payload@),
{
    let size: u32 = payload.len() as u32;
    let size = UInt::<LittleEndian, 4>::new(size);
    let checksum = get_checksum(payload);

    MessageHeader::new(MagicBytes::Mainnet, command, size, checksum)
}

/// The version payload that a node with `config` sends at `timestamp`.
pub fn version_payload(config: &HandshakeConfig, timestamp: u64, nonce: u64) -> (payload:
    VersionMessagePayload)
    ensures
        payload@ == version_fields(*config, timestamp, nonce),
        payload@.valid(),
        payload@.wire().len() == 85,
{
    let protocol_version = UInt::<LittleEndian, 4>::new(config.protocol_version);
    let services: [u8; 8] = [0; 8];
    let time = UInt::<LittleEndian, 8>::new(timestamp);
    let nonce = UInt::<LittleEndian, 8>::new(nonce);
    let user_agent: [u8; 1] = [0; 1];
    let last_block = UInt::<LittleEndian, 4>::new(0);

    let message = VersionMessagePayload::new(
        protocol_version,
        services,
        time,
        config.receiver,
        config.sender,
        nonce,
        user_agent,
        String::new(),
        last_block,
    );
    proof {
        assert(services@ =~= Seq::new(8, |i: int| 0u8));
        assert(encode_utf8(Seq::<char>::empty()).len() == 0);
        crate::messages::lemma_version_round_trip(message@);
    }
    message
}

/// The version payload that a node with `config` sends now. The timestamp
/// is what the clock reads; everything else is as `version_payload` says.
pub fn get_payload_message_header(config: &HandshakeConfig, nonce: u64) -> (payload:
    VersionMessagePayload)
    ensures
        payload@.timestamp <= u64::MAX,
        payload@ == version_fields(*config, payload@.timestamp as u64, nonce),
        payload@.valid(),
{
    let epoch_time: i64 = unix_time_now();
    version_payload(config, timestamp_bits(epoch_time), nonce)
}

/// How far a handshake has come.
#[derive(Debug, Clone, Copy, PartialEq, Eq)]
pub enum HandshakeState {
    /// Our version message is not out yet.
    Init,
    /// Our version message is out; the peer's is awaited.
    VersionSent,
    /// The peer's version message is in; its `verack` is awaited or ours is
    /// being sent.
    PeerVersionReceived,
    /// Both sides have acknowledged.
    HandshakeComplete,
    /// The handshake has failed for good.
    Failed(HandshakeError),
}

/// The step that a session is at: what it last asked the caller to do.
#[derive(Debug, Clone, Copy, PartialEq, Eq)]
pub enum Phase {
    /// Nothing was asked yet.
    Init,
    /// The header of our version message is being written.
    SendingVersionHeader,
    /// The payload of our version message is being written.
    SendingVersionPayload,
    /// The header of the peer's version message is being read.
    AwaitingVersionHeader,
    /// The payload of the peer's version message is being read; its header
    /// announced `size` bytes with the checksum `checksum`.
    AwaitingVersionPayload { size: u32, checksum: [u8; 4] },
    /// The header of the peer's next message is being read, after `skipped`
    /// messages that were no `verack`.
    AwaitingVerackHeader { skipped: u32 },
    /// The payload of a message that is no `verack` is being read, to be
    /// dropped.
    SkippingPayload { skipped: u32, size: u32 },
    /// The header of our `verack` is being written.
    SendingVerack,
    /// The handshake is complete.
    Complete,
    /// The handshake has failed.
    Failed(HandshakeError),
}

impl Phase {
    /// The state of the handshake at this step.
    pub open spec fn state(self) -> HandshakeState {
        match self {
            Phase::Init | Phase::SendingVersionHeader | Phase::SendingVersionPayload =>
                HandshakeState::Init,
            Phase::AwaitingVersionHeader | Phase::AwaitingVersionPayload { .. } =>
                HandshakeState::VersionSent,
            Phase::AwaitingVerackHeader { .. } | Phase::SkippingPayload { .. }
            | Phase::SendingVerack => HandshakeState::PeerVersionReceived,
            Phase::Complete => HandshakeState::HandshakeComplete,
            Phase::Failed(reason) => HandshakeState::Failed(reason),
        }
    }
}

/// What the caller reports of the stream.
#[derive(Debug, Clone, PartialEq, Eq)]
pub enum Event {
    /// The stream is established.
    Connected,
    /// The bytes of the last `Write` went out in full.
    Written,
    /// What the last `Read` brought: the bytes asked for, or fewer where the
    /// stream ended early.
    Received(Vec<u8>),
    /// The stream failed, timed out or was closed.
    TransportFailure,
}

/// What an `Event` says.
pub enum EventModel {
    Connected,
    Written,
    Received(Seq<u8>),
    TransportFailure,
}

impl View for Event {
    type V = EventModel;

    open spec fn view(&self) -> EventModel {
        match self {
            Event::Connected => EventModel::Connected,
            Event::Written => EventModel::Written,
            Event::Received(bytes) => EventModel::Received(bytes@),
            Event::TransportFailure => EventModel::TransportFailure,
        }
    }
}

/// What the caller is to do next on the stream.
#[derive(Debug, Clone, PartialEq, Eq)]
pub enum Action {
    /// Write these bytes in full, as one write.
    Write(Vec<u8>),
    /// Read exactly this many bytes.
    Read(usize),
    /// Nothing: the handshake is complete.
    Done,
    /// Nothing: the handshake has failed.
    Abort,
}

/// What an `Action` says.
pub enum ActionModel {
    Write(Seq<u8>),
    Read(nat),
    Done,
    Abort,
}

impl View for Action {
    type V = ActionModel;

    open spec fn view(&self) -> ActionModel {
        match self {
            Action::Write(bytes) => ActionModel::Write(bytes@),
            Action::Read(count) => ActionModel::Read(*count as nat),
            Action::Done => ActionModel::Done,
            Action::Abort => ActionModel::Abort,
        }
    }
}

/// The state of one handshake: what it was set up with, the nonce and the
/// timestamp of its version message, and the step it is at.
#[derive(Debug, Clone, Copy, PartialEq, Eq)]
pub struct Handshake {
    pub config: HandshakeConfig,
    pub nonce: u64,
    /// The timestamp of our version message; 0 until it is built.
    pub timestamp: u64,
    pub phase: Phase,
}

/// Why a read that was to bring `wanted` bytes and brought `bytes` is
/// refused, if it is: fewer bytes are a truncated input, more a fault of the
/// transport.
pub open spec fn refusal(bytes: Seq<u8>, wanted: nat) -> Option<HandshakeError> {
    if bytes.len() < wanted {
        Some(HandshakeError::TruncatedInput)
    } else if bytes.len() > wanted {
        Some(HandshakeError::TransportError)
    } else {
        None
    }
}

impl Handshake {
    /// This session at the step `phase`.
    pub open spec fn at(self, phase: Phase) -> Handshake {
        Handshake { phase, ..self }
    }

    /// This session, failed for `reason`, and nothing more to do.
    pub open spec fn failed(self, reason: HandshakeError) -> (Handshake, ActionModel) {
        (self.at(Phase::Failed(reason)), ActionModel::Abort)
    }

    /// The bytes of the version payload of this session.
    pub open spec fn version_wire(self) -> Seq<u8> {
        version_fields(self.config, self.timestamp, self.nonce).wire()
    }

    /// The session and the action that follow when the stream is established
    /// at the time `now`.
    pub open spec fn on_connected(self, now: u64) -> (Handshake, ActionModel) {
        if self.phase is Init {
            let next = Handshake { timestamp: now, phase: Phase::SendingVersionHeader, ..self };
            (
                next,
                ActionModel::Write(header_for(HeaderCommand::Version, next.version_wire()).wire()),
            )
        } else {
            self.failed(HandshakeError::TransportError)
        }
    }

    /// The session and the action that follow when a write has gone out.
    pub open spec fn on_written(self) -> (Handshake, ActionModel) {
        match self.phase {
            Phase::SendingVersionHeader => (
                self.at(Phase::SendingVersionPayload),
                ActionModel::Write(self.version_wire()),
            ),
            Phase::SendingVersionPayload => (
                self.at(Phase::AwaitingVersionHeader),
                ActionModel::Read(24),
            ),
            Phase::SendingVerack => (self.at(Phase::Complete), ActionModel::Done),
            _ => self.failed(HandshakeError::TransportError),
        }
    }

    /// The session and the action that follow when the header of the peer's
    /// version message has come in.
    pub open spec fn on_version_header(self, bytes: Seq<u8>) -> (Handshake, ActionModel) {
        match refusal(bytes, 24) {
            Some(reason) => self.failed(reason),
            None => match HeaderFields::parse(bytes) {
                Err(reason) => self.failed(reason),
                Ok(header) => if header.command == HeaderCommand::Version {
                    (
                        self.at(
                            Phase::AwaitingVersionPayload {
                                size: header.size as u32,
                                checksum: [
                                    header.checksum[0],
                                    header.checksum[1],
                                    header.checksum[2],
                                    header.checksum[3],
                                ],
                            },
                        ),
                        ActionModel::Read(header.size),
                    )
                } else {
                    self.failed(HandshakeError::UnexpectedCommand)
                },
            },
        }
    }

    /// The session and the action that follow when the payload of the peer's
    /// version message has come in, announced with `size` and `sum`, and its
    /// checksum was computed as `computed`.
    pub open spec fn on_checked_version_payload(
        self,
        size: u32,
        sum: [u8; 4],
        bytes: Seq<u8>,
        computed: Seq<u8>,
    ) -> (Handshake, ActionModel) {
        match refusal(bytes, size as nat) {
            Some(reason) => self.failed(reason),
            None => if computed != sum@ {
                self.failed(HandshakeError::ChecksumMismatch)
            } else {
                match VersionFields::parse(bytes) {
                    Err(reason) => self.failed(reason),
                    Ok(_) => (
                        self.at(Phase::AwaitingVerackHeader { skipped: 0 }),
                        ActionModel::Read(24),
                    ),
                }
            },
        }
    }

    /// The session and the action that follow when the payload of the peer's
    /// version message has come in, announced with `size` and `sum`: it must
    /// have that size and that checksum, and be a version payload.
    pub open spec fn on_version_payload(self, size: u32, sum: [u8; 4], bytes: Seq<u8>) -> (
        Handshake,
        ActionModel,
    ) {
        self.on_checked_version_payload(size, sum, bytes, checksum(bytes))
    }

    /// The session and the action that follow when a header has come in
    /// while the peer's `verack` is awaited, after `skipped` other messages,
    /// where `ours` is the header of our own `verack`.
    ///
    /// A `verack` must announce the empty payload, as ours does. Any other
    /// command is let pass, with its payload, as long as fewer were than the
    /// set-up tolerates; the first one always is.
    pub open spec fn on_header_before_verack(
        self,
        skipped: u32,
        bytes: Seq<u8>,
        ours: HeaderFields,
    ) -> (Handshake, ActionModel) {
        match refusal(bytes, 24) {
            Some(reason) => self.failed(reason),
            None => match HeaderFields::parse(bytes) {
                Err(reason) => self.failed(reason),
                Ok(header) => if header.command == HeaderCommand::Verack {
                    if header.size == ours.size && header.checksum == ours.checksum {
                        (self.at(Phase::SendingVerack), ActionModel::Write(ours.wire()))
                    } else {
                        self.failed(HandshakeError::ChecksumMismatch)
                    }
                } else if skipped >= self.config.tolerated() {
                    self.failed(HandshakeError::UnexpectedCommand)
                } else {
                    (
                        self.at(
                            Phase::SkippingPayload {
                                skipped: (skipped + 1) as u32,
                                size: header.size as u32,
                            },
                        ),
                        ActionModel::Read(header.size),
                    )
                },
            },
        }
    }

    /// The session and the action that follow when a header has come in
    /// while the peer's `verack` is awaited, after `skipped` other messages.
    pub open spec fn on_verack_header(self, skipped: u32, bytes: Seq<u8>) -> (
        Handshake,
        ActionModel,
    ) {
        self.on_header_before_verack(
            skipped,
            bytes,
            header_for(HeaderCommand::Verack, Seq::empty()),
        )
    }

    /// The session and the action that follow when the payload of a message
    /// that is let pass has come in.
    pub open spec fn on_skipped_payload(self, skipped: u32, size: u32, bytes: Seq<u8>) -> (
        Handshake,
        ActionModel,
    ) {
        match refusal(bytes, size as nat) {
            Some(reason) => self.failed(reason),
            None => (self.at(Phase::AwaitingVerackHeader { skipped }), ActionModel::Read(24)),
        }
    }

    /// The session and the action that follow on `event`, where the clock
    /// reads `now`.
    ///
    /// A complete or failed session stays as it is. A failure of the
    /// transport fails the session, and so does an event that does not
    /// answer what the session asked for.
    pub open spec fn transition(self, event: EventModel, now: u64) -> (Handshake, ActionModel) {
        match self.phase {
            Phase::Complete => (self, ActionModel::Done),
            Phase::Failed(_) => (self, ActionModel::Abort),
            _ => match event {
                EventModel::TransportFailure => self.failed(HandshakeError::TransportError),
                EventModel::Connected => self.on_connected(now),
                EventModel::Written => self.on_written(),
                EventModel::Received(bytes) => match self.phase {
                    Phase::AwaitingVersionHeader => self.on_version_header(bytes),
                    Phase::AwaitingVersionPayload { size, checksum } => self.on_version_payload(
                        size,
                        checksum,
                        bytes,
                    ),
                    Phase::AwaitingVerackHeader { skipped } => self.on_verack_header(
                        skipped,
                        bytes,
                    ),
                    Phase::SkippingPayload { skipped, size } => self.on_skipped_payload(
                        skipped,
                        size,
                        bytes,
                    ),
                    _ => self.failed(HandshakeError::TransportError),
                },
            },
        }
    }
}

impl Handshake {
    /// A session that has not begun.
    pub fn new(config: HandshakeConfig, nonce: u64) -> (session: Self)
        ensures
            session == (Handshake { config, nonce, timestamp: 0, phase: Phase::Init }),
    {
        Handshake { config, nonce, timestamp: 0, phase: Phase::Init }
    }

    /// The state of the handshake.
    pub fn state(&self) -> (state: HandshakeState)
        ensures
            state == self.phase.state(),
    {
        match self.phase {
            Phase::Init | Phase::SendingVersionHeader | Phase::SendingVersionPayload => {
                HandshakeState::Init
            },
            Phase::AwaitingVersionHeader | Phase::AwaitingVersionPayload { .. } => {
                HandshakeState::VersionSent
            },
            Phase::AwaitingVerackHeader { .. } | Phase::SkippingPayload { .. }
            | Phase::SendingVerack => HandshakeState::PeerVersionReceived,
            Phase::Complete => HandshakeState::HandshakeComplete,
            Phase::Failed(reason) => HandshakeState::Failed(reason),
        }
    }

    /// Fails the session for `reason`.
    fn fail(&mut self, reason: HandshakeError) -> (action: Action)
        ensures
            (*final(self), action@) == old(self).failed(reason),
    {
        self.phase = Phase::Failed(reason);
        Action::Abort
    }

    /// Why a read that was to bring `wanted` bytes and brought `bytes` is
    /// refused, if it is.
    pub fn refuse(bytes: &Vec<u8>, wanted: usize) -> (reason: Option<HandshakeError>)
        ensures
            reason == refusal(bytes@, wanted as nat),
    {
        if bytes.len() < wanted {
            Some(HandshakeError::TruncatedInput)
        } else if bytes.len() > wanted {
            Some(HandshakeError::TransportError)
        } else {
            None
        }
    }

    /// Begins the handshake at the time `now`: asks for the header of our
    /// version message to be written.
    pub fn begin_at(&mut self, now: u64) -> (action: Action)
        ensures
            (*final(self), action@) == old(self).on_connected(now),
    {
        match self.phase {
            Phase::Init => {
                self.timestamp = now;
                self.phase = Phase::SendingVersionHeader;
                let payload = version_payload(&self.config, self.timestamp, self.nonce).to_bytes();
                let header = get_version_message_header(HeaderCommand::Version, &payload);
                Action::Write(header.to_bytes())
            },
            _ => self.fail(HandshakeError::TransportError),
        }
    }

    /// Goes on after a write has gone out.
    fn written(&mut self) -> (action: Action)
        ensures
            (*final(self), action@) == old(self).on_written(),
    {
        match self.phase {
            Phase::SendingVersionHeader => {
                self.phase = Phase::SendingVersionPayload;
                let payload = version_payload(&self.config, self.timestamp, self.nonce);
                Action::Write(payload.to_bytes())
            },
            Phase::SendingVersionPayload => {
                self.phase = Phase::AwaitingVersionHeader;
                Action::Read(HEADER_MESSAGE_LENGTH)
            },
            Phase::SendingVerack => {
                self.phase = Phase::Complete;
                Action::Done
            },
            _ => self.fail(HandshakeError::TransportError),
        }
    }

    /// Takes the header of the peer's version message.
    fn version_header(&mut self, bytes: &Vec<u8>) -> (action: Action)
        ensures
            (*final(self), action@) == old(self).on_version_header(bytes@),
    {
        if let Some(reason) = Handshake::refuse(bytes, HEADER_MESSAGE_LENGTH) {
            return self.fail(reason);
        }
        let header = match MessageHeader::decode(bytes.as_slice()) {
            Ok(header) => header,
            Err(reason) => {
                return self.fail(reason);
            },
        };
        match header.command() {
            HeaderCommand::Version => {
                let size: u32 = header.payload_size();
                let checksum: [u8; 4] = header.checksum().to_bytes();
                proof {
                    let fields = header@;
                    header.lemma_valid();
                    crate::endian::lemma_pow256_native();
                    let expected: [u8; 4] = [
                        fields.checksum[0],
                        fields.checksum[1],
                        fields.checksum[2],
                        fields.checksum[3],
                    ];
                    assert(checksum@ =~= expected@);
                    assert(checksum == expected);
                }
                self.phase = Phase::AwaitingVersionPayload { size, checksum };
                Action::Read(size as usize)
            },
            _ => self.fail(HandshakeError::UnexpectedCommand),
        }
    }

    /// Takes the payload of the peer's version message, whose header
    /// announced `size` bytes with the checksum `sum`, and whose checksum was
    /// computed as `computed`.
    pub fn checked_version_payload(
        &mut self,
        size: u32,
        sum: [u8; 4],
        bytes: Vec<u8>,
        computed: UInt<BigEndian, 4>,
    ) -> (action: Action)
        ensures
            (*final(self), action@) == old(self).on_checked_version_payload(
                size,
                sum,
                bytes@,
                computed.bytes(),
            ),
    {
        if let Some(reason) = Handshake::refuse(&bytes, size as usize) {
            return self.fail(reason);
        }
        let own: [u8; 4] = computed.to_bytes();
        if own[0] != sum[0] || own[1] != sum[1] || own[2] != sum[2] || own[3] != sum[3] {
            return self.fail(HandshakeError::ChecksumMismatch);
        }
        assert(own@ =~= sum@);
        match VersionMessagePayload::from_bytes(bytes) {
            Err(reason) => self.fail(reason),
            Ok(_) => {
                self.phase = Phase::AwaitingVerackHeader { skipped: 0 };
                Action::Read(HEADER_MESSAGE_LENGTH)
            },
        }
    }

    /// Takes a header that has come in while the peer's `verack` is awaited,
    /// after `skipped` other messages, where `ours` is the header of our own
    /// `verack`.
    pub fn header_before_verack(&mut self, skipped: u32, bytes: &Vec<u8>, ours: &MessageHeader)
        -> (action: Action)
        ensures
            (*final(self), action@) == old(self).on_header_before_verack(skipped, bytes@, ours@),
    {
        if let Some(reason) = Handshake::refuse(bytes, HEADER_MESSAGE_LENGTH) {
            return self.fail(reason);
        }
        let header = match MessageHeader::decode(bytes.as_slice()) {
            Ok(header) => header,
            Err(reason) => {
                return self.fail(reason);
            },
        };
        proof {
            header.lemma_valid();
            ours.lemma_valid();
            crate::endian::lemma_pow256_native();
        }
        match header.command() {
            HeaderCommand::Verack => {
                if header.announces(ours.payload_size() as usize, &ours.checksum()) {
                    self.phase = Phase::SendingVerack;
                    Action::Write(ours.to_bytes())
                } else {
                    self.fail(HandshakeError::ChecksumMismatch)
                }
            },
            _ => {
                if skipped >= self.config.tolerance() {
                    self.fail(HandshakeError::UnexpectedCommand)
                } else {
                    let size: u32 = header.payload_size();
                    self.phase = Phase::SkippingPayload { skipped: skipped + 1, size };
                    Action::Read(size as usize)
                }
            },
        }
    }

    /// Takes the payload of a message that is let pass.
    fn skipped_payload(&mut self, skipped: u32, size: u32, bytes: &Vec<u8>) -> (action: Action)
        ensures
            (*final(self), action@) == old(self).on_skipped_payload(skipped, size, bytes@),
    {
        if let Some(reason) = Handshake::refuse(bytes, size as usize) {
            return self.fail(reason);
        }
        self.phase = Phase::AwaitingVerackHeader { skipped };
        Action::Read(HEADER_MESSAGE_LENGTH)
    }

    /// Takes what a read has brought.
    fn received(&mut self, bytes: Vec<u8>) -> (action: Action)
        ensures
            (*final(self), action@) == old(self).transition(EventModel::Received(bytes@), 0),
    {
        match self.phase {
            Phase::Complete => Action::Done,
            Phase::Failed(_) => Action::Abort,
            Phase::AwaitingVersionHeader => self.version_header(&bytes),
            Phase::AwaitingVersionPayload { size, checksum } => {
                let computed = get_checksum(&bytes);
                self.checked_version_payload(size, checksum, bytes, computed)
            },
            Phase::AwaitingVerackHeader { skipped } => {
                let ours = get_version_message_header(HeaderCommand::Verack, &Vec::new());
                self.header_before_verack(skipped, &bytes, &ours)
            },
            Phase::SkippingPayload { skipped, size } => self.skipped_payload(
                skipped,
                size,
                &bytes,
            ),
            _ => self.fail(HandshakeError::TransportError),
        }
    }

    /// The next step of the handshake on `event`, where the clock reads
    /// `now`: the session moves on and says what to do on the stream.
    pub fn step_at(&mut self, event: Event, now: u64) -> (action: Action)
        ensures
            (*final(self), action@) == old(self).transition(event@, now),
    {
        match self.phase {
            Phase::Complete => {
                return Action::Done;
            },
            Phase::Failed(_) => {
                return Action::Abort;
            },
            _ => {},
        }
        match event {
            Event::TransportFailure => self.fail(HandshakeError::TransportError),
            Event::Connected => self.begin_at(now),
            Event::Written => self.written(),
            Event::Received(bytes) => self.received(bytes),
        }
    }

    /// The next step of the handshake on `event`. Where the handshake
    /// begins, the timestamp of the version message is what the clock reads;
    /// every other step is as `transition` says, whatever the time.
    pub fn step(&mut self, event: Event) -> (action: Action)
        ensures
            old(self).follows(event@, *final(self), action@),
            !(event@ is Connected) ==> (*final(self), action@) == old(self).transition(event@, 0),
    {
        let now: u64 = match event {
            Event::Connected => timestamp_bits(unix_time_now()),
            _ => 0,
        };
        let action = self.step_at(event, now);
        action
    }

    /// Whether `next` and `action` follow from this session on `event` at
    /// some time.
    pub open spec fn follows(self, event: EventModel, next: Handshake, action: ActionModel)
        -> bool {
        exists|now: u64| #[trigger] self.transition(event, now) == (next, action)
    }
}

impl HandshakeState {
    /// How far a state is along the handshake; a failed one counts as the
    /// end.
    pub open spec fn rank(self) -> nat {
        match self {
            HandshakeState::Init => 0,
            HandshakeState::VersionSent => 1,
            HandshakeState::PeerVersionReceived => 2,
            HandshakeState::HandshakeComplete => 3,
            HandshakeState::Failed(_) => 4,
        }
    }
}

/// A complete session and a failed one stay as they are, whatever is
/// reported, and ask for nothing more.
pub proof fn lemma_terminal_states(session: Handshake, event: EventModel, now: u64)
    requires
        session.phase is Complete || session.phase is Failed,
    ensures
        session.transition(event, now).0 == session,
        session.phase is Complete ==> session.transition(event, now).1 is Done,
        session.phase is Failed ==> session.transition(event, now).1 is Abort,
{
}

/// A failure of the transport fails every session that is under way, with
/// `TransportError`.
pub proof fn lemma_transport_failure(session: Handshake, now: u64)
    requires
        !(session.phase is Complete),
        !(session.phase is Failed),
    ensures
        session.transition(EventModel::TransportFailure, now) == session.failed(
            HandshakeError::TransportError,
        ),
{
}

/// A step never takes the handshake back: the state stays or moves on by
/// one, or the session fails; and the set-up and the nonce stay the same.
/// The session asks for nothing more exactly where it is complete or failed.
pub proof fn lemma_steps_in_order(session: Handshake, event: EventModel, now: u64)
    ensures
        ({
            let (next, action) = session.transition(event, now);
            let before = session.phase.state();
            let after = next.phase.state();
            &&& next.config == session.config
            &&& next.nonce == session.nonce
            &&& after is Failed || after.rank() == before.rank() || after.rank() == before.rank()
                + 1
            &&& action is Done <==> next.phase is Complete
            &&& action is Abort <==> next.phase is Failed
        }),
{
}

/// The handshake becomes complete in one way only: our `verack` has gone
/// out, after the peer's version and `verack` came in.
pub proof fn lemma_complete_after_verack(session: Handshake, event: EventModel, now: u64)
    requires
        !(session.phase is Complete),
        session.transition(event, now).0.phase is Complete,
    ensures
        session.phase is SendingVerack,
        event is Written,
{
}

/// Our `verack` is sent only in answer to a `verack` of the peer that
/// announces the empty payload.
pub proof fn lemma_verack_answers_verack(session: Handshake, event: EventModel, now: u64)
    requires
        !(session.phase is SendingVerack),
        session.transition(event, now).0.phase is SendingVerack,
    ensures
        session.phase is AwaitingVerackHeader,
        event matches EventModel::Received(bytes) && HeaderFields::parse(bytes) matches Ok(header)
            && header.command == HeaderCommand::Verack && header.describes(Seq::empty()),
{
}

/// Whether `bytes` are the header of a message with the command `command`
/// that announces `payload`.
pub open spec fn frames(bytes: Seq<u8>, command: HeaderCommand, payload: Seq<u8>) -> bool {
    &&& bytes.len() == 24
    &&& HeaderFields::parse(bytes) matches Ok(header)
    &&& header.command == command
    &&& header.describes(payload)
}

/// With a peer that sends a well-formed version message and then a `verack`,
/// the handshake runs to its end: the header and the payload of our version
/// go out as two writes, the peer's header, payload and `verack` are read in
/// turn, our `verack` goes out, and the session is complete.
pub proof fn lemma_handshake_completes(
    session: Handshake,
    now: u64,
    version_header: Seq<u8>,
    version: Seq<u8>,
    verack: Seq<u8>,
)
    requires
        session.phase is Init,
        frames(version_header, HeaderCommand::Version, version),
        VersionFields::parse(version) is Ok,
        frames(verack, HeaderCommand::Verack, Seq::empty()),
    ensures
        ({
            let (s1, a1) = session.transition(EventModel::Connected, now);
            let (s2, a2) = s1.transition(EventModel::Written, now);
            let (s3, a3) = s2.transition(EventModel::Written, now);
            let (s4, a4) = s3.transition(EventModel::Received(version_header), now);
            let (s5, a5) = s4.transition(EventModel::Received(version), now);
            let (s6, a6) = s5.transition(EventModel::Received(verack), now);
            let (s7, a7) = s6.transition(EventModel::Written, now);
            &&& a1 == ActionModel::Write(
                header_for(HeaderCommand::Version, s1.version_wire()).wire(),
            )
            &&& a2 == ActionModel::Write(s1.version_wire())
            &&& a3 == ActionModel::Read(24)
            &&& s3.phase.state() == HandshakeState::VersionSent
            &&& a4 == ActionModel::Read(version.len())
            &&& a5 == ActionModel::Read(24)
            &&& s5.phase.state() == HandshakeState::PeerVersionReceived
            &&& a6 == ActionModel::Write(header_for(HeaderCommand::Verack, Seq::empty()).wire())
            &&& !(s6.phase is Complete)
            &&& a7 == ActionModel::Done
            &&& s7.phase.state() == HandshakeState::HandshakeComplete
        }),
{
    lemma_framed_size(version_header);
}

/// A well-formed header announces a size that fits in four bytes and a
/// checksum of four bytes.
pub proof fn lemma_framed_size(bytes: Seq<u8>)
    requires
        bytes.len() == 24,
        HeaderFields::parse(bytes) is Ok,
    ensures
        HeaderFields::parse(bytes)->Ok_0.valid(),
        HeaderFields::parse(bytes)->Ok_0.size <= u32::MAX,
{
    LittleEndian::lemma_decode_bound(bytes.subrange(16, 20));
    crate::endian::lemma_pow256_native();
}

/// A message other than `verack` that comes in while the peer's `verack` is
/// awaited does not fail the session, as long as fewer were let pass than the
/// set-up tolerates: its payload is read and dropped, and the next header is
/// read. The first such message is always let pass.
pub proof fn lemma_other_message_is_skipped(
    session: Handshake,
    skipped: u32,
    now: u64,
    header: Seq<u8>,
    payload: Seq<u8>,
)
    requires
        session.phase == (Phase::AwaitingVerackHeader { skipped }),
        skipped == 0 || skipped < session.config.tolerated(),
        header.len() == 24,
        HeaderFields::parse(header) matches Ok(fields) && fields.command != HeaderCommand::Verack
            && fields.size == payload.len(),
    ensures
        ({
            let (s1, a1) = session.transition(EventModel::Received(header), now);
            let (s2, a2) = s1.transition(EventModel::Received(payload), now);
            &&& a1 == ActionModel::Read(payload.len())
            &&& s1.phase.state() == HandshakeState::PeerVersionReceived
            &&& a2 == ActionModel::Read(24)
            &&& s2.phase == (Phase::AwaitingVerackHeader { skipped: (skipped + 1) as u32 })
        }),
{
    lemma_framed_size(header);
}

/// With a peer that sends another message before its `verack`, the handshake
/// still runs to its end once the `verack` has come in, and is not complete
/// before.
pub proof fn lemma_verack_after_other_message(
    session: Handshake,
    now: u64,
    other: Seq<u8>,
    payload: Seq<u8>,
    verack: Seq<u8>,
)
    requires
        session.phase == (Phase::AwaitingVerackHeader { skipped: 0 }),
        other.len() == 24,
        HeaderFields::parse(other) matches Ok(fields) && fields.command != HeaderCommand::Verack
            && fields.size == payload.len(),
        frames(verack, HeaderCommand::Verack, Seq::empty()),
    ensures
        ({
            let (s1, a1) = session.transition(EventModel::Received(other), now);
            let (s2, a2) = s1.transition(EventModel::Received(payload), now);
            let (s3, a3) = s2.transition(EventModel::Received(verack), now);
            let (s4, a4) = s3.transition(EventModel::Written, now);
            &&& a1 == ActionModel::Read(payload.len())
            &&& a2 == ActionModel::Read(24)
            &&& a3 == ActionModel::Write(header_for(HeaderCommand::Verack, Seq::empty()).wire())
            &&& !(s1.phase is Complete) && !(s2.phase is Complete) && !(s3.phase is Complete)
            &&& a4 == ActionModel::Done
            &&& s4.phase.state() == HandshakeState::HandshakeComplete
        }),
{
    lemma_other_message_is_skipped(session, 0, now, other, payload);
}

/// Where the peer closes the stream after the header of its version message,
/// so that the read of the payload brings fewer bytes than the header
/// announced, the session fails with `TruncatedInput` and asks for nothing
/// more.
pub proof fn lemma_closed_after_version_header(
    session: Handshake,
    now: u64,
    version_header: Seq<u8>,
    brought: Seq<u8>,
)
    requires
        session.phase is AwaitingVersionHeader,
        version_header.len() == 24,
        HeaderFields::parse(version_header) matches Ok(fields) && fields.command
            == HeaderCommand::Version && brought.len() < fields.size,
    ensures
        ({
            let (s1, a1) = session.transition(EventModel::Received(version_header), now);
            let (s2, a2) = s1.transition(EventModel::Received(brought), now);
            &&& a1 is Read
            &&& s2.phase == Phase::Failed(HandshakeError::TruncatedInput)
            &&& a2 == ActionModel::Abort
        }),
{
    lemma_framed_size(version_header);
}

} // verus!
