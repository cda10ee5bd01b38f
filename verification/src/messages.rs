//! The two messages of the handshake: the 24-byte header that frames every
//! message, and the payload of the `version` message.

use sha2::{Digest, Sha256};
use vstd::prelude::*;
use vstd::utf8::{decode_utf8, encode_utf8, encode_utf8_decode_utf8, encode_utf8_valid_utf8, valid_utf8};

use crate::endian::{le_bytes, le_value, pow256};
use crate::types::{
    BigEndian, Endianess, NodeAddress, NodeInformation, FromBytes, HandshakeError, HeaderCommand, LittleEndian, MagicBytes,
    ToBytes, UInt,
    lemma_command_round_trip, lemma_magic_round_trip, read_array,
};

verus! {

/// The SHA-256 digest of `data`.
pub uninterp spec fn sha256(data: Seq<u8>) -> Seq<u8>;

/// The first four bytes of a digest.
pub open spec fn checksum_of_digest(digest: Seq<u8>) -> Seq<u8> {
    seq![digest[0], digest[1], digest[2], digest[3]]
}

/// The checksum of a payload: the first four bytes of the SHA-256 digest of
/// the SHA-256 digest of the payload.
pub open spec fn checksum(payload: Seq<u8>) -> Seq<u8> {
    checksum_of_digest(sha256(sha256(payload)))
}

/// The checksum is four bytes long and depends on the payload alone.
pub proof fn lemma_checksum_deterministic(first: Seq<u8>, second: Seq<u8>)
    requires
        first == second,
    ensures
        checksum(first).len() == 4,
        checksum(first) == checksum(second),
{
}

/// Hashes `data` with `sha2::Sha256`, through `Digest::new`, `Digest::update`
/// and `Digest::finalize`. The digest is a function of the data alone and is
/// 32 bytes long; which bytes it holds is not stated here.
#[verifier::external_body]
fn sha256_digest(data: &[u8]) -> (digest: [u8; 32])
    ensures
        digest@ == sha256(data@),
{
    let mut hasher = Sha256::new();
    hasher.update(data);
    hasher.finalize().into()
}

/// The checksum that the digest of a digest gives: its first four bytes, kept
/// in the order of the hash's output.
pub fn checksum_from_digest(digest: &[u8; 32]) -> (sum: UInt<BigEndian, 4>)
    ensures
        sum.bytes() == checksum_of_digest(digest@),
{
    let first: [u8; 4] = [digest[0], digest[1], digest[2], digest[3]];
    assert(first@ =~= checksum_of_digest(digest@));
    UInt::<BigEndian, 4>::from_be_bytes(first)
}

/// Given a payload returns its checksum.
///
/// To get the checksum, the payload is hashed twice and the first 4 bytes of
/// the second digest are taken.
pub fn get_checksum(payload: &Vec<u8>) -> (sum: UInt<BigEndian, 4>)
    ensures
        sum.bytes() == checksum(payload@),
{
    let hash1: [u8; 32] = sha256_digest(payload.as_slice());
    let hash2: [u8; 32] = sha256_digest(hash1.as_slice());
    checksum_from_digest(&hash2)
}

/// Appends `bytes` to `out`.
fn append_bytes(out: &mut Vec<u8>, bytes: &[u8])
    ensures
        final(out)@ == old(out)@ + bytes@,
{
    let mut i: usize = 0;
    while i < bytes.len()
        invariant
            i <= bytes@.len(),
            out@ == old(out)@ + bytes@.subrange(0, i as int),
        decreases bytes@.len() - i,
    {
        out.push(bytes[i]);
        assert(out@ =~= old(out)@ + bytes@.subrange(0, i + 1));
        i += 1;
    }
    assert(bytes@.subrange(0, bytes@.len() as int) =~= bytes@);
}

/// What a message header says.
pub struct HeaderFields {
    pub magic: MagicBytes,
    pub command: HeaderCommand,
    /// The length of the payload that follows the header.
    pub size: nat,
    /// The checksum of that payload, as raw hash bytes.
    pub checksum: Seq<u8>,
}

impl HeaderFields {
    /// Whether the size and the checksum fit in their four bytes each.
    pub open spec fn valid(self) -> bool {
        &&& self.size < pow256(4)
        &&& self.checksum.len() == 4
    }

    /// Whether the header announces `payload`: its exact length and its
    /// checksum.
    pub open spec fn describes(self, payload: Seq<u8>) -> bool {
        &&& self.size == payload.len()
        &&& self.checksum == checksum(payload)
    }

    /// The 24 bytes of the header: magic, command, the size in four bytes
    /// least significant first, and the checksum.
    pub open spec fn wire(self) -> Seq<u8> {
        self.magic.wire() + self.command.wire() + le_bytes(self.size, 4) + self.checksum
    }

    /// What the header at the start of `bytes` is read as. Fewer than 24
    /// bytes are no header; then the magic is looked at, then the command.
    pub open spec fn parse(bytes: Seq<u8>) -> Result<HeaderFields, HandshakeError> {
        if bytes.len() < 24 {
            Err(HandshakeError::TruncatedInput)
        } else {
            match MagicBytes::parse(bytes.subrange(0, 4)) {
                Err(e) => Err(e),
                Ok(magic) => match HeaderCommand::parse(bytes.subrange(4, 16)) {
                    Err(e) => Err(e),
                    Ok(command) => Ok(
                        HeaderFields {
                            magic,
                            command,
                            size: le_value(bytes.subrange(16, 20)),
                            checksum: bytes.subrange(20, 24),
                        },
                    ),
                },
            }
        }
    }
}

/// Fewer than 24 bytes are no header, whatever they hold: reading them gives
/// `TruncatedInput`, and nothing else.
pub proof fn lemma_short_header_is_truncated(bytes: Seq<u8>)
    requires
        bytes.len() < 24,
    ensures
        HeaderFields::parse(bytes) == Err::<HeaderFields, HandshakeError>(
            HandshakeError::TruncatedInput,
        ),
{
}

/// Reading the bytes of a valid header gives the header back.
pub proof fn lemma_header_round_trip(header: HeaderFields)
    requires
        header.valid(),
    ensures
        header.wire().len() == 24,
        HeaderFields::parse(header.wire()) == Ok::<HeaderFields, HandshakeError>(header),
{
    lemma_magic_round_trip(header.magic);
    lemma_command_round_trip(header.command);
    LittleEndian::lemma_encode_len(header.size, 4);
    LittleEndian::lemma_decode_encode(header.size, 4);
    let bytes = header.wire();
    assert(bytes.subrange(0, 4) =~= header.magic.wire());
    assert(bytes.subrange(4, 16) =~= header.command.wire());
    assert(bytes.subrange(16, 20) =~= le_bytes(header.size, 4));
    assert(bytes.subrange(20, 24) =~= header.checksum);
}

/// The fixed 24-byte envelope of a message.
#[derive(Debug, Clone, Copy, PartialEq, Eq)]
pub struct MessageHeader {
    magic_bytes: MagicBytes,
    command: HeaderCommand,
    pub size: UInt<LittleEndian, 4>,
    checksum: UInt<BigEndian, 4>,
}

impl View for MessageHeader {
    type V = HeaderFields;

    closed spec fn view(&self) -> HeaderFields {
        HeaderFields {
            magic: self.magic_bytes,
            command: self.command,
            size: self.size.value(),
            checksum: self.checksum.bytes(),
        }
    }
}

impl MessageHeader {
    /// The header made of the given fields.
    pub fn new(
        magic_bytes: MagicBytes,
        command: HeaderCommand,
        size: UInt<LittleEndian, 4>,
        checksum: UInt<BigEndian, 4>,
    ) -> (header: Self)
        ensures
            header@ == (HeaderFields {
                magic: magic_bytes,
                command,
                size: size.value(),
                checksum: checksum.bytes(),
            }),
            header@.valid(),
    {
        proof {
            size.lemma_width();
            checksum.lemma_width();
        }
        Self { magic_bytes, command, size, checksum }
    }

    /// Every header is valid: its size and checksum are four bytes each.
    pub proof fn lemma_valid(&self)
        ensures
            self@.valid(),
    {
        self.size.lemma_width();
        self.checksum.lemma_width();
    }

    /// The network that the message belongs to.
    pub fn magic_bytes(&self) -> (magic: MagicBytes)
        ensures
            magic == self@.magic,
    {
        self.magic_bytes
    }

    /// The command that names the payload.
    pub fn command(&self) -> (command: HeaderCommand)
        ensures
            command == self@.command,
    {
        self.command
    }

    /// The length of the payload that follows.
    pub fn payload_size(&self) -> (size: u32)
        ensures
            size == self@.size,
    {
        self.size.to_native()
    }

    /// The checksum of the payload that follows.
    pub fn checksum(&self) -> (sum: UInt<BigEndian, 4>)
        ensures
            sum.bytes() == self@.checksum,
    {
        self.checksum
    }

    /// Whether this header announces a payload of `size` bytes with the
    /// checksum `sum`.
    pub fn announces(&self, size: usize, sum: &UInt<BigEndian, 4>) -> (ok: bool)
        ensures
            ok == (self@.size == size && self@.checksum == sum.bytes()),
    {
        let own: [u8; 4] = self.checksum.to_bytes();
        let other: [u8; 4] = sum.to_bytes();
        let same: bool = own[0] == other[0] && own[1] == other[1] && own[2] == other[2] && own[3]
            == other[3];
        proof {
            if same {
                assert(own@ =~= other@);
            }
        }
        let announced: u32 = self.size.to_native();
        same && size <= 0xffff_ffff && announced == size as u32
    }

    /// The 24 bytes of this header.
    pub fn to_bytes(&self) -> (message: Vec<u8>)
        ensures
            message@ == self@.wire(),
            message@.len() == 24,
    {
        let mut message: Vec<u8> = Vec::new();
        append_bytes(&mut message, self.magic_bytes.to_bytes().as_slice());
        append_bytes(&mut message, self.command.to_bytes().as_slice());
        append_bytes(&mut message, self.size.to_bytes().as_slice());
        append_bytes(&mut message, self.checksum.to_bytes().as_slice());
        proof {
            self.size.lemma_width();
            self.checksum.lemma_width();
            lemma_header_round_trip(self@);
        }
        message
    }

    /// Reads a header from its 24 bytes. An unknown network gives
    /// `InvalidMagic`, an unknown command `UnknownCommand`.
    pub fn from_bytes(message: [u8; 24]) -> (r: Result<Self, HandshakeError>)
        ensures
            match r {
                Ok(header) => HeaderFields::parse(message@) == Ok::<HeaderFields, HandshakeError>(
                    header@,
                ),
                Err(e) => HeaderFields::parse(message@) == Err::<HeaderFields, HandshakeError>(e),
            },
    {
        let bytes = message.as_slice();
        let magic_bytes = match MagicBytes::from_bytes(read_array::<4>(bytes, 0)) {
            Ok(magic) => magic,
            Err(e) => {
                return Err(e);
            },
        };
        let command = match HeaderCommand::from_bytes(read_array::<12>(bytes, 4)) {
            Ok(command) => command,
            Err(e) => {
                return Err(e);
            },
        };
        let size = UInt::<LittleEndian, 4>::from_le_bytes(read_array::<4>(bytes, 16));
        let checksum = UInt::<BigEndian, 4>::from_be_bytes(read_array::<4>(bytes, 20));
        Ok(Self { magic_bytes, command, size, checksum })
    }

    /// Reads the header that `bytes` starts with. Fewer than 24 bytes give
    /// `TruncatedInput`; bytes after the 24th are not looked at.
    pub fn decode(bytes: &[u8]) -> (r: Result<Self, HandshakeError>)
        ensures
            match r {
                Ok(header) => HeaderFields::parse(bytes@) == Ok::<HeaderFields, HandshakeError>(
                    header@,
                ),
                Err(e) => HeaderFields::parse(bytes@) == Err::<HeaderFields, HandshakeError>(e),
            },
            bytes@.len() < 24 ==> r == Err::<MessageHeader, HandshakeError>(
                HandshakeError::TruncatedInput,
            ),
    {
        if bytes.len() < 24 {
            return Err(HandshakeError::TruncatedInput);
        }
        let message: [u8; 24] = read_array::<24>(bytes, 0);
        proof {
            assert(message@.subrange(0, 4) =~= bytes@.subrange(0, 4));
            assert(message@.subrange(4, 16) =~= bytes@.subrange(4, 16));
            assert(message@.subrange(16, 20) =~= bytes@.subrange(16, 20));
            assert(message@.subrange(20, 24) =~= bytes@.subrange(20, 24));
        }
        MessageHeader::from_bytes(message)
    }
}

/// What a version payload says.
pub struct VersionFields {
    pub protocol_version: nat,
    /// The services of the sending node, as the 8 bytes of a bit mask.
    pub services: Seq<u8>,
    /// Seconds since the Unix epoch.
    pub timestamp: nat,
    /// The remote node, as the sender sees it.
    pub receiver: NodeAddress,
    /// The local node.
    pub sender: NodeAddress,
    pub nonce: nat,
    /// The length byte that stands before the user agent.
    pub user_agent_size: nat,
    pub user_agent: Seq<char>,
    pub start_height: nat,
}

impl VersionFields {
    /// Whether each number fits in its field.
    pub open spec fn fits(self) -> bool {
        &&& self.protocol_version < pow256(4)
        &&& self.services.len() == 8
        &&& self.timestamp < pow256(8)
        &&& self.receiver.valid()
        &&& self.sender.valid()
        &&& self.nonce < pow256(8)
        &&& self.user_agent_size < pow256(1)
        &&& self.start_height < pow256(4)
    }

    /// Whether the payload is one that the handshake accepts: each number
    /// fits in its field, and the length byte is the length of the user agent
    /// in bytes and fits in seven bits.
    pub open spec fn valid(self) -> bool {
        &&& self.fits()
        &&& self.user_agent_size == encode_utf8(self.user_agent).len()
        &&& self.user_agent_size < 128
    }

    /// The bytes of the payload, field after field. The user agent is
    /// written only where the length byte is not zero.
    pub open spec fn wire(self) -> Seq<u8> {
        le_bytes(self.protocol_version, 4) + self.services + le_bytes(self.timestamp, 8)
            + self.receiver.wire() + self.sender.wire() + le_bytes(self.nonce, 8) + le_bytes(
            self.user_agent_size,
            1,
        ) + (if self.user_agent_size > 0 {
            encode_utf8(self.user_agent)
        } else {
            Seq::<u8>::empty()
        }) + le_bytes(self.start_height, 4)
    }

    /// What the payload at the start of `bytes` is read as.
    ///
    /// The fixed fields fill the first 80 bytes and the length byte of the
    /// user agent is the 81st. A length of 128 or more is refused. The user
    /// agent must be there in full and be UTF-8, and four bytes of start
    /// height must follow it. What comes after them is not looked at.
    pub open spec fn parse(bytes: Seq<u8>) -> Result<VersionFields, HandshakeError> {
        if bytes.len() < 81 {
            Err(HandshakeError::TruncatedInput)
        } else {
            let size = bytes[80] as int;
            let end = 81 + size;
            if size >= 128 {
                Err(HandshakeError::UserAgentTooLong)
            } else if bytes.len() < end {
                Err(HandshakeError::TruncatedInput)
            } else if !valid_utf8(bytes.subrange(81, end)) {
                Err(HandshakeError::InvalidUtf8)
            } else if bytes.len() < end + 4 {
                Err(HandshakeError::TruncatedInput)
            } else {
                Ok(
                    VersionFields {
                        protocol_version: le_value(bytes.subrange(0, 4)),
                        services: bytes.subrange(4, 12),
                        timestamp: le_value(bytes.subrange(12, 20)),
                        receiver: NodeAddress::parse(bytes.subrange(20, 46)),
                        sender: NodeAddress::parse(bytes.subrange(46, 72)),
                        nonce: le_value(bytes.subrange(72, 80)),
                        user_agent_size: size as nat,
                        user_agent: decode_utf8(bytes.subrange(81, end)),
                        start_height: le_value(bytes.subrange(end, end + 4)),
                    },
                )
            }
        }
    }
}

/// Turns bytes into text with `String::from_utf8`: the text is there exactly
/// where the bytes are valid UTF-8, and it is the text whose UTF-8 encoding
/// those bytes are.
#[verifier::external_body]
fn string_from_utf8(bytes: Vec<u8>) -> (text: Option<String>)
    ensures
        text is Some <==> valid_utf8(bytes@),
        text matches Some(s) ==> encode_utf8(s@) == bytes@,
{
    String::from_utf8(bytes).ok()
}

/// The body of a `version` message.
#[derive(Debug, Clone, PartialEq, Eq)]
pub struct VersionMessagePayload {
    protocol_version: UInt<LittleEndian, 4>,
    services: [u8; 8],
    timestamp: UInt<LittleEndian, 8>,
    recv_node_information: NodeInformation,
    trans_node_information: NodeInformation,
    nonce: UInt<LittleEndian, 8>,
    user_agent_size: [u8; 1],
    user_agent: String,
    start_height: UInt<LittleEndian, 4>,
}

impl View for VersionMessagePayload {
    type V = VersionFields;

    closed spec fn view(&self) -> VersionFields {
        VersionFields {
            protocol_version: self.protocol_version.value(),
            services: self.services@,
            timestamp: self.timestamp.value(),
            receiver: self.recv_node_information@,
            sender: self.trans_node_information@,
            nonce: self.nonce.value(),
            user_agent_size: self.user_agent_size@[0] as nat,
            user_agent: self.user_agent@,
            start_height: self.start_height.value(),
        }
    }
}

impl VersionMessagePayload {
    /// The payload made of the given fields. Nothing is checked: whether the
    /// length byte matches the user agent is what `valid` says of the view.
    #[allow(clippy::too_many_arguments)]
    pub fn new(
        protocol_version: UInt<LittleEndian, 4>,
        services: [u8; 8],
        timestamp: UInt<LittleEndian, 8>,
        recv_node_information: NodeInformation,
        trans_node_information: NodeInformation,
        nonce: UInt<LittleEndian, 8>,
        user_agent_size: [u8; 1],
        user_agent: String,
        start_height: UInt<LittleEndian, 4>,
    ) -> (payload: Self)
        ensures
            payload@ == (VersionFields {
                protocol_version: protocol_version.value(),
                services: services@,
                timestamp: timestamp.value(),
                receiver: recv_node_information@,
                sender: trans_node_information@,
                nonce: nonce.value(),
                user_agent_size: user_agent_size@[0] as nat,
                user_agent: user_agent@,
                start_height: start_height.value(),
            }),
            payload@.fits(),
    {
        let payload = Self {
            protocol_version,
            services,
            timestamp,
            recv_node_information,
            trans_node_information,
            nonce,
            user_agent_size,
            user_agent,
            start_height,
        };
        proof {
            payload.lemma_fits();
        }
        payload
    }

    /// In every payload each number fits in its field.
    pub proof fn lemma_fits(&self)
        ensures
            self@.fits(),
    {
        crate::endian::lemma_pow256_native();
        self.protocol_version.lemma_width();
        self.timestamp.lemma_width();
        self.recv_node_information.services.lemma_width();
        self.recv_node_information.ip_address.lemma_width();
        self.recv_node_information.port.lemma_width();
        self.trans_node_information.services.lemma_width();
        self.trans_node_information.ip_address.lemma_width();
        self.trans_node_information.port.lemma_width();
        self.nonce.lemma_width();
        self.start_height.lemma_width();
    }

    /// The bytes of this payload.
    pub fn to_bytes(&self) -> (message: Vec<u8>)
        ensures
            message@ == self@.wire(),
    {
        let mut message: Vec<u8> = Vec::new();
        append_bytes(&mut message, self.protocol_version.to_bytes().as_slice());
        append_bytes(&mut message, self.services.as_slice());
        append_bytes(&mut message, self.timestamp.to_bytes().as_slice());
        append_bytes(&mut message, self.recv_node_information.services.to_bytes().as_slice());
        append_bytes(&mut message, self.recv_node_information.ip_address.to_bytes().as_slice());
        append_bytes(&mut message, self.recv_node_information.port.to_bytes().as_slice());
        append_bytes(&mut message, self.trans_node_information.services.to_bytes().as_slice());
        append_bytes(&mut message, self.trans_node_information.ip_address.to_bytes().as_slice());
        append_bytes(&mut message, self.trans_node_information.port.to_bytes().as_slice());
        append_bytes(&mut message, self.nonce.to_bytes().as_slice());
        append_bytes(&mut message, self.user_agent_size.as_slice());
        let ghost fixed = message@;

        if self.user_agent_size[0] > 0 {
            append_bytes(&mut message, self.user_agent.as_str().as_bytes());
        }
        let ghost with_agent = message@;
        append_bytes(&mut message, self.start_height.to_bytes().as_slice());

        proof {
            self.lemma_fits();
            self.protocol_version.lemma_width();
            self.timestamp.lemma_width();
            self.recv_node_information.services.lemma_width();
            self.recv_node_information.ip_address.lemma_width();
            self.recv_node_information.port.lemma_width();
            self.trans_node_information.services.lemma_width();
            self.trans_node_information.ip_address.lemma_width();
            self.trans_node_information.port.lemma_width();
            self.nonce.lemma_width();
            self.start_height.lemma_width();
            let fields = self@;
            let size = self.user_agent_size@[0];
            reveal_with_fuel(le_bytes, 2);
            assert(size as nat / 256 == 0 && size as nat % 256 == size);
            assert(le_bytes(fields.user_agent_size, 1) =~= self.user_agent_size@);
            assert(fixed =~= le_bytes(fields.protocol_version, 4) + fields.services + le_bytes(
                fields.timestamp,
                8,
            ) + fields.receiver.wire() + fields.sender.wire() + le_bytes(fields.nonce, 8)
                + le_bytes(fields.user_agent_size, 1));
        }
        message
    }
}

impl VersionMessagePayload {
    /// Reads the payload that `message` starts with.
    ///
    /// `TruncatedInput` where a field is not there in full,
    /// `UserAgentTooLong` where the length byte is 128 or more, `InvalidUtf8`
    /// where the user agent is not UTF-8. Bytes after the start height are
    /// not looked at.
    pub fn from_bytes(message: Vec<u8>) -> (r: Result<Self, HandshakeError>)
        ensures
            match r {
                Ok(payload) => VersionFields::parse(message@) == Ok::<
                    VersionFields,
                    HandshakeError,
                >(payload@) && payload@.valid(),
                Err(e) => VersionFields::parse(message@) == Err::<VersionFields, HandshakeError>(
                    e,
                ),
            },
    {
        let bytes = message.as_slice();
        if bytes.len() < 81 {
            return Err(HandshakeError::TruncatedInput);
        }
        let user_agent_size: [u8; 1] = read_array::<1>(bytes, 80);
        let size: usize = user_agent_size[0] as usize;
        if size >= 128 {
            return Err(HandshakeError::UserAgentTooLong);
        }
        let end_user_agent: usize = 81 + size;
        if bytes.len() < end_user_agent {
            return Err(HandshakeError::TruncatedInput);
        }
        let recv_node_information = NodeInformation::from_bytes(
            UInt::<LittleEndian, 8>::from_le_bytes(read_array::<8>(bytes, 20)),
            UInt::<BigEndian, 16>::from_be_bytes(read_array::<16>(bytes, 28)),
            UInt::<BigEndian, 2>::from_be_bytes(read_array::<2>(bytes, 44)),
        );
        let trans_node_information = NodeInformation::from_bytes(
            UInt::<LittleEndian, 8>::from_le_bytes(read_array::<8>(bytes, 46)),
            UInt::<BigEndian, 16>::from_be_bytes(read_array::<16>(bytes, 54)),
            UInt::<BigEndian, 2>::from_be_bytes(read_array::<2>(bytes, 70)),
        );
        let text = string_from_utf8(
            vstd::slice::slice_to_vec(vstd::slice::slice_subrange(bytes, 81, end_user_agent)),
        );
        let user_agent = match text {
            Some(user_agent) => user_agent,
            None => {
                return Err(HandshakeError::InvalidUtf8);
            },
        };
        if bytes.len() < end_user_agent + 4 {
            return Err(HandshakeError::TruncatedInput);
        }
        let payload = Self {
            protocol_version: UInt::<LittleEndian, 4>::from_le_bytes(read_array::<4>(bytes, 0)),
            services: read_array::<8>(bytes, 4),
            timestamp: UInt::<LittleEndian, 8>::from_le_bytes(read_array::<8>(bytes, 12)),
            recv_node_information,
            trans_node_information,
            nonce: UInt::<LittleEndian, 8>::from_le_bytes(read_array::<8>(bytes, 72)),
            user_agent_size,
            user_agent,
            start_height: UInt::<LittleEndian, 4>::from_le_bytes(
                read_array::<4>(bytes, end_user_agent),
            ),
            //the relay flag of later protocol versions is not read
        };
        proof {
            let all = message@;
            payload.lemma_fits();
            encode_utf8_decode_utf8(payload.user_agent@);
            assert(all.subrange(20, 46).subrange(0, 8) =~= all.subrange(20, 28));
            assert(all.subrange(20, 46).subrange(8, 24) =~= all.subrange(28, 44));
            assert(all.subrange(20, 46).subrange(24, 26) =~= all.subrange(44, 46));
            assert(all.subrange(46, 72).subrange(0, 8) =~= all.subrange(46, 54));
            assert(all.subrange(46, 72).subrange(8, 24) =~= all.subrange(54, 70));
            assert(all.subrange(46, 72).subrange(24, 26) =~= all.subrange(70, 72));
            assert(user_agent_size@[0] == all.subrange(80, 81)[0]);
        }
        Ok(payload)
    }

    /// The protocol version that the sender speaks.
    pub fn protocol_version(&self) -> (version: u32)
        ensures
            version == self@.protocol_version,
    {
        self.protocol_version.to_native()
    }

    /// The services of the sender, as the 8 bytes of a bit mask.
    pub fn services(&self) -> (services: [u8; 8])
        ensures
            services@ == self@.services,
    {
        self.services
    }

    /// Seconds since the Unix epoch.
    pub fn timestamp(&self) -> (seconds: u64)
        ensures
            seconds == self@.timestamp,
    {
        self.timestamp.to_native()
    }

    /// The remote node, as the sender sees it.
    pub fn recv_node_information(&self) -> (node: NodeInformation)
        ensures
            node@ == self@.receiver,
    {
        self.recv_node_information
    }

    /// The node that sent the payload.
    pub fn trans_node_information(&self) -> (node: NodeInformation)
        ensures
            node@ == self@.sender,
    {
        self.trans_node_information
    }

    /// The token by which a node recognises a connection to itself.
    pub fn nonce(&self) -> (nonce: u64)
        ensures
            nonce == self@.nonce,
    {
        self.nonce.to_native()
    }

    /// The length byte that stands before the user agent.
    pub fn user_agent_size(&self) -> (size: u8)
        ensures
            size == self@.user_agent_size,
    {
        self.user_agent_size[0]
    }

    /// The user agent of the sender.
    pub fn user_agent(&self) -> (text: &str)
        ensures
            text@ == self@.user_agent,
    {
        self.user_agent.as_str()
    }

    /// The height of the last block that the sender knows.
    pub fn start_height(&self) -> (height: u32)
        ensures
            height == self@.start_height,
    {
        self.start_height.to_native()
    }
}

/// A valid payload is written as 85 bytes and the bytes of its user agent,
/// and reading those bytes gives the payload back.
pub proof fn lemma_version_round_trip(fields: VersionFields)
    requires
        fields.valid(),
    ensures
        fields.wire().len() == 85 + fields.user_agent_size,
        VersionFields::parse(fields.wire()) == Ok::<VersionFields, HandshakeError>(fields),
{
    let bytes = fields.wire();
    let agent = if fields.user_agent_size > 0 {
        encode_utf8(fields.user_agent)
    } else {
        Seq::<u8>::empty()
    };
    let end: int = 81 + fields.user_agent_size as int;
    crate::endian::lemma_pow256_native();
    LittleEndian::lemma_encode_len(fields.protocol_version, 4);
    LittleEndian::lemma_encode_len(fields.timestamp, 8);
    LittleEndian::lemma_encode_len(fields.nonce, 8);
    LittleEndian::lemma_encode_len(fields.user_agent_size, 1);
    LittleEndian::lemma_encode_len(fields.start_height, 4);
    LittleEndian::lemma_decode_encode(fields.protocol_version, 4);
    LittleEndian::lemma_decode_encode(fields.timestamp, 8);
    LittleEndian::lemma_decode_encode(fields.nonce, 8);
    LittleEndian::lemma_decode_encode(fields.start_height, 4);
    fields.receiver.lemma_parse_wire();
    fields.sender.lemma_parse_wire();
    encode_utf8_valid_utf8(fields.user_agent);
    encode_utf8_decode_utf8(fields.user_agent);
    reveal_with_fuel(le_bytes, 2);
    assert(le_bytes(fields.user_agent_size, 1)[0] == fields.user_agent_size);
    assert(agent =~= encode_utf8(fields.user_agent));
    assert(bytes.len() == end + 4);
    assert(bytes.subrange(0, 4) =~= le_bytes(fields.protocol_version, 4));
    assert(bytes.subrange(4, 12) =~= fields.services);
    assert(bytes.subrange(12, 20) =~= le_bytes(fields.timestamp, 8));
    assert(bytes.subrange(20, 46) =~= fields.receiver.wire());
    assert(bytes.subrange(46, 72) =~= fields.sender.wire());
    assert(bytes.subrange(72, 80) =~= le_bytes(fields.nonce, 8));
    assert(bytes[80] == fields.user_agent_size);
    assert(bytes.subrange(81, end) =~= encode_utf8(fields.user_agent));
    assert(bytes.subrange(end, end + 4) =~= le_bytes(fields.start_height, 4));
}

/// A payload whose length byte is zero is written as 85 bytes, without any
/// byte of a user agent, and is read back with an empty user agent.
pub proof fn lemma_empty_user_agent(fields: VersionFields)
    requires
        fields.fits(),
        fields.user_agent_size == 0,
    ensures
        fields.wire().len() == 85,
        VersionFields::parse(fields.wire()) == Ok::<VersionFields, HandshakeError>(
            VersionFields { user_agent: Seq::empty(), ..fields },
        ),
{
    let emptied = VersionFields { user_agent: Seq::empty(), ..fields };
    assert(encode_utf8(Seq::<char>::empty()).len() == 0);
    assert(emptied.wire() == fields.wire());
    lemma_version_round_trip(emptied);
}

/// A valid payload that is cut short anywhere is refused as truncated: no
/// proper prefix of its bytes is read as a payload or refused for another
/// reason.
pub proof fn lemma_truncated_version_payload(fields: VersionFields, len: int)
    requires
        fields.valid(),
        0 <= len < fields.wire().len(),
    ensures
        VersionFields::parse(fields.wire().subrange(0, len)) == Err::<
            VersionFields,
            HandshakeError,
        >(HandshakeError::TruncatedInput),
{
    let whole = fields.wire();
    let cut = whole.subrange(0, len);
    let end: int = 81 + fields.user_agent_size as int;
    lemma_version_round_trip(fields);
    if len >= 81 {
        assert(cut[80] == whole[80]);
        if len >= end {
            assert(cut.subrange(81, end) =~= whole.subrange(81, end));
        }
    }
}

} // verus!
