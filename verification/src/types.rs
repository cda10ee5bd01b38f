//! The building blocks of the wire format: network identifier, command names
//! and node address records.

use vstd::prelude::*;
use vstd::utf8::{encode_utf8, is_ascii_chars, is_ascii_chars_encode_utf8};

pub use crate::endian::{BigEndian, Endianess, LittleEndian, UInt};
pub use crate::errors::HandshakeError;
use crate::endian::{be_bytes, be_value, le_bytes, le_value, pow256};
use crate::ipv4::{ipv4_mapped, ipv4_octets, parse_ipv4};

verus! {

/// The network that a message belongs to.
#[derive(Debug, Clone, Copy, PartialEq, Eq)]
pub enum MagicBytes {
    Mainnet,
}

impl MagicBytes {
    /// The 32-bit identifier of the network.
    pub open spec fn identifier(&self) -> u32 {
        match self {
            MagicBytes::Mainnet => 0xF9BEB4D9u32,
        }
    }

    /// The 32-bit identifier of the network.
    pub fn value(&self) -> (id: u32)
        ensures
            id == self.identifier(),
    {
        match self {
            MagicBytes::Mainnet => 0xF9BEB4D9u32,
        }
    }
}

/// A value that is written as exactly `N` bytes.
pub trait ToBytes<const N: usize> {
    /// The bytes that this value is written as.
    spec fn wire(&self) -> Seq<u8>;

    /// Writes this value as its `N` bytes.
    fn to_bytes(&self) -> (bytes: [u8; N])
        ensures
            bytes@ == self.wire(),
    ;
}

/// A value that is read from exactly `N` bytes.
pub trait FromBytes<const N: usize, T> {
    /// What `bytes` are read as: a value, or the reason why they are none.
    spec fn parse(bytes: Seq<u8>) -> Result<T, HandshakeError>;

    /// Reads a value from its `N` bytes.
    fn from_bytes(bytes: [u8; N]) -> (r: Result<T, HandshakeError>)
        ensures
            r == Self::parse(bytes@),
    ;
}

/// The four bytes of a network identifier, most significant first.
pub fn hex_to_bytes(num: MagicBytes) -> (bytes: [u8; 4])
    ensures
        bytes@ == be_bytes(num.identifier() as nat, 4),
{
    let num: u32 = num.value();
    let b1: u8 = (num >> 24 & 0x000000FF) as u8;
    let b2: u8 = (num >> 16 & 0x000000FF) as u8;
    let b3: u8 = (num >> 8 & 0x000000FF) as u8;
    let b4: u8 = (num & 0x000000FF) as u8;
    proof {
        assert(num >> 24 & 0x000000FF == num / 256 / 256 / 256 % 256) by (bit_vector);
        assert(num >> 16 & 0x000000FF == num / 256 / 256 % 256) by (bit_vector);
        assert(num >> 8 & 0x000000FF == num / 256 % 256) by (bit_vector);
        assert(num & 0x000000FF == num % 256) by (bit_vector);
        reveal_with_fuel(be_bytes, 5);
        assert(be_bytes(num as nat, 4) =~= seq![b1, b2, b3, b4]);
    }
    [b1, b2, b3, b4]
}

impl ToBytes<4> for MagicBytes {
    open spec fn wire(&self) -> Seq<u8> {
        be_bytes(self.identifier() as nat, 4)
    }

    fn to_bytes(&self) -> (bytes: [u8; 4]) {
        match self {
            MagicBytes::Mainnet => hex_to_bytes(MagicBytes::Mainnet),
        }
    }
}

impl FromBytes<4, MagicBytes> for MagicBytes {
    open spec fn parse(bytes: Seq<u8>) -> Result<MagicBytes, HandshakeError> {
        if bytes == MagicBytes::Mainnet.wire() {
            Ok(MagicBytes::Mainnet)
        } else {
            Err(HandshakeError::InvalidMagic)
        }
    }

    fn from_bytes(bytes: [u8; 4]) -> (r: Result<MagicBytes, HandshakeError>) {
        let expected: [u8; 4] = MagicBytes::Mainnet.to_bytes();
        if bytes[0] == expected[0] && bytes[1] == expected[1] && bytes[2] == expected[2]
            && bytes[3] == expected[3] {
            assert(bytes@ =~= expected@);
            Ok(MagicBytes::Mainnet)
        } else {
            Err(HandshakeError::InvalidMagic)
        }
    }
}

/// `bytes` followed by as many zero bytes as it takes to fill `width` bytes.
pub open spec fn zero_padded(bytes: Seq<u8>, width: nat) -> Seq<u8> {
    bytes + Seq::new((width - bytes.len()) as nat, |i: int| 0u8)
}

/// A field of `N` bytes that starts with `bytes` and is filled up with zeros.
pub fn get_field<const N: usize>(bytes: &[u8]) -> (field: [u8; N])
    requires
        bytes@.len() <= N,
    ensures
        field@ == zero_padded(bytes@, N as nat),
{
    let mut field: [u8; N] = [0; N];
    let mut i: usize = 0;
    proof {
        vstd::array::axiom_spec_array_fill_for_copy_type::<u8, N>(0u8);
        assert(field == vstd::array::spec_array_fill_for_copy_type::<u8, N>(0u8));
        assert(forall|k: int| 0 <= k < N ==> field@[k] == 0u8);
    }
    while i < bytes.len()
        invariant
            i <= bytes@.len() <= N,
            forall|k: int| 0 <= k < i ==> field@[k] == bytes@[k],
            forall|k: int| i <= k < N ==> field@[k] == 0,
        decreases bytes@.len() - i,
    {
        field[i] = bytes[i];
        i += 1;
    }
    assert(field@ =~= zero_padded(bytes@, N as nat));
    field
}

/// The bytes of ASCII text, one for each character.
pub open spec fn ascii_bytes(text: Seq<char>) -> Seq<u8> {
    Seq::new(text.len(), |i: int| text[i] as u8)
}

/// Whether two byte slices hold the same bytes.
fn bytes_equal(a: &[u8], b: &[u8]) -> (same: bool)
    ensures
        same == (a@ == b@),
{
    if a.len() != b.len() {
        return false;
    }
    let mut i: usize = 0;
    while i < a.len()
        invariant
            i <= a@.len() == b@.len(),
            forall|k: int| 0 <= k < i ==> a@[k] == b@[k],
        decreases a@.len() - i,
    {
        if a[i] != b[i] {
            return false;
        }
        i += 1;
    }
    assert(a@ =~= b@);
    true
}

/// The control messages that the handshake recognises.
#[derive(Debug, Clone, Copy, PartialEq, Eq)]
pub enum HeaderCommand {
    Version,
    Verack,
    Sendcmpct,
}

impl HeaderCommand {
    /// The name of the command.
    pub open spec fn name(&self) -> Seq<char> {
        match self {
            HeaderCommand::Version => "version"@,
            HeaderCommand::Verack => "verack"@,
            HeaderCommand::Sendcmpct => "sendcmpct"@,
        }
    }

    /// The command that `name` is the ASCII name of, if there is one.
    pub open spec fn named(name: Seq<u8>) -> Option<HeaderCommand> {
        if name == ascii_bytes(HeaderCommand::Version.name()) {
            Some(HeaderCommand::Version)
        } else if name == ascii_bytes(HeaderCommand::Verack.name()) {
            Some(HeaderCommand::Verack)
        } else if name == ascii_bytes(HeaderCommand::Sendcmpct.name()) {
            Some(HeaderCommand::Sendcmpct)
        } else {
            None
        }
    }

    /// The name of the command.
    pub fn as_str(&self) -> (text: &'static str)
        ensures
            text@ == self.name(),
    {
        match self {
            HeaderCommand::Version => "version",
            HeaderCommand::Verack => "verack",
            HeaderCommand::Sendcmpct => "sendcmpct",
        }
    }

    /// The command whose ASCII name is `name`, if there is one.
    pub fn from_name(name: &[u8]) -> (command: Option<HeaderCommand>)
        ensures
            command == HeaderCommand::named(name@),
    {
        proof {
            lemma_command_names();
        }
        if bytes_equal(name, HeaderCommand::Version.as_str().as_bytes()) {
            Some(HeaderCommand::Version)
        } else if bytes_equal(name, HeaderCommand::Verack.as_str().as_bytes()) {
            Some(HeaderCommand::Verack)
        } else if bytes_equal(name, HeaderCommand::Sendcmpct.as_str().as_bytes()) {
            Some(HeaderCommand::Sendcmpct)
        } else {
            None
        }
    }
}

/// The names of the commands, byte by byte. Each is ASCII text without a zero
/// byte, so its UTF-8 encoding is its ASCII bytes.
pub proof fn lemma_command_names()
    ensures
        ascii_bytes(HeaderCommand::Version.name()) == seq![
            0x76u8, 0x65u8, 0x72u8, 0x73u8, 0x69u8, 0x6fu8, 0x6eu8,
        ],
        ascii_bytes(HeaderCommand::Verack.name()) == seq![
            0x76u8, 0x65u8, 0x72u8, 0x61u8, 0x63u8, 0x6bu8,
        ],
        ascii_bytes(HeaderCommand::Sendcmpct.name()) == seq![
            0x73u8, 0x65u8, 0x6eu8, 0x64u8, 0x63u8, 0x6du8, 0x70u8, 0x63u8, 0x74u8,
        ],
        forall|c: HeaderCommand| #[trigger] encode_utf8(c.name()) == ascii_bytes(c.name()),
{
    reveal_strlit("version");
    reveal_strlit("verack");
    reveal_strlit("sendcmpct");
    assert(ascii_bytes("version"@) =~= seq![
        0x76u8, 0x65u8, 0x72u8, 0x73u8, 0x69u8, 0x6fu8, 0x6eu8,
    ]);
    assert(ascii_bytes("verack"@) =~= seq![0x76u8, 0x65u8, 0x72u8, 0x61u8, 0x63u8, 0x6bu8]);
    assert(ascii_bytes("sendcmpct"@) =~= seq![
        0x73u8, 0x65u8, 0x6eu8, 0x64u8, 0x63u8, 0x6du8, 0x70u8, 0x63u8, 0x74u8,
    ]);
    assert forall|c: HeaderCommand| #[trigger] encode_utf8(c.name()) == ascii_bytes(c.name()) by {
        assert(is_ascii_chars(c.name()));
        is_ascii_chars_encode_utf8(c.name());
        assert(encode_utf8(c.name()) =~= ascii_bytes(c.name()));
    }
}

impl core::str::FromStr for HeaderCommand {
    type Err = HandshakeError;

    /// The command that `s` is the name of; text that names no command gives
    /// `UnknownCommand`.
    fn from_str(s: &str) -> (r: Result<Self, HandshakeError>)
        ensures
            r == HeaderCommand::named(encode_utf8(s@)).ok_or(HandshakeError::UnknownCommand),
    {
        match HeaderCommand::from_name(s.as_bytes()) {
            Some(command) => Ok(command),
            None => Err(HandshakeError::UnknownCommand),
        }
    }
}

impl ToBytes<12> for HeaderCommand {
    /// The ASCII name, left-justified and filled up with zero bytes.
    open spec fn wire(&self) -> Seq<u8> {
        zero_padded(ascii_bytes(self.name()), 12)
    }

    fn to_bytes(&self) -> (bytes: [u8; 12]) {
        proof {
            lemma_command_names();
        }
        get_field::<12>(self.as_str().as_bytes())
    }
}

impl FromBytes<12, HeaderCommand> for HeaderCommand {
    /// The command that `bytes` is the padded name of; bytes that are the
    /// padded name of no command are an error.
    open spec fn parse(bytes: Seq<u8>) -> Result<HeaderCommand, HandshakeError> {
        if bytes == HeaderCommand::Version.wire() {
            Ok(HeaderCommand::Version)
        } else if bytes == HeaderCommand::Verack.wire() {
            Ok(HeaderCommand::Verack)
        } else if bytes == HeaderCommand::Sendcmpct.wire() {
            Ok(HeaderCommand::Sendcmpct)
        } else {
            Err(HandshakeError::UnknownCommand)
        }
    }

    fn from_bytes(bytes: [u8; 12]) -> (r: Result<HeaderCommand, HandshakeError>) {
        let mut end: usize = 12;
        while end > 0 && bytes[end - 1] == 0
            invariant
                end <= 12,
                forall|k: int| end <= k < 12 ==> bytes@[k] == 0,
            decreases end,
        {
            end -= 1;
        }
        let name = vstd::slice::slice_subrange(bytes.as_slice(), 0, end);
        let found = HeaderCommand::from_name(name);
        proof {
            lemma_command_names();
            let version = HeaderCommand::Version.wire();
            let verack = HeaderCommand::Verack.wire();
            let other = HeaderCommand::Sendcmpct.wire();
            assert(version.len() == 12 && version[5] == 0x6f && version[6] == 0x6e && version[7]
                == 0);
            assert(verack.len() == 12 && verack[5] == 0x6b && verack[6] == 0);
            assert(other.len() == 12 && other[0] == 0x73 && other[8] == 0x74 && other[9] == 0);
            match found {
                Some(command) => {
                    assert(bytes@ =~= zero_padded(name@, 12));
                },
                None => {
                    if bytes@ == version {
                        assert(name@ =~= ascii_bytes(HeaderCommand::Version.name()));
                    }
                    if bytes@ == verack {
                        assert(name@ =~= ascii_bytes(HeaderCommand::Verack.name()));
                    }
                    if bytes@ == other {
                        assert(name@ =~= ascii_bytes(HeaderCommand::Sendcmpct.name()));
                    }
                },
            }
        }
        match found {
            Some(command) => Ok(command),
            None => Err(HandshakeError::UnknownCommand),
        }
    }
}

/// The `N` bytes of `bytes` that start at `start`.
pub fn read_array<const N: usize>(bytes: &[u8], start: usize) -> (field: [u8; N])
    requires
        start + N <= bytes@.len(),
    ensures
        field@ == bytes@.subrange(start as int, start + N),
{
    let total: usize = bytes.len();
    let mut field: [u8; N] = [0; N];
    let mut i: usize = 0;
    while i < N
        invariant
            i <= N,
            start + N <= bytes@.len() == total,
            forall|k: int| 0 <= k < i ==> field@[k] == bytes@[start + k],
        decreases N - i,
    {
        field[i] = bytes[start + i];
        i += 1;
    }
    assert(field@ =~= bytes@.subrange(start as int, start + N));
    field
}

/// What a node address record says: the services that the node offers, its
/// address as a 128-bit number and its port.
pub struct NodeAddress {
    pub services: nat,
    pub ip_address: nat,
    pub port: nat,
}

impl NodeAddress {
    /// Whether each number fits in its field.
    pub open spec fn valid(self) -> bool {
        &&& self.services < pow256(8)
        &&& self.ip_address < pow256(16)
        &&& self.port < pow256(2)
    }

    /// The 26 bytes of the record: services in 8 bytes, least significant
    /// first; the address in 16 bytes and the port in 2 bytes, most
    /// significant first.
    pub open spec fn wire(self) -> Seq<u8> {
        le_bytes(self.services, 8) + be_bytes(self.ip_address, 16) + be_bytes(self.port, 2)
    }

    /// The record that 26 bytes are read as.
    pub open spec fn parse(bytes: Seq<u8>) -> NodeAddress {
        NodeAddress {
            services: le_value(bytes.subrange(0, 8)),
            ip_address: be_value(bytes.subrange(8, 24)),
            port: be_value(bytes.subrange(24, 26)),
        }
    }

    /// Reading the bytes of a valid record gives the record back.
    pub proof fn lemma_parse_wire(self)
        requires
            self.valid(),
        ensures
            self.wire().len() == 26,
            NodeAddress::parse(self.wire()) == self,
    {
        LittleEndian::lemma_encode_len(self.services, 8);
        BigEndian::lemma_encode_len(self.ip_address, 16);
        BigEndian::lemma_encode_len(self.port, 2);
        LittleEndian::lemma_decode_encode(self.services, 8);
        BigEndian::lemma_decode_encode(self.ip_address, 16);
        BigEndian::lemma_decode_encode(self.port, 2);
        let bytes = self.wire();
        assert(bytes.subrange(0, 8) =~= le_bytes(self.services, 8));
        assert(bytes.subrange(8, 24) =~= be_bytes(self.ip_address, 16));
        assert(bytes.subrange(24, 26) =~= be_bytes(self.port, 2));
    }

    /// Any 26 bytes are read as a valid record, and writing that record gives
    /// the bytes back.
    pub proof fn lemma_wire_parse(bytes: Seq<u8>)
        requires
            bytes.len() == 26,
        ensures
            NodeAddress::parse(bytes).valid(),
            NodeAddress::parse(bytes).wire() == bytes,
    {
        LittleEndian::lemma_decode_bound(bytes.subrange(0, 8));
        BigEndian::lemma_decode_bound(bytes.subrange(8, 24));
        BigEndian::lemma_decode_bound(bytes.subrange(24, 26));
        LittleEndian::lemma_encode_decode(bytes.subrange(0, 8));
        BigEndian::lemma_encode_decode(bytes.subrange(8, 24));
        BigEndian::lemma_encode_decode(bytes.subrange(24, 26));
        assert(bytes.subrange(0, 8) + bytes.subrange(8, 24) + bytes.subrange(24, 26) =~= bytes);
    }
}

/// The address record of a node, as it stands in a version payload.
#[derive(Debug, Clone, Copy, PartialEq, Eq)]
pub struct NodeInformation {
    pub services: UInt<LittleEndian, 8>,
    pub ip_address: UInt<BigEndian, 16>,
    pub port: UInt<BigEndian, 2>,
}

impl View for NodeInformation {
    type V = NodeAddress;

    open spec fn view(&self) -> NodeAddress {
        NodeAddress {
            services: self.services.value(),
            ip_address: self.ip_address.value(),
            port: self.port.value(),
        }
    }
}

impl NodeInformation {
    /// The record of the node at the IPv4 address `ip_address`, which is
    /// written in dotted-decimal form. The address is kept in its IPv6 form:
    /// ten zero bytes, two bytes `ff`, then the four octets. Text that is no
    /// dotted-decimal address gives `AddressParseError`.
    pub fn new(services: u64, ip_address: &str, port: u16) -> (r: Result<Self, HandshakeError>)
        ensures
            match r {
                Ok(node) => ipv4_octets(encode_utf8(ip_address@)) matches Some(octets)
                    && node.ip_address.bytes() == ipv4_mapped(octets) && node@ == (NodeAddress {
                    services: services as nat,
                    ip_address: be_value(ipv4_mapped(octets)),
                    port: port as nat,
                }),
                Err(e) => e == HandshakeError::AddressParseError && ipv4_octets(
                    encode_utf8(ip_address@),
                ) is None,
            },
    {
        let octets: [u8; 4] = match parse_ipv4(ip_address.as_bytes()) {
            Some(octets) => octets,
            None => {
                return Err(HandshakeError::AddressParseError);
            },
        };
        let mapped: [u8; 16] = [
            0,
            0,
            0,
            0,
            0,
            0,
            0,
            0,
            0,
            0,
            0xff,
            0xff,
            octets[0],
            octets[1],
            octets[2],
            octets[3],
        ];
        assert(mapped@ =~= ipv4_mapped(octets@));
        let node_information = Self {
            services: UInt::<LittleEndian, 8>::new(services),
            ip_address: UInt::<BigEndian, 16>::from_be_bytes(mapped),
            port: UInt::<BigEndian, 2>::new(port),
        };

        Ok(node_information)
    }

    /// The record made of the three fields as they were read from the wire.
    pub fn from_bytes(
        services: UInt<LittleEndian, 8>,
        ip_address: UInt<BigEndian, 16>,
        port: UInt<BigEndian, 2>,
    ) -> (node: Self)
        ensures
            node.services == services,
            node.ip_address == ip_address,
            node.port == port,
    {
        Self { services, ip_address, port }
    }

    /// The 26 bytes of this record.
    pub fn encode(&self) -> (bytes: [u8; 26])
        ensures
            self@.valid(),
            bytes@ == self@.wire(),
    {
        let services: [u8; 8] = self.services.to_bytes();
        let ip_address: [u8; 16] = self.ip_address.to_bytes();
        let port: [u8; 2] = self.port.to_bytes();
        let mut bytes: [u8; 26] = [0; 26];
        let mut i: usize = 0;
        while i < 26
            invariant
                i <= 26,
                forall|k: int|
                    0 <= k < i ==> bytes@[k] == (services@ + ip_address@ + port@)[k],
            decreases 26 - i,
        {
            bytes[i] = if i < 8 {
                services[i]
            } else if i < 24 {
                ip_address[i - 8]
            } else {
                port[i - 24]
            };
            i += 1;
        }
        proof {
            self.services.lemma_width();
            self.ip_address.lemma_width();
            self.port.lemma_width();
            assert(bytes@ =~= services@ + ip_address@ + port@);
        }
        bytes
    }

    /// The record that 26 bytes are read as.
    pub fn decode(bytes: [u8; 26]) -> (node: Self)
        ensures
            node@ == NodeAddress::parse(bytes@),
    {
        let services: [u8; 8] = read_array::<8>(bytes.as_slice(), 0);
        let ip_address: [u8; 16] = read_array::<16>(bytes.as_slice(), 8);
        let port: [u8; 2] = read_array::<2>(bytes.as_slice(), 24);
        NodeInformation::from_bytes(
            UInt::<LittleEndian, 8>::from_le_bytes(services),
            UInt::<BigEndian, 16>::from_be_bytes(ip_address),
            UInt::<BigEndian, 2>::from_be_bytes(port),
        )
    }
}

/// The name of a command fills 12 bytes, and reading those bytes gives the
/// command back.
pub proof fn lemma_command_round_trip(command: HeaderCommand)
    ensures
        command.wire().len() == 12,
        HeaderCommand::parse(command.wire()) == Ok::<HeaderCommand, HandshakeError>(command),
{
    lemma_command_names();
    let version = HeaderCommand::Version.wire();
    let verack = HeaderCommand::Verack.wire();
    let other = HeaderCommand::Sendcmpct.wire();
    assert(version.len() == 12 && version[0] == 0x76 && version[3] == 0x73);
    assert(verack.len() == 12 && verack[0] == 0x76 && verack[3] == 0x61);
    assert(other.len() == 12 && other[0] == 0x73);
}

/// The identifier of a network fills 4 bytes, and reading those bytes gives
/// the network back. The main network is written as `f9 be b4 d9`.
pub proof fn lemma_magic_round_trip(magic: MagicBytes)
    ensures
        magic.wire().len() == 4,
        MagicBytes::parse(magic.wire()) == Ok::<MagicBytes, HandshakeError>(magic),
        MagicBytes::Mainnet.wire() == seq![0xf9u8, 0xbeu8, 0xb4u8, 0xd9u8],
{
    BigEndian::lemma_encode_len(magic.identifier() as nat, 4);
    reveal_with_fuel(be_bytes, 5);
    assert(MagicBytes::Mainnet.wire() =~= seq![0xf9u8, 0xbeu8, 0xb4u8, 0xd9u8]);
}

} // verus!
