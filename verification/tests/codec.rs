use p2p_handshake::errors::HandshakeError;
use p2p_handshake::messages::{
    checksum_from_digest, get_checksum, MessageHeader, VersionMessagePayload,
};
use p2p_handshake::types::{
    get_field, hex_to_bytes, read_array, BigEndian, FromBytes, HeaderCommand, LittleEndian,
    MagicBytes, NodeInformation, ToBytes, UInt,
};

fn sample_payload(user_agent: &str) -> VersionMessagePayload {
    VersionMessagePayload::new(
        UInt::<LittleEndian, 4>::new(70015),
        [0; 8],
        UInt::<LittleEndian, 8>::new(1_700_000_000),
        NodeInformation::new(0, "52.15.138.15", 8333).unwrap(),
        NodeInformation::new(0, "127.0.0.1", 8333).unwrap(),
        UInt::<LittleEndian, 8>::new(0),
        [user_agent.len() as u8],
        user_agent.to_string(),
        UInt::<LittleEndian, 4>::new(0),
    )
}

#[test]
fn uint_little_endian_bytes() {
    assert_eq!(UInt::<LittleEndian, 4>::new(70015).to_bytes(), [0x7f, 0x11, 0x01, 0x00]);
    assert_eq!(
        UInt::<LittleEndian, 8>::new(0x0102030405060708).to_bytes(),
        [8, 7, 6, 5, 4, 3, 2, 1]
    );
}

#[test]
fn uint_big_endian_bytes() {
    assert_eq!(UInt::<BigEndian, 2>::new(8333).to_bytes(), [0x20, 0x8d]);
    assert_eq!(UInt::<BigEndian, 4>::new(0xF9BEB4D9).to_bytes(), [0xf9, 0xbe, 0xb4, 0xd9]);
    let wide = UInt::<BigEndian, 16>::new(0x0102030405060708090a0b0c0d0e0f10);
    assert_eq!(wide.to_bytes(), [1, 2, 3, 4, 5, 6, 7, 8, 9, 10, 11, 12, 13, 14, 15, 16]);
}

#[test]
fn uint_round_trip_at_the_limits() {
    for x in [0u16, 1, 255, 256, 8333, u16::MAX] {
        assert_eq!(UInt::<BigEndian, 2>::new(x).to_native(), x);
        assert_eq!(UInt::<BigEndian, 2>::from_be_bytes(x.to_be_bytes()).to_native(), x);
    }
    for x in [0u32, 1, 70015, 0x01020304, u32::MAX] {
        assert_eq!(UInt::<LittleEndian, 4>::new(x).to_native(), x);
        assert_eq!(UInt::<BigEndian, 4>::new(x).to_native(), x);
        assert_eq!(UInt::<LittleEndian, 4>::new(x).to_bytes(), x.to_le_bytes());
        assert_eq!(UInt::<BigEndian, 4>::new(x).to_bytes(), x.to_be_bytes());
    }
    for x in [0u64, 1, 1_700_000_000, u64::MAX] {
        assert_eq!(UInt::<LittleEndian, 8>::new(x).to_native(), x);
        assert_eq!(UInt::<LittleEndian, 8>::from_le_bytes(x.to_le_bytes()).to_native(), x);
    }
    for x in [0u128, 1, 0xffff_7f00_0001, u128::MAX] {
        assert_eq!(UInt::<BigEndian, 16>::new(x).to_native(), x);
        assert_eq!(UInt::<BigEndian, 16>::new(x).to_bytes(), x.to_be_bytes());
    }
}

#[test]
fn uint_from_bytes_keeps_the_bytes() {
    let bytes = [0xde, 0xad, 0xbe, 0xef];
    assert_eq!(UInt::<LittleEndian, 4>::from_le_bytes(bytes).to_bytes(), bytes);
    assert_eq!(UInt::<BigEndian, 4>::from_be_bytes(bytes).to_bytes(), bytes);
    assert_eq!(UInt::<LittleEndian, 4>::from_le_bytes(bytes).to_native(), 0xefbeadde);
    assert_eq!(UInt::<BigEndian, 4>::from_be_bytes(bytes).to_native(), 0xdeadbeef);
}

#[test]
fn magic_bytes_of_mainnet() {
    assert_eq!(hex_to_bytes(MagicBytes::Mainnet), [0xf9, 0xbe, 0xb4, 0xd9]);
    assert_eq!(MagicBytes::Mainnet.to_bytes(), [0xf9, 0xbe, 0xb4, 0xd9]);
    assert_eq!(MagicBytes::Mainnet.value(), 0xF9BEB4D9);
    assert_eq!(MagicBytes::from_bytes([0xf9, 0xbe, 0xb4, 0xd9]), Ok(MagicBytes::Mainnet));
}

#[test]
fn magic_bytes_of_another_network_are_refused() {
    assert_eq!(MagicBytes::from_bytes([0x0b, 0x11, 0x09, 0x07]), Err(HandshakeError::InvalidMagic));
    assert_eq!(MagicBytes::from_bytes([0xf9, 0xbe, 0xb4, 0xd8]), Err(HandshakeError::InvalidMagic));
}

#[test]
fn get_field_pads_with_zeros() {
    assert_eq!(get_field::<4>(&[1, 2]), [1, 2, 0, 0]);
    assert_eq!(get_field::<3>(&[]), [0, 0, 0]);
    assert_eq!(get_field::<2>(&[9, 8]), [9, 8]);
}

#[test]
fn read_array_takes_the_bytes_at_the_offset() {
    assert_eq!(read_array::<2>(&[1, 2, 3, 4], 1), [2, 3]);
    assert_eq!(read_array::<0>(&[1, 2, 3, 4], 4), [0u8; 0]);
}

#[test]
fn command_encoding_of_verack() {
    assert_eq!(
        HeaderCommand::Verack.to_bytes(),
        [0x76, 0x65, 0x72, 0x61, 0x63, 0x6B, 0x00, 0x00, 0x00, 0x00, 0x00, 0x00]
    );
}

#[test]
fn command_decoding_of_sendcmpct() {
    let bytes: [u8; 12] = *b"sendcmpct\0\0\0";
    assert_eq!(HeaderCommand::from_bytes(bytes), Ok(HeaderCommand::Sendcmpct));
}

#[test]
fn command_round_trip() {
    for command in [HeaderCommand::Version, HeaderCommand::Verack, HeaderCommand::Sendcmpct] {
        assert_eq!(HeaderCommand::from_bytes(command.to_bytes()), Ok(command));
        assert_eq!(HeaderCommand::from_name(command.as_str().as_bytes()), Some(command));
    }
    assert_eq!(HeaderCommand::Version.to_bytes(), *b"version\0\0\0\0\0");
    assert_eq!(HeaderCommand::Version.as_str(), "version");
}

#[test]
fn unknown_commands_are_refused() {
    assert_eq!(HeaderCommand::from_bytes([0; 12]), Err(HandshakeError::UnknownCommand));
    assert_eq!(HeaderCommand::from_bytes(*b"getheaders\0\0"), Err(HandshakeError::UnknownCommand));
    assert_eq!(HeaderCommand::from_bytes(*b"\0verack\0\0\0\0\0"), Err(HandshakeError::UnknownCommand));
    assert_eq!(HeaderCommand::from_bytes(*b"verack\0\0\0\0\0x"), Err(HandshakeError::UnknownCommand));
    assert_eq!(HeaderCommand::from_bytes(*b"ver\0ack\0\0\0\0\0"), Err(HandshakeError::UnknownCommand));
    assert_eq!(HeaderCommand::from_bytes(*b"Version\0\0\0\0\0"), Err(HandshakeError::UnknownCommand));
    assert_eq!(HeaderCommand::from_name(b"versio"), None);
    assert_eq!(HeaderCommand::from_name(b""), None);
}

#[test]
fn checksum_of_the_empty_payload() {
    assert_eq!(get_checksum(&vec![]).to_bytes(), [0x5d, 0xf6, 0xe0, 0xe2]);
}

#[test]
fn checksum_is_the_double_hash() {
    // SHA-256 of SHA-256 of "hello" starts with 95 95 c9 df.
    assert_eq!(get_checksum(&b"hello".to_vec()).to_bytes(), [0x95, 0x95, 0xc9, 0xdf]);
}

#[test]
fn checksum_is_deterministic() {
    let payload = sample_payload("").to_bytes();
    assert_eq!(get_checksum(&payload), get_checksum(&payload.clone()));
    assert_eq!(get_checksum(&payload).to_bytes().len(), 4);
    assert_ne!(get_checksum(&payload), get_checksum(&vec![]));
}

#[test]
fn checksum_from_digest_takes_the_first_four_bytes() {
    let mut digest = [0u8; 32];
    for (i, byte) in digest.iter_mut().enumerate() {
        *byte = i as u8 + 1;
    }
    assert_eq!(checksum_from_digest(&digest).to_bytes(), [1, 2, 3, 4]);
}

#[test]
fn header_encoding() {
    let header = MessageHeader::new(
        MagicBytes::Mainnet,
        HeaderCommand::Verack,
        UInt::<LittleEndian, 4>::new(0),
        get_checksum(&vec![]),
    );
    let bytes = header.to_bytes();
    assert_eq!(
        bytes,
        vec![
            0xf9, 0xbe, 0xb4, 0xd9, 0x76, 0x65, 0x72, 0x61, 0x63, 0x6b, 0, 0, 0, 0, 0, 0, 0, 0, 0,
            0, 0x5d, 0xf6, 0xe0, 0xe2
        ]
    );
}

#[test]
fn header_size_is_little_endian() {
    let header = MessageHeader::new(
        MagicBytes::Mainnet,
        HeaderCommand::Version,
        UInt::<LittleEndian, 4>::new(0x0102_0355),
        UInt::<BigEndian, 4>::from_be_bytes([0xaa, 0xbb, 0xcc, 0xdd]),
    );
    let bytes = header.to_bytes();
    assert_eq!(bytes.len(), 24);
    assert_eq!(&bytes[16..20], &[0x55, 0x03, 0x02, 0x01]);
    assert_eq!(&bytes[20..24], &[0xaa, 0xbb, 0xcc, 0xdd]);
    assert_eq!(header.payload_size(), 0x0102_0355);
    assert_eq!(header.size.to_native(), 0x0102_0355);
}

#[test]
fn header_round_trip() {
    for command in [HeaderCommand::Version, HeaderCommand::Verack, HeaderCommand::Sendcmpct] {
        for size in [0u32, 1, 85, 0xffff_ffff] {
            let header = MessageHeader::new(
                MagicBytes::Mainnet,
                command,
                UInt::<LittleEndian, 4>::new(size),
                UInt::<BigEndian, 4>::new(size.wrapping_mul(2654435761)),
            );
            let bytes: [u8; 24] = header.to_bytes().try_into().unwrap();
            let back = MessageHeader::from_bytes(bytes).unwrap();
            assert_eq!(back, header);
            assert_eq!(back.command(), command);
            assert_eq!(back.magic_bytes(), MagicBytes::Mainnet);
            assert_eq!(back.payload_size(), size);
            assert_eq!(back.checksum(), header.checksum());
            assert_eq!(MessageHeader::decode(&header.to_bytes()), Ok(header));
        }
    }
}

#[test]
fn header_shorter_than_24_bytes_is_truncated() {
    let header = MessageHeader::new(
        MagicBytes::Mainnet,
        HeaderCommand::Version,
        UInt::<LittleEndian, 4>::new(85),
        UInt::<BigEndian, 4>::new(7),
    );
    let bytes = header.to_bytes();
    for len in 0..24 {
        assert_eq!(MessageHeader::decode(&bytes[..len]), Err(HandshakeError::TruncatedInput));
    }
    assert_eq!(MessageHeader::decode(&bytes), Ok(header));
}

#[test]
fn header_decoding_reads_the_first_24_bytes() {
    let header = MessageHeader::new(
        MagicBytes::Mainnet,
        HeaderCommand::Sendcmpct,
        UInt::<LittleEndian, 4>::new(9),
        UInt::<BigEndian, 4>::new(7),
    );
    let mut bytes = header.to_bytes();
    bytes.extend_from_slice(&[1, 2, 3]);
    assert_eq!(MessageHeader::decode(&bytes), Ok(header));
}

#[test]
fn header_with_unknown_command_is_refused() {
    let mut bytes = [0u8; 24];
    bytes[..4].copy_from_slice(&[0xf9, 0xbe, 0xb4, 0xd9]);
    bytes[4..9].copy_from_slice(b"block");
    assert_eq!(MessageHeader::from_bytes(bytes), Err(HandshakeError::UnknownCommand));
}

#[test]
fn header_with_wrong_magic_is_refused() {
    let mut bytes = [0u8; 24];
    bytes[..4].copy_from_slice(&[0xfa, 0xbf, 0xb5, 0xda]);
    bytes[4..10].copy_from_slice(b"verack");
    assert_eq!(MessageHeader::from_bytes(bytes), Err(HandshakeError::InvalidMagic));
    // The magic is looked at before the command.
    bytes[4..10].copy_from_slice(b"nosuch");
    assert_eq!(MessageHeader::from_bytes(bytes), Err(HandshakeError::InvalidMagic));
}

#[test]
fn version_payload_scenario() {
    let bytes = sample_payload("").to_bytes();
    assert_eq!(bytes.len(), 85);
    assert_eq!(&bytes[..4], &[0x7F, 0x11, 0x01, 0x00]);
}

#[test]
fn version_payload_layout() {
    let payload = VersionMessagePayload::new(
        UInt::<LittleEndian, 4>::new(70015),
        [1, 0, 0, 0, 0, 0, 0, 0],
        UInt::<LittleEndian, 8>::new(0x1122334455667788),
        NodeInformation::new(1, "52.15.138.15", 8333).unwrap(),
        NodeInformation::new(2, "127.0.0.1", 18333).unwrap(),
        UInt::<LittleEndian, 8>::new(0xdead_beef),
        [3],
        "abc".to_string(),
        UInt::<LittleEndian, 4>::new(500_000),
    );
    let bytes = payload.to_bytes();
    let mut expected: Vec<u8> = vec![0x7f, 0x11, 0x01, 0x00];
    expected.extend_from_slice(&[1, 0, 0, 0, 0, 0, 0, 0]);
    expected.extend_from_slice(&[0x88, 0x77, 0x66, 0x55, 0x44, 0x33, 0x22, 0x11]);
    expected.extend_from_slice(&[1, 0, 0, 0, 0, 0, 0, 0]);
    expected.extend_from_slice(&[0, 0, 0, 0, 0, 0, 0, 0, 0, 0, 0xff, 0xff, 52, 15, 138, 15]);
    expected.extend_from_slice(&[0x20, 0x8d]);
    expected.extend_from_slice(&[2, 0, 0, 0, 0, 0, 0, 0]);
    expected.extend_from_slice(&[0, 0, 0, 0, 0, 0, 0, 0, 0, 0, 0xff, 0xff, 127, 0, 0, 1]);
    expected.extend_from_slice(&[0x47, 0x9d]);
    expected.extend_from_slice(&[0xef, 0xbe, 0xad, 0xde, 0, 0, 0, 0]);
    expected.push(3);
    expected.extend_from_slice(b"abc");
    expected.extend_from_slice(&[0x20, 0xa1, 0x07, 0x00]);
    assert_eq!(bytes, expected);
    assert_eq!(bytes.len(), 88);
}

#[test]
fn version_payload_round_trip() {
    for agent in ["", "a", "/Satoshi:25.0.0/", "h\u{e9}llo \u{1f600}"] {
        let payload = sample_payload(agent);
        let bytes = payload.to_bytes();
        assert_eq!(bytes.len(), 85 + agent.len());
        let back = VersionMessagePayload::from_bytes(bytes.clone()).unwrap();
        assert_eq!(back, payload);
        assert_eq!(back.user_agent(), agent);
        assert_eq!(back.user_agent_size() as usize, agent.len());
        assert_eq!(back.to_bytes(), bytes);
    }
}

#[test]
fn version_payload_getters() {
    let payload = VersionMessagePayload::new(
        UInt::<LittleEndian, 4>::new(70015),
        [9, 0, 0, 0, 0, 0, 0, 4],
        UInt::<LittleEndian, 8>::new(1_700_000_000),
        NodeInformation::new(5, "52.15.138.15", 8333).unwrap(),
        NodeInformation::new(6, "127.0.0.1", 8334).unwrap(),
        UInt::<LittleEndian, 8>::new(77),
        [2],
        "ab".to_string(),
        UInt::<LittleEndian, 4>::new(123),
    );
    assert_eq!(payload.protocol_version(), 70015);
    assert_eq!(payload.services(), [9, 0, 0, 0, 0, 0, 0, 4]);
    assert_eq!(payload.timestamp(), 1_700_000_000);
    assert_eq!(payload.recv_node_information().services.to_native(), 5);
    assert_eq!(payload.recv_node_information().port.to_native(), 8333);
    assert_eq!(payload.trans_node_information().services.to_native(), 6);
    assert_eq!(payload.trans_node_information().port.to_native(), 8334);
    assert_eq!(payload.nonce(), 77);
    assert_eq!(payload.user_agent_size(), 2);
    assert_eq!(payload.user_agent(), "ab");
    assert_eq!(payload.start_height(), 123);
}

#[test]
fn version_payload_with_empty_user_agent() {
    let payload = sample_payload("");
    let bytes = payload.to_bytes();
    assert_eq!(bytes.len(), 85);
    assert_eq!(bytes[80], 0);
    assert_eq!(&bytes[81..85], &[0, 0, 0, 0]);
    let back = VersionMessagePayload::from_bytes(bytes).unwrap();
    assert_eq!(back.user_agent(), "");
    assert_eq!(back.user_agent_size(), 0);
}

#[test]
fn version_payload_with_zero_length_byte_writes_no_user_agent() {
    let payload = VersionMessagePayload::new(
        UInt::<LittleEndian, 4>::new(70015),
        [0; 8],
        UInt::<LittleEndian, 8>::new(0),
        NodeInformation::new(0, "52.15.138.15", 8333).unwrap(),
        NodeInformation::new(0, "127.0.0.1", 8333).unwrap(),
        UInt::<LittleEndian, 8>::new(0),
        [0],
        "ignored".to_string(),
        UInt::<LittleEndian, 4>::new(0),
    );
    assert_eq!(payload.to_bytes().len(), 85);
}

#[test]
fn version_payload_truncated_anywhere() {
    let bytes = sample_payload("agent").to_bytes();
    assert_eq!(bytes.len(), 90);
    for len in 0..bytes.len() {
        assert_eq!(
            VersionMessagePayload::from_bytes(bytes[..len].to_vec()),
            Err(HandshakeError::TruncatedInput),
            "length {}",
            len
        );
    }
    assert!(VersionMessagePayload::from_bytes(bytes).is_ok());
}

#[test]
fn version_payload_ignores_trailing_bytes() {
    let payload = sample_payload("agent");
    let mut bytes = payload.to_bytes();
    bytes.push(1);
    bytes.extend_from_slice(&[7, 7, 7]);
    assert_eq!(VersionMessagePayload::from_bytes(bytes), Ok(payload));
}

#[test]
fn version_payload_with_invalid_utf8() {
    let mut bytes = sample_payload("ab").to_bytes();
    bytes[81] = 0xff;
    assert_eq!(VersionMessagePayload::from_bytes(bytes.clone()), Err(HandshakeError::InvalidUtf8));
    // The user agent is looked at before the start height.
    bytes.truncate(84);
    assert_eq!(VersionMessagePayload::from_bytes(bytes), Err(HandshakeError::InvalidUtf8));
}

#[test]
fn version_payload_with_long_user_agent_length() {
    let mut bytes = sample_payload("").to_bytes();
    bytes[80] = 128;
    bytes.extend_from_slice(&[b'a'; 200]);
    assert_eq!(
        VersionMessagePayload::from_bytes(bytes.clone()),
        Err(HandshakeError::UserAgentTooLong)
    );
    bytes[80] = 0xfd;
    assert_eq!(VersionMessagePayload::from_bytes(bytes.clone()), Err(HandshakeError::UserAgentTooLong));
    bytes[80] = 127;
    let payload = VersionMessagePayload::from_bytes(bytes).unwrap();
    assert_eq!(payload.user_agent().len(), 127);
}

#[test]
fn node_information_from_text() {
    let node = NodeInformation::new(1, "52.15.138.15", 8333).unwrap();
    assert_eq!(node.services.to_bytes(), [1, 0, 0, 0, 0, 0, 0, 0]);
    assert_eq!(
        node.ip_address.to_bytes(),
        [0, 0, 0, 0, 0, 0, 0, 0, 0, 0, 0xff, 0xff, 52, 15, 138, 15]
    );
    assert_eq!(node.port.to_bytes(), [0x20, 0x8d]);
    assert_eq!(node.ip_address.to_native(), 0xffff_340f_8a0f);
}

#[test]
fn node_information_record_round_trip() {
    let node = NodeInformation::new(0x0102, "255.0.10.199", 65535).unwrap();
    let bytes = node.encode();
    assert_eq!(
        bytes,
        [
            2, 1, 0, 0, 0, 0, 0, 0, 0, 0, 0, 0, 0, 0, 0, 0, 0, 0, 0xff, 0xff, 255, 0, 10, 199,
            0xff, 0xff
        ]
    );
    assert_eq!(NodeInformation::decode(bytes), node);
    let other: [u8; 26] = core::array::from_fn(|i| (i * 7) as u8);
    assert_eq!(NodeInformation::decode(other).encode(), other);
}

#[test]
fn node_information_from_fields() {
    let node = NodeInformation::from_bytes(
        UInt::<LittleEndian, 8>::new(3),
        UInt::<BigEndian, 16>::new(4),
        UInt::<BigEndian, 2>::new(5),
    );
    assert_eq!(node.services.to_native(), 3);
    assert_eq!(node.ip_address.to_native(), 4);
    assert_eq!(node.port.to_native(), 5);
}

#[test]
fn malformed_addresses_are_refused() {
    for text in [
        "", "1", "1.2.3", "1.2.3.", ".1.2.3", "1..2.3", "1.2.3.4.5", "1.2.3.4.", "256.1.1.1",
        "1.1.1.256", "01.2.3.4", "1.2.3.04", "1.2.3.00", "1.2.3.4 ", " 1.2.3.4", "1.2.3.a",
        "1,2,3,4", "1.2.3.-4", "1.2.3.+4", "1111.2.3.4", "1.2.3.0255", "localhost", "::1",
        "1.2.3.4\n", "\u{661}.2.3.4", "999.999.999.999", "1.2.3.4000",
    ] {
        assert_eq!(
            NodeInformation::new(0, text, 1).err(),
            Some(HandshakeError::AddressParseError),
            "{:?}",
            text
        );
    }
}

#[test]
fn well_formed_addresses_are_read() {
    for (text, octets) in [
        ("0.0.0.0", [0u8, 0, 0, 0]),
        ("255.255.255.255", [255, 255, 255, 255]),
        ("127.0.0.1", [127, 0, 0, 1]),
        ("10.20.30.40", [10, 20, 30, 40]),
        ("9.99.100.199", [9, 99, 100, 199]),
        ("200.249.250.0", [200, 249, 250, 0]),
    ] {
        let node = NodeInformation::new(0, text, 1).unwrap();
        assert_eq!(&node.ip_address.to_bytes()[12..], &octets, "{}", text);
        assert_eq!(&node.ip_address.to_bytes()[..12], &[0, 0, 0, 0, 0, 0, 0, 0, 0, 0, 0xff, 0xff]);
    }
}

#[test]
fn error_messages() {
    assert_eq!(HandshakeError::UnknownCommand.message(), "Invalid header command");
    assert_eq!(
        HandshakeError::ChecksumMismatch.message(),
        "There was an error calculating the checksum"
    );
    assert_eq!(
        HandshakeError::TransportError.message(),
        "There was an error while reading from the socket"
    );
}

#[test]
fn command_from_str() {
    assert_eq!("version".parse::<HeaderCommand>(), Ok(HeaderCommand::Version));
    assert_eq!("verack".parse::<HeaderCommand>(), Ok(HeaderCommand::Verack));
    assert_eq!("sendcmpct".parse::<HeaderCommand>(), Ok(HeaderCommand::Sendcmpct));
    assert_eq!("".parse::<HeaderCommand>(), Err(HandshakeError::UnknownCommand));
    assert_eq!("verack\0".parse::<HeaderCommand>(), Err(HandshakeError::UnknownCommand));
    assert_eq!("VERACK".parse::<HeaderCommand>(), Err(HandshakeError::UnknownCommand));
}

#[test]
fn every_error_has_its_message() {
    let all = [
        HandshakeError::AddressParseError,
        HandshakeError::TruncatedInput,
        HandshakeError::InvalidUtf8,
        HandshakeError::UserAgentTooLong,
        HandshakeError::InvalidMagic,
        HandshakeError::UnknownCommand,
        HandshakeError::UnexpectedCommand,
        HandshakeError::ChecksumMismatch,
        HandshakeError::TransportError,
    ];
    for (i, first) in all.iter().enumerate() {
        assert!(!first.message().is_empty());
        for second in &all[i + 1..] {
            assert_ne!(first.message(), second.message());
        }
    }
    assert_eq!(
        HandshakeError::AddressParseError.message(),
        "Parse error: invalid IPv4 address syntax"
    );
}
