//! Tests for the checksum and hex-encoding primitives, the exact error
//! variants, and the corner cases of parsing and validation.

use packet_crafter::checksum::internet_checksum;
use packet_crafter::encoding::hex_encode;
use packet_crafter::parsing::{parse_bitfield, parse_mac, BitfieldParseError, MacParseError};
use packet_crafter::{Args, DebugFormat, L4Protocol, ValidateError};

// ==================== Internet checksum ====================

#[test]
fn checksum_exact_values() {
    assert_eq!(internet_checksum(&[]), 0xFFFF);
    assert_eq!(internet_checksum(&[0x00, 0x01]), 0xFFFE);
    assert_eq!(internet_checksum(&[0x01]), 0xFEFF); // odd length pads with zero
    assert_eq!(internet_checksum(&[0xFF, 0xFF]), 0x0000);
    // Carry folding: 0xFFFF + 0x0001 wraps end-around to 0x0001.
    assert_eq!(internet_checksum(&[0xFF, 0xFF, 0x00, 0x01]), 0xFFFE);
}

#[test]
fn checksum_known_header() {
    // Worked example of the IPv4 header checksum, checksum field zeroed.
    let header: [u8; 20] = [
        0x45, 0x00, 0x00, 0x3c, 0x1c, 0x46, 0x40, 0x00, 0x40, 0x06, 0x00, 0x00, 0xac, 0x10,
        0x0a, 0x63, 0xac, 0x10, 0x0a, 0x0c,
    ];
    assert_eq!(internet_checksum(&header), 0xb1e6);
}

// ==================== Hex encoding ====================

#[test]
fn hex_encode_exact() {
    assert_eq!(hex_encode(&[]), b"");
    assert_eq!(hex_encode(&[0x00, 0xff, 0x1a]), b"00ff1a");
    assert_eq!(hex_encode(&[0xab, 0xcd]), b"abcd");
}

#[test]
fn hex_encode_matches_hex_crate() {
    let samples: Vec<Vec<u8>> = vec![
        vec![],
        vec![0x00],
        vec![0xde, 0xad, 0xbe, 0xef],
        (0u8..=255).collect(),
    ];
    for s in samples {
        let ours = String::from_utf8(hex_encode(&s)).unwrap();
        assert_eq!(ours, hex::encode(&s));
    }
}

// ==================== Parse error variants ====================

#[test]
fn parse_mac_error_variants() {
    assert_eq!(
        parse_mac("aa:bb:cc:dd:ee"),
        Err(MacParseError::WrongOctetCount { got: 5 })
    );
    assert_eq!(
        parse_mac("aa:bb:cc:dd:ee:ff:00"),
        Err(MacParseError::WrongOctetCount { got: 7 })
    );
    assert_eq!(parse_mac(""), Err(MacParseError::WrongOctetCount { got: 1 }));
    assert_eq!(
        parse_mac("aa:bb:cc:dd:ee:gg"),
        Err(MacParseError::InvalidOctet { index: 5 })
    );
    assert_eq!(
        parse_mac("zz:bb:cc:dd:ee:ff"),
        Err(MacParseError::InvalidOctet { index: 0 })
    );
    assert_eq!(
        parse_mac("aa:bb:1ff:dd:ee:ff"),
        Err(MacParseError::InvalidOctet { index: 2 })
    );
}

#[test]
fn parse_mac_flexible_octets() {
    // Octets go through unsigned integer parsing: leading zeros, a single
    // leading plus, and one-digit octets are all accepted.
    assert_eq!(parse_mac("a:b:c:d:e:f").unwrap(), [10, 11, 12, 13, 14, 15]);
    assert_eq!(
        parse_mac("0aa:bb:cc:dd:ee:ff").unwrap(),
        [0xaa, 0xbb, 0xcc, 0xdd, 0xee, 0xff]
    );
    assert_eq!(parse_mac("+1:2:3:4:5:6").unwrap(), [1, 2, 3, 4, 5, 6]);
    assert_eq!(
        parse_mac("-1:2:3:4:5:6"),
        Err(MacParseError::InvalidOctet { index: 0 })
    );
}

#[test]
fn parse_bitfield_error_variants() {
    assert_eq!(parse_bitfield("256"), Err(BitfieldParseError::InvalidDecimal));
    assert_eq!(parse_bitfield("0x100"), Err(BitfieldParseError::InvalidHex));
    assert_eq!(parse_bitfield("abc"), Err(BitfieldParseError::InvalidDecimal));
    assert_eq!(parse_bitfield("0xGG"), Err(BitfieldParseError::InvalidHex));
    assert_eq!(parse_bitfield(""), Err(BitfieldParseError::InvalidDecimal));
    assert_eq!(parse_bitfield("0x"), Err(BitfieldParseError::InvalidHex));
}

#[test]
fn parse_bitfield_sign_handling() {
    // Unsigned integer parsing accepts a single leading plus and no minus.
    assert_eq!(parse_bitfield("+4").unwrap(), 4);
    assert_eq!(parse_bitfield("0x+ff").unwrap(), 255);
    assert_eq!(parse_bitfield("-0"), Err(BitfieldParseError::InvalidDecimal));
    assert_eq!(parse_bitfield("+"), Err(BitfieldParseError::InvalidDecimal));
}

// ==================== Validation corner cases ====================

fn args_with_debug(file: Option<&str>, format: Option<DebugFormat>) -> Args {
    Args {
        src_ip: [192, 168, 0, 1],
        dst_ip: [192, 168, 0, 2],
        dest_port: 80,
        src_mac: [0xaa, 0xbb, 0xcc, 0xdd, 0xee, 0xff],
        dst_mac: [0x11, 0x22, 0x33, 0x44, 0x55, 0x66],
        l4_protocol: L4Protocol::Udp,
        timeout_ms: 1000,
        debug_file: file.map(|f| f.to_string()),
        debug_format: format,
        ip_bitfield: 0,
    }
}

#[test]
fn validate_error_variants() {
    assert_eq!(
        args_with_debug(None, Some(DebugFormat::Json)).validate(),
        Err(ValidateError::FormatWithoutFile)
    );
    assert_eq!(
        args_with_debug(Some("test.json"), None).validate(),
        Err(ValidateError::FileWithoutFormat)
    );
    assert_eq!(
        args_with_debug(Some("test.pcap"), Some(DebugFormat::Json)).validate(),
        Err(ValidateError::ExtensionMismatch)
    );
    assert_eq!(
        args_with_debug(Some("noextension"), Some(DebugFormat::Json)).validate(),
        Err(ValidateError::MissingExtension)
    );
}

#[test]
fn validate_extension_rules() {
    // Case-insensitive match.
    assert!(args_with_debug(Some("out.JSON"), Some(DebugFormat::Json))
        .validate()
        .is_ok());
    // The extension is what follows the last dot.
    assert!(args_with_debug(Some("archive.tar.pcap"), Some(DebugFormat::Pcap))
        .validate()
        .is_ok());
    // Directories do not contribute an extension.
    assert!(args_with_debug(Some("dir.json/file"), Some(DebugFormat::Json))
        .validate()
        .is_err());
    assert!(args_with_debug(Some("dir/file.json"), Some(DebugFormat::Json))
        .validate()
        .is_ok());
    // A hidden file's leading dot starts no extension.
    assert_eq!(
        args_with_debug(Some(".json"), Some(DebugFormat::Json)).validate(),
        Err(ValidateError::MissingExtension)
    );
    // A trailing dot yields an empty extension, which matches nothing.
    assert_eq!(
        args_with_debug(Some("file."), Some(DebugFormat::Json)).validate(),
        Err(ValidateError::ExtensionMismatch)
    );
}
