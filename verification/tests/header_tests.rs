use boyer_moore::header::{
    get_nt_header_signature, has_dos_marker, read_i32_le, read_u16_le, read_u32_le,
    u32_to_le_bytes, HeaderError, HeaderGateResult, MachineTag, DOS_SIGNATURE, MACHINE_AMD64,
    MACHINE_FIELD, MACHINE_I386, NT_OFFSET_FIELD, NT_SIGNATURE,
};

fn image(len: usize, nt_offset: i32, signature: &[u8], machine: u16) -> Vec<u8> {
    let mut bytes = vec![0u8; len];
    bytes[0] = b'M';
    bytes[1] = b'Z';
    bytes[60..64].copy_from_slice(&nt_offset.to_le_bytes());
    let at = nt_offset as usize;
    for (i, b) in signature.iter().enumerate() {
        if at + i < len {
            bytes[at + i] = *b;
        }
    }
    let code = machine.to_le_bytes();
    for (i, b) in code.iter().enumerate() {
        if at + 4 + i < len {
            bytes[at + 4 + i] = *b;
        }
    }
    bytes
}

#[test]
fn constants_have_the_documented_values() {
    assert_eq!(DOS_SIGNATURE, u16::from_le_bytes([b'M', b'Z']));
    assert_eq!(NT_SIGNATURE, u32::from_le_bytes([b'P', b'E', 0, 0]));
    assert_eq!(MACHINE_I386, 0x014c);
    assert_eq!(MACHINE_AMD64, 0x8664);
    assert_eq!(NT_OFFSET_FIELD, 0x3c);
    assert_eq!(MACHINE_FIELD, 4);
}

#[test]
fn accepts_64_bit_executable() {
    let bytes = image(512, 128, b"PE\0\0", 0x8664);
    assert_eq!(
        get_nt_header_signature(&bytes),
        Ok(HeaderGateResult::Accepted { signature: 0x4550, machine_tag: MachineTag::Amd64 })
    );
}

#[test]
fn accepts_32_bit_executable() {
    let bytes = image(512, 64, b"PE\0\0", 0x014c);
    assert_eq!(
        get_nt_header_signature(&bytes),
        Ok(HeaderGateResult::Accepted { signature: 0x4550, machine_tag: MachineTag::I386 })
    );
}

#[test]
fn accepts_header_that_ends_with_the_buffer() {
    let bytes = image(70, 64, b"PE\0\0", 0x8664);
    assert_eq!(
        get_nt_header_signature(&bytes),
        Ok(HeaderGateResult::Accepted { signature: 0x4550, machine_tag: MachineTag::Amd64 })
    );
}

#[test]
fn rejects_invalid_nested_signature() {
    let bytes = image(512, 128, b"NE\0\0", 0x8664);
    assert_eq!(get_nt_header_signature(&bytes), Ok(HeaderGateResult::Rejected));
    let bytes = image(512, 128, b"PE\0\x01", 0x8664);
    assert_eq!(get_nt_header_signature(&bytes), Ok(HeaderGateResult::Rejected));
    let bytes = image(512, 128, b"\0\0\0\0", 0x014c);
    assert_eq!(get_nt_header_signature(&bytes), Ok(HeaderGateResult::Rejected));
}

#[test]
fn rejects_unrecognized_machine_tag() {
    let bytes = image(512, 128, b"PE\0\0", 0xaa64);
    assert_eq!(get_nt_header_signature(&bytes), Ok(HeaderGateResult::Rejected));
    let bytes = image(512, 128, b"PE\0\0", 0x0000);
    assert_eq!(get_nt_header_signature(&bytes), Ok(HeaderGateResult::Rejected));
    let bytes = image(512, 128, b"PE\0\0", 0x6486);
    assert_eq!(get_nt_header_signature(&bytes), Ok(HeaderGateResult::Rejected));
}

#[test]
fn rejects_buffer_without_marker() {
    let mut bytes = image(512, 128, b"PE\0\0", 0x8664);
    bytes[0] = b'Z';
    bytes[1] = b'M';
    assert_eq!(get_nt_header_signature(&bytes), Ok(HeaderGateResult::Rejected));
    assert_eq!(get_nt_header_signature(b"plain text, nothing else"), Ok(HeaderGateResult::Rejected));
    assert_eq!(get_nt_header_signature(b"\x7fELF"), Ok(HeaderGateResult::Rejected));
}

#[test]
fn rejects_buffer_too_short_for_the_marker() {
    assert_eq!(get_nt_header_signature(b""), Ok(HeaderGateResult::Rejected));
    assert_eq!(get_nt_header_signature(b"M"), Ok(HeaderGateResult::Rejected));
}

#[test]
fn truncated_dos_header_is_an_error() {
    assert_eq!(get_nt_header_signature(b"MZ"), Err(HeaderError::DosHeaderTruncated));
    let bytes = image(512, 128, b"PE\0\0", 0x8664);
    assert_eq!(get_nt_header_signature(&bytes[..60]), Err(HeaderError::DosHeaderTruncated));
    assert_eq!(get_nt_header_signature(&bytes[..63]), Err(HeaderError::DosHeaderTruncated));
}

#[test]
fn nt_header_past_the_buffer_is_an_error() {
    let bytes = image(512, 128, b"PE\0\0", 0x8664);
    assert_eq!(get_nt_header_signature(&bytes[..64]), Err(HeaderError::NtHeaderOutOfBounds));
    assert_eq!(get_nt_header_signature(&bytes[..128]), Err(HeaderError::NtHeaderOutOfBounds));
    assert_eq!(get_nt_header_signature(&bytes[..131]), Err(HeaderError::NtHeaderOutOfBounds));
    let far = image(512, 512, b"", 0);
    assert_eq!(get_nt_header_signature(&far), Err(HeaderError::NtHeaderOutOfBounds));
    let very_far = image(512, i32::MAX, b"", 0);
    assert_eq!(get_nt_header_signature(&very_far), Err(HeaderError::NtHeaderOutOfBounds));
}

#[test]
fn truncated_machine_field_is_an_error() {
    let bytes = image(512, 128, b"PE\0\0", 0x8664);
    assert_eq!(get_nt_header_signature(&bytes[..132]), Err(HeaderError::NtHeaderOutOfBounds));
    assert_eq!(get_nt_header_signature(&bytes[..133]), Err(HeaderError::NtHeaderOutOfBounds));
    assert_eq!(
        get_nt_header_signature(&bytes[..134]),
        Ok(HeaderGateResult::Accepted { signature: 0x4550, machine_tag: MachineTag::Amd64 })
    );
}

#[test]
fn wrong_signature_is_rejected_before_the_machine_field_is_read() {
    let bytes = image(512, 128, b"XX\0\0", 0x8664);
    assert_eq!(get_nt_header_signature(&bytes[..132]), Ok(HeaderGateResult::Rejected));
}

#[test]
fn negative_nt_offset_is_an_error() {
    let mut bytes = vec![0u8; 512];
    bytes[0] = b'M';
    bytes[1] = b'Z';
    bytes[60..64].copy_from_slice(&(-1i32).to_le_bytes());
    assert_eq!(get_nt_header_signature(&bytes), Err(HeaderError::NtHeaderOutOfBounds));
    bytes[60..64].copy_from_slice(&i32::MIN.to_le_bytes());
    assert_eq!(get_nt_header_signature(&bytes), Err(HeaderError::NtHeaderOutOfBounds));
}

#[test]
fn nt_header_may_overlap_the_dos_header() {
    let mut bytes = vec![0u8; 64];
    bytes[0] = b'M';
    bytes[1] = b'Z';
    bytes[4..8].copy_from_slice(b"PE\0\0");
    bytes[8..10].copy_from_slice(&0x014cu16.to_le_bytes());
    bytes[60..64].copy_from_slice(&4i32.to_le_bytes());
    assert_eq!(
        get_nt_header_signature(&bytes),
        Ok(HeaderGateResult::Accepted { signature: 0x4550, machine_tag: MachineTag::I386 })
    );
}

#[test]
fn dos_marker_is_recognized() {
    assert!(has_dos_marker(b"MZ"));
    assert!(has_dos_marker(b"MZ\x90\x00"));
    assert!(!has_dos_marker(b"ZM"));
    assert!(!has_dos_marker(b"M"));
    assert!(!has_dos_marker(b""));
    assert!(!has_dos_marker(b"mz"));
}

#[test]
fn reads_little_endian_u16() {
    let bytes = [0x34u8, 0x12, 0xff, 0xee];
    assert_eq!(read_u16_le(&bytes, 0), Some(0x1234));
    assert_eq!(read_u16_le(&bytes, 1), Some(0xff12));
    assert_eq!(read_u16_le(&bytes, 2), Some(0xeeff));
    assert_eq!(read_u16_le(&bytes, 3), None);
    assert_eq!(read_u16_le(&bytes, 4), None);
    assert_eq!(read_u16_le(&bytes, usize::MAX), None);
    assert_eq!(read_u16_le(&[0xff, 0xff], 0), Some(u16::MAX));
}

#[test]
fn reads_little_endian_u32() {
    let bytes = [0x78u8, 0x56, 0x34, 0x12, 0xff];
    assert_eq!(read_u32_le(&bytes, 0), Some(0x12345678));
    assert_eq!(read_u32_le(&bytes, 1), Some(0xff123456));
    assert_eq!(read_u32_le(&bytes, 2), None);
    assert_eq!(read_u32_le(&bytes, 5), None);
    assert_eq!(read_u32_le(&bytes, usize::MAX - 1), None);
    assert_eq!(read_u32_le(&[0xff, 0xff, 0xff, 0xff], 0), Some(u32::MAX));
}

#[test]
fn reads_little_endian_i32() {
    assert_eq!(read_i32_le(&[0x78, 0x56, 0x34, 0x12], 0), Some(0x12345678));
    assert_eq!(read_i32_le(&[0xff, 0xff, 0xff, 0xff], 0), Some(-1));
    assert_eq!(read_i32_le(&[0x00, 0x00, 0x00, 0x80], 0), Some(i32::MIN));
    assert_eq!(read_i32_le(&[0xff, 0xff, 0xff, 0x7f], 0), Some(i32::MAX));
    assert_eq!(read_i32_le(&[0xfe, 0xff, 0xff, 0xff], 0), Some(-2));
    assert_eq!(read_i32_le(&[0x00, 0x01, 0x02], 0), None);
    for value in [0i32, 1, -1, 60, 4096, -4096, 0x7fff_0000, -0x7fff_0000] {
        assert_eq!(read_i32_le(&value.to_le_bytes(), 0), Some(value));
    }
}

#[test]
fn machine_tags_and_codes_correspond() {
    assert_eq!(MachineTag::I386.code(), 0x014c);
    assert_eq!(MachineTag::Amd64.code(), 0x8664);
    assert_eq!(MachineTag::from_code(0x014c), Some(MachineTag::I386));
    assert_eq!(MachineTag::from_code(0x8664), Some(MachineTag::Amd64));
    assert_eq!(MachineTag::from_code(0), None);
    assert_eq!(MachineTag::from_code(0x0200), None);
    for code in 0..=u16::MAX {
        match MachineTag::from_code(code) {
            Some(tag) => assert_eq!(tag.code(), code),
            None => assert!(code != 0x014c && code != 0x8664),
        }
    }
}

#[test]
fn machine_tags_have_names() {
    assert_eq!(MachineTag::I386.name(), "i386");
    assert_eq!(MachineTag::Amd64.name(), "amd64");
}

#[test]
fn header_errors_have_messages() {
    assert_eq!(HeaderError::DosHeaderTruncated.message(), "file ends inside the MS-DOS header");
    assert_eq!(HeaderError::NtHeaderOutOfBounds.message(), "NT header lies outside the file");
}

#[test]
fn signature_is_written_least_significant_byte_first() {
    assert_eq!(u32_to_le_bytes(NT_SIGNATURE), *b"PE\0\0");
    assert_eq!(u32_to_le_bytes(0x12345678), [0x78, 0x56, 0x34, 0x12]);
    assert_eq!(u32_to_le_bytes(0), [0, 0, 0, 0]);
    assert_eq!(u32_to_le_bytes(u32::MAX), [0xff, 0xff, 0xff, 0xff]);
}

#[test]
fn written_bytes_read_back_as_the_same_number() {
    for value in [0u32, 1, 0xff, 0x100, 0x4550, 0x00ff_00ff, 0x8000_0000, 0xdead_beef, u32::MAX] {
        assert_eq!(read_u32_le(&u32_to_le_bytes(value), 0), Some(value));
        assert_eq!(u32_to_le_bytes(value), value.to_le_bytes());
    }
}
