//! A pre-filter for Windows executables: the MS-DOS marker at the start of a buffer,
//! the NT header that the MS-DOS header points to, and the machine type named there.
//!
//! Every field is read from its byte offset, least significant byte first, after
//! its extent has been held against the length of the buffer.

use vstd::prelude::*;

verus! {

/// The first two bytes of an MS-DOS executable, `MZ`, read as one number
/// (`IMAGE_DOS_SIGNATURE` in the Windows headers).
pub const DOS_SIGNATURE: u16 = 0x5A4D;

/// The first four bytes of an NT header, `PE\0\0`, read as one number
/// (`IMAGE_NT_SIGNATURE`).
pub const NT_SIGNATURE: u32 = 0x0000_4550;

/// Machine type of 32-bit x86 executables (`IMAGE_FILE_MACHINE_I386`).
pub const MACHINE_I386: u16 = 0x014c;

/// Machine type of 64-bit x86 executables (`IMAGE_FILE_MACHINE_AMD64`).
pub const MACHINE_AMD64: u16 = 0x8664;

/// Where the MS-DOS header keeps the offset of the NT header, a signed 32-bit
/// number (`e_lfanew` of `IMAGE_DOS_HEADER`).
pub const NT_OFFSET_FIELD: usize = 60;

/// Where the NT header keeps the machine type, an unsigned 16-bit number, counted
/// from the start of the header, which is its signature.
pub const MACHINE_FIELD: usize = 4;

/// The two bytes at `at`, least significant first, as an unsigned number.
pub open spec fn le_u16(bytes: Seq<u8>, at: int) -> int {
    bytes[at] as int + 0x100 * (bytes[at + 1] as int)
}

/// The four bytes at `at`, least significant first, as an unsigned number.
pub open spec fn le_u32(bytes: Seq<u8>, at: int) -> int {
    bytes[at] as int + 0x100 * (bytes[at + 1] as int) + 0x1_0000 * (bytes[at + 2] as int)
        + 0x100_0000 * (bytes[at + 3] as int)
}

/// The four bytes at `at`, least significant first, as a signed number in two's
/// complement.
pub open spec fn le_i32(bytes: Seq<u8>, at: int) -> int {
    if le_u32(bytes, at) < 0x8000_0000 {
        le_u32(bytes, at)
    } else {
        le_u32(bytes, at) - 0x1_0000_0000
    }
}

/// The architectures that scanning is restricted to.
#[derive(Clone, Copy, Debug, PartialEq, Eq, Structural)]
pub enum MachineTag {
    /// 32-bit x86.
    I386,
    /// 64-bit x86.
    Amd64,
}

/// The architecture that a machine type stands for, if it is a recognized one.
pub open spec fn machine_of(code: int) -> Option<MachineTag> {
    if code == MACHINE_I386 {
        Some(MachineTag::I386)
    } else if code == MACHINE_AMD64 {
        Some(MachineTag::Amd64)
    } else {
        None
    }
}

impl MachineTag {
    /// The machine type that names this architecture in a header.
    pub open spec fn spec_code(self) -> u16 {
        match self {
            MachineTag::I386 => MACHINE_I386,
            MachineTag::Amd64 => MACHINE_AMD64,
        }
    }

    /// The machine type that names this architecture in a header.
    #[verifier::when_used_as_spec(spec_code)]
    pub fn code(self) -> (code: u16)
        ensures
            code == self.spec_code(),
            machine_of(code as int) == Some(self),
    {
        match self {
            MachineTag::I386 => MACHINE_I386,
            MachineTag::Amd64 => MACHINE_AMD64,
        }
    }

    /// The architecture that `code` stands for, or `None` for any other machine type.
    pub fn from_code(code: u16) -> (tag: Option<MachineTag>)
        ensures
            tag == machine_of(code as int),
    {
        if code == MACHINE_I386 {
            Some(MachineTag::I386)
        } else if code == MACHINE_AMD64 {
            Some(MachineTag::Amd64)
        } else {
            None
        }
    }

    /// A short name of the architecture, for display.
    pub fn name(self) -> (name: &'static str)
        ensures
            name@ == match self {
                MachineTag::I386 => "i386"@,
                MachineTag::Amd64 => "amd64"@,
            },
    {
        match self {
            MachineTag::I386 => "i386",
            MachineTag::Amd64 => "amd64",
        }
    }
}

/// What the pre-filter found out about a buffer that it could read.
#[derive(Clone, Copy, Debug, PartialEq, Eq)]
pub enum HeaderGateResult {
    /// The buffer does not hold an executable of a recognized architecture.
    Rejected,
    /// The buffer holds one. `signature` is the signature of its NT header as it
    /// was read, `machine_tag` its architecture.
    Accepted { signature: u32, machine_tag: MachineTag },
}

/// Why a buffer that starts like an executable could not be inspected.
#[derive(Clone, Copy, Debug, PartialEq, Eq, Structural)]
pub enum HeaderError {
    /// The buffer ends before the field that holds the offset of the NT header.
    DosHeaderTruncated,
    /// The NT header would begin before the buffer, or a field of it that had to
    /// be read would end past the buffer.
    NtHeaderOutOfBounds,
}

impl HeaderError {
    /// A sentence that names the error, for display.
    pub fn message(self) -> (message: &'static str)
        ensures
            message@ == match self {
                HeaderError::DosHeaderTruncated => "file ends inside the MS-DOS header"@,
                HeaderError::NtHeaderOutOfBounds => "NT header lies outside the file"@,
            },
    {
        match self {
            HeaderError::DosHeaderTruncated => "file ends inside the MS-DOS header",
            HeaderError::NtHeaderOutOfBounds => "NT header lies outside the file",
        }
    }
}

/// The `size` bytes at `at` lie inside the buffer.
pub open spec fn can_read(bytes: Seq<u8>, at: int, size: int) -> bool {
    0 <= at && at + size <= bytes.len()
}

/// The buffer starts with the MS-DOS marker.
pub open spec fn starts_with_dos_marker(bytes: Seq<u8>) -> bool {
    can_read(bytes, 0, 2) && le_u16(bytes, 0) == DOS_SIGNATURE
}

/// The offset of the NT header, as the MS-DOS header gives it.
pub open spec fn nt_header_offset(bytes: Seq<u8>) -> int {
    le_i32(bytes, NT_OFFSET_FIELD as int)
}

/// What inspecting `bytes` yields.
///
/// A buffer without the MS-DOS marker is rejected. With the marker, the offset of
/// the NT header must be readable, and the header must lie inside the buffer as
/// far as it is read; if not, that is an error. A header with another signature
/// is rejected before its machine type is looked at; one with the signature is
/// accepted exactly if its machine type is a recognized one.
pub open spec fn inspect(bytes: Seq<u8>) -> Result<HeaderGateResult, HeaderError> {
    let nt = nt_header_offset(bytes);
    if !starts_with_dos_marker(bytes) {
        Ok(HeaderGateResult::Rejected)
    } else if !can_read(bytes, NT_OFFSET_FIELD as int, 4) {
        Err(HeaderError::DosHeaderTruncated)
    } else if !can_read(bytes, nt, 4) {
        Err(HeaderError::NtHeaderOutOfBounds)
    } else if le_u32(bytes, nt) != NT_SIGNATURE {
        Ok(HeaderGateResult::Rejected)
    } else if !can_read(bytes, nt + MACHINE_FIELD, 2) {
        Err(HeaderError::NtHeaderOutOfBounds)
    } else {
        match machine_of(le_u16(bytes, nt + MACHINE_FIELD)) {
            Some(machine_tag) => Ok(
                HeaderGateResult::Accepted { signature: NT_SIGNATURE, machine_tag },
            ),
            None => Ok(HeaderGateResult::Rejected),
        }
    }
}

/// What becomes of a buffer that starts with the MS-DOS marker.
///
/// If its NT header can be read and carries another signature, the buffer is
/// rejected. If the header carries the signature and its machine type can be read
/// but is not a recognized one, the buffer is rejected too. Neither is an error.
/// It is an error exactly if the buffer ends before a field that had to be read, or
/// points outside itself. And it is accepted exactly if all fields can be read, the
/// signature is that of an NT header and the machine type is a recognized one.
pub proof fn lemma_inspect_marked_buffer(bytes: Seq<u8>)
    requires
        starts_with_dos_marker(bytes),
    ensures
        can_read(bytes, NT_OFFSET_FIELD as int, 4) && can_read(bytes, nt_header_offset(bytes), 4)
            && le_u32(bytes, nt_header_offset(bytes)) != NT_SIGNATURE ==> inspect(bytes) == Ok::<
            HeaderGateResult,
            HeaderError,
        >(HeaderGateResult::Rejected),
        can_read(bytes, NT_OFFSET_FIELD as int, 4) && can_read(
            bytes,
            nt_header_offset(bytes),
            MACHINE_FIELD + 2,
        ) && le_u32(bytes, nt_header_offset(bytes)) == NT_SIGNATURE && machine_of(
            le_u16(bytes, nt_header_offset(bytes) + MACHINE_FIELD),
        ).is_none() ==> inspect(bytes) == Ok::<HeaderGateResult, HeaderError>(
            HeaderGateResult::Rejected,
        ),
        inspect(bytes).is_err() <==> !can_read(bytes, NT_OFFSET_FIELD as int, 4) || !can_read(
            bytes,
            nt_header_offset(bytes),
            4,
        ) || (le_u32(bytes, nt_header_offset(bytes)) == NT_SIGNATURE && !can_read(
            bytes,
            nt_header_offset(bytes),
            MACHINE_FIELD + 2,
        )),
        inspect(bytes) matches Ok(HeaderGateResult::Accepted { signature, machine_tag })
            <==> can_read(bytes, NT_OFFSET_FIELD as int, 4) && can_read(
            bytes,
            nt_header_offset(bytes),
            MACHINE_FIELD + 2,
        ) && le_u32(bytes, nt_header_offset(bytes)) == NT_SIGNATURE && machine_of(
            le_u16(bytes, nt_header_offset(bytes) + MACHINE_FIELD),
        ).is_some(),
{
}

/// A buffer that does not start with the MS-DOS marker is rejected, whatever else
/// it holds and however short it is.
pub proof fn lemma_inspect_unmarked_buffer(bytes: Seq<u8>)
    requires
        !starts_with_dos_marker(bytes),
    ensures
        inspect(bytes) == Ok::<HeaderGateResult, HeaderError>(HeaderGateResult::Rejected),
{
}

/// Reads the unsigned 16-bit number at `at`, or `None` if the buffer ends before
/// its second byte.
pub fn read_u16_le(bytes: &[u8], at: usize) -> (value: Option<u16>)
    ensures
        match value {
            Some(v) => at + 2 <= bytes@.len() && v == le_u16(bytes@, at as int),
            None => at + 2 > bytes@.len(),
        },
{
    let n: usize = bytes.len();
    if at > n || n - at < 2 {
        return None;
    }
    let b0: u16 = bytes[at] as u16;
    let b1: u16 = bytes[at + 1] as u16;
    Some(b0 + 0x100 * b1)
}

/// Reads the unsigned 32-bit number at `at`, or `None` if the buffer ends before
/// its fourth byte.
pub fn read_u32_le(bytes: &[u8], at: usize) -> (value: Option<u32>)
    ensures
        match value {
            Some(v) => at + 4 <= bytes@.len() && v == le_u32(bytes@, at as int),
            None => at + 4 > bytes@.len(),
        },
{
    let n: usize = bytes.len();
    if at > n || n - at < 4 {
        return None;
    }
    let b0: u32 = bytes[at] as u32;
    let b1: u32 = bytes[at + 1] as u32;
    let b2: u32 = bytes[at + 2] as u32;
    let b3: u32 = bytes[at + 3] as u32;
    Some(b0 + 0x100 * b1 + 0x1_0000 * b2 + 0x100_0000 * b3)
}

/// Reads the signed 32-bit number at `at`, or `None` if the buffer ends before its
/// fourth byte.
pub fn read_i32_le(bytes: &[u8], at: usize) -> (value: Option<i32>)
    ensures
        match value {
            Some(v) => at + 4 <= bytes@.len() && v == le_i32(bytes@, at as int),
            None => at + 4 > bytes@.len(),
        },
{
    match read_u32_le(bytes, at) {
        Some(raw) => if raw < 0x8000_0000 {
            Some(raw as i32)
        } else {
            Some(((raw - 0x8000_0000) as i32) + i32::MIN)
        },
        None => None,
    }
}

/// The four bytes that hold `value`, least significant first: what a header's
/// signature looks like in the file.
pub fn u32_to_le_bytes(value: u32) -> (bytes: [u8; 4])
    ensures
        le_u32(bytes@, 0) == value,
{
    let b0: u8 = (value % 0x100) as u8;
    let b1: u8 = ((value / 0x100) % 0x100) as u8;
    let b2: u8 = ((value / 0x1_0000) % 0x100) as u8;
    let b3: u8 = (value / 0x100_0000) as u8;
    [b0, b1, b2, b3]
}

/// Tells whether the buffer starts with the two bytes `MZ`.
pub fn has_dos_marker(bytes: &[u8]) -> (marked: bool)
    ensures
        marked == starts_with_dos_marker(bytes@),
{
    match read_u16_le(bytes, 0) {
        Some(magic) => magic == DOS_SIGNATURE,
        None => false,
    }
}

/// Inspects the headers of a file's content and decides whether the file is a 32-
/// or 64-bit Windows executable. On acceptance the result carries the signature of
/// the NT header and the architecture.
///
/// A rejection is no error. An error says that the buffer starts like an
/// executable but breaks off, or points outside itself, where a header field
/// should be.
pub fn get_nt_header_signature(bytes: &[u8]) -> (result: Result<HeaderGateResult, HeaderError>)
    ensures
        result == inspect(bytes@),
{
    if !has_dos_marker(bytes) {
        return Ok(HeaderGateResult::Rejected);
    }
    let nt: usize = match read_i32_le(bytes, NT_OFFSET_FIELD) {
        Some(offset) => if offset < 0 {
            return Err(HeaderError::NtHeaderOutOfBounds);
        } else {
            offset as usize
        },
        None => {
            return Err(HeaderError::DosHeaderTruncated);
        },
    };
    let signature: u32 = match read_u32_le(bytes, nt) {
        Some(signature) => signature,
        None => {
            return Err(HeaderError::NtHeaderOutOfBounds);
        },
    };
    if signature != NT_SIGNATURE {
        return Ok(HeaderGateResult::Rejected);
    }
    let machine: u16 = match read_u16_le(bytes, nt + MACHINE_FIELD) {
        Some(machine) => machine,
        None => {
            return Err(HeaderError::NtHeaderOutOfBounds);
        },
    };
    match MachineTag::from_code(machine) {
        Some(machine_tag) => Ok(HeaderGateResult::Accepted { signature, machine_tag }),
        None => Ok(HeaderGateResult::Rejected),
    }
}

} // verus!
