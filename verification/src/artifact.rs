//! Borrowed, fixed-width artifact parser and validator.
//!
//! The parser never owns or copies the artifact payload. It validates all
//! ranges before exposing section views.
use crate::bytes::{get_u16, get_u32, get_u64};
use crate::bytes::{u16_at, u32_at, u64_at};
use crate::digest::{address_of_json, sha256};
use crate::digest::{canonical_json, identity_text, json_address, sha256_digest};
use crate::laws::artifacts::artifacts_are_the_bytes_in_order;
use crate::laws::artifacts::in_order;
use crate::ops::{OPERATION_BYTES, OPERATION_SECTION};
use crate::text::format_digest;
use crate::text::{hexadecimal, hexadecimal_is_injective};
use vstd::arithmetic::power2::is_pow2;
use vstd::prelude::*;
use vstd::string::StringExecFns;

verus! {

pub const MAGIC: [u8; 8] = [78, 65, 84, 77, 65, 67, 72, 0];

pub const FORMAT_VERSION: u16 = 1;

pub const HEADER_BYTES: usize = 32;

pub const SECTION_BYTES: usize = 32;

pub const MAX_SECTIONS: u32 = 65_536;

pub const PROVENANCE_SECTION: u32 = 2;

#[derive(Clone, Copy, Debug, PartialEq, Eq, Structural)]
pub struct ArtifactHeader {
    pub version: u16,
    pub flags: u16,
    pub section_count: u32,
    pub section_table_offset: u64,
    pub artifact_bytes: u64,
}

#[derive(Clone, Copy, Debug, PartialEq, Eq)]
pub struct Section<'a> {
    pub kind: u32,
    pub flags: u32,
    pub offset: u64,
    pub length: u64,
    pub alignment: u64,
    pub bytes: &'a [u8],
}

#[derive(Debug, PartialEq, Eq)]
#[allow(inconsistent_fields)]
pub enum ArtifactError {
    /// The artifact is shorter than what is read from it.
    TooSmall { actual: usize, required: usize },
    /// The artifact does not start with the magic bytes.
    Magic,
    /// The artifact has a format version that is not supported.
    Version(u16),
    /// The artifact declares more sections than the maximum.
    TooManySections(u32),
    /// The artifact declares a size that it does not have.
    LengthMismatch { declared: u64, actual: usize },
    /// The artifact exceeds the configured limit.
    TooLarge { actual: u64, limit: u64 },
    /// The section table does not lie between the header and the end.
    SectionTableRange,
    /// A section record lies past the end of the artifact.
    SectionTruncated { index: u32 },
    /// A section lies outside the artifact or inside the header.
    SectionRange { index: u32 },
    /// A section's alignment is no power of two, or its offset is unaligned.
    Alignment(u32, u64),
    /// A section kind occurs twice.
    DuplicateSection { index: u32 },
    /// A section starts before the previous one ends.
    SectionOverlap { index: u32 },
    /// A section overlaps the section table.
    SectionTableOverlap { index: u32 },
    /// An operation section does not hold whole records.
    OperationAlignment { index: u32, bytes: usize },
    /// A section has a kind that is not supported.
    UnknownSection(u32, u32),
    /// An integer does not fit its type.
    Overflow,
    /// The artifact's identity could not be computed.
    Identity(String),
}

/// One record of the section table.
pub struct SectionRecord {
    pub kind: u32,
    pub flags: u32,
    pub offset: u64,
    pub length: u64,
    pub alignment: u64,
}

impl SectionRecord {
    /// The first byte after the section.
    pub open spec fn end(self) -> int {
        self.offset + self.length
    }

    /// The alignment is a power of two that divides the offset.
    pub open spec fn aligned(self) -> bool {
        is_pow2(self.alignment as int) && self.offset % self.alignment == 0
    }

    /// The kind is one that the runtime understands.
    pub open spec fn known(self) -> bool {
        self.kind == OPERATION_SECTION || self.kind == PROVENANCE_SECTION
    }

    /// The section shares a byte with the section table, or straddles its edge.
    pub open spec fn overlaps_table(self, header: ArtifactHeader) -> bool {
        self.offset < table_end(header) && self.end() > header.section_table_offset
    }
}

/// The header fields as they stand in the bytes.
pub open spec fn header_of(bytes: Seq<u8>) -> ArtifactHeader {
    ArtifactHeader {
        version: u16_at(bytes, 8),
        flags: u16_at(bytes, 10),
        section_count: u32_at(bytes, 12),
        section_table_offset: u64_at(bytes, 16),
        artifact_bytes: u64_at(bytes, 24),
    }
}

/// The first byte after the section table.
pub open spec fn table_end(header: ArtifactHeader) -> int {
    header.section_table_offset + 32 * header.section_count
}

/// Where the record of section `index` starts.
pub open spec fn record_offset(header: ArtifactHeader, index: int) -> int {
    header.section_table_offset + 32 * index
}

/// The table record of section `index` as it stands in the bytes.
pub open spec fn section_record(
    bytes: Seq<u8>,
    header: ArtifactHeader,
    index: int,
) -> SectionRecord {
    let at = record_offset(header, index);
    SectionRecord {
        kind: u32_at(bytes, at),
        flags: u32_at(bytes, at + 4),
        offset: u64_at(bytes, at + 8),
        length: u64_at(bytes, at + 16),
        alignment: u64_at(bytes, at + 24),
    }
}

/// What is wrong with the header, if anything.
pub open spec fn header_fault(bytes: Seq<u8>) -> Option<ArtifactError> {
    let header = header_of(bytes);
    if bytes.len() < HEADER_BYTES {
        Some(ArtifactError::TooSmall { actual: bytes.len() as usize, required: HEADER_BYTES })
    } else if bytes.take(8) != MAGIC@ {
        Some(ArtifactError::Magic)
    } else if header.version != FORMAT_VERSION {
        Some(ArtifactError::Version(header.version))
    } else if header.section_count > MAX_SECTIONS {
        Some(ArtifactError::TooManySections(header.section_count))
    } else if header.artifact_bytes != bytes.len() {
        Some(
            ArtifactError::LengthMismatch {
                declared: header.artifact_bytes,
                actual: bytes.len() as usize,
            },
        )
    } else if table_end(header) > u64::MAX {
        Some(ArtifactError::Overflow)
    } else if header.section_table_offset < HEADER_BYTES || table_end(header)
        > header.artifact_bytes {
        Some(ArtifactError::SectionTableRange)
    } else {
        None
    }
}

/// A record before `index` has the kind `kind`.
pub open spec fn kind_before(
    bytes: Seq<u8>,
    header: ArtifactHeader,
    index: int,
    kind: u32,
) -> bool {
    exists|i: int|
        0 <= i < index && (#[trigger] section_record(bytes, header, i)).kind == kind
}

/// Section `index` starts before the one in front of it ends.
pub open spec fn overlaps_previous(bytes: Seq<u8>, header: ArtifactHeader, index: int) -> bool {
    index > 0 && section_record(bytes, header, index).offset < section_record(
        bytes,
        header,
        index - 1,
    ).end()
}

/// What is wrong with the record of section `index`, if anything.
pub open spec fn record_fault(
    bytes: Seq<u8>,
    header: ArtifactHeader,
    index: int,
) -> Option<ArtifactError> {
    let record = section_record(bytes, header, index);
    let name = index as u32;
    if !record.known() {
        Some(ArtifactError::UnknownSection(name, record.kind))
    } else if kind_before(bytes, header, index, record.kind) {
        Some(ArtifactError::DuplicateSection { index: name })
    } else if record.end() > u64::MAX {
        Some(ArtifactError::Overflow)
    } else if !record.aligned() {
        Some(ArtifactError::Alignment(name, record.alignment))
    } else if record.end() > header.artifact_bytes || record.offset < HEADER_BYTES {
        Some(ArtifactError::SectionRange { index: name })
    } else if record.overlaps_table(header) {
        Some(ArtifactError::SectionTableOverlap { index: name })
    } else if overlaps_previous(bytes, header, index) {
        Some(ArtifactError::SectionOverlap { index: name })
    } else if record.kind == OPERATION_SECTION && record.length % (OPERATION_BYTES as u64) != 0 {
        Some(ArtifactError::OperationAlignment { index: name, bytes: OPERATION_BYTES })
    } else {
        None
    }
}

/// `error` is what is wrong with the first faulty record.
pub open spec fn first_record_fault(
    bytes: Seq<u8>,
    header: ArtifactHeader,
    error: ArtifactError,
) -> bool {
    exists|i: int|
        0 <= i < header.section_count && #[trigger] record_fault(bytes, header, i) == Some(error)
            && no_record_fault(bytes, header, i)
}

/// None of the first `count` records is faulty.
pub open spec fn no_record_fault(bytes: Seq<u8>, header: ArtifactHeader, count: int) -> bool {
    forall|i: int| 0 <= i < count ==> #[trigger] record_fault(bytes, header, i) is None
}

/// The bytes are a valid artifact.
pub open spec fn valid(bytes: Seq<u8>) -> bool {
    header_fault(bytes) is None && no_record_fault(
        bytes,
        header_of(bytes),
        header_of(bytes).section_count as int,
    )
}

/// What a lookup of sections of kind `wanted` finds wrong with the record of
/// section `index`, if anything.
pub open spec fn lookup_fault(
    bytes: Seq<u8>,
    header: ArtifactHeader,
    wanted: u32,
    index: int,
) -> Option<ArtifactError> {
    let record = section_record(bytes, header, index);
    let name = index as u32;
    if record_offset(header, index) + SECTION_BYTES > bytes.len() {
        Some(ArtifactError::SectionTruncated { index: name })
    } else if !record.known() {
        Some(ArtifactError::UnknownSection(name, record.kind))
    } else if !record.aligned() {
        Some(ArtifactError::Alignment(name, record.alignment))
    } else if record.end() > u64::MAX {
        Some(ArtifactError::Overflow)
    } else if record.end() > header.artifact_bytes || record.offset < HEADER_BYTES {
        Some(ArtifactError::SectionRange { index: name })
    } else if record.overlaps_table(header) {
        Some(ArtifactError::SectionTableOverlap { index: name })
    } else if overlaps_previous(bytes, header, index) {
        Some(ArtifactError::SectionOverlap { index: name })
    } else if record.kind == wanted && kind_before(bytes, header, index, wanted) {
        Some(ArtifactError::DuplicateSection { index: name })
    } else {
        None
    }
}

/// None of the first `count` records hinders the lookup.
pub open spec fn no_lookup_fault(
    bytes: Seq<u8>,
    header: ArtifactHeader,
    wanted: u32,
    count: int,
) -> bool {
    forall|i: int| 0 <= i < count ==> #[trigger] lookup_fault(bytes, header, wanted, i) is None
}

/// `error` is what the lookup finds wrong with the first record that hinders
/// it.
pub open spec fn first_lookup_fault(
    bytes: Seq<u8>,
    header: ArtifactHeader,
    wanted: u32,
    error: ArtifactError,
) -> bool {
    exists|i: int|
        0 <= i < header.section_count && #[trigger] lookup_fault(bytes, header, wanted, i) == Some(
            error,
        ) && no_lookup_fault(bytes, header, wanted, i)
}

/// The lookup gets through the table and section `index` is the one it finds.
pub open spec fn lookup_finds(
    bytes: Seq<u8>,
    header: ArtifactHeader,
    wanted: u32,
    index: int,
) -> bool {
    &&& table_end(header) <= u64::MAX
    &&& no_lookup_fault(bytes, header, wanted, header.section_count as int)
    &&& 0 <= index < header.section_count
    &&& section_record(bytes, header, index).kind == wanted
}

/// The lookup gets through the table without finding a section.
pub open spec fn lookup_finds_none(bytes: Seq<u8>, header: ArtifactHeader, wanted: u32) -> bool {
    &&& table_end(header) <= u64::MAX
    &&& no_lookup_fault(bytes, header, wanted, header.section_count as int)
    &&& !kind_before(bytes, header, header.section_count as int, wanted)
}

/// The lookup stops with `error`.
pub open spec fn lookup_fails(
    bytes: Seq<u8>,
    header: ArtifactHeader,
    wanted: u32,
    error: ArtifactError,
) -> bool {
    if table_end(header) > u64::MAX {
        error == ArtifactError::Overflow
    } else {
        first_lookup_fault(bytes, header, wanted, error)
    }
}

/// The bytes that section `index` names.
pub open spec fn payload(bytes: Seq<u8>, header: ArtifactHeader, index: int) -> Seq<u8> {
    let record = section_record(bytes, header, index);
    bytes.subrange(record.offset as int, record.end())
}

/// `section` shows the record of section `index` and the bytes that it names.
pub open spec fn shows_record(
    section: Section,
    bytes: Seq<u8>,
    header: ArtifactHeader,
    index: int,
) -> bool {
    let record = section_record(bytes, header, index);
    &&& section.kind == record.kind
    &&& section.flags == record.flags
    &&& section.offset == record.offset
    &&& section.length == record.length
    &&& section.alignment == record.alignment
    &&& section.bytes@ == payload(bytes, header, index)
}

/// Whether `value` is a power of two.
pub fn power_of_two(value: u64) -> (result: bool)
    ensures
        result == is_pow2(value as int),
{
    let mut rest: u64 = value;
    proof {
        reveal(is_pow2);
    }
    if rest == 0 {
        return false;
    }
    while rest % 2 == 0
        invariant
            rest > 0,
            is_pow2(value as int) == is_pow2(rest as int),
        decreases rest,
    {
        proof {
            reveal(is_pow2);
        }
        rest = rest / 2;
    }
    proof {
        reveal(is_pow2);
    }
    rest == 1
}

/// The two-byte number at `offset`.
pub fn read_u16(bytes: &[u8], offset: usize) -> (result: Result<u16, ArtifactError>)
    ensures
        offset + 2 > usize::MAX ==> result == Err::<u16, _>(ArtifactError::Overflow),
        bytes@.len() < offset + 2 <= usize::MAX ==> result == Err::<u16, _>(
            ArtifactError::TooSmall {
                actual: bytes@.len() as usize,
                required: (offset + 2) as usize,
            },
        ),
        offset + 2 <= bytes@.len() ==> result == Ok::<_, ArtifactError>(
            u16_at(bytes@, offset as int),
        ),
{
    let length: usize = bytes.len();
    match offset.checked_add(2) {
        None => Err(ArtifactError::Overflow),
        Some(end) => {
            if end > length {
                return Err(ArtifactError::TooSmall { actual: length, required: end });
            }
            Ok(get_u16(bytes, offset))
        },
    }
}

/// The four-byte number at `offset`.
pub fn read_u32(bytes: &[u8], offset: usize) -> (result: Result<u32, ArtifactError>)
    ensures
        offset + 4 > usize::MAX ==> result == Err::<u32, _>(ArtifactError::Overflow),
        bytes@.len() < offset + 4 <= usize::MAX ==> result == Err::<u32, _>(
            ArtifactError::TooSmall {
                actual: bytes@.len() as usize,
                required: (offset + 4) as usize,
            },
        ),
        offset + 4 <= bytes@.len() ==> result == Ok::<_, ArtifactError>(
            u32_at(bytes@, offset as int),
        ),
{
    let length: usize = bytes.len();
    match offset.checked_add(4) {
        None => Err(ArtifactError::Overflow),
        Some(end) => {
            if end > length {
                return Err(ArtifactError::TooSmall { actual: length, required: end });
            }
            Ok(get_u32(bytes, offset))
        },
    }
}

/// The eight-byte number at `offset`.
pub fn read_u64(bytes: &[u8], offset: usize) -> (result: Result<u64, ArtifactError>)
    ensures
        offset + 8 > usize::MAX ==> result == Err::<u64, _>(ArtifactError::Overflow),
        bytes@.len() < offset + 8 <= usize::MAX ==> result == Err::<u64, _>(
            ArtifactError::TooSmall {
                actual: bytes@.len() as usize,
                required: (offset + 8) as usize,
            },
        ),
        offset + 8 <= bytes@.len() ==> result == Ok::<_, ArtifactError>(
            u64_at(bytes@, offset as int),
        ),
{
    let length: usize = bytes.len();
    match offset.checked_add(8) {
        None => Err(ArtifactError::Overflow),
        Some(end) => {
            if end > length {
                return Err(ArtifactError::TooSmall { actual: length, required: end });
            }
            Ok(get_u64(bytes, offset))
        },
    }
}

/// A validated view of artifact bytes that somebody else owns.
pub struct Artifact<'a> {
    pub bytes: &'a [u8],
    pub header: ArtifactHeader,
}

impl<'a> Artifact<'a> {
    /// The artifact's bytes.
    pub open spec fn content(&self) -> Seq<u8> {
        self.bytes@
    }

    /// The bytes are a valid artifact and the header is the one they hold.
    pub open spec fn well_formed(&self) -> bool {
        valid(self.content()) && self.header == header_of(self.content())
    }

    /// Validates `bytes` as an artifact.
    pub fn parse(bytes: &'a [u8]) -> (result: Result<Self, ArtifactError>)
        ensures
            match result {
                Ok(artifact) => artifact.well_formed() && artifact.content() == bytes@,
                Err(error) => header_fault(bytes@) == Some(error) || (header_fault(bytes@) is None
                    && first_record_fault(bytes@, header_of(bytes@), error)),
            },
            result is Ok <==> in_order(bytes@),
    {
        proof {
            artifacts_are_the_bytes_in_order(bytes@);
        }
        if bytes.len() < HEADER_BYTES {
            return Err(ArtifactError::TooSmall { actual: bytes.len(), required: HEADER_BYTES });
        }
        let mut index: usize = 0;
        while index < 8
            invariant
                index <= 8,
                bytes@.len() >= HEADER_BYTES,
                forall|i: int| 0 <= i < index ==> bytes@[i] == MAGIC@[i],
            decreases 8 - index,
        {
            if bytes[index] != MAGIC[index] {
                assert(bytes@.take(8)[index as int] != MAGIC@[index as int]);
                return Err(ArtifactError::Magic);
            }
            index += 1;
        }
        assert(bytes@.take(8) =~= MAGIC@);
        let version: u16 = match read_u16(bytes, 8) {
            Ok(value) => value,
            Err(error) => return Err(error),
        };
        if version != FORMAT_VERSION {
            return Err(ArtifactError::Version(version));
        }
        let flags: u16 = match read_u16(bytes, 10) {
            Ok(value) => value,
            Err(error) => return Err(error),
        };
        let section_count: u32 = match read_u32(bytes, 12) {
            Ok(value) => value,
            Err(error) => return Err(error),
        };
        if section_count > MAX_SECTIONS {
            return Err(ArtifactError::TooManySections(section_count));
        }
        let section_table_offset: u64 = match read_u64(bytes, 16) {
            Ok(value) => value,
            Err(error) => return Err(error),
        };
        let artifact_bytes: u64 = match read_u64(bytes, 24) {
            Ok(value) => value,
            Err(error) => return Err(error),
        };
        if artifact_bytes != bytes.len() as u64 {
            return Err(
                ArtifactError::LengthMismatch { declared: artifact_bytes, actual: bytes.len() },
            );
        }
        let table_bytes: u64 = section_count as u64 * 32;
        let end: u64 = match section_table_offset.checked_add(table_bytes) {
            Some(end) => end,
            None => return Err(ArtifactError::Overflow),
        };
        if section_table_offset < HEADER_BYTES as u64 || end > artifact_bytes {
            return Err(ArtifactError::SectionTableRange);
        }
        let artifact = Artifact {
            bytes,
            header: ArtifactHeader {
                version,
                flags,
                section_count,
                section_table_offset,
                artifact_bytes,
            },
        };
        match artifact.validate_records() {
            Ok(()) => Ok(artifact),
            Err(error) => Err(error),
        }
    }

    /// Checks every record of the section table in order.
    fn validate_records(&self) -> (result: Result<(), ArtifactError>)
        requires
            header_fault(self.content()) is None,
            self.header == header_of(self.content()),
        ensures
            match result {
                Ok(_) => no_record_fault(
                    self.content(),
                    self.header,
                    self.header.section_count as int,
                ),
                Err(error) => first_record_fault(self.content(), self.header, error),
            },
    {
        let table_start: u64 = self.header.section_table_offset;
        let table_end: u64 = table_start + self.header.section_count as u64 * 32;
        let mut previous_end: u64 = 0;
        let mut operation_seen: bool = false;
        let mut provenance_seen: bool = false;
        let mut index: u32 = 0;
        let ghost content = self.content();
        let ghost header = self.header;
        while index < self.header.section_count
            invariant
                index <= self.header.section_count,
                content == self.content(),
                header == self.header,
                header_fault(content) is None,
                header == header_of(content),
                table_start == header.section_table_offset,
                table_end == self::table_end(header),
                no_record_fault(content, header, index as int),
                operation_seen == kind_before(content, header, index as int, OPERATION_SECTION),
                provenance_seen == kind_before(content, header, index as int, PROVENANCE_SECTION),
                index > 0 ==> previous_end == section_record(content, header, index - 1).end(),
            decreases self.header.section_count - index,
        {
            let ghost record = section_record(content, header, index as int);
            assert(self.bytes.len() == content.len());
            let offset: usize = (table_start + index as u64 * 32) as usize;
            let kind: u32 = get_u32(self.bytes, offset);
            if kind == OPERATION_SECTION {
                if operation_seen {
                    assert(record_fault(content, header, index as int) is Some);
                    return Err(ArtifactError::DuplicateSection { index });
                }
                operation_seen = true;
            } else if kind == PROVENANCE_SECTION {
                if provenance_seen {
                    assert(record_fault(content, header, index as int) is Some);
                    return Err(ArtifactError::DuplicateSection { index });
                }
                provenance_seen = true;
            } else {
                assert(record_fault(content, header, index as int) is Some);
                return Err(ArtifactError::UnknownSection(index, kind));
            }
            let data_offset: u64 = get_u64(self.bytes, offset + 8);
            let length: u64 = get_u64(self.bytes, offset + 16);
            let alignment: u64 = get_u64(self.bytes, offset + 24);
            let data_end: u64 = match data_offset.checked_add(length) {
                Some(end) => end,
                None => {
                    assert(record_fault(content, header, index as int) is Some);
                    return Err(ArtifactError::Overflow);
                },
            };
            proof {
                reveal(is_pow2);
            }
            if alignment == 0 || !power_of_two(alignment) || data_offset % alignment != 0 {
                assert(record_fault(content, header, index as int) is Some);
                return Err(ArtifactError::Alignment(index, alignment));
            }
            if data_end > self.header.artifact_bytes || data_offset < HEADER_BYTES as u64 {
                assert(record_fault(content, header, index as int) is Some);
                return Err(ArtifactError::SectionRange { index });
            }
            if data_offset < table_end && data_end > table_start {
                assert(record_fault(content, header, index as int) is Some);
                return Err(ArtifactError::SectionTableOverlap { index });
            }
            if index > 0 && data_offset < previous_end {
                assert(record_fault(content, header, index as int) is Some);
                return Err(ArtifactError::SectionOverlap { index });
            }
            if kind == OPERATION_SECTION && length % OPERATION_BYTES as u64 != 0 {
                assert(record_fault(content, header, index as int) is Some);
                return Err(ArtifactError::OperationAlignment { index, bytes: OPERATION_BYTES });
            }
            assert(record_fault(content, header, index as int) is None);
            assert(record.kind == kind);
            previous_end = data_end;
            index += 1;
        }
        Ok(())
    }

    /// The section of kind `wanted_kind`, if the artifact has one.
    pub fn section(&self, wanted_kind: u32) -> (result: Result<Option<Section<'a>>, ArtifactError>)
        requires
            self.header.artifact_bytes <= self.content().len(),
        ensures
            match result {
                Ok(Some(section)) => exists|i: int| #[trigger]
                    lookup_finds(self.content(), self.header, wanted_kind, i) && shows_record(
                        section,
                        self.content(),
                        self.header,
                        i,
                    ),
                Ok(None) => lookup_finds_none(self.content(), self.header, wanted_kind),
                Err(error) => lookup_fails(self.content(), self.header, wanted_kind, error),
            },
            self.well_formed() ==> result is Ok,
    {
        let mut found: Option<Section<'a>> = None;
        let ghost mut place: int = 0;
        let table_start: u64 = self.header.section_table_offset;
        let table_bytes: u64 = self.header.section_count as u64 * 32;
        let table_end: u64 = match table_start.checked_add(table_bytes) {
            Some(end) => end,
            None => return Err(ArtifactError::Overflow),
        };
        let mut previous_end: u64 = 0;
        let mut index: u32 = 0;
        let ghost content = self.content();
        let ghost header = self.header;
        proof {
            if self.well_formed() {
                lookup_never_fails(content, wanted_kind);
            }
        }
        while index < self.header.section_count
            invariant
                index <= self.header.section_count,
                content == self.content(),
                header == self.header,
                header.artifact_bytes <= content.len(),
                table_start == header.section_table_offset,
                table_end == self::table_end(header),
                no_lookup_fault(content, header, wanted_kind, index as int),
                self.well_formed() ==> no_lookup_fault(
                    content,
                    header,
                    wanted_kind,
                    header.section_count as int,
                ),
                index > 0 ==> previous_end == section_record(content, header, index - 1).end(),
                match found {
                    Some(section) => section.kind == wanted_kind && 0 <= place < index
                        && shows_record(section, content, header, place),
                    None => !kind_before(content, header, index as int, wanted_kind),
                },
            decreases self.header.section_count - index,
        {
            let offset: u64 = table_start + index as u64 * 32;
            let ghost record = section_record(content, header, index as int);
            if self.bytes.len() < SECTION_BYTES || offset > (self.bytes.len() - SECTION_BYTES) as u64 {
                assert(lookup_fault(content, header, wanted_kind, index as int) is Some);
                return Err(ArtifactError::SectionTruncated { index });
            }
            let offset: usize = offset as usize;
            let kind: u32 = get_u32(self.bytes, offset);
            let flags: u32 = get_u32(self.bytes, offset + 4);
            let data_offset: u64 = get_u64(self.bytes, offset + 8);
            let length: u64 = get_u64(self.bytes, offset + 16);
            let alignment: u64 = get_u64(self.bytes, offset + 24);
            if kind != OPERATION_SECTION && kind != PROVENANCE_SECTION {
                assert(lookup_fault(content, header, wanted_kind, index as int) is Some);
                return Err(ArtifactError::UnknownSection(index, kind));
            }
            proof {
                reveal(is_pow2);
            }
            if alignment == 0 || !power_of_two(alignment) || data_offset % alignment != 0 {
                assert(lookup_fault(content, header, wanted_kind, index as int) is Some);
                return Err(ArtifactError::Alignment(index, alignment));
            }
            let data_end: u64 = match data_offset.checked_add(length) {
                Some(end) => end,
                None => {
                    assert(lookup_fault(content, header, wanted_kind, index as int) is Some);
                    return Err(ArtifactError::Overflow);
                },
            };
            if data_end > self.header.artifact_bytes || data_offset < HEADER_BYTES as u64 {
                assert(lookup_fault(content, header, wanted_kind, index as int) is Some);
                return Err(ArtifactError::SectionRange { index });
            }
            if data_offset < table_end && data_end > table_start {
                assert(lookup_fault(content, header, wanted_kind, index as int) is Some);
                return Err(ArtifactError::SectionTableOverlap { index });
            }
            if index > 0 && data_offset < previous_end {
                assert(lookup_fault(content, header, wanted_kind, index as int) is Some);
                return Err(ArtifactError::SectionOverlap { index });
            }
            previous_end = data_end;
            if kind == wanted_kind {
                if found.is_some() {
                    assert(lookup_fault(content, header, wanted_kind, index as int) is Some);
                    return Err(ArtifactError::DuplicateSection { index });
                }
                let payload: &'a [u8] = &self.bytes[data_offset as usize..data_end as usize];
                let section = Section {
                    kind,
                    flags,
                    offset: data_offset,
                    length,
                    alignment,
                    bytes: payload,
                };
                proof {
                    place = index as int;
                    assert(shows_record(section, content, header, place));
                }
                found = Some(section);
            }
            assert(record.kind == kind);
            assert(lookup_fault(content, header, wanted_kind, index as int) is None);
            index += 1;
        }
        proof {
            if found is Some {
                assert(lookup_finds(content, header, wanted_kind, place));
            }
        }
        Ok(found)
    }

    /// A deterministic identity of every byte of the artifact. The identity is
    /// provenance, not authorization.
    pub fn identity(&self) -> (result: Result<String, ArtifactError>)
        ensures
            result matches Ok(text) && text@ == identity_text(sha256_digest(self.content()))
                && text@.len() == 71,
    {
        proof {
            reveal_strlit("sha256:");
        }
        Ok(identity_of_digest(sha256(self.bytes).as_slice()))
    }

    /// The canonical address of the embedded provenance JSON, if the artifact
    /// has a provenance section.
    pub fn provenance_identity(&self) -> (result: Result<Option<String>, ArtifactError>)
        requires
            self.header.artifact_bytes <= self.content().len(),
        ensures
            match result {
                Ok(None) => lookup_finds_none(self.content(), self.header, PROVENANCE_SECTION),
                Ok(Some(label)) => exists|i: int| #[trigger]
                    lookup_finds(self.content(), self.header, PROVENANCE_SECTION, i)
                        && json_address(payload(self.content(), self.header, i)) == Ok::<
                        _,
                        Seq<char>,
                    >(label@),
                Err(ArtifactError::Identity(failure)) => exists|i: int| #[trigger]
                    lookup_finds(self.content(), self.header, PROVENANCE_SECTION, i)
                        && json_address(payload(self.content(), self.header, i)) == Err::<
                        Seq<char>,
                        _,
                    >(failure@),
                Err(error) => lookup_fails(
                    self.content(),
                    self.header,
                    PROVENANCE_SECTION,
                    error,
                ),
            },
            self.well_formed() && result is Err ==> result->Err_0 is Identity,
    {
        match self.section(PROVENANCE_SECTION) {
            Err(error) => {
                proof {
                    lookup_error_is_structural(
                        self.content(),
                        self.header,
                        PROVENANCE_SECTION,
                        error,
                    );
                }
                Err(error)
            },
            Ok(None) => Ok(None),
            Ok(Some(section)) => provenance_of_outcome(address_of_json(section.bytes)),
        }
    }
}

/// The identity text of a digest.
pub fn identity_of_digest(digest: &[u8]) -> (text: String)
    ensures
        text@ == identity_text(digest@),
{
    let mut text = String::from_str("sha256:");
    let digits = format_digest(digest);
    text.append(digits.as_str());
    text
}

/// What an addressing outcome means for the provenance identity.
pub fn provenance_of_outcome(outcome: Result<String, String>) -> (result: Result<
    Option<String>,
    ArtifactError,
>)
    ensures
        match outcome {
            Ok(label) => result == Ok::<_, ArtifactError>(Some(label)),
            Err(failure) => result == Err::<Option<String>, _>(ArtifactError::Identity(failure)),
        },
{
    match outcome {
        Ok(label) => Ok(Some(label)),
        Err(failure) => Err(ArtifactError::Identity(failure)),
    }
}

/// Admits an artifact of `actual` bytes under a limit.
pub fn check_size(actual: u64, limit: u64) -> (result: Result<(), ArtifactError>)
    ensures
        actual <= limit ==> result == Ok::<_, ArtifactError>(()),
        actual > limit ==> result == Err::<(), _>(ArtifactError::TooLarge { actual, limit }),
{
    if actual > limit {
        return Err(ArtifactError::TooLarge { actual, limit });
    }
    Ok(())
}

/// A lookup that stops names a structural fault, never a missing identity.
proof fn lookup_error_is_structural(
    bytes: Seq<u8>,
    header: ArtifactHeader,
    wanted: u32,
    error: ArtifactError,
)
    requires
        lookup_fails(bytes, header, wanted, error),
    ensures
        error !is Identity,
{
    if table_end(header) <= u64::MAX {
        let i = choose|i: int|
            0 <= i < header.section_count && #[trigger] lookup_fault(bytes, header, wanted, i)
                == Some(error) && no_lookup_fault(bytes, header, wanted, i);
        assert(lookup_fault(bytes, header, wanted, i) == Some(error));
    }
}

/// The sections of a valid artifact lie behind the header and inside the
/// artifact, aligned, clear of the section table, and of a known kind.
pub proof fn sections_are_in_bounds(bytes: Seq<u8>, index: int)
    requires
        valid(bytes),
        0 <= index < header_of(bytes).section_count,
    ensures
        ({
            let header = header_of(bytes);
            let record = section_record(bytes, header, index);
            &&& HEADER_BYTES <= record.offset
            &&& record.end() <= bytes.len()
            &&& record.aligned()
            &&& record.known()
            &&& record.end() <= header.section_table_offset || table_end(header) <= record.offset
            &&& record.kind == OPERATION_SECTION ==> record.length % (OPERATION_BYTES as u64) == 0
        }),
{
    assert(record_fault(bytes, header_of(bytes), index) is None);
}

/// The sections of a valid artifact follow one another without overlap.
pub proof fn sections_do_not_overlap(bytes: Seq<u8>, first: int, second: int)
    requires
        valid(bytes),
        0 <= first < second < header_of(bytes).section_count,
    ensures
        section_record(bytes, header_of(bytes), first).end() <= section_record(
            bytes,
            header_of(bytes),
            second,
        ).offset,
    decreases second - first,
{
    let header = header_of(bytes);
    assert(record_fault(bytes, header, second) is None);
    if first + 1 < second {
        sections_do_not_overlap(bytes, first, second - 1);
        assert(section_record(bytes, header, second - 1).offset <= section_record(
            bytes,
            header,
            second - 1,
        ).end());
    }
}

/// No section kind occurs twice in a valid artifact, so a lookup has at most
/// one answer.
pub proof fn section_kinds_are_unique(bytes: Seq<u8>, first: int, second: int)
    requires
        valid(bytes),
        0 <= first < header_of(bytes).section_count,
        0 <= second < header_of(bytes).section_count,
        section_record(bytes, header_of(bytes), first).kind == section_record(
            bytes,
            header_of(bytes),
            second,
        ).kind,
    ensures
        first == second,
{
    let header = header_of(bytes);
    assert(record_fault(bytes, header, first) is None);
    assert(record_fault(bytes, header, second) is None);
}

/// Two artifacts have the same identity exactly when their digests agree.
pub proof fn identity_follows_the_digest(first: Seq<u8>, second: Seq<u8>)
    ensures
        identity_text(first) == identity_text(second) <==> first == second,
{
    if identity_text(first) == identity_text(second) {
        let prefix = "sha256:"@;
        assert(identity_text(first).skip(prefix.len() as int) =~= hexadecimal(first));
        assert(identity_text(second).skip(prefix.len() as int) =~= hexadecimal(second));
        hexadecimal_is_injective(first, second);
    }
}

/// Artifacts whose provenance is the same document up to its canonical form
/// have one provenance identity: whichever section a lookup finds, its address
/// is the text form of that form's digest.
pub proof fn equivalent_provenance_shares_an_identity(
    first: Seq<u8>,
    second: Seq<u8>,
    one: int,
    other: int,
)
    requires
        valid(first),
        valid(second),
        lookup_finds(first, header_of(first), PROVENANCE_SECTION, one),
        lookup_finds(second, header_of(second), PROVENANCE_SECTION, other),
        canonical_json(payload(first, header_of(first), one)) is Some,
        canonical_json(payload(first, header_of(first), one)) == canonical_json(
            payload(second, header_of(second), other),
        ),
    ensures
        ({
            let label = identity_text(
                sha256_digest(canonical_json(payload(first, header_of(first), one))->Some_0),
            );
            &&& !lookup_finds_none(first, header_of(first), PROVENANCE_SECTION)
            &&& !lookup_finds_none(second, header_of(second), PROVENANCE_SECTION)
            &&& forall|i: int| #[trigger]
                lookup_finds(first, header_of(first), PROVENANCE_SECTION, i) ==> json_address(
                    payload(first, header_of(first), i),
                ) == Ok::<_, Seq<char>>(label)
            &&& forall|i: int| #[trigger]
                lookup_finds(second, header_of(second), PROVENANCE_SECTION, i) ==> json_address(
                    payload(second, header_of(second), i),
                ) == Ok::<_, Seq<char>>(label)
        }),
{
    assert forall|i: int| #[trigger]
        lookup_finds(first, header_of(first), PROVENANCE_SECTION, i) implies i == one by {
        section_kinds_are_unique(first, i, one);
    }
    assert forall|i: int| #[trigger]
        lookup_finds(second, header_of(second), PROVENANCE_SECTION, i) implies i == other by {
        section_kinds_are_unique(second, i, other);
    }
}

/// A valid artifact answers every lookup: no record of its table hinders one.
pub proof fn lookup_never_fails(bytes: Seq<u8>, wanted: u32)
    requires
        valid(bytes),
    ensures
        no_lookup_fault(bytes, header_of(bytes), wanted, header_of(bytes).section_count as int),
{
    let header = header_of(bytes);
    assert forall|i: int| 0 <= i < header.section_count implies #[trigger] lookup_fault(
        bytes,
        header,
        wanted,
        i,
    ) is None by {
        assert(record_fault(bytes, header, i) is None);
    }
}

} // verus!
