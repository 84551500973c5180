//! Which bytes are an artifact, and what is found in it.
use crate::artifact::{
    first_record_fault, header_fault, header_of, lookup_finds, lookup_finds_none,
    lookup_never_fails, payload, record_fault, section_record, shows_record, valid, ArtifactError,
    Section,
};
use crate::bytes::{u16_at, u32_at, u64_at};
use vstd::arithmetic::power2::is_pow2;
use vstd::prelude::*;

verus! {

/// How many sections the header declares.
pub open spec fn declared_sections(bytes: Seq<u8>) -> int {
    u32_at(bytes, 12) as int
}

/// Where the section table starts.
pub open spec fn table_start(bytes: Seq<u8>) -> int {
    u64_at(bytes, 16) as int
}

/// Where the table entry of a section stands.
pub open spec fn entry_start(bytes: Seq<u8>, index: int) -> int {
    u64_at(bytes, 16) + 32 * index
}

/// The kind in a table entry.
pub open spec fn entry_kind(bytes: Seq<u8>, index: int) -> int {
    u32_at(bytes, entry_start(bytes, index)) as int
}

/// Where the section of a table entry starts.
pub open spec fn section_start(bytes: Seq<u8>, index: int) -> int {
    u64_at(bytes, entry_start(bytes, index) + 8) as int
}

/// How long the section of a table entry is.
pub open spec fn section_length(bytes: Seq<u8>, index: int) -> int {
    u64_at(bytes, entry_start(bytes, index) + 16) as int
}

/// The alignment in a table entry.
pub open spec fn section_alignment(bytes: Seq<u8>, index: int) -> int {
    u64_at(bytes, entry_start(bytes, index) + 24) as int
}

/// Behind the last byte of a section.
pub open spec fn section_end(bytes: Seq<u8>, index: int) -> int {
    section_start(bytes, index) + section_length(bytes, index)
}

/// The header is that of an artifact of this size, and the section table lies
/// between the header and the end.
pub open spec fn header_in_order(bytes: Seq<u8>) -> bool {
    &&& bytes.len() >= 32
    &&& bytes[0] == 78 && bytes[1] == 65 && bytes[2] == 84 && bytes[3] == 77
    &&& bytes[4] == 65 && bytes[5] == 67 && bytes[6] == 72 && bytes[7] == 0
    &&& u16_at(bytes, 8) == 1
    &&& declared_sections(bytes) <= 65_536
    &&& u64_at(bytes, 24) == bytes.len()
    &&& 32 <= table_start(bytes)
    &&& table_start(bytes) + 32 * declared_sections(bytes) <= bytes.len()
}

/// The section is of a known kind, aligned as it declares, behind the header,
/// inside the artifact, clear of the table and not before the end of the
/// section in front of it; operations are whole records.
pub open spec fn section_in_order(bytes: Seq<u8>, index: int) -> bool {
    &&& entry_kind(bytes, index) == 1 || entry_kind(bytes, index) == 2
    &&& is_pow2(section_alignment(bytes, index))
    &&& section_start(bytes, index) % section_alignment(bytes, index) == 0
    &&& 32 <= section_start(bytes, index)
    &&& section_end(bytes, index) <= bytes.len()
    &&& section_end(bytes, index) <= table_start(bytes) || table_start(bytes) + 32
        * declared_sections(bytes) <= section_start(bytes, index)
    &&& index > 0 ==> section_end(bytes, index - 1) <= section_start(bytes, index)
    &&& entry_kind(bytes, index) == 1 ==> section_length(bytes, index) % 16 == 0
}

/// The header is in order, and so is every section, and no two sections are of
/// one kind.
pub open spec fn in_order(bytes: Seq<u8>) -> bool {
    &&& header_in_order(bytes)
    &&& forall|i: int| 0 <= i < declared_sections(bytes) ==> #[trigger] section_in_order(bytes, i)
    &&& forall|i: int, j: int|
        0 <= i < j < declared_sections(bytes) ==> #[trigger] entry_kind(bytes, i)
            != #[trigger] entry_kind(bytes, j)
}

/// Bytes are a valid artifact exactly when they are in order: a gap between two
/// sections does not matter, nor where the table stands.
pub proof fn artifacts_are_the_bytes_in_order(bytes: Seq<u8>)
    ensures
        valid(bytes) <==> in_order(bytes),
{
    header_is_in_order(bytes);
    let header = header_of(bytes);
    if header_in_order(bytes) {
        if valid(bytes) {
            assert forall|i: int| 0 <= i < declared_sections(bytes) implies #[trigger]
                section_in_order(bytes, i) by {
                assert(record_fault(bytes, header, i) is None);
                assert(section_record(bytes, header, i).kind == entry_kind(bytes, i));
            }
            assert forall|i: int, j: int|
                0 <= i < j < declared_sections(bytes) implies #[trigger] entry_kind(bytes, i)
                != #[trigger] entry_kind(bytes, j) by {
                assert(record_fault(bytes, header, j) is None);
                assert(section_record(bytes, header, i).kind == entry_kind(bytes, i));
                assert(section_record(bytes, header, j).kind == entry_kind(bytes, j));
            }
        }
        if in_order(bytes) {
            assert forall|i: int| 0 <= i < header.section_count implies #[trigger] record_fault(
                bytes,
                header,
                i,
            ) is None by {
                assert(section_in_order(bytes, i));
                assert(section_record(bytes, header, i).kind == entry_kind(bytes, i));
                assert forall|j: int| 0 <= j < i implies (#[trigger] section_record(
                    bytes,
                    header,
                    j,
                )).kind != section_record(bytes, header, i).kind by {
                    assert(entry_kind(bytes, j) != entry_kind(bytes, i));
                }
            }
        }
    }
}

/// The header is faultless exactly when it is in order.
proof fn header_is_in_order(bytes: Seq<u8>)
    ensures
        header_fault(bytes) is None <==> header_in_order(bytes),
{
    if bytes.len() >= 32 {
        let front = bytes.take(8);
        let magic: Seq<u8> = seq![78u8, 65, 84, 77, 65, 67, 72, 0];
        assert(crate::artifact::MAGIC@ =~= magic);
        if bytes[0] == 78 && bytes[1] == 65 && bytes[2] == 84 && bytes[3] == 77 && bytes[4] == 65
            && bytes[5] == 67 && bytes[6] == 72 && bytes[7] == 0 {
            assert(front =~= magic);
        } else if front == magic {
            assert(front[0] == 78 && front[1] == 65 && front[2] == 84 && front[3] == 77);
            assert(front[4] == 65 && front[5] == 67 && front[6] == 72 && front[7] == 0);
            assert(false);
        }
    }
}

/// The refusal of a header is true of it.
pub open spec fn header_refusal_is_true(bytes: Seq<u8>, error: ArtifactError) -> bool {
    match error {
        ArtifactError::TooSmall { actual, required } => {
            &&& actual == bytes.len()
            &&& required == 32
            &&& bytes.len() < 32
        },
        ArtifactError::Magic => bytes.len() >= 32 && !(bytes[0] == 78 && bytes[1] == 65 && bytes[2]
            == 84 && bytes[3] == 77 && bytes[4] == 65 && bytes[5] == 67 && bytes[6] == 72
            && bytes[7] == 0),
        ArtifactError::Version(version) => version == u16_at(bytes, 8) && version != 1,
        ArtifactError::TooManySections(count) => count == declared_sections(bytes) && count
            > 65_536,
        ArtifactError::LengthMismatch { declared, actual } => {
            &&& declared == u64_at(bytes, 24)
            &&& actual == bytes.len()
            &&& declared != actual
        },
        ArtifactError::Overflow => table_start(bytes) + 32 * declared_sections(bytes)
            > 0xffff_ffff_ffff_ffff,
        ArtifactError::SectionTableRange => table_start(bytes) < 32 || table_start(bytes) + 32
            * declared_sections(bytes) > bytes.len(),
        _ => false,
    }
}

/// A refused header is refused for what it is.
pub proof fn header_refusals_are_true(bytes: Seq<u8>, error: ArtifactError)
    requires
        bytes.len() <= usize::MAX,
        header_fault(bytes) == Some(error),
    ensures
        header_refusal_is_true(bytes, error),
{
    if bytes.len() >= 32 {
        let magic: Seq<u8> = seq![78u8, 65, 84, 77, 65, 67, 72, 0];
        assert(crate::artifact::MAGIC@ =~= magic);
        if bytes[0] == 78 && bytes[1] == 65 && bytes[2] == 84 && bytes[3] == 77 && bytes[4] == 65
            && bytes[5] == 67 && bytes[6] == 72 && bytes[7] == 0 {
            assert(bytes.take(8) =~= magic);
        }
    }
}

/// The refusal of a section is true of it.
pub open spec fn section_refusal_is_true(bytes: Seq<u8>, at: int, error: ArtifactError) -> bool {
    match error {
        ArtifactError::UnknownSection(index, kind) => {
            &&& index == at
            &&& kind == entry_kind(bytes, at)
            &&& kind != 1 && kind != 2
        },
        ArtifactError::DuplicateSection { index } => index == at && exists|i: int|
            0 <= i < at && #[trigger] entry_kind(bytes, i) == entry_kind(bytes, at),
        ArtifactError::Overflow => section_end(bytes, at) > 0xffff_ffff_ffff_ffff,
        ArtifactError::Alignment(index, alignment) => {
            &&& index == at
            &&& alignment == section_alignment(bytes, at)
            &&& !is_pow2(alignment as int) || section_start(bytes, at) % (alignment as int) != 0
        },
        ArtifactError::SectionRange { index } => index == at && (section_end(bytes, at)
            > bytes.len() || section_start(bytes, at) < 32),
        ArtifactError::SectionTableOverlap { index } => {
            &&& index == at
            &&& section_start(bytes, at) < table_start(bytes) + 32 * declared_sections(bytes)
            &&& table_start(bytes) < section_end(bytes, at)
        },
        ArtifactError::SectionOverlap { index } => {
            &&& index == at
            &&& at > 0
            &&& section_start(bytes, at) < section_end(bytes, at - 1)
        },
        ArtifactError::OperationAlignment { index, bytes: unit } => {
            &&& index == at
            &&& unit == 16
            &&& entry_kind(bytes, at) == 1
            &&& section_length(bytes, at) % 16 != 0
        },
        _ => false,
    }
}

/// A refused section table is refused for its first section that is not in
/// order, and for what that section is.
pub proof fn section_refusals_are_true(bytes: Seq<u8>, error: ArtifactError)
    requires
        header_in_order(bytes),
        first_record_fault(bytes, header_of(bytes), error),
    ensures
        exists|at: int|
            0 <= at < declared_sections(bytes) && #[trigger] section_refusal_is_true(
                bytes,
                at,
                error,
            ) && forall|i: int| 0 <= i < at ==> #[trigger] section_in_order(bytes, i),
{
    header_is_in_order(bytes);
    let header = header_of(bytes);
    let at = choose|i: int|
        0 <= i < header.section_count && #[trigger] record_fault(bytes, header, i) == Some(error)
            && crate::artifact::no_record_fault(bytes, header, i);
    assert(section_record(bytes, header, at).kind == entry_kind(bytes, at));
    if error is DuplicateSection {
        let other = choose|i: int|
            0 <= i < at && (#[trigger] section_record(bytes, header, i)).kind == section_record(
                bytes,
                header,
                at,
            ).kind;
        assert(section_record(bytes, header, other).kind == entry_kind(bytes, other));
    }
    assert(section_refusal_is_true(bytes, at, error));
    assert forall|i: int| 0 <= i < at implies #[trigger] section_in_order(bytes, i) by {
        assert(record_fault(bytes, header, i) is None);
        assert(section_record(bytes, header, i).kind == entry_kind(bytes, i));
    }
}

/// In an artifact, looking a kind up finds the section whose entry has it, and
/// none where no entry has.
pub proof fn sections_are_found_by_kind(bytes: Seq<u8>, wanted: u32)
    requires
        in_order(bytes),
    ensures
        forall|i: int|
            0 <= i < declared_sections(bytes) ==> (lookup_finds(
                bytes,
                header_of(bytes),
                wanted,
                i,
            ) <==> #[trigger] entry_kind(bytes, i) == wanted),
        lookup_finds_none(bytes, header_of(bytes), wanted) <==> forall|i: int|
            0 <= i < declared_sections(bytes) ==> #[trigger] entry_kind(bytes, i) != wanted,
{
    let header = header_of(bytes);
    artifacts_are_the_bytes_in_order(bytes);
    lookup_never_fails(bytes, wanted);
    assert forall|i: int| 0 <= i < declared_sections(bytes) implies (#[trigger] entry_kind(bytes, i)
        == section_record(bytes, header, i).kind) by {}
    if lookup_finds_none(bytes, header, wanted) {
        assert forall|i: int| 0 <= i < declared_sections(bytes) implies #[trigger] entry_kind(
            bytes,
            i,
        ) != wanted by {
            assert(section_record(bytes, header, i).kind == entry_kind(bytes, i));
        }
    } else {
        let found = choose|i: int|
            0 <= i < header.section_count && (#[trigger] section_record(bytes, header, i)).kind
                == wanted;
        assert(entry_kind(bytes, found) == wanted);
    }
}

/// The bytes of a section are those of the artifact from where its entry says
/// it starts, as many as the entry says.
pub proof fn sections_are_where_their_entries_say(bytes: Seq<u8>, index: int)
    requires
        in_order(bytes),
        0 <= index < declared_sections(bytes),
    ensures
        payload(bytes, header_of(bytes), index).len() == section_length(bytes, index),
        forall|i: int|
            0 <= i < section_length(bytes, index) ==> #[trigger] payload(
                bytes,
                header_of(bytes),
                index,
            )[i] == bytes[section_start(bytes, index) + i],
{
    assert(section_in_order(bytes, index));
}

/// The header tells what stands in its bytes.
pub proof fn headers_tell_their_fields(bytes: Seq<u8>)
    ensures
        header_of(bytes).version == u16_at(bytes, 8),
        header_of(bytes).flags == u16_at(bytes, 10),
        header_of(bytes).section_count == u32_at(bytes, 12),
        header_of(bytes).section_table_offset == u64_at(bytes, 16),
        header_of(bytes).artifact_bytes == u64_at(bytes, 24),
        forall|i: int|
            (#[trigger] section_record(bytes, header_of(bytes), i)).kind == u32_at(
                bytes,
                u64_at(bytes, 16) + 32 * i,
            ) && section_record(bytes, header_of(bytes), i).flags == u32_at(
                bytes,
                u64_at(bytes, 16) + 32 * i + 4,
            ) && section_record(bytes, header_of(bytes), i).offset == u64_at(
                bytes,
                u64_at(bytes, 16) + 32 * i + 8,
            ) && section_record(bytes, header_of(bytes), i).length == u64_at(
                bytes,
                u64_at(bytes, 16) + 32 * i + 16,
            ) && section_record(bytes, header_of(bytes), i).alignment == u64_at(
                bytes,
                u64_at(bytes, 16) + 32 * i + 24,
            ),
{
}

/// A section that is shown has the fields of its table entry and the bytes that
/// the entry names.
pub proof fn shown_sections_are_their_entry(section: Section, bytes: Seq<u8>, index: int)
    requires
        shows_record(section, bytes, header_of(bytes), index),
        in_order(bytes),
        0 <= index < declared_sections(bytes),
    ensures
        section.kind == entry_kind(bytes, index),
        section.flags == u32_at(bytes, entry_start(bytes, index) + 4),
        section.offset == section_start(bytes, index),
        section.length == section_length(bytes, index),
        section.alignment == section_alignment(bytes, index),
        section.bytes@.len() == section_length(bytes, index),
        forall|i: int|
            0 <= i < section_length(bytes, index) ==> #[trigger] section.bytes@[i]
                == bytes[section_start(bytes, index) + i],
{
    sections_are_where_their_entries_say(bytes, index);
}

} // verus!
