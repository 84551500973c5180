//! Building artifacts: operation records and provenance behind a header and a
//! section table.
use crate::artifact::{
    header_fault, header_of, kind_before, lookup_finds, lookup_finds_none,
    lookup_never_fails, payload, record_fault, section_record, valid,
};
use crate::artifact::{
    Artifact, ArtifactError, ArtifactHeader, SectionRecord, FORMAT_VERSION, MAGIC,
    PROVENANCE_SECTION,
};
use crate::bytes::{fields_of_subrange, u16_round_trip, u32_round_trip, u64_round_trip};
use crate::bytes::{push_slice, push_u16, push_u32, push_u64};
use crate::bytes::{u16_bytes, u32_bytes, u64_bytes};
use crate::digest::{identity_text, json_address, sha256_digest};
use crate::ops::{COPY_OPCODE, OPERATION_BYTES, OPERATION_SECTION};
use crate::text::decimal;
use crate::text::push_decimal;
use vstd::arithmetic::power2::is_pow2;
use vstd::prelude::*;
use vstd::string::StringExecFns;
use vstd::utf8::encode_utf8;

verus! {

/// The alignment that built artifacts declare for their sections.
pub const SECTION_ALIGNMENT: u64 = 4;

/// The header of an artifact of `size` bytes with two sections right behind it.
pub open spec fn header_image(size: int) -> Seq<u8> {
    MAGIC@ + u16_bytes(FORMAT_VERSION) + u16_bytes(0) + u32_bytes(2) + u64_bytes(32) + u64_bytes(
        size as u64,
    )
}

/// The table record of a section.
pub open spec fn record_image(kind: u32, offset: int, length: int) -> Seq<u8> {
    u32_bytes(kind) + u32_bytes(0) + u64_bytes(offset as u64) + u64_bytes(length as u64)
        + u64_bytes(SECTION_ALIGNMENT)
}

/// The bytes of an artifact with these operations and this provenance.
pub open spec fn artifact_image(operations: Seq<u8>, provenance: Seq<u8>) -> Seq<u8> {
    header_image((96 + operations.len() + provenance.len()) as int) + record_image(
        OPERATION_SECTION,
        96,
        operations.len() as int,
    ) + record_image(
        PROVENANCE_SECTION,
        (96 + operations.len()) as int,
        provenance.len() as int,
    ) + operations + provenance
}

/// The header of a built artifact reads back.
proof fn header_reads_back(size: int)
    requires
        0 <= size <= u64::MAX,
    ensures
        header_image(size).len() == 32,
        header_image(size).take(8) == MAGIC@,
        header_of(header_image(size)) == (ArtifactHeader {
            version: FORMAT_VERSION,
            flags: 0,
            section_count: 2,
            section_table_offset: 32,
            artifact_bytes: size as u64,
        }),
{
    let image = header_image(size);
    assert(image.take(8) =~= MAGIC@);
    assert(image.subrange(8, 10) =~= u16_bytes(FORMAT_VERSION));
    assert(image.subrange(10, 12) =~= u16_bytes(0));
    assert(image.subrange(12, 16) =~= u32_bytes(2));
    assert(image.subrange(16, 24) =~= u64_bytes(32));
    assert(image.subrange(24, 32) =~= u64_bytes(size as u64));
    u16_round_trip(image, 8, FORMAT_VERSION);
    u16_round_trip(image, 10, 0);
    u32_round_trip(image, 12, 2);
    u64_round_trip(image, 16, 32);
    u64_round_trip(image, 24, size as u64);
}

/// A header that precedes a section table right behind itself.
spec fn table_start_header() -> ArtifactHeader {
    ArtifactHeader {
        version: 0,
        flags: 0,
        section_count: 1,
        section_table_offset: 0,
        artifact_bytes: 0,
    }
}

/// The table record of a built artifact reads back.
proof fn record_reads_back(kind: u32, offset: int, length: int)
    requires
        0 <= offset <= u64::MAX,
        0 <= length <= u64::MAX,
    ensures
        record_image(kind, offset, length).len() == 32,
        section_record(record_image(kind, offset, length), table_start_header(), 0) == (
        SectionRecord {
            kind,
            flags: 0,
            offset: offset as u64,
            length: length as u64,
            alignment: SECTION_ALIGNMENT,
        }),
{
    let image = record_image(kind, offset, length);
    assert(image.subrange(0, 4) =~= u32_bytes(kind));
    assert(image.subrange(4, 8) =~= u32_bytes(0));
    assert(image.subrange(8, 16) =~= u64_bytes(offset as u64));
    assert(image.subrange(16, 24) =~= u64_bytes(length as u64));
    assert(image.subrange(24, 32) =~= u64_bytes(SECTION_ALIGNMENT));
    u32_round_trip(image, 0, kind);
    u32_round_trip(image, 4, 0);
    u64_round_trip(image, 8, offset as u64);
    u64_round_trip(image, 16, length as u64);
    u64_round_trip(image, 24, SECTION_ALIGNMENT);
}

/// A record that stands somewhere in an artifact reads as it does alone.
proof fn record_reads_in_place(bytes: Seq<u8>, header: ArtifactHeader, index: int)
    requires
        0 <= index,
        header.section_table_offset + 32 * index + 32 <= bytes.len(),
    ensures
        ({
            let start = header.section_table_offset + 32 * index;
            section_record(bytes, header, index) == section_record(
                bytes.subrange(start, start + 32),
                table_start_header(),
                0,
            )
        }),
{
    let start = header.section_table_offset + 32 * index;
    fields_of_subrange(bytes, start, start + 32, 0);
    fields_of_subrange(bytes, start, start + 32, 4);
    fields_of_subrange(bytes, start, start + 32, 8);
    fields_of_subrange(bytes, start, start + 32, 16);
    fields_of_subrange(bytes, start, start + 32, 24);
}

/// Where the parts of a header, two records and two payloads lie.
proof fn parts_lie_in_place(
    head: Seq<u8>,
    first: Seq<u8>,
    second: Seq<u8>,
    operations: Seq<u8>,
    provenance: Seq<u8>,
)
    requires
        head.len() == 32,
        first.len() == 32,
        second.len() == 32,
    ensures
        ({
            let image = head + first + second + operations + provenance;
            &&& image.len() == 96 + operations.len() + provenance.len()
            &&& image.take(8) == head.take(8)
            &&& image.subrange(0, 32) == head
            &&& image.subrange(32, 64) == first
            &&& image.subrange(64, 96) == second
            &&& image.subrange(96, (96 + operations.len()) as int) == operations
            &&& image.subrange((96 + operations.len()) as int, image.len() as int) == provenance
        }),
{
    let image = head + first + second + operations + provenance;
    assert(image.take(8) =~= head.take(8));
    assert(image.subrange(0, 32) =~= head);
    assert(image.subrange(32, 64) =~= first);
    assert(image.subrange(64, 96) =~= second);
    assert(image.subrange(96, (96 + operations.len()) as int) =~= operations);
    assert(image.subrange((96 + operations.len()) as int, image.len() as int) =~= provenance);
}

/// What a built artifact holds, as the parser sees it.
pub proof fn image_reads_back(operations: Seq<u8>, provenance: Seq<u8>)
    requires
        96 + operations.len() + provenance.len() <= u64::MAX,
    ensures
        ({
            let image = artifact_image(operations, provenance);
            let header = header_of(image);
            &&& image.len() == 96 + operations.len() + provenance.len()
            &&& header_fault(image) is None
            &&& header.version == FORMAT_VERSION
            &&& header.flags == 0
            &&& header.section_count == 2
            &&& header.section_table_offset == 32
            &&& header.artifact_bytes == image.len()
            &&& section_record(image, header, 0) == (SectionRecord {
                kind: OPERATION_SECTION,
                flags: 0,
                offset: 96,
                length: operations.len() as u64,
                alignment: SECTION_ALIGNMENT,
            })
            &&& section_record(image, header, 1) == (SectionRecord {
                kind: PROVENANCE_SECTION,
                flags: 0,
                offset: (96 + operations.len()) as u64,
                length: provenance.len() as u64,
                alignment: SECTION_ALIGNMENT,
            })
            &&& payload(image, header, 0) == operations
            &&& payload(image, header, 1) == provenance
        }),
{
    let image = artifact_image(operations, provenance);
    let size = 96 + operations.len() + provenance.len();
    let head = header_image(size as int);
    header_reads_back(size as int);
    record_reads_back(OPERATION_SECTION, 96, operations.len() as int);
    record_reads_back(PROVENANCE_SECTION, (96 + operations.len()) as int, provenance.len() as int);
    parts_lie_in_place(
        head,
        record_image(OPERATION_SECTION, 96, operations.len() as int),
        record_image(
            PROVENANCE_SECTION,
            (96 + operations.len()) as int,
            provenance.len() as int,
        ),
        operations,
        provenance,
    );
    fields_of_subrange(image, 0, 32, 8);
    fields_of_subrange(image, 0, 32, 10);
    fields_of_subrange(image, 0, 32, 12);
    fields_of_subrange(image, 0, 32, 16);
    fields_of_subrange(image, 0, 32, 24);
    let header = header_of(image);
    assert(header == header_of(head));
    record_reads_in_place(image, header, 0);
    record_reads_in_place(image, header, 1);
}

/// What the parser makes of an artifact with two sections one after the other.
proof fn two_sections_faults(image: Seq<u8>, operations: int, provenance: int)
    requires
        0 <= operations,
        0 <= provenance,
        96 + operations + provenance == image.len(),
        image.len() <= u64::MAX,
        header_fault(image) is None,
        header_of(image).section_count == 2,
        header_of(image).section_table_offset == 32,
        header_of(image).artifact_bytes == image.len(),
        section_record(image, header_of(image), 0) == (SectionRecord {
            kind: OPERATION_SECTION,
            flags: 0,
            offset: 96,
            length: operations as u64,
            alignment: SECTION_ALIGNMENT,
        }),
        section_record(image, header_of(image), 1) == (SectionRecord {
            kind: PROVENANCE_SECTION,
            flags: 0,
            offset: (96 + operations) as u64,
            length: provenance as u64,
            alignment: SECTION_ALIGNMENT,
        }),
    ensures
        operations % 16 == 0 ==> valid(image),
        operations % 16 != 0 ==> record_fault(image, header_of(image), 0) == Some(
            ArtifactError::OperationAlignment { index: 0, bytes: OPERATION_BYTES },
        ),
{
    let header = header_of(image);
    assert(is_pow2(4)) by {
        reveal_with_fuel(is_pow2, 4);
    }
    assert(!kind_before(image, header, 0, OPERATION_SECTION));
    if operations % 16 == 0 {
        assert(record_fault(image, header, 0) is None);
        assert(!kind_before(image, header, 1, PROVENANCE_SECTION));
        assert((96 + operations) % 4 == 0);
        assert(record_fault(image, header, 1) is None);
        assert forall|i: int| 0 <= i < header.section_count implies #[trigger] record_fault(
            image,
            header,
            i,
        ) is None by {
            assert(i == 0 || i == 1);
        }
    }
}

/// What the parser makes of a built artifact.
proof fn image_faults(operations: Seq<u8>, provenance: Seq<u8>)
    requires
        96 + operations.len() + provenance.len() <= u64::MAX,
    ensures
        ({
            let image = artifact_image(operations, provenance);
            &&& operations.len() % 16 == 0 ==> valid(image)
            &&& operations.len() % 16 != 0 ==> record_fault(image, header_of(image), 0) == Some(
                ArtifactError::OperationAlignment { index: 0, bytes: OPERATION_BYTES },
            )
        }),
{
    image_reads_back(operations, provenance);
    two_sections_faults(
        artifact_image(operations, provenance),
        operations.len() as int,
        provenance.len() as int,
    );
}

/// Builds an artifact from operation records and a provenance payload. The
/// bytes are validated before they are handed out.
pub fn create_artifact(operations: &[u8], provenance: &[u8]) -> (result: Result<
    Vec<u8>,
    ArtifactError,
>)
    requires
        96 + operations@.len() + provenance@.len() <= usize::MAX,
    ensures
        operations@.len() % 16 == 0 ==> (result matches Ok(bytes) && bytes@ == artifact_image(
            operations@,
            provenance@,
        ) && valid(bytes@)),
        operations@.len() % 16 != 0 ==> result == Err::<Vec<u8>, _>(
            ArtifactError::OperationAlignment { index: 0, bytes: OPERATION_BYTES },
        ),
{
    let provenance_offset: usize = 96 + operations.len();
    let artifact_bytes: usize = provenance_offset + provenance.len();
    let mut header: Vec<u8> = Vec::new();
    let magic: [u8; 8] = MAGIC;
    push_slice(&mut header, &magic);
    push_u16(&mut header, FORMAT_VERSION);
    push_u16(&mut header, 0);
    push_u32(&mut header, 2);
    push_u64(&mut header, 32);
    push_u64(&mut header, artifact_bytes as u64);
    assert(header@ =~= header_image(artifact_bytes as int));
    let mut bytes: Vec<u8> = header;
    push_record(&mut bytes, OPERATION_SECTION, 96, operations.len() as u64);
    push_record(
        &mut bytes,
        PROVENANCE_SECTION,
        provenance_offset as u64,
        provenance.len() as u64,
    );
    push_slice(&mut bytes, operations);
    push_slice(&mut bytes, provenance);
    assert(bytes@ == artifact_image(operations@, provenance@));
    proof {
        image_faults(operations@, provenance@);
        image_reads_back(operations@, provenance@);
    }
    match Artifact::parse(bytes.as_slice()) {
        Ok(_) => {},
        Err(error) => {
            return Err(error);
        },
    }
    Ok(bytes)
}

/// Appends a table record.
fn push_record(bytes: &mut Vec<u8>, kind: u32, offset: u64, length: u64)
    ensures
        final(bytes)@ == old(bytes)@ + record_image(kind, offset as int, length as int),
{
    let mut record: Vec<u8> = Vec::new();
    push_u32(&mut record, kind);
    push_u32(&mut record, 0);
    push_u64(&mut record, offset);
    push_u64(&mut record, length);
    push_u64(&mut record, SECTION_ALIGNMENT);
    assert(record@ =~= record_image(kind, offset as int, length as int));
    push_slice(bytes, record.as_slice());
}

/// A created artifact gives back what it was created from: its operation
/// section holds the operations and its provenance section the provenance.
pub proof fn created_artifacts_read_back(operations: Seq<u8>, provenance: Seq<u8>)
    requires
        96 + operations.len() + provenance.len() <= u64::MAX,
        operations.len() % 16 == 0,
    ensures
        ({
            let image = artifact_image(operations, provenance);
            let header = header_of(image);
            &&& valid(image)
            &&& lookup_finds(image, header, OPERATION_SECTION, 0)
            &&& payload(image, header, 0) == operations
            &&& lookup_finds(image, header, PROVENANCE_SECTION, 1)
            &&& payload(image, header, 1) == provenance
        }),
{
    let image = artifact_image(operations, provenance);
    image_faults(operations, provenance);
    image_reads_back(operations, provenance);
    lookup_never_fails(image, OPERATION_SECTION);
    lookup_never_fails(image, PROVENANCE_SECTION);
}

/// The operation record of the fixture: a copy of four values.
pub open spec fn fixture_operations() -> Seq<u8> {
    u16_bytes(COPY_OPCODE) + u16_bytes(0) + u32_bytes(FIXTURE_OPERAND) + u32_bytes(4) + u32_bytes(4)
}

/// The operand field of the fixture's record: the single 1.
pub const FIXTURE_OPERAND: u32 = 0x3f80_0000;

/// The provenance of the fixture.
pub open spec fn fixture_provenance() -> Seq<u8> {
    encode_utf8(
        "{\"compiler\":\"native-machine\",\"layout\":\"bootstrap\",\"profile\":\"scalar\"}"@,
    )
}

/// Builds a small valid artifact.
pub fn create_fixture() -> (result: Result<Vec<u8>, ArtifactError>)
    ensures
        result matches Ok(bytes) && bytes@ == artifact_image(
            fixture_operations(),
            fixture_provenance(),
        ) && valid(bytes@),
{
    let mut operations: Vec<u8> = Vec::new();
    push_u16(&mut operations, COPY_OPCODE);
    push_u16(&mut operations, 0);
    push_u32(&mut operations, FIXTURE_OPERAND);
    push_u32(&mut operations, 4);
    push_u32(&mut operations, 4);
    assert(operations@ =~= fixture_operations());
    let provenance: &str =
        "{\"compiler\":\"native-machine\",\"layout\":\"bootstrap\",\"profile\":\"scalar\"}";
    proof {
        reveal_strlit(
            "{\"compiler\":\"native-machine\",\"layout\":\"bootstrap\",\"profile\":\"scalar\"}",
        );
        assert(provenance.is_ascii());
    }
    create_artifact(operations.as_slice(), provenance.as_bytes())
}

/// What an inspection prints of an artifact.
pub open spec fn report_text(
    path: Seq<char>,
    identity: Seq<char>,
    provenance: Seq<char>,
    header: ArtifactHeader,
) -> Seq<char> {
    "artifact: "@ + path + "\nidentity: "@ + identity + "\nprovenance: "@ + provenance
        + "\nversion: "@ + decimal(header.version as nat) + "\nsections: "@ + decimal(
        header.section_count as nat,
    ) + "\nbytes: "@ + decimal(header.artifact_bytes as nat)
}

/// What an inspection prints of an artifact with this identity and provenance.
pub fn report(path: &str, identity: &str, provenance: &str, header: &ArtifactHeader) -> (text:
    String)
    ensures
        text@ == report_text(path@, identity@, provenance@, *header),
{
    let mut text = String::from_str("artifact: ");
    text.append(path);
    text.append("\nidentity: ");
    text.append(identity);
    text.append("\nprovenance: ");
    text.append(provenance);
    text.append("\nversion: ");
    push_decimal(&mut text, header.version as u64);
    text.append("\nsections: ");
    push_decimal(&mut text, header.section_count as u64);
    text.append("\nbytes: ");
    push_decimal(&mut text, header.artifact_bytes);
    text
}

/// The provenance line of an inspection: the address of the embedded JSON, or
/// `none` without a provenance section.
pub open spec fn shown_provenance(artifact: Artifact, shown: Seq<char>) -> bool {
    ||| lookup_finds_none(artifact.content(), artifact.header, PROVENANCE_SECTION) && shown
        == "none"@
    ||| exists|i: int| #[trigger]
        lookup_finds(artifact.content(), artifact.header, PROVENANCE_SECTION, i) && json_address(
            payload(artifact.content(), artifact.header, i),
        ) == Ok::<_, Seq<char>>(shown)
}

/// Reports on an artifact.
pub fn inspect(path: &str, artifact: &Artifact) -> (result: Result<String, ArtifactError>)
    requires
        artifact.well_formed(),
    ensures
        match result {
            Ok(text) => exists|shown: Seq<char>| #[trigger]
                shown_provenance(*artifact, shown) && text@ == report_text(
                    path@,
                    identity_text(sha256_digest(artifact.content())),
                    shown,
                    artifact.header,
                ),
            Err(ArtifactError::Identity(failure)) => exists|i: int| #[trigger]
                lookup_finds(artifact.content(), artifact.header, PROVENANCE_SECTION, i)
                    && json_address(payload(artifact.content(), artifact.header, i)) == Err::<
                    Seq<char>,
                    _,
                >(failure@),
            Err(_) => false,
        },
{
    let identity: String = match artifact.identity() {
        Ok(identity) => identity,
        Err(error) => return Err(error),
    };
    let shown: String = match artifact.provenance_identity() {
        Ok(Some(label)) => label,
        Ok(None) => String::from_str("none"),
        Err(error) => return Err(error),
    };
    assert(shown_provenance(*artifact, shown@));
    Ok(report(path, identity.as_str(), shown.as_str(), &artifact.header))
}

} // verus!
