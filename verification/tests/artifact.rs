use native_machine::artifact::{
    check_size, identity_of_digest, provenance_of_outcome, read_u16, read_u32, read_u64, Artifact,
    ArtifactError, FORMAT_VERSION, HEADER_BYTES, MAGIC, PROVENANCE_SECTION, SECTION_BYTES,
};
use native_machine::ops::{OPERATION_BYTES, OPERATION_SECTION};
use native_machine::publish::{create_artifact, create_fixture, inspect, report};
use sha2::Digest;

fn fixture() -> Vec<u8> {
    let mut bytes = vec![0_u8; HEADER_BYTES + SECTION_BYTES + OPERATION_BYTES];
    let artifact_bytes = bytes.len() as u64;
    bytes[..8].copy_from_slice(&MAGIC);
    bytes[8..10].copy_from_slice(&FORMAT_VERSION.to_le_bytes());
    bytes[12..16].copy_from_slice(&1_u32.to_le_bytes());
    bytes[16..24].copy_from_slice(&(HEADER_BYTES as u64).to_le_bytes());
    bytes[24..32].copy_from_slice(&artifact_bytes.to_le_bytes());
    let table = HEADER_BYTES;
    bytes[table..table + 4].copy_from_slice(&OPERATION_SECTION.to_le_bytes());
    bytes[table + 8..table + 16]
        .copy_from_slice(&((HEADER_BYTES + SECTION_BYTES) as u64).to_le_bytes());
    bytes[table + 16..table + 24].copy_from_slice(&(OPERATION_BYTES as u64).to_le_bytes());
    bytes[table + 24..table + 32].copy_from_slice(&4_u64.to_le_bytes());
    bytes
}

#[test]
fn parses_borrowed_section() {
    let bytes = fixture();
    let artifact = Artifact::parse(&bytes).expect("fixture is valid");
    let section = artifact
        .section(OPERATION_SECTION)
        .expect("section lookup succeeds")
        .expect("section exists");
    assert_eq!(section.bytes.len(), OPERATION_BYTES);
}

#[test]
fn rejects_bad_magic() {
    let mut bytes = fixture();
    bytes[0] = b'X';
    assert!(matches!(Artifact::parse(&bytes), Err(ArtifactError::Magic)));
}

#[test]
fn rejects_declared_length_mismatch() {
    let mut bytes = fixture();
    bytes[24..32].copy_from_slice(&0_u64.to_le_bytes());
    assert!(matches!(
        Artifact::parse(&bytes),
        Err(ArtifactError::LengthMismatch { .. })
    ));
}

#[test]
fn rejects_section_table_overlap() {
    let mut bytes = fixture();
    let table = HEADER_BYTES;
    bytes[table + 8..table + 16].copy_from_slice(&(HEADER_BYTES as u64).to_le_bytes());
    assert!(matches!(
        Artifact::parse(&bytes),
        Err(ArtifactError::SectionTableOverlap { .. })
    ));
}

#[test]
fn rejects_partial_operation_record() {
    let mut bytes = fixture();
    let table = HEADER_BYTES;
    bytes[table + 16..table + 24].copy_from_slice(&15_u64.to_le_bytes());
    assert!(matches!(
        Artifact::parse(&bytes),
        Err(ArtifactError::OperationAlignment { .. })
    ));
}

fn two_sections(operations: &[u8], provenance: &[u8]) -> Vec<u8> {
    let operation_offset = HEADER_BYTES + (SECTION_BYTES * 2);
    let provenance_offset = operation_offset + operations.len();
    let mut bytes = vec![0_u8; provenance_offset + provenance.len()];
    let artifact_bytes = bytes.len() as u64;
    bytes[..8].copy_from_slice(&MAGIC);
    bytes[8..10].copy_from_slice(&FORMAT_VERSION.to_le_bytes());
    bytes[12..16].copy_from_slice(&2_u32.to_le_bytes());
    bytes[16..24].copy_from_slice(&(HEADER_BYTES as u64).to_le_bytes());
    bytes[24..32].copy_from_slice(&artifact_bytes.to_le_bytes());
    let operation = HEADER_BYTES;
    bytes[operation..operation + 4].copy_from_slice(&OPERATION_SECTION.to_le_bytes());
    bytes[operation + 8..operation + 16].copy_from_slice(&(operation_offset as u64).to_le_bytes());
    bytes[operation + 16..operation + 24]
        .copy_from_slice(&(operations.len() as u64).to_le_bytes());
    bytes[operation + 24..operation + 32].copy_from_slice(&4_u64.to_le_bytes());
    let provenance_record = HEADER_BYTES + SECTION_BYTES;
    bytes[provenance_record..provenance_record + 4]
        .copy_from_slice(&PROVENANCE_SECTION.to_le_bytes());
    bytes[provenance_record + 8..provenance_record + 16]
        .copy_from_slice(&(provenance_offset as u64).to_le_bytes());
    bytes[provenance_record + 16..provenance_record + 24]
        .copy_from_slice(&(provenance.len() as u64).to_le_bytes());
    bytes[provenance_record + 24..provenance_record + 32].copy_from_slice(&4_u64.to_le_bytes());
    bytes[operation_offset..operation_offset + operations.len()].copy_from_slice(operations);
    bytes[provenance_offset..].copy_from_slice(provenance);
    bytes
}

fn error_of(bytes: &[u8]) -> ArtifactError {
    match Artifact::parse(bytes) {
        Ok(_) => panic!("the artifact must be refused"),
        Err(error) => error,
    }
}

#[test]
fn accepts_operation_and_provenance_sections() {
    let provenance = br#"{"compiler":"test"}"#;
    let bytes = two_sections(&[0_u8; OPERATION_BYTES], provenance);
    let artifact = Artifact::parse(&bytes).expect("multi-section artifact is valid");
    assert!(artifact
        .provenance_identity()
        .expect("provenance parses")
        .is_some());
}

#[test]
fn every_header_fault_is_reported() {
    assert_eq!(
        error_of(&[0_u8; 31]),
        ArtifactError::TooSmall { actual: 31, required: 32 }
    );
    let mut bytes = fixture();
    bytes[8] = 2;
    assert_eq!(error_of(&bytes), ArtifactError::Version(2));
    let mut bytes = fixture();
    bytes[12..16].copy_from_slice(&65_537_u32.to_le_bytes());
    assert_eq!(error_of(&bytes), ArtifactError::TooManySections(65_537));
    let mut bytes = fixture();
    bytes[16..24].copy_from_slice(&31_u64.to_le_bytes());
    assert_eq!(error_of(&bytes), ArtifactError::SectionTableRange);
    let mut bytes = fixture();
    bytes[16..24].copy_from_slice(&u64::MAX.to_le_bytes());
    assert_eq!(error_of(&bytes), ArtifactError::Overflow);
}

#[test]
fn every_record_fault_is_reported() {
    let table = HEADER_BYTES;
    let mut bytes = fixture();
    bytes[table..table + 4].copy_from_slice(&7_u32.to_le_bytes());
    assert_eq!(error_of(&bytes), ArtifactError::UnknownSection(0, 7));
    let mut bytes = fixture();
    bytes[table + 24..table + 32].copy_from_slice(&3_u64.to_le_bytes());
    assert_eq!(error_of(&bytes), ArtifactError::Alignment(0, 3));
    let mut bytes = fixture();
    bytes[table + 24..table + 32].copy_from_slice(&0_u64.to_le_bytes());
    assert_eq!(error_of(&bytes), ArtifactError::Alignment(0, 0));
    let mut bytes = fixture();
    bytes[table + 16..table + 24].copy_from_slice(&32_u64.to_le_bytes());
    assert_eq!(error_of(&bytes), ArtifactError::SectionRange { index: 0 });
    let mut bytes = fixture();
    bytes[table + 16..table + 24].copy_from_slice(&u64::MAX.to_le_bytes());
    assert_eq!(error_of(&bytes), ArtifactError::Overflow);

    let second = HEADER_BYTES + SECTION_BYTES;
    let mut bytes = two_sections(&[0_u8; 16], b"{}");
    bytes[second..second + 4].copy_from_slice(&OPERATION_SECTION.to_le_bytes());
    assert_eq!(error_of(&bytes), ArtifactError::DuplicateSection { index: 1 });
    let mut bytes = two_sections(&[0_u8; 16], b"{}");
    bytes[second + 8..second + 16].copy_from_slice(&96_u64.to_le_bytes());
    assert_eq!(error_of(&bytes), ArtifactError::SectionOverlap { index: 1 });
}

#[test]
fn sections_are_found_or_absent() {
    let bytes = two_sections(&[5_u8; 16], b"{\"a\":1}");
    let artifact = Artifact::parse(&bytes).expect("artifact is valid");
    let operations = artifact
        .section(OPERATION_SECTION)
        .expect("lookup succeeds")
        .expect("section exists");
    assert_eq!(operations.bytes, &[5_u8; 16]);
    assert_eq!((operations.offset, operations.length, operations.alignment), (96, 16, 4));
    let provenance = artifact
        .section(PROVENANCE_SECTION)
        .expect("lookup succeeds")
        .expect("section exists");
    assert_eq!(provenance.bytes, b"{\"a\":1}");
    assert!(artifact.section(9).expect("lookup succeeds").is_none());
    let bytes = fixture();
    let artifact = Artifact::parse(&bytes).expect("fixture is valid");
    assert_eq!(artifact.provenance_identity(), Ok(None));
}

#[test]
fn the_identity_is_the_digest_of_every_byte() {
    let bytes = create_fixture().expect("fixture is valid");
    assert_eq!(bytes.len(), 181);
    let artifact = Artifact::parse(&bytes).expect("fixture is valid");
    assert_eq!(
        artifact.identity().expect("identity computes"),
        "sha256:2cbda9a71e192a61e065862eee0b0d60bbf28abed880b761eaee887d4d972031"
    );
    assert_eq!(identity_of_digest(&[0, 255, 16]), "sha256:00ff10");
    let mut changed = bytes.clone();
    changed[180] = b' ';
    let changed = Artifact::parse(&changed).expect("still valid").identity();
    assert_ne!(changed, artifact.identity());
}

#[test]
fn equivalent_provenance_has_one_identity() {
    let first = two_sections(&[0_u8; 16], br#"{"compiler":"test","layout":"x"}"#);
    let second = two_sections(&[0_u8; 16], b"{ \"layout\" : \"x\",\n \"compiler\":\"test\" }");
    let third = two_sections(&[0_u8; 16], br#"{"compiler":"test","layout":"y"}"#);
    let first = Artifact::parse(&first).expect("valid").provenance_identity();
    let second = Artifact::parse(&second).expect("valid").provenance_identity();
    let third = Artifact::parse(&third).expect("valid").provenance_identity();
    let label = match &first {
        Ok(Some(label)) => label.clone(),
        _ => panic!("the provenance has an identity"),
    };
    assert!(label.starts_with("sha256:"));
    assert_eq!(label.len(), 71);
    let canonical = br#"{"compiler":"test","layout":"x"}"#;
    let digest = sha2::Sha256::digest(canonical);
    let digits: String = digest.iter().map(|byte| format!("{byte:02x}")).collect();
    assert_eq!(label, format!("sha256:{digits}"));
    assert_eq!(first, second);
    assert_ne!(first, third);
    let broken = two_sections(&[0_u8; 16], b"no json");
    assert_eq!(
        Artifact::parse(&broken).expect("valid").provenance_identity(),
        Err(ArtifactError::Identity("InvalidJson".to_string()))
    );
    assert_eq!(provenance_of_outcome(Ok("l".to_string())), Ok(Some("l".to_string())));
}

#[test]
fn built_artifacts_read_back() {
    let operations = [7_u8; 32];
    let bytes = create_artifact(&operations, b"{}").expect("artifact is built");
    assert_eq!(bytes, two_sections(&operations, b"{}"));
    let artifact = Artifact::parse(&bytes).expect("artifact is valid");
    assert_eq!(artifact.header.section_count, 2);
    assert_eq!(artifact.header.artifact_bytes, 130);
    let section = artifact.section(OPERATION_SECTION).expect("lookup").expect("exists");
    assert_eq!(section.bytes, &operations);
    let section = artifact.section(PROVENANCE_SECTION).expect("lookup").expect("exists");
    assert_eq!(section.bytes, b"{}");
    assert_eq!(
        create_artifact(&[0_u8; 15], b"{}"),
        Err(ArtifactError::OperationAlignment { index: 0, bytes: 16 })
    );
}

#[test]
fn inspection_shows_every_line() {
    let bytes = create_artifact(&[], b"{}").expect("artifact is built");
    let artifact = Artifact::parse(&bytes).expect("artifact is valid");
    assert_eq!(
        report("a.nm", "sha256:aa", "none", &artifact.header),
        "artifact: a.nm\nidentity: sha256:aa\nprovenance: none\nversion: 1\nsections: 2\nbytes: 98"
    );
    let text = inspect("a.nm", &artifact).expect("inspection succeeds");
    let provenance = artifact.provenance_identity().expect("parses").expect("is there");
    assert_eq!(
        text,
        report("a.nm", &artifact.identity().expect("computes"), &provenance, &artifact.header)
    );
    let single = fixture();
    let artifact = Artifact::parse(&single).expect("fixture is valid");
    assert!(inspect("b.nm", &artifact).expect("inspection succeeds").contains("\nprovenance: none\n"));
    let broken = create_artifact(&[], b"{").expect("artifact is built");
    let artifact = Artifact::parse(&broken).expect("artifact is valid");
    assert!(matches!(inspect("c.nm", &artifact), Err(ArtifactError::Identity(_))));
}

#[test]
fn artifact_sizes_are_limited() {
    assert_eq!(check_size(10, 10), Ok(()));
    assert_eq!(check_size(11, 10), Err(ArtifactError::TooLarge { actual: 11, limit: 10 }));
}

#[test]
fn fields_are_read_in_bounds() {
    let bytes = [1_u8, 2, 3, 4, 5, 6, 7, 8];
    assert_eq!(read_u16(&bytes, 6), Ok(0x0807));
    assert_eq!(read_u32(&bytes, 4), Ok(0x0807_0605));
    assert_eq!(read_u64(&bytes, 0), Ok(0x0807_0605_0403_0201));
    assert_eq!(read_u16(&bytes, 7), Err(ArtifactError::TooSmall { actual: 8, required: 9 }));
    assert_eq!(read_u32(&bytes, usize::MAX), Err(ArtifactError::Overflow));
}
