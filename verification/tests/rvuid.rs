use psitool::error::PsiError;
use psitool::rvuid::Rvuid;

const NS_BYTES: [u8; 16] = [82, 86, 0, 0, 0, 0, 0, 0, 0, 0, 0, 0, 0, 0, 0, 0];

#[test]
fn test_uuid_from_bytes() {
    let empty: [u8; 0] = [];
    let empty2: [u8; 0] = [];
    let oneval: [u8; 1] = [99];
    let oneval2: [u8; 1] = [99];
    let ns = uuid::Uuid::from_bytes(NS_BYTES);
    assert_eq!(
        Rvuid::from_bytes(&empty).bytes().as_slice(),
        uuid::Uuid::new_v5(&ns, &empty2).as_bytes()
    );
    assert_eq!(
        Rvuid::from_bytes(&oneval).bytes().as_slice(),
        uuid::Uuid::new_v5(&ns, &oneval2).as_bytes()
    );
}

#[test]
fn test_rvuid_deserialize_from_yaml() {
    let yaml = r#"
id: "R-2DTH-GZW5-W9FMX29F6HJ52Q8N9C"
"#;

    let doc: serde_yaml::Value = serde_yaml::from_str(yaml).expect("failed to deserialize");
    let text = doc
        .get("id")
        .and_then(|v| v.as_str())
        .expect("failed to deserialize");
    let id = Rvuid::decode(text).expect("failed to deserialize");
    assert_eq!(id.display(), "R-2DTH-GZW5-W9FMX29F6HJ52Q8N9C");
}

#[test]
fn test_rvuid_partial_eq() {
    let r1 = Rvuid::decode("R-2DTH-GZW5-W9FMX29F6HJ52Q8N9C").unwrap();
    let r2 = Rvuid::decode("R-2DTH-GZW5-W9FMX29F6HJ52Q8N9C").unwrap();
    let r3 = Rvuid::decode("R-2DTH-GZW5").unwrap();
    let r_close_but_not = Rvuid::decode("R-2DTH-GZW0").unwrap();
    let r5 = Rvuid::decode("R-2DTH-GZW5-123400000000000000").unwrap();
    let r6 = Rvuid::decode("R-2DTH-GZW5-567800000000000000").unwrap();
    // These are equal.
    assert_eq!(r1, r2);
    assert_eq!(r1, r3);
    assert_eq!(r2, r3);
    assert_eq!(r3, r5);
    assert_eq!(r3, r6);
    // These are NOT equal.
    assert_ne!(r1, r_close_but_not);
    assert_ne!(r2, r_close_but_not);
    assert_ne!(r3, r_close_but_not);
    assert_ne!(r1, r5);
    assert_ne!(r2, r5);
    assert_ne!(r5, r6);
}

#[test]
fn derive_is_deterministic() {
    let a = Rvuid::from_bytes(b"some stimulus bytes");
    let b = Rvuid::from_bytes(b"some stimulus bytes");
    assert_eq!(a.bytes(), b.bytes());
    assert_eq!(a.display(), b.display());
    assert_eq!(a, b);
}

#[test]
fn derive_foobar_pinned_display() {
    let id = Rvuid::from_bytes(b"foobar");
    assert_eq!(id.display(), "R-HZMH-0W6C-PDCY142E5BEYNC5GGW");
    assert!(!id.is_partial());
}

#[test]
fn decode_of_encode_is_identity() {
    let id = Rvuid::from_bytes(b"round trip me");
    let back = Rvuid::decode(id.display().as_str()).unwrap();
    assert!(!back.is_partial());
    assert_eq!(back.bytes(), id.bytes());
    assert_eq!(back, id);
    assert_eq!(back.display(), id.display());
}

#[test]
fn decode_partial_form() {
    let p = Rvuid::decode("R-2DTH-GZW5").unwrap();
    assert!(p.is_partial());
    assert_eq!(p.display(), "R-2DTH-GZW5");
    assert_eq!(p.prefix40(), 83568918405);
    // The 88 bits past the prefix are zero-filled.
    assert_eq!(&p.bytes()[5..], &[0u8; 11]);
}

#[test]
fn decode_rejects_bad_text() {
    // No marker.
    assert_eq!(Rvuid::decode("2DTH-GZW5").unwrap_err(), PsiError::FormatError);
    // Symbols outside the alphabet: I, L, O and U are excluded.
    assert_eq!(Rvuid::decode("R-2DTH-GZWI").unwrap_err(), PsiError::FormatError);
    // Lower case is not in the alphabet.
    assert_eq!(Rvuid::decode("r-2dth-gzw5").unwrap_err(), PsiError::FormatError);
    // Neither 26 nor 8 symbols.
    assert_eq!(Rvuid::decode("R-2DTH").unwrap_err(), PsiError::FormatError);
    assert_eq!(
        Rvuid::decode("R-2DTH-GZW5-W9FMX29F6HJ52Q8N9").unwrap_err(),
        PsiError::FormatError
    );
    // 26 symbols whose two trailing padding bits are not zero.
    assert_eq!(
        Rvuid::decode("R-2DTH-GZW5-W9FMX29F6HJ52Q8N91").unwrap_err(),
        PsiError::FormatError
    );
    // Empty and marker-only text.
    assert_eq!(Rvuid::decode("").unwrap_err(), PsiError::FormatError);
    assert_eq!(Rvuid::decode("R-").unwrap_err(), PsiError::FormatError);
}

#[test]
fn decode_ignores_stray_hyphens() {
    let a = Rvuid::decode("R-2DTH-GZW5-W9FMX29F6HJ52Q8N9C").unwrap();
    let b = Rvuid::decode("R-2DTHGZW5W9FMX29F6HJ52Q8N9C").unwrap();
    let c = Rvuid::decode("R-2-D-T-H-G-Z-W-5-W9FMX29F6HJ52Q8N9C").unwrap();
    assert_eq!(a.bytes(), b.bytes());
    assert_eq!(a.bytes(), c.bytes());
}

#[test]
fn decode_strips_repeated_markers() {
    let once = Rvuid::decode("R-2DTH-GZW5").unwrap();
    let twice = Rvuid::decode("R-R-2DTH-GZW5").unwrap();
    assert_eq!(once.bytes(), twice.bytes());
    assert!(twice.is_partial());
}

#[test]
fn error_descriptions() {
    assert_eq!(PsiError::IoError.describe(), "unreadable or missing file or directory");
    assert_eq!(PsiError::FormatError.describe(), "malformed input");
    assert_eq!(PsiError::EmptyPoolError.describe(), "no eligible targets in any pool");
    assert_eq!(PsiError::NotFoundError.describe(), "no such pool");
    assert_eq!(PsiError::InvariantViolation.describe(), "operation violates an invariant");
}

#[test]
fn hash_bytes_full_and_partial() {
    let full = Rvuid::from_bytes(b"hashable");
    assert_eq!(full.hash_bytes().unwrap(), full.bytes());
    let partial = Rvuid::decode("R-2DTH-GZW5").unwrap();
    assert_eq!(partial.hash_bytes().unwrap_err(), PsiError::InvariantViolation);
}

#[test]
fn new_partial_zero_fills_tail() {
    let full = Rvuid::from_bytes(b"truncate me");
    let truncated = Rvuid::new(full.bytes().clone(), true);
    assert!(truncated.is_partial());
    assert_eq!(&truncated.bytes()[..5], &full.bytes()[..5]);
    assert_eq!(&truncated.bytes()[5..], &[0u8; 11]);
    assert_eq!(truncated, full);
    let short = full.display().chars().take(11).collect::<String>();
    assert_eq!(truncated.display(), short);
}
