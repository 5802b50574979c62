use psitool::rvuid::Rvuid;
use psitool::target::{
    exclusion_identifiers, CompletedTarget, Target, TargetType, YamlData,
};

fn sample_target(path: &str, content: &[u8]) -> Target {
    let rvuid = Rvuid::from_bytes(content);
    Target::assemble(path.to_string(), rvuid, None, None).unwrap()
}

#[test]
fn classify_by_extension() {
    assert_eq!(TargetType::parse("/pool/cat.jpg"), Some(TargetType::Jpeg));
    assert_eq!(TargetType::parse("/pool/cat.JPEG"), Some(TargetType::Jpeg));
    assert_eq!(TargetType::parse("/pool/map.svg"), Some(TargetType::Svg));
    assert_eq!(TargetType::parse("/pool/riddle.target"), Some(TargetType::Text));
    assert_eq!(TargetType::parse("/pool/riddle.TARGET"), Some(TargetType::Text));
    // Sidecars and everything else are not targets.
    assert_eq!(TargetType::parse("/pool/cat.jpg.yaml"), None);
    assert_eq!(TargetType::parse("/pool/cat.yml"), None);
    assert_eq!(TargetType::parse("/pool/readme.txt"), None);
    assert_eq!(TargetType::parse("/pool/no_extension"), None);
    assert_eq!(TargetType::parse("/pool/.hidden"), None);
    assert_eq!(TargetType::parse("/pool/trailing."), None);
    assert_eq!(TargetType::parse(""), None);
}

#[test]
fn assemble_refuses_non_targets() {
    let rvuid = Rvuid::from_bytes(b"bytes");
    let r = Target::assemble("/pool/notes.txt".to_string(), rvuid, None, None);
    assert_eq!(r.unwrap_err(), psitool::error::PsiError::NotFoundError);
}

#[test]
fn assemble_attaches_sidecar_fields() {
    let rvuid = Rvuid::from_bytes(b"picture bytes");
    let yaml = YamlData {
        query: "lighthouse at dusk".to_string(),
        frontloading: vec!["structure".to_string(), "coastal".to_string()],
        image_description: "a lighthouse".to_string(),
        datetime_original: "2021-05-01".to_string(),
        img_metadata: vec![],
        license: "CC0".to_string(),
        license_meta: vec![],
    };
    let t = Target::assemble(
        "/pool/lighthouse.jpg".to_string(),
        rvuid,
        Some("/pool/lighthouse.jpg.yaml".to_string()),
        Some(yaml),
    )
    .unwrap();
    assert_eq!(t.target_type, TargetType::Jpeg);
    assert_eq!(t.frontloading, vec!["structure".to_string(), "coastal".to_string()]);
    assert_eq!(t.meta_path.as_deref(), Some("/pool/lighthouse.jpg.yaml"));
    let meta = t.iter_meta();
    assert_eq!(meta[0], ("Query".to_string(), "lighthouse at dusk".to_string()));
    assert_eq!(meta[1], ("Description".to_string(), "a lighthouse".to_string()));
    assert_eq!(meta[2], ("Datetime".to_string(), "2021-05-01".to_string()));
    assert_eq!(meta[3], ("License".to_string(), "CC0".to_string()));
}

#[test]
fn assemble_without_sidecar_has_empty_meta() {
    let t = sample_target("/pool/plain.svg", b"svg bytes");
    assert_eq!(t.target_type, TargetType::Svg);
    assert!(t.frontloading.is_empty());
    assert!(t.meta.is_empty());
    assert!(t.meta_path.is_none());
    let meta = t.iter_meta();
    assert_eq!(meta[0], ("Query".to_string(), "".to_string()));
    assert_eq!(meta[3], ("License".to_string(), "".to_string()));
}

#[test]
fn excluded_target_never_listed() {
    let a = sample_target("/pool/a.jpg", b"content a");
    let b = sample_target("/pool/b.jpg", b"content b");
    let exclusion = vec![a.rvuid.clone()];
    let kept = Target::filter_excluded(vec![a, b], &exclusion);
    assert_eq!(kept.len(), 1);
    assert_eq!(kept[0].path, "/pool/b.jpg");
    // The same scan with reuse forced returns the excluded target too.
    let a2 = sample_target("/pool/a.jpg", b"content a");
    let b2 = sample_target("/pool/b.jpg", b"content b");
    let all = Target::filter_excluded(vec![a2, b2], &Vec::new());
    assert_eq!(all.len(), 2);
    assert_eq!(all[0].path, "/pool/a.jpg");
}

#[test]
fn partial_prefix_excludes_full_identifier() {
    let a = sample_target("/pool/a.jpg", b"content a");
    let truncation = Rvuid::new(a.rvuid.bytes().clone(), true);
    let kept = Target::filter_excluded(vec![a], &vec![truncation]);
    assert!(kept.is_empty());
}

#[test]
fn count_matches_filter() {
    let a = sample_target("/pool/a.jpg", b"content a");
    let b = sample_target("/pool/b.jpg", b"content b");
    let c = sample_target("/pool/c.target", b"content c");
    let exclusion = vec![b.rvuid.clone()];
    let n = Target::count_eligible(&vec![a, b, c], &exclusion);
    assert_eq!(n, 2);
}

#[test]
fn choose_random_empty_pool_fails() {
    let none: Vec<Target> = Vec::new();
    assert_eq!(
        Target::choose_random(&none).unwrap_err(),
        psitool::error::PsiError::EmptyPoolError
    );
    let only = vec![sample_target("/pool/a.jpg", b"content a")];
    let chosen = Target::choose_random(&only).unwrap();
    assert_eq!(chosen.path, "/pool/a.jpg");
}

#[test]
fn exclusion_identifiers_respects_reuse() {
    let a = sample_target("/pool/a.jpg", b"content a");
    let record = CompletedTarget::from(a);
    let ledger = vec![record];
    assert!(exclusion_identifiers(&ledger, true).is_empty());
    let ids = exclusion_identifiers(&ledger, false);
    assert_eq!(ids.len(), 1);
    assert_eq!(ids[0], ledger[0].rvuid);
}

#[test]
fn completed_target_from_target() {
    let t = sample_target("/pool/a.jpg", b"content a");
    let id = t.rvuid.clone();
    let record = CompletedTarget::from(t);
    assert_eq!(record.rvuid, id);
    assert_eq!(record.path, "/pool/a.jpg");
    assert!(record.hit.is_none());
    assert!(record.score.is_none());
    assert!(record.notes.is_none());
}

#[test]
fn out_of_range_score_is_unset() {
    let t = sample_target("/pool/a.jpg", b"content a");
    let mut record = CompletedTarget::from(t);
    record.apply_results("y", "150", "saw water");
    assert_eq!(record.hit, Some(true));
    assert_eq!(record.score, None);
    assert_eq!(record.notes.as_deref(), Some("saw water"));
}

#[test]
fn score_interpretation_cases() {
    let t = sample_target("/pool/a.jpg", b"content a");
    let mut record = CompletedTarget::from(t);
    record.apply_results("no", "100", "");
    assert_eq!(record.hit, Some(false));
    assert_eq!(record.score, Some(100));
    assert_eq!(record.notes, None);
    record.apply_results("YES", "0", "x");
    assert_eq!(record.hit, Some(true));
    assert_eq!(record.score, Some(0));
    record.apply_results("maybe", "101", "x");
    assert_eq!(record.hit, None);
    assert_eq!(record.score, None);
    record.apply_results("N", "+42", "x");
    assert_eq!(record.hit, Some(false));
    assert_eq!(record.score, Some(42));
    record.apply_results("n", "4.2", "x");
    assert_eq!(record.score, None);
    record.apply_results("n", "-3", "x");
    assert_eq!(record.score, None);
    record.apply_results("n", "", "x");
    assert_eq!(record.score, None);
    record.apply_results("n", "00099", "x");
    assert_eq!(record.score, Some(99));
    record.apply_results("n", "99999999999999999999", "x");
    assert_eq!(record.score, None);
}
