use eparser::media_type::{all_core_media_types, MediaType};

#[test]
fn test_all_core_media_types() {
    for media_type in all_core_media_types().iter() {
        assert!(media_type.is_core_media_type());
    }
}

#[test]
fn media_type_test_all_core_media_types() {
    let all = all_core_media_types();
    assert_eq!(all.len(), 22);
    all.iter().for_each(|media_type| {
        assert!(media_type.is_core_media_type());
    });
}

#[test]
fn foreign_media_type_is_not_core() {
    assert!(!MediaType::new("application/pdf").is_core_media_type());
    assert!(MediaType::new("image/png").is_core_media_type());
    assert!(MediaType::new("application/oebps-package+xml").is_oebps());
    assert!(!MediaType::new("image/png").is_oebps());
}
