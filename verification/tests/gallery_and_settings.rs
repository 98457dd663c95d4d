use artxl::gallery::{entries, thumbnail_edge, GALLERY_LEN, GALLERY_MAX_DIM};
use artxl::pipeline::{timeout_secs, DEFAULT_TIMEOUT_SECS};

#[test]
fn gallery_lists_every_program_at_native_size() {
    let e = entries();
    assert_eq!(e.len(), 222);
    assert_eq!(e.len(), GALLERY_LEN);
    assert_eq!(e[0].name, "Sky and grass");
    assert_eq!(e[0].file, "00-sky-and-grass.jxlart");
    assert_eq!(e[221].name, "Surma extra 3");
    assert_eq!(e[221].file, "surma-003-surma-extra-3.jxlart");
    assert!(e.iter().all(|g| g.size == 0));
    assert!(e.iter().all(|g| g.file.ends_with(".jxlart")));
    assert!(e.iter().any(|g| g.name == "Étude nº19"));
    let mut files: Vec<&str> = e.iter().map(|g| g.file).collect();
    files.sort();
    files.dedup();
    assert_eq!(files.len(), 222);
}

#[test]
fn thumbnails_are_capped() {
    assert_eq!(GALLERY_MAX_DIM, 768);
    assert_eq!(thumbnail_edge(0), 768);
    assert_eq!(thumbnail_edge(100), 100);
    assert_eq!(thumbnail_edge(768), 768);
    assert_eq!(thumbnail_edge(4000), 768);
}

#[test]
fn timeout_setting() {
    assert_eq!(DEFAULT_TIMEOUT_SECS, 30);
    assert_eq!(timeout_secs(None), 30);
    assert_eq!(timeout_secs(Some("12")), 12);
    assert_eq!(timeout_secs(Some("+5")), 5);
    assert_eq!(timeout_secs(Some("abc")), 30);
    assert_eq!(timeout_secs(Some("")), 30);
    assert_eq!(timeout_secs(Some("-1")), 30);
    assert_eq!(timeout_secs(Some(" 5")), 30);
    assert_eq!(timeout_secs(Some("18446744073709551615")), u64::MAX);
    assert_eq!(timeout_secs(Some("18446744073709551616")), 30);
}
