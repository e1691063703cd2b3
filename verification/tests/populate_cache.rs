use random_image_server::cache::{CacheBackend, CacheKey, InMemoryCache, SourceUrl};
use random_image_server::{
    has_allowed_extension, plan_source, read_file_from_path, ImageSource, PathKind, SourcePlan,
};

#[test]
fn test_image_server_populate_cache_no_sources() {
    let sources: Vec<ImageSource> = Vec::new();
    let mut cache = InMemoryCache::new();
    for source in &sources {
        assert_eq!(plan_source(source, PathKind::Other, ""), SourcePlan::SkipPath);
    }
    assert_eq!(cache.size(), 0);
    assert!(cache.clear().is_ok());
}

#[test]
fn test_image_server_populate_cache_with_file() {
    let source = ImageSource::Path("/tmp/dir/test.jpg".to_string());
    assert_eq!(
        plan_source(&source, PathKind::File, "/tmp/dir/test.jpg"),
        SourcePlan::LoadFile
    );
    let mut cache = InMemoryCache::new();
    let value = read_file_from_path("/tmp/dir/test.jpg", true, Ok(vec![0xFF, 0xD8, 0xFF])).unwrap();
    cache
        .set(CacheKey::ImagePath("/tmp/dir/test.jpg".to_string()), value)
        .unwrap();
    assert_eq!(cache.size(), 1);
}

#[test]
fn test_image_server_populate_cache_with_directory() {
    let source = ImageSource::Path("/tmp/dir".to_string());
    assert_eq!(
        plan_source(&source, PathKind::Directory, "/tmp/dir"),
        SourcePlan::ScanDirectory
    );
    let entries = [
        ("/tmp/dir/test1.jpg", vec![0xFF, 0xD8, 0xFF]),
        ("/tmp/dir/test2.png", vec![0x89, 0x50, 0x4E, 0x47]),
        ("/tmp/dir/document.pdf", b"%PDF-1.7\n".to_vec()),
        ("/tmp/dir/readme.txt", b"not an image".to_vec()),
    ];
    let mut cache = InMemoryCache::new();
    for (path, data) in entries {
        if has_allowed_extension(path) {
            let value = read_file_from_path(path, true, Ok(data)).unwrap();
            cache.set(CacheKey::ImagePath(path.to_string()), value).unwrap();
        }
    }
    // Should only load supported files, not text files
    assert_eq!(cache.size(), 3);
}

#[test]
fn test_image_server_populate_cache_invalid_file() {
    let source = ImageSource::Path("/tmp/dir/test.txt".to_string());
    assert_eq!(
        plan_source(&source, PathKind::File, "/tmp/dir/test.txt"),
        SourcePlan::SkipExtension
    );
}

#[test]
fn test_plan_url_and_other_sources() {
    let url = ImageSource::Url(SourceUrl::parse("https://example.com/a.jpg").unwrap());
    assert_eq!(plan_source(&url, PathKind::Other, ""), SourcePlan::Fetch);
    let odd = ImageSource::Path("/dev/null".to_string());
    assert_eq!(plan_source(&odd, PathKind::Other, "/dev/null"), SourcePlan::SkipPath);
    assert!(has_allowed_extension("/x/y/Z.WEBP"));
    assert!(!has_allowed_extension("/x/y/.jpg"));
    assert!(!has_allowed_extension("/x/y/jpg"));
}
