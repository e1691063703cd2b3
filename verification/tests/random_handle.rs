use random_image_server::cache::{CacheBackend, CacheKey, CacheValue, InMemoryCache};
use random_image_server::{image_reply, requested_extension, ServeError};

#[test]
fn test_handle_random_image_empty_cache() {
    let cache = InMemoryCache::default();
    let result = image_reply(cache.get_random(), ServeError::NoImagesConfigured);
    assert!(result.is_err());
    assert_eq!(
        result.unwrap_err().message(),
        "Failed to retrieve a random image, perhaps no images are configured"
    );
}

#[test]
fn test_handle_random_image_with_cache() {
    let mut cache = InMemoryCache::default();
    let key = CacheKey::ImagePath("/test/image.jpg".to_string());
    let value = CacheValue {
        data: vec![1, 2, 3, 4],
        content_type: "image/jpeg".to_string(),
    };
    cache.set(key, value).unwrap();

    let result = image_reply(cache.get_random(), ServeError::NoImagesConfigured);
    assert!(result.is_ok());

    let response = result.unwrap();
    assert_eq!(response.status, 200);
}

#[test]
fn test_handle_random_file_by_extension_with_cache() {
    let mut cache = InMemoryCache::default();
    cache
        .set(
            CacheKey::ImagePath("/test/image.jpg".to_string()),
            CacheValue {
                data: vec![1, 2, 3, 4],
                content_type: "image/jpeg".to_string(),
            },
        )
        .unwrap();
    cache
        .set(
            CacheKey::ImagePath("/test/document.pdf".to_string()),
            CacheValue {
                data: b"%PDF-1.7\n".to_vec(),
                content_type: "application/pdf".to_string(),
            },
        )
        .unwrap();

    let extension = requested_extension("pdf").unwrap();
    let found = cache.get_random_by_extension(&extension);
    let result = image_reply(found, ServeError::NoFilesWithExtension(extension));
    assert!(result.is_ok());

    let response = result.unwrap();
    assert_eq!(response.status, 200);
    assert_eq!(response.content_type.as_deref(), Some("application/pdf"));
}

#[test]
fn test_handle_random_file_by_extension_missing_extension() {
    let mut cache = InMemoryCache::default();
    cache
        .set(
            CacheKey::ImagePath("/test/image.jpg".to_string()),
            CacheValue {
                data: vec![1, 2, 3, 4],
                content_type: "image/jpeg".to_string(),
            },
        )
        .unwrap();

    let extension = requested_extension("pdf").unwrap();
    let found = cache.get_random_by_extension(&extension);
    let result = image_reply(found, ServeError::NoFilesWithExtension(extension));
    assert!(result.is_err());
    assert_eq!(
        result.unwrap_err().message(),
        "No configured files with extension: pdf"
    );
}
