use random_image_server::cache::SourceUrl;
use random_image_server::{
    accept_response, check_file_path, check_url_source, file_value, is_served_content_type,
    read_file_from_path, read_image_from_path, ReadError,
};

#[test]
fn test_read_image_from_path_success() {
    let test_data = vec![0xFF, 0xD8, 0xFF]; // JPEG header
    let result = read_image_from_path("/tmp/dir/test.jpg", true, Ok(test_data.clone()));
    assert!(result.is_ok());

    let cache_value = result.unwrap();
    assert_eq!(cache_value.data, test_data);
    assert!(cache_value.content_type.contains("image/jpeg"));
}

#[test]
fn test_read_image_from_path_file_not_found() {
    let result = read_image_from_path("/nonexistent/image.jpg", false, Err("not found".to_string()));
    assert!(result.is_err());
    assert!(result.unwrap_err().message().contains("does not exist"));
}

#[test]
fn test_read_image_from_path_no_extension() {
    let result = read_image_from_path("/tmp/dir/test_no_ext", true, Ok(b"test data".to_vec()));
    assert!(result.is_err());
    assert!(result.unwrap_err().message().contains("no extension"));
}

#[test]
fn test_read_image_from_path_unsupported_extension() {
    let result = read_image_from_path("/tmp/dir/test.txt", true, Ok(b"test data".to_vec()));
    assert!(result.is_err());
    assert!(result
        .unwrap_err()
        .message()
        .contains("Unsupported file extension"));
}

#[test]
fn test_read_image_from_path_directory() {
    // a directory is not a regular file
    let result = read_image_from_path("/tmp/dir", false, Err("is a directory".to_string()));
    assert!(result.is_err());
    assert!(result.unwrap_err().message().contains("does not exist"));
}

#[test]
fn test_read_image_from_path_different_extensions() {
    let test_data = vec![1, 2, 3, 4];

    let result = read_image_from_path("/tmp/dir/test.jpg", true, Ok(test_data.clone()));
    assert!(result.is_ok());

    let result = read_image_from_path("/tmp/dir/test.jpeg", true, Ok(test_data.clone()));
    assert!(result.is_ok());

    let result = read_image_from_path("/tmp/dir/test.png", true, Ok(test_data.clone()));
    assert!(result.is_ok());

    let result = read_image_from_path("/tmp/dir/test.pdf", true, Ok(test_data.clone()));
    assert!(result.is_ok());
    assert_eq!(result.unwrap().content_type, "application/pdf");
}

// Every error a file read can end in, with its text.
#[test]
fn test_read_file_errors() {
    assert_eq!(
        read_file_from_path("/a/b.gif", true, Err("denied".to_string())),
        Err(ReadError::ReadFailed("denied".to_string()))
    );
    assert_eq!(
        read_file_from_path("/a/b.GIF", true, Ok(vec![1])).unwrap().content_type,
        "image/gif"
    );
    assert_eq!(
        read_file_from_path("/a/b.WebP", true, Ok(vec![1])).unwrap().content_type,
        "image/webp"
    );
    assert_eq!(
        ReadError::ReadFailed("denied".to_string()).message(),
        "Failed to read file: denied"
    );
    assert_eq!(
        file_value("/a/b.unknownext", Ok(vec![1])),
        Err(ReadError::UnknownContentType("/a/b.unknownext".to_string()))
    );
    assert_eq!(
        ReadError::UnknownContentType("/x".to_string()).message(),
        "Failed to determine content type for file: /x"
    );
    assert_eq!(
        check_file_path("/a/.hidden", true),
        Err(ReadError::NoExtension("/a/.hidden".to_string()))
    );
    assert_eq!(check_file_path("/a/b.jpeg", true), Ok(()));
    assert_eq!(
        ReadError::FileMissing("/x.jpg".to_string()).message(),
        "File does not exist: /x.jpg"
    );
    assert_eq!(
        ReadError::NoExtension("/x".to_string()).message(),
        "File has no extension: /x"
    );
    assert_eq!(
        ReadError::UnsupportedExtension("/x.txt".to_string()).message(),
        "Unsupported file extension: /x.txt"
    );
}

#[test]
fn test_url_source_checks() {
    let good = SourceUrl::parse("https://example.com/images/cat.PNG").unwrap();
    assert_eq!(check_url_source(&good), Ok(()));
    let bare = SourceUrl::parse("https://example.com/images/").unwrap();
    assert_eq!(
        check_url_source(&bare),
        Err(ReadError::UrlWithoutExtension("https://example.com/images/".to_string()))
    );
    let text = SourceUrl::parse("https://example.com/notes.txt").unwrap();
    assert_eq!(
        check_url_source(&text),
        Err(ReadError::UnsupportedUrlExtension("https://example.com/notes.txt".to_string()))
    );
    assert_eq!(
        ReadError::UrlWithoutExtension("u".to_string()).message(),
        "URL has no file extension: u"
    );
    assert_eq!(
        ReadError::UnsupportedUrlExtension("u".to_string()).message(),
        "Unsupported URL file extension: u"
    );
}

#[test]
fn test_accept_response() {
    assert_eq!(
        accept_response(200, "200 OK".to_string(), Some("image/png".to_string())),
        Ok("image/png".to_string())
    );
    assert_eq!(
        accept_response(204, "204 No Content".to_string(), None),
        Err(ReadError::MissingContentType)
    );
    assert_eq!(
        accept_response(404, "404 Not Found".to_string(), Some("text/html".to_string())),
        Err(ReadError::FetchStatus("404 Not Found".to_string()))
    );
    assert_eq!(
        accept_response(300, "300 Multiple Choices".to_string(), Some("x".to_string())),
        Err(ReadError::FetchStatus("300 Multiple Choices".to_string()))
    );
    assert_eq!(
        ReadError::FetchStatus("404 Not Found".to_string()).message(),
        "Failed to fetch image, status: 404 Not Found"
    );
    assert_eq!(
        ReadError::MissingContentType.message(),
        "Failed to get Content-Type header from response"
    );
    assert_eq!(
        ReadError::FetchFailed("timeout".to_string()).message(),
        "Failed to fetch image from URL: timeout"
    );
    assert_eq!(
        ReadError::BodyFailed("reset".to_string()).message(),
        "Failed to read image bytes from response: reset"
    );
}

#[test]
fn test_accept_response_refuses_unsupported_content_type() {
    assert_eq!(
        accept_response(200, "200 OK".to_string(), Some("text/html".to_string())),
        Err(ReadError::UnsupportedContentType("text/html".to_string()))
    );
    assert_eq!(
        accept_response(200, "200 OK".to_string(), Some("image/jpeg; q=1".to_string())),
        Err(ReadError::UnsupportedContentType("image/jpeg; q=1".to_string()))
    );
    assert_eq!(
        accept_response(201, "201 Created".to_string(), Some("application/pdf".to_string())),
        Ok("application/pdf".to_string())
    );
    assert_eq!(
        ReadError::UnsupportedContentType("text/html".to_string()).message(),
        "Unsupported content type: text/html"
    );
}

#[test]
fn test_served_content_types() {
    for t in ["image/jpeg", "image/png", "image/webp", "image/gif", "application/pdf"] {
        assert!(is_served_content_type(t), "{t}");
    }
    for t in ["image/jpg", "text/html", "IMAGE/PNG", "", "image/svg+xml"] {
        assert!(!is_served_content_type(t), "{t}");
    }
}
