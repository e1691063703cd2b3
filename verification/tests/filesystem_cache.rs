use random_image_server::cache::{CacheKey, CacheValue, FileSystemCache, ReadBack, SourceUrl};

// The file-system cache keeps the bookkeeping; the bytes written to each file are kept
// here in a list of (path, bytes), standing for the directory.
struct Disk {
    files: Vec<(String, Vec<u8>)>,
}

impl Disk {
    fn new() -> Self {
        Disk { files: Vec::new() }
    }

    fn write(&mut self, path: &str, data: &[u8]) {
        self.files.retain(|(p, _)| p != path);
        self.files.push((path.to_string(), data.to_vec()));
    }

    fn read(&self, path: &str) -> Option<Vec<u8>> {
        self.files.iter().find(|(p, _)| p == path).map(|(_, d)| d.clone())
    }

    fn delete(&mut self, path: &str) {
        self.files.retain(|(p, _)| p != path);
    }
}

fn set(cache: &mut FileSystemCache, disk: &mut Disk, key: CacheKey, image: CacheValue) {
    let path = cache.next_file_path();
    disk.write(&path, &image.data);
    if let Ok(Some(previous)) = cache.set(key, path, image, Ok(())) {
        disk.delete(&previous);
    }
}

fn get(cache: &FileSystemCache, disk: &mut Disk, key: &CacheKey) -> Option<CacheValue> {
    let entry = cache.lookup(key)?;
    let data = disk.read(&entry.path)?;
    match entry.validate(data) {
        ReadBack::Fresh(value) => Some(value),
        ReadBack::Stale(path) => {
            disk.delete(&path);
            None
        }
    }
}

fn path_key(path: &str) -> CacheKey {
    CacheKey::ImagePath(String::from(path))
}

fn jpeg(data: Vec<u8>) -> CacheValue {
    CacheValue {
        data,
        content_type: "image/jpeg".to_string(),
    }
}

#[test]
fn filesystem_cache_test_new_cache() {
    let cache = FileSystemCache::new("/tmp/cache-dir".to_string());
    assert_eq!(cache.size(), 0);
    assert!(cache.is_empty());
    assert!(cache.keys().is_empty());
}

#[test]
fn filesystem_cache_test_set_and_get() {
    let mut cache = FileSystemCache::new("/tmp/cache-dir".to_string());
    let mut disk = Disk::new();
    let key = path_key("/test/image.jpg");
    let value = jpeg(vec![1, 2, 3, 4]);

    set(&mut cache, &mut disk, key.clone(), value.clone());
    assert_eq!(cache.size(), 1);
    assert!(!cache.is_empty());
    assert_eq!(get(&cache, &mut disk, &key), Some(value));
}

#[test]
fn filesystem_cache_test_get_nonexistent() {
    let cache = FileSystemCache::new("/tmp/cache-dir".to_string());
    let mut disk = Disk::new();
    let key = path_key("/nonexistent.jpg");
    assert_eq!(get(&cache, &mut disk, &key), None);
}

#[test]
fn filesystem_cache_test_remove() {
    let mut cache = FileSystemCache::new("/tmp/cache-dir".to_string());
    let mut disk = Disk::new();
    let key = path_key("/test/image.jpg");
    let value = jpeg(vec![1, 2, 3, 4]);

    set(&mut cache, &mut disk, key.clone(), value.clone());
    assert_eq!(cache.size(), 1);

    let entry = cache.forget(&key).unwrap();
    let data = disk.read(&entry.path);
    disk.delete(&entry.path);
    assert_eq!(entry.removed(data, true), Some(value));
    assert_eq!(cache.size(), 0);
    assert!(!cache.keys().contains(&key));
    assert_eq!(get(&cache, &mut disk, &key), None);
    assert!(disk.files.is_empty());
}

#[test]
fn filesystem_cache_test_get_random_empty_cache() {
    let cache = FileSystemCache::new("/tmp/cache-dir".to_string());
    assert_eq!(cache.pick(None), None);
}

#[test]
fn filesystem_cache_test_get_random_single_item() {
    let mut cache = FileSystemCache::new("/tmp/cache-dir".to_string());
    let mut disk = Disk::new();
    let key = path_key("/test/image.jpg");
    let value = jpeg(vec![1, 2, 3, 4]);

    set(&mut cache, &mut disk, key, value.clone());
    let picked = cache.pick(None).unwrap().clone();
    assert_eq!(get(&cache, &mut disk, &picked), Some(value));
}

#[test]
fn filesystem_cache_test_get_random_by_extension() {
    let mut cache = FileSystemCache::new("/tmp/cache-dir".to_string());
    let mut disk = Disk::new();
    let jpg_key = path_key("/test/image.jpg");
    let pdf_key = path_key("/test/document.pdf");
    let jpg_value = jpeg(vec![1, 2, 3, 4]);
    let pdf_value = CacheValue {
        data: b"%PDF-1.7\n".to_vec(),
        content_type: "application/pdf".to_string(),
    };

    set(&mut cache, &mut disk, jpg_key, jpg_value);
    set(&mut cache, &mut disk, pdf_key, pdf_value.clone());

    let picked = cache.pick(Some("pdf")).unwrap().clone();
    assert_eq!(get(&cache, &mut disk, &picked), Some(pdf_value));
    assert_eq!(cache.pick(Some(".txt")), None);
}

#[test]
fn filesystem_cache_test_clear() {
    let mut cache = FileSystemCache::new("/tmp/cache-dir".to_string());
    let mut disk = Disk::new();
    let key = path_key("/test/image.jpg");
    let value = jpeg(vec![1, 2, 3, 4]);

    set(&mut cache, &mut disk, key, value);
    assert_eq!(cache.size(), 1);

    cache.clear();
    assert_eq!(cache.size(), 0);
    assert!(cache.is_empty());
}

#[test]
fn filesystem_cache_test_keys() {
    let mut cache = FileSystemCache::new("/tmp/cache-dir".to_string());
    let mut disk = Disk::new();
    let k1 = path_key("/test/image1.jpg");
    let k2 = CacheKey::ImageUrl(SourceUrl::parse("https://example.com/image.jpg").unwrap());
    let value = jpeg(vec![1, 2, 3, 4]);

    set(&mut cache, &mut disk, k1.clone(), value.clone());
    set(&mut cache, &mut disk, k2.clone(), value);

    let keys = cache.keys();
    assert_eq!(keys.len(), 2);
    assert!(keys.contains(&k1));
    assert!(keys.contains(&k2));
}

// ensure that if a file is modified after being cached, it will be invalidated
#[test]
fn test_hash_validation() {
    let mut cache = FileSystemCache::new("/tmp/cache-dir".to_string());
    let mut disk = Disk::new();
    let key = path_key("/test/image.jpg");
    let value = jpeg(vec![1, 2, 3, 4]);

    set(&mut cache, &mut disk, key.clone(), value);

    // Corrupt the file to test hash validation
    let path = cache.lookup(&key).unwrap().path.clone();
    disk.write(&path, &[9, 9, 9, 9]);
    // Get should return None due to hash mismatch
    assert_eq!(get(&cache, &mut disk, &key), None);
    // and the cache file should be deleted
    assert!(disk.read(&path).is_none());
}

// A stale file is handed back for deletion under its own path.
#[test]
fn test_validate_stale_names_file() {
    let mut cache = FileSystemCache::new("/tmp/cache-dir".to_string());
    let key = path_key("/a.jpg");
    cache.record(key.clone(), "/tmp/cache-dir/a.cache".to_string(), jpeg(vec![1, 2]));
    let entry = cache.lookup(&key).unwrap();
    assert_eq!(
        entry.validate(vec![1, 2]),
        ReadBack::Fresh(jpeg(vec![1, 2]))
    );
    assert_eq!(
        entry.validate(vec![2, 1]),
        ReadBack::Stale("/tmp/cache-dir/a.cache".to_string())
    );
}

// The recorded digest is the lower-case hexadecimal MD5 of the bytes written.
#[test]
fn test_recorded_hash_is_md5() {
    let mut cache = FileSystemCache::new("/tmp/cache-dir".to_string());
    let key = path_key("/empty.jpg");
    cache.record(key.clone(), "/tmp/cache-dir/x.cache".to_string(), jpeg(Vec::new()));
    let entry = cache.lookup(&key).unwrap();
    assert_eq!(entry.hash, "d41d8cd98f00b204e9800998ecf8427e");
    assert_eq!(entry.path, "/tmp/cache-dir/x.cache");
    let mut other = FileSystemCache::new("/tmp/cache-dir".to_string());
    other.record(key.clone(), "/p".to_string(), jpeg(b"abc".to_vec()));
    assert_eq!(other.lookup(&key).unwrap().hash, "900150983cd24fb0d6963f7d28e17f72");
}

// Storing a key again gives back the old file, for the caller to delete.
#[test]
fn test_record_returns_replaced_file() {
    let mut cache = FileSystemCache::new("/tmp/cache-dir".to_string());
    let key = path_key("/a.jpg");
    assert_eq!(cache.record(key.clone(), "/tmp/cache-dir/1.cache".to_string(), jpeg(vec![1])), None);
    assert_eq!(
        cache.record(key.clone(), "/tmp/cache-dir/2.cache".to_string(), jpeg(vec![2])),
        Some("/tmp/cache-dir/1.cache".to_string())
    );
    assert_eq!(cache.size(), 1);
    assert_eq!(cache.lookup(&key).unwrap().path, "/tmp/cache-dir/2.cache");
}

// Fresh file paths lie in the cache directory and end with ".cache".
#[test]
fn test_next_file_path() {
    let cache = FileSystemCache::new("/tmp/cache-dir".to_string());
    let first = cache.next_file_path();
    let second = cache.next_file_path();
    assert!(first.starts_with("/tmp/cache-dir/"));
    assert!(first.ends_with(".cache"));
    assert_eq!(first.len(), "/tmp/cache-dir/".len() + 42);
    let id = &first["/tmp/cache-dir/".len()..first.len() - ".cache".len()];
    assert_eq!(id.len(), 36);
    assert!(id.chars().all(|c| c.is_ascii_digit() || ('a'..='f').contains(&c) || c == '-'));
    assert_ne!(first, second);
    let slashed = FileSystemCache::new("/tmp/dir/".to_string());
    let p = slashed.next_file_path();
    assert!(p.starts_with("/tmp/dir/") && !p.starts_with("/tmp/dir//"));
    assert_eq!(slashed.dir(), "/tmp/dir/");
}

// The value of a removed file is the bytes read before it was deleted, with the content
// type it was stored with; nothing when reading or deleting failed.
#[test]
fn test_removed_value() {
    let mut cache = FileSystemCache::new("/tmp/cache-dir".to_string());
    let key = path_key("/a.jpg");
    cache.record(key.clone(), "/tmp/cache-dir/x.cache".to_string(), jpeg(vec![1]));
    let entry = cache.forget(&key).unwrap();
    assert_eq!(entry.removed(Some(vec![5, 6]), true), Some(jpeg(vec![5, 6])));
    assert_eq!(entry.removed(Some(vec![5, 6]), false), None);
    assert_eq!(entry.removed(None, true), None);
    assert_eq!(entry.removed(None, false), None);
    assert!(cache.forget(&key).is_none());
    assert_eq!(cache.size(), 0);
}

// A failed write leaves the cache as it was and hands the error on.
#[test]
fn test_set_failed_write_keeps_cache() {
    let mut cache = FileSystemCache::new("/tmp/cache-dir".to_string());
    let key = path_key("/a.jpg");
    let other = path_key("/b.png");
    assert_eq!(
        cache.set(key.clone(), "/tmp/cache-dir/1.cache".to_string(), jpeg(vec![1]), Ok(())),
        Ok(None)
    );
    assert_eq!(
        cache.set(key.clone(), "/tmp/cache-dir/2.cache".to_string(), jpeg(vec![2]), Err("disk full".to_string())),
        Err("disk full".to_string())
    );
    assert_eq!(
        cache.set(other.clone(), "/tmp/cache-dir/3.cache".to_string(), jpeg(vec![3]), Err("denied".to_string())),
        Err("denied".to_string())
    );
    assert_eq!(cache.size(), 1);
    assert_eq!(cache.keys(), &[key.clone()]);
    assert_eq!(cache.lookup(&key).unwrap().path, "/tmp/cache-dir/1.cache");
    assert!(cache.lookup(&other).is_none());
    assert_eq!(
        cache.set(key.clone(), "/tmp/cache-dir/4.cache".to_string(), jpeg(vec![4]), Ok(())),
        Ok(Some("/tmp/cache-dir/1.cache".to_string()))
    );
    assert_eq!(cache.lookup(&key).unwrap().path, "/tmp/cache-dir/4.cache");
    assert_eq!(cache.lookup(&key).unwrap().hash, "ec7f7e7bb43742ce868145f71d37b53c");
}

// The file path for an identifier is the identifier with ".cache", inside the directory.
#[test]
fn test_cache_file_path() {
    let cache = FileSystemCache::new("/tmp/cache-dir".to_string());
    assert_eq!(cache.cache_file_path("abc"), "/tmp/cache-dir/abc.cache");
    let slashed = FileSystemCache::new("/tmp/dir/".to_string());
    assert_eq!(slashed.cache_file_path("x-1"), "/tmp/dir/x-1.cache");
    let empty = FileSystemCache::new(String::new());
    assert_eq!(empty.cache_file_path("id"), "id.cache");
}

// The given digest decides whether the bytes are fresh.
#[test]
fn test_validate_digest() {
    let mut cache = FileSystemCache::new("/tmp/cache-dir".to_string());
    let key = path_key("/a.jpg");
    cache.record(key.clone(), "/tmp/cache-dir/a.cache".to_string(), jpeg(b"abc".to_vec()));
    let entry = cache.lookup(&key).unwrap();
    assert_eq!(
        entry.validate_digest(vec![9], "900150983cd24fb0d6963f7d28e17f72"),
        ReadBack::Fresh(jpeg(vec![9]))
    );
    assert_eq!(
        entry.validate_digest(b"abc".to_vec(), "900150983CD24FB0D6963F7D28E17F72"),
        ReadBack::Stale("/tmp/cache-dir/a.cache".to_string())
    );
}
