use jsonld::mount::FsLoader;

fn loader() -> FsLoader {
    let mut loader = FsLoader::new();
    loader.mount("http://example.com/mount".to_string(), "/srv/data".to_string());
    loader
}

#[test]
fn filepath_resolves_inside_mount() {
    assert_eq!(loader().filepath("http://example.com/mount/a/b.json"), Some("/srv/data/a/b.json".to_string()));
}

#[test]
fn filepath_rejects_parent_segments() {
    assert_eq!(loader().filepath("http://example.com/mount/../../etc/secret"), None);
    assert_eq!(loader().filepath("http://example.com/mount/a/./b"), None);
}

#[test]
fn filepath_requires_prefix_boundary() {
    assert_eq!(loader().filepath("http://example.com/mounted/a"), None);
}

#[test]
fn filepath_of_the_mount_point_itself_is_the_directory() {
    assert_eq!(loader().filepath("http://example.com/mount"), Some("/srv/data".to_string()));
}

#[test]
fn filepath_skips_empty_segments() {
    assert_eq!(loader().filepath("http://example.com/mount//a///b"), Some("/srv/data/a/b".to_string()));
}

#[test]
fn filepath_without_mount_point_is_none() {
    assert_eq!(FsLoader::new().filepath("http://example.com/mount/a"), None);
}

#[test]
fn filepath_uses_the_first_matching_mount_point() {
    let mut loader = loader();
    loader.mount("http://example.com/".to_string(), "/other/".to_string());
    assert_eq!(loader.filepath("http://example.com/mount/x"), Some("/srv/data/x".to_string()));
    assert_eq!(loader.filepath("http://example.com/y"), Some("/other/y".to_string()));
}

#[test]
fn filepath_keeps_dots_inside_names() {
    assert_eq!(loader().filepath("http://example.com/mount/.../a.b"), Some("/srv/data/.../a.b".to_string()));
}
