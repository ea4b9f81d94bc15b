use photo_composer::files::file_stem_of;
use photo_composer::files::find_image_files;
use photo_composer::files::is_image_name;
use photo_composer::files::str_le;
use photo_composer::files::FileEntry;

fn entry(path: &str, name: &str, is_file: bool) -> FileEntry {
    FileEntry { path: path.to_string(), name: name.to_string(), is_file }
}

#[test]
fn enumeration_filters_and_sorts_case_sensitively() {
    let listing = vec![
        entry("/pics/b.png", "b.png", true),
        entry("/pics/A.JPG", "A.JPG", true),
        entry("/pics/c.txt", "c.txt", true),
        entry("/pics/a.bmp", "a.bmp", true),
    ];
    let found = find_image_files(listing);
    let paths: Vec<&str> = found.iter().map(|e| e.path.as_str()).collect();
    assert_eq!(paths, vec!["/pics/A.JPG", "/pics/a.bmp", "/pics/b.png"]);
}

#[test]
fn directories_are_not_descended_into() {
    let listing = vec![
        entry("/pics/sub.png", "sub.png", false),
        entry("/pics/z.gif", "z.gif", true),
    ];
    let found = find_image_files(listing);
    let paths: Vec<&str> = found.iter().map(|e| e.path.as_str()).collect();
    assert_eq!(paths, vec!["/pics/z.gif"]);
}

#[test]
fn extensions_match_without_regard_to_case() {
    assert!(is_image_name("x.jpg"));
    assert!(is_image_name("x.JPEG"));
    assert!(is_image_name("x.TiFf"));
    assert!(is_image_name("x.png"));
    assert!(is_image_name("x.bmp"));
    assert!(is_image_name("x.gif"));
    assert!(!is_image_name("x.txt"));
    assert!(!is_image_name("x.jpg.zip"));
    assert!(!is_image_name("noextension"));
    assert!(!is_image_name(".jpg"));
    assert!(!is_image_name("x."));
}

#[test]
fn stems_drop_only_the_last_extension() {
    assert_eq!(file_stem_of("photo.jpg"), "photo");
    assert_eq!(file_stem_of("a.b.c"), "a.b");
    assert_eq!(file_stem_of("noext"), "noext");
    assert_eq!(file_stem_of(".bashrc"), ".bashrc");
    assert_eq!(file_stem_of("trailing."), "trailing");
}

#[test]
fn path_order_is_by_code_point() {
    assert!(str_le("A", "a"));
    assert!(!str_le("a", "A"));
    assert!(str_le("abc", "abd"));
    assert!(str_le("ab", "abc"));
    assert!(!str_le("abc", "ab"));
    assert!(str_le("same", "same"));
}
