use photo_composer::archive::create_archive;
use photo_composer::archive::ArchiveBuilder;
use photo_composer::archive::ArchiveMember;

fn member(name: &str, data: &[u8]) -> ArchiveMember {
    ArchiveMember { name: name.to_string(), data: data.to_vec() }
}

#[test]
fn archive_holds_each_member_under_its_name() {
    let members = vec![member("one_processed.jpg", b"alpha"), member("two_processed.jpg", b"beta")];
    let bytes = create_archive(&members).unwrap();
    let mut zip = zip::ZipArchive::new(std::io::Cursor::new(bytes)).unwrap();
    assert_eq!(zip.len(), 2);
    let names: Vec<String> = (0..zip.len())
        .map(|i| zip.by_index(i).unwrap().name().to_string())
        .collect();
    assert_eq!(names, vec!["one_processed.jpg", "two_processed.jpg"]);
    let mut contents = Vec::new();
    std::io::Read::read_to_end(&mut zip.by_name("one_processed.jpg").unwrap(), &mut contents)
        .unwrap();
    assert_eq!(contents, b"alpha");
}

#[test]
fn empty_member_list_gives_an_empty_archive() {
    let bytes = create_archive(&Vec::new()).unwrap();
    let zip = zip::ZipArchive::new(std::io::Cursor::new(bytes)).unwrap();
    assert_eq!(zip.len(), 0);
}

#[test]
fn builder_streams_members_one_at_a_time() {
    let mut builder = ArchiveBuilder::new();
    builder.add_member(&"a.jpg".to_string(), &b"first".to_vec()).unwrap();
    builder.add_member(&"b.jpg".to_string(), &b"second".to_vec()).unwrap();
    let bytes = builder.finish().unwrap();
    let zip = zip::ZipArchive::new(std::io::Cursor::new(bytes)).unwrap();
    assert_eq!(zip.len(), 2);
}

#[test]
fn duplicate_names_keep_the_first_member() {
    let members = vec![
        member("twin_processed.jpg", b"first"),
        member("other_processed.jpg", b"middle"),
        member("twin_processed.jpg", b"second"),
    ];
    let bytes = create_archive(&members).unwrap();
    let mut zip = zip::ZipArchive::new(std::io::Cursor::new(bytes)).unwrap();
    assert_eq!(zip.len(), 2);
    let mut contents = Vec::new();
    std::io::Read::read_to_end(&mut zip.by_name("twin_processed.jpg").unwrap(), &mut contents)
        .unwrap();
    assert_eq!(contents, b"first");
}

#[test]
fn identical_members_give_identical_bytes() {
    let members = vec![member("same_processed.jpg", b"payload")];
    let first = create_archive(&members).unwrap();
    let second = create_archive(&members).unwrap();
    assert_eq!(first, second);
}
