use file_transfer::{collect_listing, list_entries, list_step, DirEntryInfo, FileEntry, TransferError};

fn file(name: &str, size: u64) -> Result<DirEntryInfo, TransferError> {
    Ok(DirEntryInfo { name: Some(name.to_string()), is_file: true, size })
}

fn other(name: &str) -> Result<DirEntryInfo, TransferError> {
    Ok(DirEntryInfo { name: Some(name.to_string()), is_file: false, size: 4096 })
}

fn pairs(items: Vec<Result<FileEntry, TransferError>>) -> Vec<Result<(String, u64), TransferError>> {
    items.into_iter().map(|i| i.map(|f| (f.name, f.size))).collect()
}

#[test]
fn empty_directory_lists_nothing() {
    assert!(list_entries(Vec::new()).is_empty());
    assert!(collect_listing(Vec::new()).unwrap().is_empty());
}

#[test]
fn listing_shows_abc_and_xyz_once_each() {
    let items = list_entries(vec![file("abc", 5), file("xyz", 4)]);
    let files = collect_listing(items).unwrap();
    let mut got: Vec<(String, u64)> = files.into_iter().map(|f| (f.name, f.size)).collect();
    got.sort();
    assert_eq!(got, vec![("abc".to_string(), 5), ("xyz".to_string(), 4)]);
}

#[test]
fn listing_counts_only_regular_files() {
    let walk = vec![other("sub"), file("a", 1), other("link"), file("b", 0), file("c", 300), other("fifo")];
    let items = pairs(list_entries(walk));
    assert_eq!(
        items,
        vec![Ok(("a".to_string(), 1)), Ok(("b".to_string(), 0)), Ok(("c".to_string(), 300))]
    );
}

#[test]
fn walk_error_ends_listing_after_earlier_entries() {
    let walk = vec![file("a", 1), Err(TransferError::Io), file("b", 2)];
    let items = pairs(list_entries(walk));
    assert_eq!(items, vec![Ok(("a".to_string(), 1)), Err(TransferError::Io)]);
    assert_eq!(
        collect_listing(list_entries(vec![file("a", 1), Err(TransferError::Io)])).err(),
        Some(TransferError::Io)
    );
}

#[test]
fn unreadable_root_is_an_error() {
    let items = pairs(list_entries(vec![Err(TransferError::Io)]));
    assert_eq!(items, vec![Err(TransferError::Io)]);
}

#[test]
fn name_that_is_not_unicode_fails_the_listing() {
    let walk = vec![
        file("a", 1),
        Ok(DirEntryInfo { name: None, is_file: true, size: 3 }),
        file("b", 2),
    ];
    let items = pairs(list_entries(walk));
    assert_eq!(items, vec![Ok(("a".to_string(), 1)), Err(TransferError::Io)]);
}

#[test]
fn list_step_decisions() {
    assert!(matches!(list_step(DirEntryInfo { name: None, is_file: false, size: 0 }), Ok(None)));
    assert_eq!(
        list_step(DirEntryInfo { name: None, is_file: true, size: 0 }).err(),
        Some(TransferError::Io)
    );
    let f = list_step(DirEntryInfo { name: Some("abc".to_string()), is_file: true, size: 5 })
        .unwrap()
        .unwrap();
    assert_eq!((f.name.as_str(), f.size), ("abc", 5));
}
