use safe_client::name::Name;
use safe_client::nfs::{
    decode_directory_listing, encode_directory_listing, read_range_ok, Blob, DirectoryListing,
    File, FileWrapper, Metadata,
};

#[test]
fn serialise() {
    let obj_before = DirectoryListing::new(
        Name::from_bytes(vec![1u8; 64]),
        "Home".to_string(),
        "{mime:\"application/json\"}".to_string().into_bytes(),
    );

    let serialised = encode_directory_listing(&obj_before);
    let obj_after = decode_directory_listing(&serialised[..]).unwrap();

    assert_eq!(obj_before, obj_after);
}

#[test]
fn listing_holds_files_and_subdirectories() {
    let mut listing = DirectoryListing::new(
        Name::from_bytes(vec![7u8; 64]),
        "docs".to_string(),
        Vec::new(),
    );
    assert_eq!(listing.get_name(), "docs".to_string());
    assert_eq!(listing.get_files().len(), 0);
    assert_eq!(listing.get_sub_directories().len(), 0);
    assert_eq!(listing.get_parent_dir_id().as_bytes(), &vec![7u8; 64]);

    let file = File::new(
        Metadata::new("notes.txt".to_string(), vec![5u8, 6u8]),
        vec![9u8; 16],
    );
    listing.add_file(file);
    assert_eq!(listing.get_files().len(), 1);
    assert_eq!(
        listing.get_files()[0].get_metadata().get_name(),
        "notes.txt".to_string()
    );

    listing.set_name("archive".to_string());
    assert_eq!(listing.get_name(), "archive".to_string());

    listing.set_user_metadata(vec![1u8]);
    assert_eq!(listing.get_user_metadata(), Some(vec![1u8]));

    // The round trip carries the files along.
    let encoded = encode_directory_listing(&listing);
    let decoded = decode_directory_listing(&encoded[..]).unwrap();
    assert_eq!(listing, decoded);
}

#[test]
fn metadata_reports_its_fields() {
    let mut m = Metadata::new("report".to_string(), vec![2u8, 4u8]);
    assert_eq!(m.get_name(), "report".to_string());
    assert_eq!(m.get_user_metadata(), Some(vec![2u8, 4u8]));
    assert_eq!(m.get_size(), 0);
    assert_eq!(m.get_created_time(), m.get_modified_time());

    m.set_size(512);
    assert_eq!(m.get_size(), 512);
    m.set_name("report-v2".to_string());
    assert_eq!(m.get_name(), "report-v2".to_string());
}

#[test]
fn blob_wraps_a_file_losslessly() {
    let file = File::new(Metadata::new("photo".to_string(), vec![1u8]), vec![2u8; 8]);
    let blob = Blob::convert_from_file(file.clone());
    assert_eq!(blob.convert_to_file(), file);
    assert_eq!(blob.get_name(), "photo".to_string());
    assert_eq!(blob.get_size(), 0);
    assert_eq!(blob.get_created_time(), blob.get_modified_time());
    assert_eq!(blob.get_user_metadata(), Some(vec![1u8]));
}

#[test]
fn read_ranges_are_bounded_by_size() {
    assert!(read_range_ok(0, 0, 0));
    assert!(read_range_ok(10, 90, 100));
    assert!(!read_range_ok(101, 10, 100));
    assert!(!read_range_ok(0, 101, 100));
}
