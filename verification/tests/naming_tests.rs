use file_organizer::naming::make_candidate;
use file_organizer::naming::split_filename;
use file_organizer::naming::str_eq;
use file_organizer::naming::to_lowercase_ascii;
use file_organizer::naming::u64_to_dec;

#[test]
fn split_plain_extension() {
    let (stem, suffix) = split_filename("photo.jpg");
    assert_eq!(stem, "photo");
    assert_eq!(suffix, ".jpg");
}

#[test]
fn split_no_extension() {
    let (stem, suffix) = split_filename("notes");
    assert_eq!(stem, "notes");
    assert_eq!(suffix, "");
}

#[test]
fn split_hidden_file() {
    let (stem, suffix) = split_filename(".bashrc");
    assert_eq!(stem, ".bashrc");
    assert_eq!(suffix, "");
}

#[test]
fn split_hidden_file_with_extension() {
    let (stem, suffix) = split_filename(".config.old");
    assert_eq!(stem, ".config");
    assert_eq!(suffix, ".old");
}

#[test]
fn split_double_extension_takes_last_dot() {
    let (stem, suffix) = split_filename("archive.tar.gz");
    assert_eq!(stem, "archive.tar");
    assert_eq!(suffix, ".gz");
}

#[test]
fn split_trailing_dot() {
    let (stem, suffix) = split_filename("trailing.");
    assert_eq!(stem, "trailing");
    assert_eq!(suffix, ".");
}

#[test]
fn split_empty_name() {
    let (stem, suffix) = split_filename("");
    assert_eq!(stem, "");
    assert_eq!(suffix, "");
}

#[test]
fn decimal_rendering() {
    assert_eq!(u64_to_dec(0), "0");
    assert_eq!(u64_to_dec(7), "7");
    assert_eq!(u64_to_dec(10), "10");
    assert_eq!(u64_to_dec(123), "123");
    assert_eq!(u64_to_dec(99000), "99000");
}

#[test]
fn candidate_names() {
    assert_eq!(make_candidate("photo", ".jpg", 1), "photo_1.jpg");
    assert_eq!(make_candidate("photo", ".jpg", 12), "photo_12.jpg");
    assert_eq!(make_candidate("notes", "", 3), "notes_3");
}

#[test]
fn lowercase_ascii_only() {
    assert_eq!(to_lowercase_ascii("JPG"), "jpg");
    assert_eq!(to_lowercase_ascii("TxT"), "txt");
    assert_eq!(to_lowercase_ascii("7Z"), "7z");
    assert_eq!(to_lowercase_ascii("already_lower.1"), "already_lower.1");
}

#[test]
fn string_equality() {
    assert!(str_eq("photo.jpg", "photo.jpg"));
    assert!(!str_eq("photo.jpg", "photo.jpeg"));
    assert!(!str_eq("a", "b"));
    assert!(str_eq("", ""));
}
