use file_organizer::resolve::contains_name;
use file_organizer::resolve::get_unique_path;

fn names(list: &[&str]) -> Vec<String> {
    list.iter().map(|s| s.to_string()).collect()
}

#[test]
fn fresh_name_is_kept() {
    let existing: Vec<String> = Vec::new();
    assert_eq!(get_unique_path(&existing, "photo.jpg"), "photo.jpg");
}

#[test]
fn fresh_name_is_kept_among_others() {
    let existing = names(&["video.mp4", "notes"]);
    assert_eq!(get_unique_path(&existing, "photo.jpg"), "photo.jpg");
}

#[test]
fn first_collision_gets_suffix_one() {
    let existing = names(&["photo.jpg"]);
    assert_eq!(get_unique_path(&existing, "photo.jpg"), "photo_1.jpg");
}

#[test]
fn second_collision_gets_suffix_two() {
    let existing = names(&["photo.jpg", "photo_1.jpg"]);
    assert_eq!(get_unique_path(&existing, "photo.jpg"), "photo_2.jpg");
}

#[test]
fn collision_without_extension() {
    let existing = names(&["notes"]);
    assert_eq!(get_unique_path(&existing, "notes"), "notes_1");
}

#[test]
fn collision_skips_taken_counters() {
    let existing = names(&[
        "f.txt", "f_1.txt", "f_2.txt", "f_3.txt", "f_4.txt", "f_5.txt", "f_6.txt", "f_7.txt",
        "f_8.txt", "f_9.txt",
    ]);
    assert_eq!(get_unique_path(&existing, "f.txt"), "f_10.txt");
}

#[test]
fn gap_in_counters_is_used() {
    let existing = names(&["f.txt", "f_1.txt", "f_3.txt"]);
    assert_eq!(get_unique_path(&existing, "f.txt"), "f_2.txt");
}

#[test]
fn suffixed_lookalike_does_not_collide() {
    let existing = names(&["photo_1.jpg"]);
    assert_eq!(get_unique_path(&existing, "photo.jpg"), "photo.jpg");
}

#[test]
fn contains_name_checks_exact_names() {
    let existing = names(&["photo.jpg", "notes"]);
    assert!(contains_name(&existing, "photo.jpg"));
    assert!(contains_name(&existing, "notes"));
    assert!(!contains_name(&existing, "photo.jpeg"));
    assert!(!contains_name(&existing, "Notes"));
}
