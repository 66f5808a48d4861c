use file_organizer::category::Category;
use file_organizer::organize::EntryAction;
use file_organizer::organize::Organizer;
use file_organizer::organize::TargetError;
use file_organizer::organize::validate_target;

fn empty_folders() -> Vec<Vec<String>> {
    (0..7).map(|_| Vec::new()).collect()
}

fn plan_and_commit(org: &mut Organizer, filename: &str) -> (Category, String) {
    assert!(org.has_room_now());
    match org.plan(filename, false, false) {
        EntryAction::Move { category, dest_name } => {
            org.commit(&category, dest_name.clone());
            (category, dest_name)
        }
        _ => panic!("a plain file must be planned for a move"),
    }
}

#[test]
fn mixed_directory_scenario() {
    let mut org = Organizer::new(empty_folders());

    let (c1, n1) = plan_and_commit(&mut org, "photo.JPG");
    assert_eq!(c1, Category::Images);
    assert_eq!(n1, "photo.JPG");

    let (c2, n2) = plan_and_commit(&mut org, "video.mp4");
    assert_eq!(c2, Category::Videos);
    assert_eq!(n2, "video.mp4");

    let (c3, n3) = plan_and_commit(&mut org, "notes");
    assert_eq!(c3, Category::Others);
    assert_eq!(n3, "notes");

    let (c4, n4) = plan_and_commit(&mut org, "readme.txt");
    assert_eq!(c4, Category::Documents);
    assert_eq!(n4, "readme.txt");

    assert_eq!(org.moved, 4);
    assert_eq!(org.folders[Category::Images.index()], vec!["photo.JPG".to_string()]);
    assert_eq!(org.folders[Category::Videos.index()], vec!["video.mp4".to_string()]);
    assert_eq!(org.folders[Category::Others.index()], vec!["notes".to_string()]);
    assert_eq!(org.folders[Category::Documents.index()], vec!["readme.txt".to_string()]);
    assert!(org.folders[Category::Archives.index()].is_empty());
    assert!(org.folders[Category::Scripts.index()].is_empty());
    assert!(org.folders[Category::Executables.index()].is_empty());
}

#[test]
fn directories_are_never_moved() {
    let org = Organizer::new(empty_folders());
    for name in ["Images", "Videos", "Documents", "Others", "nested.dir"] {
        match org.plan(name, true, false) {
            EntryAction::SkipDirectory => {}
            _ => panic!("a directory must be skipped"),
        }
    }
    assert_eq!(org.moved, 0);
}

#[test]
fn running_executable_is_never_moved() {
    let org = Organizer::new(empty_folders());
    match org.plan("organizer.exe", false, true) {
        EntryAction::SkipSelf => {}
        _ => panic!("the running executable must be skipped"),
    }
    assert_eq!(org.moved, 0);
}

#[test]
fn second_run_over_organized_directory_changes_nothing() {
    // First run: two files move into their folders.
    let mut org = Organizer::new(empty_folders());
    plan_and_commit(&mut org, "photo.jpg");
    plan_and_commit(&mut org, "readme.txt");
    assert_eq!(org.moved, 2);

    // Second run: the top level now holds only the category folders, and the
    // moved files sit inside them already.  Nothing is planned, nothing gets
    // a `_1` name.
    let mut folders = empty_folders();
    folders[Category::Images.index()].push("photo.jpg".to_string());
    folders[Category::Documents.index()].push("readme.txt".to_string());
    let again = Organizer::new(folders);
    for name in ["Images", "Documents"] {
        match again.plan(name, true, false) {
            EntryAction::SkipDirectory => {}
            _ => panic!("a category folder must be skipped"),
        }
    }
    assert_eq!(again.moved, 0);
    assert_eq!(again.folders[Category::Images.index()], vec!["photo.jpg".to_string()]);
    assert_eq!(again.folders[Category::Documents.index()], vec!["readme.txt".to_string()]);
}

#[test]
fn preexisting_destination_file_is_untouched() {
    // The Images folder already holds a photo.jpg; a new top-level photo.jpg
    // becomes photo_1.jpg beside it.
    let mut folders = empty_folders();
    folders[Category::Images.index()].push("photo.jpg".to_string());
    let mut org = Organizer::new(folders);
    let (category, dest_name) = plan_and_commit(&mut org, "photo.jpg");
    assert_eq!(category, Category::Images);
    assert_eq!(dest_name, "photo_1.jpg");
    assert_eq!(
        org.folders[Category::Images.index()],
        vec!["photo.jpg".to_string(), "photo_1.jpg".to_string()]
    );
    assert_eq!(org.moved, 1);
}

#[test]
fn missing_target_is_fatal() {
    assert_eq!(validate_target(false, false), Err(TargetError::Missing));
    assert_eq!(validate_target(false, true), Err(TargetError::Missing));
}

#[test]
fn non_directory_target_is_fatal() {
    assert_eq!(validate_target(true, false), Err(TargetError::NotADirectory));
}

#[test]
fn existing_directory_target_is_accepted() {
    assert_eq!(validate_target(true, true), Ok(()));
}
