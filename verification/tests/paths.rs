use mprovision::{
    dir_or_default, directory, is_mobileprovision, remove, show, validate_path, Error, Removal,
    EXT_MOBILEPROVISION, PROFILES_DIRECTORY,
};
use std::io;

#[test]
fn profile_paths_have_the_extension() {
    assert!(is_mobileprovision("1.mobileprovision"));
    assert!(is_mobileprovision("/a/b/c.d.mobileprovision"));
    assert!(is_mobileprovision("dir/name.mobileprovision/"));
    assert!(is_mobileprovision("Payload/App.app/embedded.mobileprovision"));
}

#[test]
fn other_paths_are_no_profile_paths() {
    assert!(!is_mobileprovision(""));
    assert!(!is_mobileprovision("3.txt"));
    assert!(!is_mobileprovision("mobileprovision"));
    assert!(!is_mobileprovision(".mobileprovision"));
    assert!(!is_mobileprovision("dir.mobileprovision/file"));
    assert!(!is_mobileprovision("a.MobileProvision"));
    assert!(!is_mobileprovision("a.mobileprovision.bak"));
    assert!(!is_mobileprovision("a.mobileprovisions"));
    assert!(!is_mobileprovision("file.mprovision"));
}

#[test]
fn extension_is_spelled_out() {
    assert_eq!(EXT_MOBILEPROVISION, "mobileprovision");
    assert_eq!(PROFILES_DIRECTORY, "Library/MobileDevice/Provisioning Profiles");
}

#[test]
fn validate_path_hands_back_a_profile_path() {
    assert_eq!(validate_path("a/b.mobileprovision").unwrap(), "a/b.mobileprovision");
}

#[test]
fn validate_path_refuses_other_paths() {
    match validate_path("a/b.txt") {
        Err(Error::Validation(path)) => assert_eq!(path, "a/b.txt"),
        other => panic!("unexpected: {:?}", other),
    }
    assert_eq!(
        validate_path("notes").unwrap_err().message(),
        "'notes' doesn't have 'mobileprovision' extension"
    );
}

#[test]
fn removal_of_a_profile_is_planned() {
    assert_eq!(
        remove("a.mobileprovision", true).unwrap(),
        Removal::Delete("a.mobileprovision".to_owned())
    );
    assert_eq!(
        remove("a.mobileprovision", false).unwrap(),
        Removal::Trash("a.mobileprovision".to_owned())
    );
}

#[test]
fn removal_of_another_file_is_refused() {
    for permanently in [true, false] {
        match remove("important.txt", permanently) {
            Err(Error::Validation(path)) => assert_eq!(path, "important.txt"),
            other => panic!("unexpected: {:?}", other),
        }
    }
}

#[test]
fn default_directory_lies_below_home() {
    assert_eq!(
        directory(Some("/Users/me")).unwrap(),
        "/Users/me/Library/MobileDevice/Provisioning Profiles"
    );
    match directory(None) {
        Err(Error::NoHome) => {}
        other => panic!("unexpected: {:?}", other),
    }
}

#[test]
fn given_directory_wins_over_the_default() {
    assert_eq!(dir_or_default(Some("here".to_owned()), Some("/Users/me")).unwrap(), "here");
    assert_eq!(dir_or_default(Some("here".to_owned()), None).unwrap(), "here");
    assert_eq!(
        dir_or_default(None, Some("/Users/me")).unwrap(),
        "/Users/me/Library/MobileDevice/Provisioning Profiles"
    );
    let error = dir_or_default(None, None).unwrap_err();
    assert_eq!(
        error.message(),
        "'HOME' environment variable is not set or equal to the empty string."
    );
}

#[test]
fn show_gives_the_payload_as_text() {
    let mut data = vec![0xff, 0x00];
    data.extend_from_slice("<?xml version=\"1.0\"?><plist>caf\u{e9}</plist>".as_bytes());
    data.extend_from_slice(&[0xfe, 0x01]);
    assert_eq!(
        show("a.mobileprovision", &data).unwrap(),
        "<?xml version=\"1.0\"?><plist>caf\u{e9}</plist>"
    );
}

#[test]
fn show_refuses_a_path_that_is_no_profile_path() {
    match show("a.txt", b"<?xml version=</plist>") {
        Err(Error::Validation(path)) => assert_eq!(path, "a.txt"),
        other => panic!("unexpected: {:?}", other),
    }
}

#[test]
fn show_fails_without_a_payload_or_with_one_that_is_no_text() {
    match show("a.mobileprovision", b"no markers") {
        Err(Error::Decode(path)) => assert_eq!(path, "a.mobileprovision"),
        other => panic!("unexpected: {:?}", other),
    }
    let mut data = b"<?xml version=".to_vec();
    data.extend_from_slice(&[0xff, 0xfe]);
    data.extend_from_slice(b"</plist>");
    let error = show("a.mobileprovision", &data).unwrap_err();
    assert_eq!(error.message(), "Couldn't parse 'a.mobileprovision'");
}

#[test]
fn io_errors_are_carried() {
    let error = Error::from(io::Error::new(io::ErrorKind::NotFound, "gone"));
    match &error {
        Error::Io(source) => assert_eq!(source.kind(), io::ErrorKind::NotFound),
        other => panic!("unexpected: {:?}", other),
    }
    assert_eq!(error.message(), "gone");
}
