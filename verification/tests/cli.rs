use mprovision::cli::{
    check_days, parse_days, CleanParams, Command, ExtractParams, ListParams, RemoveParams,
    ShowFileParams, ShowUuidParams, MAX_DAYS,
};

#[test]
fn default_list_is_valid() {
    assert!(Command::List(ListParams::default()).is_valid());
    assert_eq!(
        ListParams::default(),
        ListParams { text: None, expire_in_days: None, directory: None, oneline: false }
    );
}

#[test]
fn list_in_a_directory_is_valid() {
    assert!(Command::List(ListParams {
        text: None,
        expire_in_days: None,
        directory: Some(".".into()),
        oneline: false,
    })
    .is_valid());
}

#[test]
fn list_in_an_unnamed_directory_is_invalid() {
    let params = ListParams { directory: Some("".into()), ..ListParams::default() };
    assert!(!params.is_valid());
    assert!(!Command::List(params).is_valid());
}

#[test]
fn list_with_a_text_is_valid() {
    assert!(Command::List(ListParams {
        text: Some("abc".to_string()),
        expire_in_days: None,
        directory: None,
        oneline: false,
    })
    .is_valid());
}

#[test]
fn list_with_an_empty_text_is_invalid() {
    let params = ListParams { text: Some("".into()), ..ListParams::default() };
    assert!(!params.is_valid());
}

#[test]
fn list_with_days_is_valid() {
    assert_eq!(parse_days("3"), Ok(3));
    assert!(Command::List(ListParams {
        text: None,
        expire_in_days: Some(3),
        directory: None,
        oneline: false,
    })
    .is_valid());
}

#[test]
fn days_below_zero_are_refused() {
    assert!(parse_days("-3").is_err());
    assert_eq!(parse_days("-3"), Err("should be between 0 and 365, got -3".to_owned()));
}

#[test]
fn days_above_a_year_are_refused() {
    assert!(parse_days("366").is_err());
    assert_eq!(parse_days("366"), Err("should be between 0 and 365, got 366".to_owned()));
    let params = ListParams { expire_in_days: Some(366), ..ListParams::default() };
    assert!(!params.is_valid());
}

#[test]
fn list_with_everything_is_valid() {
    assert!(Command::List(ListParams {
        text: Some("abc".to_string()),
        expire_in_days: Some(3),
        directory: Some(".".into()),
        oneline: false,
    })
    .is_valid());
}

#[test]
fn list_in_one_line_is_valid() {
    assert!(Command::List(ListParams {
        text: None,
        expire_in_days: None,
        directory: None,
        oneline: true,
    })
    .is_valid());
}

#[test]
fn show_by_uuid_is_valid() {
    assert!(Command::ShowUuid(ShowUuidParams { uuid: "abcd".to_string(), directory: None })
        .is_valid());
}

#[test]
fn show_without_a_uuid_is_invalid() {
    assert!(!ShowUuidParams { uuid: "".to_string(), directory: None }.is_valid());
    assert!(!Command::ShowUuid(ShowUuidParams::default()).is_valid());
}

#[test]
fn show_by_uuid_in_a_directory_is_valid() {
    assert!(Command::ShowUuid(ShowUuidParams {
        uuid: "abcd".to_string(),
        directory: Some(".".into()),
    })
    .is_valid());
}

#[test]
fn show_in_an_unnamed_directory_is_invalid() {
    assert!(!ShowUuidParams { uuid: "abcd".to_string(), directory: Some("".into()) }.is_valid());
}

#[test]
fn show_of_a_file_is_valid() {
    assert!(Command::ShowFile(ShowFileParams { file: "file.mprovision".into() }).is_valid());
}

#[test]
fn show_of_an_unnamed_file_is_invalid() {
    assert!(!ShowFileParams { file: "".into() }.is_valid());
    assert!(!Command::ShowFile(ShowFileParams::default()).is_valid());
}

#[test]
fn removal_by_one_id_is_valid() {
    assert!(Command::Remove(RemoveParams {
        ids: vec!["abcd".to_string()],
        directory: None,
        permanently: false,
    })
    .is_valid());
}

#[test]
fn removal_by_several_ids_is_valid() {
    assert!(Command::Remove(RemoveParams {
        ids: vec!["abcd".to_string(), "ef".to_string()],
        directory: None,
        permanently: false,
    })
    .is_valid());
}

#[test]
fn removal_without_an_id_is_invalid() {
    assert!(!RemoveParams { ids: vec!["".to_string()], directory: None, permanently: false }
        .is_valid());
    assert!(!RemoveParams {
        ids: vec!["abcd".to_string(), "".to_string()],
        directory: None,
        permanently: true,
    }
    .is_valid());
    assert!(!RemoveParams::default().is_valid());
}

#[test]
fn permanent_removal_in_a_directory_is_valid() {
    assert!(Command::Remove(RemoveParams {
        ids: vec!["abcd".to_string(), "ef".to_string()],
        directory: Some(".".into()),
        permanently: true,
    })
    .is_valid());
}

#[test]
fn removal_in_an_unnamed_directory_is_invalid() {
    assert!(!RemoveParams {
        ids: vec!["abcd".to_string()],
        directory: Some("".into()),
        permanently: false,
    }
    .is_valid());
}

#[test]
fn cleaning_is_valid() {
    assert!(Command::Clean(CleanParams { directory: None, permanently: false }).is_valid());
}

#[test]
fn permanent_cleaning_in_a_directory_is_valid() {
    assert!(Command::Clean(CleanParams { directory: Some(".".into()), permanently: true })
        .is_valid());
}

#[test]
fn cleaning_of_an_unnamed_directory_is_invalid() {
    assert!(!CleanParams { directory: Some("".into()), permanently: false }.is_valid());
}

#[test]
fn extraction_is_valid() {
    assert!(Command::Extract(ExtractParams { source: "app.ipa".into(), destination: ".".into() })
        .is_valid());
}

#[test]
fn extraction_without_paths_is_invalid() {
    assert!(!Command::Extract(ExtractParams::default()).is_valid());
    assert!(!ExtractParams { source: "app.ipa".into(), destination: "".into() }.is_valid());
    assert!(!ExtractParams { source: "".into(), destination: ".".into() }.is_valid());
}

#[test]
fn days_within_a_year_are_taken() {
    assert_eq!(MAX_DAYS, 365);
    assert_eq!(parse_days("0"), Ok(0));
    assert_eq!(parse_days("365"), Ok(365));
    assert_eq!(parse_days("+7"), Ok(7));
    assert_eq!(check_days(0), Ok(0));
    assert_eq!(check_days(365), Ok(365));
}

#[test]
fn days_outside_a_year_are_refused_by_name() {
    assert_eq!(check_days(-1), Err("should be between 0 and 365, got -1".to_owned()));
    assert_eq!(check_days(366), Err("should be between 0 and 365, got 366".to_owned()));
    assert_eq!(
        check_days(i64::MIN),
        Err("should be between 0 and 365, got -9223372036854775808".to_owned())
    );
}

#[test]
fn days_that_are_no_number_are_refused_with_the_reason() {
    assert_eq!(parse_days("abc"), Err("invalid digit found in string".to_owned()));
    assert_eq!(parse_days(""), Err("cannot parse integer from empty string".to_owned()));
    assert_eq!(
        parse_days("99999999999999999999"),
        Err("number too large to fit in target type".to_owned())
    );
}
