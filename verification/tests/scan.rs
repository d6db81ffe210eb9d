use mprovision::date::Timestamp;
use mprovision::listing::{list, sort_by_creation_date};
use mprovision::profile::{Info, Profile};
use mprovision::{
    extract, file_paths, filter, find_by_ids, find_by_uuid, find_expired, Error, Extracted,
    RawProfile,
};

fn xml(uuid: &str, name: &str, app_identifier: &str, created: &str, expires: &str) -> String {
    format!(
        "<?xml version=\"1.0\" encoding=\"UTF-8\"?>\n\
         <plist version=\"1.0\">\n<dict>\n\
         <key>CreationDate</key>\n<date>{}</date>\n\
         <key>Entitlements</key>\n<dict>\n\
         <key>application-identifier</key>\n<string>{}</string>\n\
         </dict>\n\
         <key>ExpirationDate</key>\n<date>{}</date>\n\
         <key>Name</key>\n<string>{}</string>\n\
         <key>UUID</key>\n<string>{}</string>\n\
         </dict>\n</plist>\n",
        created, app_identifier, expires, name, uuid
    )
}

fn raw(path: &str, text: &str) -> RawProfile {
    let mut data = vec![0x30, 0x82, 0xff, 0x00];
    data.extend_from_slice(text.as_bytes());
    data.extend_from_slice(&[0x00, 0xfe, 0x31]);
    RawProfile { path: path.to_owned(), data }
}

fn good(path: &str, uuid: &str) -> RawProfile {
    raw(
        path,
        &xml(uuid, "Name", "TEAM.com.example", "2019-07-12T10:20:02Z", "2020-07-11T10:20:02Z"),
    )
}

fn broken(path: &str) -> RawProfile {
    RawProfile { path: path.to_owned(), data: b"<?xml version= cut short".to_vec() }
}

fn uuids(profiles: &[Profile]) -> Vec<&str> {
    profiles.iter().map(|profile| profile.info.uuid.as_str()).collect()
}

#[test]
fn filter_keeps_every_profile_and_drops_broken_files() {
    let files = vec![
        good("1.mobileprovision", "one"),
        broken("2.mobileprovision"),
        good("3.mobileprovision", "three"),
        RawProfile { path: "4.mobileprovision".to_owned(), data: Vec::new() },
        good("5.mobileprovision", "five"),
    ];
    let kept = filter(files, |_| true);
    assert_eq!(kept.len(), 3);
    assert_eq!(uuids(&kept), ["one", "three", "five"]);
    assert_eq!(kept[1].path, "3.mobileprovision");
}

#[test]
fn filter_is_the_same_whatever_the_order_of_files() {
    let forward = vec![good("a", "one"), broken("b"), good("c", "two"), good("d", "three")];
    let mut backward = forward.clone();
    backward.reverse();
    let mut first = uuids(&filter(forward, |_| true)).join(",");
    let kept = filter(backward, |_| true);
    let mut second: Vec<&str> = uuids(&kept);
    second.sort();
    let mut sorted: Vec<&str> = first.split(',').collect();
    sorted.sort();
    assert_eq!(sorted, second);
    first.clear();
}

#[test]
fn filter_asks_the_predicate() {
    let files = vec![good("a", "one"), good("b", "two"), good("c", "three")];
    let kept = filter(files, |profile| profile.info.uuid.starts_with('t'));
    assert_eq!(uuids(&kept), ["two", "three"]);
    assert!(filter(vec![good("a", "one")], |_| false).is_empty());
    assert!(filter(Vec::new(), |_| true).is_empty());
}

#[test]
fn filter_decodes_many_files() {
    let files: Vec<RawProfile> = (0..200)
        .map(|i| {
            if i % 3 == 0 {
                broken(&format!("{}.mobileprovision", i))
            } else {
                good(&format!("{}.mobileprovision", i), &format!("uuid-{}", i))
            }
        })
        .collect();
    let kept = filter(files, |_| true);
    assert_eq!(kept.len(), 133);
    assert_eq!(kept[0].info.uuid, "uuid-1");
    assert_eq!(kept[132].info.uuid, "uuid-199");
    assert_eq!(kept[132].path, "199.mobileprovision");
}

#[test]
fn find_by_uuid_returns_the_one_match() {
    let files = vec![good("a", "one"), broken("b"), good("c", "two"), good("d", "three")];
    let found = find_by_uuid(files, "two").unwrap();
    assert_eq!(found.path, "c");
    assert_eq!(found.info.uuid, "two");
}

#[test]
fn find_by_uuid_fails_with_the_id_asked_for() {
    let files = vec![good("a", "one"), broken("two")];
    match find_by_uuid(files, "two") {
        Err(Error::NotFound(id)) => assert_eq!(id, "two"),
        other => panic!("unexpected: {:?}", other),
    }
    match find_by_uuid(Vec::new(), "abc") {
        Err(error) => assert_eq!(error.message(), "Profile 'abc' is not found."),
        other => panic!("unexpected: {:?}", other),
    }
}

#[test]
fn find_by_uuid_with_duplicates_returns_the_last_match() {
    let files = vec![good("a", "same"), good("b", "other"), good("c", "same")];
    let found = find_by_uuid(files, "same").unwrap();
    assert_eq!(found.info.uuid, "same");
    assert_eq!(found.path, "c");
}

#[test]
fn find_by_ids_matches_uuid_or_bundle_id() {
    let files = vec![
        raw("a", &xml("one", "A", "TEAM.com.a", "2019-07-12T10:20:02Z", "2020-07-11T10:20:02Z")),
        raw("b", &xml("two", "B", "TEAM.com.b", "2019-07-12T10:20:02Z", "2020-07-11T10:20:02Z")),
        raw("c", &xml("three", "C", "TEAM.*", "2019-07-12T10:20:02Z", "2020-07-11T10:20:02Z")),
        broken("d"),
    ];
    assert_eq!(uuids(&find_by_ids(files.clone(), &["one", "com.b"])), ["one", "two"]);
    assert_eq!(uuids(&find_by_ids(files.clone(), &["*"])), ["three"]);
    assert!(find_by_ids(files.clone(), &["TEAM.com.a", "four"]).is_empty());
    assert!(find_by_ids(files, &[]).is_empty());
}

#[test]
fn expired_profiles_are_those_at_or_before_the_date() {
    let date = Timestamp::from_secs(1_594_462_802);
    let files = vec![
        raw("before", &xml("b", "B", "T.b", "2019-07-12T10:20:02Z", "2020-07-11T10:20:01Z")),
        raw("after", &xml("a", "A", "T.a", "2019-07-12T10:20:02Z", "2020-07-11T10:20:03Z")),
    ];
    let expired = find_expired(files.clone(), date);
    assert_eq!(uuids(&expired), ["b"]);

    let files = vec![
        raw("at", &xml("at", "A", "T.a", "2019-07-12T10:20:02Z", "2020-07-11T10:20:02Z")),
        broken("broken"),
    ];
    assert_eq!(uuids(&find_expired(files, date)), ["at"]);
}

#[test]
fn list_filters_by_text_and_date_and_sorts_by_creation() {
    let files = vec![
        raw("3", &xml("three", "Gamma", "T.c", "2021-01-01T00:00:00Z", "2022-01-01T00:00:00Z")),
        raw("1", &xml("one", "Alpha", "T.a", "2019-01-01T00:00:00Z", "2020-01-01T00:00:00Z")),
        broken("x"),
        raw("2", &xml("two", "alphabet", "T.b", "2020-01-01T00:00:00Z", "2021-01-01T00:00:00Z")),
    ];
    assert_eq!(uuids(&list(files.clone(), None, None)), ["one", "two", "three"]);
    assert_eq!(uuids(&list(files.clone(), Some("ALPHA"), None)), ["one", "two"]);
    // 2021-01-01T00:00:00Z
    let date = Timestamp::from_secs(1_609_459_200);
    assert_eq!(uuids(&list(files.clone(), None, Some(date))), ["one", "two"]);
    assert_eq!(uuids(&list(files.clone(), Some("bet"), Some(date))), ["two"]);
    assert_eq!(uuids(&list(files.clone(), Some("gamma"), Some(date))), Vec::<&str>::new());
    assert!(list(Vec::new(), None, None).is_empty());
}

fn created_at(uuid: &str, created: Timestamp) -> Profile {
    let mut info = Info::empty();
    info.uuid = uuid.to_owned();
    info.creation_date = created;
    Profile { path: format!("{}.mobileprovision", uuid), info }
}

#[test]
fn sort_is_stable_and_keeps_every_profile() {
    let early = Timestamp { before_epoch: true, secs: 5, nanos: 0 };
    let profiles = vec![
        created_at("c", Timestamp::from_secs(30)),
        created_at("a1", Timestamp::from_secs(10)),
        created_at("z", early),
        created_at("a2", Timestamp::from_secs(10)),
        created_at("b", Timestamp { before_epoch: false, secs: 10, nanos: 1 }),
        created_at("a3", Timestamp::from_secs(10)),
    ];
    let sorted = sort_by_creation_date(&profiles);
    assert_eq!(uuids(&sorted), ["z", "a1", "a2", "a3", "b", "c"]);
    assert_eq!(sorted[1].path, "a1.mobileprovision");
    assert!(sort_by_creation_date(&[].to_vec()).is_empty());
}

#[test]
fn lib_filter_mobileprovision_files() {
    let result = file_paths(&Vec::new()).len();
    assert_eq!(result, 0);

    let entries = vec![
        "dir/1.mobileprovision".to_owned(),
        "dir/2.mobileprovision".to_owned(),
        "dir/3.txt".to_owned(),
    ];
    let result = file_paths(&entries);
    assert_eq!(result.len(), 2);
    assert_eq!(result, ["dir/1.mobileprovision", "dir/2.mobileprovision"]);
}

#[test]
fn extract_names_each_profile_by_its_uuid_and_passes_over_other_entries() {
    let entries = vec![
        RawProfile { path: "Payload/App.app/Info.txt".to_owned(), data: b"text".to_vec() },
        good("Payload/App.app/embedded.mobileprovision", "abc-123"),
    ];
    let plan = extract(&entries).unwrap();
    assert_eq!(plan, [Extracted { entry: 1, file_name: "abc-123.mobileprovision".to_owned() }]);
}

#[test]
fn extract_lists_every_profile_in_order() {
    let entries = vec![
        good("a.mobileprovision", "one"),
        broken("readme.txt"),
        good("Payload/b.mobileprovision", "two"),
    ];
    let plan = extract(&entries).unwrap();
    assert_eq!(
        plan,
        [
            Extracted { entry: 0, file_name: "one.mobileprovision".to_owned() },
            Extracted { entry: 2, file_name: "two.mobileprovision".to_owned() },
        ]
    );
    assert!(extract(&Vec::new()).unwrap().is_empty());
}

#[test]
fn extract_fails_on_the_first_profile_that_cannot_be_decoded() {
    let entries = vec![
        good("a.mobileprovision", "one"),
        broken("Payload/b.mobileprovision"),
        broken("Payload/c.mobileprovision"),
    ];
    match extract(&entries) {
        Err(Error::Decode(name)) => assert_eq!(name, "Payload/b.mobileprovision"),
        other => panic!("unexpected: {:?}", other),
    }
}
