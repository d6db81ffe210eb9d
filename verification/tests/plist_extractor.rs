use mprovision::plist_extractor::{
    find, first_index_of, last_index_of, locate, PLIST_PREFIX, PLIST_SUFFIX,
};

#[test]
fn plist_extractor_test_find_plist() {
    let data: &[u8] = b"<?xml version=</plist>";
    assert_eq!(find(data), Some(data));

    let data: &[u8] = b"   <?xml version=abcd</plist>   ";
    assert_eq!(find(data), Some(b"<?xml version=abcd</plist>" as &[u8]));
}

#[test]
fn test_find_plist_with_spaces() {
    let data: &[u8] = b"   <?xml version=abcd</plist>   ";
    assert_eq!(find(data), Some(b"<?xml version=abcd</plist>" as &[u8]));
}

#[test]
fn context_test_find_plist() {
    let data: &[u8] = b"<?xml version=</plist>";
    assert_eq!(find(data), Some(data));

    let data: &[u8] = b"   <?xml version=</plist>   ";
    assert_eq!(find(data), Some(b"<?xml version=</plist>" as &[u8]));
}

#[test]
fn markers_are_the_xml_declaration_and_the_closing_tag() {
    assert_eq!(&PLIST_PREFIX[..], b"<?xml version=");
    assert_eq!(&PLIST_SUFFIX[..], b"</plist>");
}

#[test]
fn locate_gives_the_range_of_the_payload() {
    assert_eq!(locate(b"   <?xml version=abcd</plist>   "), Some((3, 29)));
    assert_eq!(locate(b"<?xml version=</plist>"), Some((0, 22)));
}

#[test]
fn no_payload_without_a_marker() {
    assert_eq!(locate(b""), None);
    assert_eq!(locate(b"garbage"), None);
    assert_eq!(locate(b"<?xml version= and no end"), None);
    assert_eq!(locate(b"no start </plist>"), None);
    assert_eq!(find(b"<?xml version= and a cut end </plis"), None);
}

#[test]
fn payload_runs_from_the_first_start_to_the_last_end() {
    let data: &[u8] = b"..<?xml version=a</plist>b<?xml version=c</plist>..";
    assert_eq!(find(data), Some(&data[2..data.len() - 2]));
    assert_eq!(locate(data), Some((2, data.len() - 2)));
}

#[test]
fn no_payload_where_the_end_closes_before_the_start() {
    assert_eq!(locate(b"</plist> <?xml version="), None);
    assert_eq!(find(b"</plist> <?xml version="), None);
}

#[test]
fn empty_payload_where_the_end_closes_at_the_start() {
    let data: &[u8] = b"</plist><?xml version=";
    assert_eq!(locate(data), Some((8, 8)));
    assert_eq!(find(data), Some(&data[8..8]));
}

#[test]
fn single_payload_is_cut_out_byte_for_byte() {
    let mut data = vec![0u8, 159, 255, 7];
    let payload = b"<?xml version=\"1.0\"?><plist><dict/></plist>";
    data.extend_from_slice(payload);
    data.extend_from_slice(&[1, 2, 3, 250]);
    let (start, end) = locate(&data).unwrap();
    assert_eq!((start, end), (4, 4 + payload.len()));
    assert_eq!(&data[start..end], &payload[..]);
    assert_eq!(find(&data), Some(&payload[..]));
}

#[test]
fn plain_search_finds_the_first_and_the_last_occurrence() {
    let haystack = b"foo bar baz";
    assert_eq!(first_index_of(haystack, b"foo"), Some(0));
    assert_eq!(first_index_of(haystack, b"ba"), Some(4));
    assert_eq!(last_index_of(haystack, b"ba"), Some(8));
    assert_eq!(last_index_of(haystack, b"foo"), Some(0));
    assert_eq!(first_index_of(haystack, b"quux"), None);
    assert_eq!(last_index_of(haystack, b"quux"), None);
    assert_eq!(first_index_of(haystack, b"foo bar baz!"), None);
    assert_eq!(first_index_of(haystack, b""), Some(0));
    assert_eq!(last_index_of(haystack, b""), Some(11));
    assert_eq!(first_index_of(b"", b""), Some(0));
    assert_eq!(last_index_of(b"", b"a"), None);
}

/// A run of bytes from a small alphabet, the same for the same seed.
fn bytes(seed: u64, len: usize) -> Vec<u8> {
    let mut state = seed.wrapping_mul(6364136223846793005).wrapping_add(1442695040888963407);
    (0..len)
        .map(|_| {
            state = state.wrapping_mul(6364136223846793005).wrapping_add(1442695040888963407);
            b"ab<"[((state >> 33) % 3) as usize]
        })
        .collect()
}

#[test]
fn memchr_agrees_with_the_plain_search() {
    for seed in 0..400u64 {
        let haystack = bytes(seed, (seed % 90) as usize);
        let needle = bytes(seed + 1000, (seed % 4) as usize);
        assert_eq!(
            memchr::memmem::find(&haystack, &needle),
            first_index_of(&haystack, &needle),
            "first of {:?} in {:?}",
            needle,
            haystack
        );
        assert_eq!(
            memchr::memmem::rfind(&haystack, &needle),
            last_index_of(&haystack, &needle),
            "last of {:?} in {:?}",
            needle,
            haystack
        );
    }
}

#[test]
fn locate_agrees_with_the_plain_search() {
    for seed in 0..200u64 {
        let mut data = bytes(seed, (seed % 7) as usize);
        for part in 0..(seed % 5) {
            match (seed + part) % 3 {
                0 => data.extend_from_slice(&PLIST_PREFIX),
                1 => data.extend_from_slice(&PLIST_SUFFIX),
                _ => data.extend_from_slice(&bytes(seed + part, 5)),
            }
        }
        let start = first_index_of(&data, &PLIST_PREFIX);
        let end = last_index_of(&data, &PLIST_SUFFIX).map(|at| at + PLIST_SUFFIX.len());
        let expected = match (start, end) {
            (Some(start), Some(end)) if start <= end => Some((start, end)),
            _ => None,
        };
        assert_eq!(locate(&data), expected, "in {:?}", data);
    }
}
