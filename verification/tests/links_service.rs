use uscr::links::{idc, lookup_ci, resolve_links, scan_links, separate_id_and_names, Inspector};
use uscr::service::{get, get_black, init, remove};
use uscr::types::{Channel, JsonChecked, User};

fn bytes(s: &str) -> Vec<u8> {
    s.as_bytes().to_vec()
}

#[test]
fn idc_classifies_handle_bytes() {
    assert!(idc(b'a'));
    assert!(idc(b'Z'));
    assert!(idc(b'0'));
    assert!(idc(b'-'));
    assert!(idc(b'_'));
    assert!(!idc(b'.'));
    assert!(!idc(b'/'));
    assert!(!idc(b' '));
}

#[test]
fn scan_finds_plain_links() {
    let found = scan_links(b"see https://t.me/SomeChannel for more");
    assert_eq!(found, vec![bytes("SomeChannel")]);
}

#[test]
fn scan_finds_all_link_shapes() {
    assert_eq!(scan_links(b"telegram.me/abc"), vec![bytes("abc")]);
    assert_eq!(scan_links(b"telesco.pe/abc"), vec![bytes("abc")]);
    assert_eq!(scan_links(b"tg://joinXyZ"), vec![bytes("XyZ")]);
    assert_eq!(scan_links(b"t.dev/abc"), vec![bytes("abc")]);
    assert_eq!(scan_links(b"t.dog/abc"), vec![bytes("abc")]);
    assert_eq!(scan_links(b"t.me/joinchatAAA-9"), vec![bytes("AAA-9")]);
}

#[test]
fn scan_reports_each_occurrence_in_order() {
    let found = scan_links(b"x t.me/one y t.me/one z t.me/zwo");
    assert_eq!(found, vec![bytes("one"), bytes("one"), bytes("zwo")]);
}

#[test]
fn scan_skips_unrelated_text() {
    assert_eq!(scan_links(b"nothing to see here"), Vec::<Vec<u8>>::new());
    assert_eq!(scan_links(b"https://example.com/t"), Vec::<Vec<u8>>::new());
    // no identifier byte within the first eight after the prefix
    assert_eq!(scan_links(b"t.me/////////"), Vec::<Vec<u8>>::new());
}

#[test]
fn inspector_accumulates_links_with_their_origin() {
    let mut insp = Inspector::new();
    insp.inspect(10, 7, b"go to t.me/abc");
    insp.inspect(11, 8, b"none here");
    insp.inspect(12, 9, b"t.me/def and t.me/ghi");
    assert_eq!(
        insp.links,
        vec![
            (10, 7, bytes("abc")),
            (12, 9, bytes("def")),
            (12, 9, bytes("ghi")),
        ]
    );
}

#[test]
fn lookup_is_case_insensitive() {
    let dict = vec![(bytes("somechannel"), 7i64), (bytes("Other"), 9i64)];
    assert_eq!(lookup_ci(&dict, b"SomeChannel"), Some(7));
    assert_eq!(lookup_ci(&dict, b"OTHER"), Some(9));
    assert_eq!(lookup_ci(&dict, b"missing"), None);
}

#[test]
fn resolve_drops_self_references_and_unknowns() {
    let dict = vec![(bytes("somechannel"), 7i64), (bytes("other"), 9i64)];
    let links = vec![
        (1i64, 5i32, bytes("SomeChannel")),
        (7i64, 6i32, bytes("somechannel")),
        (2i64, 3i32, bytes("unknown")),
        (4i64, 2i32, bytes("OTHER")),
    ];
    let rows = resolve_links(links, &dict);
    assert_eq!(rows, vec![(1, 5, 7), (4, 2, 9)]);
}

#[test]
fn separate_splits_ids_and_names() {
    let known = vec![(bytes("zzz"), 456i64), (bytes("taken"), 9i64)];
    let raw = vec![
        bytes("123"),
        bytes("abc"),
        bytes("123"),
        bytes("ABC"),
        bytes("456"),
        bytes("taken"),
        bytes("fresh"),
    ];
    let (ids, names) = separate_id_and_names(raw, &known);
    assert_eq!(ids, vec![123]);
    assert_eq!(names, vec![bytes("abc"), bytes("fresh")]);
}

#[test]
fn service_hands_out_and_rotates() {
    let mut s = init((1..=60).collect(), (1..=10).collect());

    let out = get(&mut s.ids);
    assert_eq!(out, (1..=50).collect::<Vec<i64>>());
    let mut rotated: Vec<i64> = (51..=60).collect();
    rotated.extend(1..=50);
    assert_eq!(s.ids, rotated);

    let black = get_black(&mut s.bids);
    assert_eq!(black, vec![1, 2, 3, 4, 5]);
    assert_eq!(s.bids, vec![6, 7, 8, 9, 10, 1, 2, 3, 4, 5]);
}

#[test]
fn short_queue_is_handed_out_whole() {
    let mut s = init(vec![4, 5, 6], vec![]);
    let out = get(&mut s.ids);
    assert_eq!(out, vec![4, 5, 6]);
    assert_eq!(s.ids, vec![4, 5, 6]);
    assert_eq!(get_black(&mut s.bids), Vec::<i64>::new());
}

#[test]
fn remove_drops_the_first_occurrence() {
    let mut q = vec![3i64, 5, 3, 8];
    remove(&mut q, 3);
    assert_eq!(q, vec![5, 3, 8]);
    remove(&mut q, 99);
    assert_eq!(q, vec![5, 3, 8]);
}

#[test]
fn maybe_bot_checks_both_names() {
    let user = |name: &str, hash: &str| User {
        peer: Channel { id: 1, name: name.to_string(), access_hash: 0, app_id: 0 },
        hash_name: hash.to_string(),
    };
    assert!(user("SomeBOT", "x").maybe_bot());
    assert!(user("x", "helperbot").maybe_bot());
    assert!(!user("human", "person").maybe_bot());
    assert!(!user("bo", "t").maybe_bot());
}

#[test]
fn jsonb_wire_value_is_version_checked() {
    let raw = [1u8, b'{', b'}'];
    let parsed = JsonChecked::from_sql_bytes(&raw);
    assert!(matches!(parsed, Some(JsonChecked(b"{}"))));
    assert!(JsonChecked::from_sql_bytes(&[2u8, b'x']).is_none());
    assert!(JsonChecked::from_sql_bytes(&[]).is_none());
}
