use garfeo::list::{build_posts, PostList};
use garfeo::post::{parse_post, LoadError, RawPost, Special};

fn field(k: &str, v: &str) -> (String, String) {
    (k.to_string(), v.to_string())
}

fn raw(dir: &str, fields: Vec<(String, String)>) -> RawPost {
    RawPost {
        dir_name: dir.to_string(),
        fields,
        has_esperanto_image: true,
        has_english_image: true,
    }
}

fn basic(dir: &str, title: &str, date: &str) -> RawPost {
    raw(dir, vec![field("title", title), field("date", date)])
}

#[test]
fn parse_full_entry() {
    let entry = raw(
        "2024-12-25",
        vec![
            field("title", "Kristnaska bildstrio"),
            field("date", "2024-12-25"),
            field("good", ""),
            field("version", "2"),
            field("old", "mankas"),
            field("new", "korektita"),
            field("transcript", "GARFIELD: Feliĉan Kristnaskon"),
            field("nekonata", "ignorita"),
        ],
    );
    let p = parse_post(&entry).expect("entry parses");
    assert_eq!(p.index.year, 2024);
    assert_eq!(p.title, "Kristnaska bildstrio");
    assert_eq!(p.date.month, 12);
    assert!(!p.is_sunday);
    assert_eq!(p.special, Some(Special::Christmas));
    assert_eq!(p.version, 2);
    assert!(p.props.revised);
    assert!(p.props.good);
    assert!(!p.props.notext);
    assert!(!p.is_old);
    assert_eq!(p.errata.0, vec![("mankas".to_string(), "korektita".to_string())]);
    assert_eq!(
        p.transcript,
        Some("GARFIELD: Feliĉan Kristnaskon".to_string())
    );
    assert_eq!(p.index_text(), "2024-12-25");
}

#[test]
fn malformed_index_rejected() {
    let e = parse_post(&basic("2020-13-40", "Titolo", "2020-01-01")).unwrap_err();
    assert_eq!(e, LoadError::MalformedIndex);
}

#[test]
fn malformed_date_field_rejected() {
    let e = parse_post(&basic("2020-01-01", "Titolo", "2020-13-40")).unwrap_err();
    assert_eq!(e, LoadError::MalformedIndex);
}

#[test]
fn missing_title_rejected() {
    let e = parse_post(&raw("2020-01-01", vec![field("date", "2020-01-01")])).unwrap_err();
    assert_eq!(e, LoadError::MissingField("title".to_string()));
}

#[test]
fn empty_title_rejected() {
    let e = parse_post(&basic("2020-01-01", "", "2020-01-01")).unwrap_err();
    assert_eq!(e, LoadError::MissingField("title".to_string()));
}

#[test]
fn missing_date_rejected() {
    let e = parse_post(&raw("2020-01-01", vec![field("title", "Titolo")])).unwrap_err();
    assert_eq!(e, LoadError::MissingField("date".to_string()));
}

#[test]
fn missing_asset_rejected() {
    let mut entry = basic("2020-01-01", "Titolo", "2020-01-01");
    entry.has_english_image = false;
    let e = parse_post(&entry).unwrap_err();
    assert_eq!(e, LoadError::MissingAsset);
}

#[test]
fn malformed_errata_rejected() {
    let entry = raw(
        "2020-01-01",
        vec![
            field("title", "Titolo"),
            field("date", "2020-01-01"),
            field("old", "mankas"),
            field("transcript", "io"),
        ],
    );
    let e = parse_post(&entry).unwrap_err();
    assert_eq!(e, LoadError::MalformedErrata);
}

#[test]
fn errata_kept_in_encounter_order() {
    let entry = raw(
        "2020-01-01",
        vec![
            field("title", "Titolo"),
            field("date", "2020-01-01"),
            field("old", "a"),
            field("new", "b"),
            field("old", "c"),
            field("new", "d"),
        ],
    );
    let p = parse_post(&entry).expect("entry parses");
    assert_eq!(
        p.errata.0,
        vec![
            ("a".to_string(), "b".to_string()),
            ("c".to_string(), "d".to_string())
        ]
    );
}

#[test]
fn version_parsing() {
    for (text, value) in [("0", 0u32), ("3", 3), ("007", 7), ("999999999", 999_999_999)] {
        let entry = raw(
            "2020-01-01",
            vec![
                field("title", "Titolo"),
                field("date", "2020-01-01"),
                field("version", text),
            ],
        );
        let p = parse_post(&entry).expect("entry parses");
        assert_eq!(p.version, value, "version text {:?}", text);
        assert_eq!(p.props.revised, value > 0);
    }
    // A malformed optional field is ignored.
    for text in ["", "x", "1x", "1234567890"] {
        let entry = raw(
            "2020-01-01",
            vec![
                field("title", "Titolo"),
                field("date", "2020-01-01"),
                field("version", text),
            ],
        );
        let p = parse_post(&entry).expect("entry parses");
        assert_eq!(p.version, 0, "version text {:?}", text);
        assert!(!p.props.revised);
    }
}

#[test]
fn staleness_threshold() {
    let old = parse_post(&basic("2022-12-31", "Titolo", "2022-12-31")).unwrap();
    assert!(old.is_old);
    let fresh = parse_post(&basic("2023-01-01", "Titolo", "2023-01-01")).unwrap();
    assert!(!fresh.is_old);
}

#[test]
fn holiday_windows() {
    let cases = [
        ("2024-10-29", None),
        ("2024-10-30", Some(Special::Halloween)),
        ("2024-10-31", Some(Special::Halloween)),
        ("2024-11-01", Some(Special::Halloween)),
        ("2024-11-02", None),
        ("2024-12-23", None),
        ("2024-12-24", Some(Special::Christmas)),
        ("2024-12-26", Some(Special::Christmas)),
        ("2024-12-27", None),
        ("2024-12-31", Some(Special::NewYears)),
        ("2024-01-01", Some(Special::NewYears)),
        ("2024-01-02", Some(Special::NewYears)),
        ("2024-01-03", None),
    ];
    for (date, expected) in cases {
        let p = parse_post(&basic("2025-05-05", "Titolo", date)).unwrap();
        assert_eq!(p.special, expected, "date {:?}", date);
    }
}

#[test]
fn loaded_corpus_is_sorted_and_navigable() {
    let raws = vec![
        basic("2021-03-01", "Tria", "2005-03-01"),
        basic("2020-01-01", "Unua", "2004-01-01"),
        basic("2020-06-15", "Dua", "2004-06-15"),
    ];
    let list = build_posts(raws).expect("corpus loads");
    assert_eq!(list.len(), 3);
    assert_eq!(list.first().title, "Unua");
    assert_eq!(list.get(1).title, "Dua");
    assert_eq!(list.last().title, "Tria");
    // Indices ascend pairwise.
    for i in 0..list.len() {
        for j in (i + 1)..list.len() {
            assert!(list.get(i).index.key_value() < list.get(j).index.key_value());
        }
    }
    // Neighbor linkage agrees with positions.
    for i in 1..list.len() - 1 {
        let e = list.entry(i);
        let prev = e.prev().expect("has prev");
        let next = e.next().expect("has next");
        assert_eq!(prev.get().index, list.get(i - 1).index);
        assert_eq!(next.get().index, list.get(i + 1).index);
    }
    // Ends have no neighbor beyond them.
    assert!(list.entry(0).prev().is_none());
    assert!(list.entry(list.len() - 1).next().is_none());
    // The middle entry reaches both ends through stored references.
    let middle = list.entry(1);
    assert_eq!(middle.prev().unwrap().get().title, "Unua");
    assert_eq!(middle.next().unwrap().get().title, "Tria");
}

#[test]
fn sunday_round_trip_through_loader() {
    // 2024-12-25 is a Wednesday in the Christmas window.
    let list = build_posts(vec![basic("2024-12-25", "Titolo", "2024-12-25")]).unwrap();
    let p = list.first();
    assert!(!p.is_sunday);
    assert_eq!(p.special, Some(Special::Christmas));
    // 2024-12-22 is a Sunday.
    let list = build_posts(vec![basic("2024-12-22", "Titolo", "2024-12-22")]).unwrap();
    assert!(list.first().is_sunday);
}

#[test]
fn duplicate_index_rejected() {
    let raws = vec![
        basic("2020-01-01", "Unua", "2004-01-01"),
        basic("2020-01-01", "Dua", "2004-01-02"),
    ];
    let e = build_posts(raws).unwrap_err();
    assert_eq!(e, LoadError::DuplicateIndex("2020-01-01".to_string()));
}

#[test]
fn empty_corpus_rejected() {
    let e = build_posts(Vec::new()).unwrap_err();
    assert_eq!(e, LoadError::EmptyCorpus);
    let e2 = PostList::new(Vec::new()).unwrap_err();
    assert_eq!(e2, LoadError::EmptyCorpus);
}

#[test]
fn single_post_has_no_neighbors() {
    let list = build_posts(vec![basic("2020-01-01", "Sola", "2004-01-01")]).unwrap();
    assert_eq!(list.len(), 1);
    let only = list.entry(0);
    assert!(only.prev().is_none());
    assert!(only.next().is_none());
}

#[test]
fn first_failure_wins() {
    // The second entry is malformed in two ways (index and title), and
    // the first of its checks names the error.
    let raws = vec![
        basic("2020-01-01", "Unua", "2004-01-01"),
        raw("2020-13-40", vec![field("date", "2004-01-02")]),
        basic("2020-01-01", "Kopio", "2004-01-03"),
    ];
    let e = build_posts(raws).unwrap_err();
    assert_eq!(e, LoadError::MalformedIndex);
}

#[test]
fn loading_invalid_folder_name_fails() {
    let raws = vec![basic("2020-13-40", "Titolo", "2020-01-01")];
    assert_eq!(build_posts(raws).unwrap_err(), LoadError::MalformedIndex);
}

#[test]
fn loading_folder_without_title_fails() {
    let raws = vec![raw("2020-01-01", vec![field("date", "2020-01-01")])];
    assert_eq!(
        build_posts(raws).unwrap_err(),
        LoadError::MissingField("title".to_string())
    );
}

#[test]
fn lookup_by_index_and_text() {
    let raws = vec![
        basic("2020-01-01", "Unua", "2004-01-01"),
        basic("2020-06-15", "Dua", "2004-06-15"),
    ];
    let list = build_posts(raws).unwrap();
    let d = garfeo::date::parse_date("2020-06-15").unwrap();
    assert_eq!(list.position_of(&d), Some(1));
    assert_eq!(list.position_of_text("2020-01-01"), Some(0));
    assert_eq!(list.position_of_text("2020-06-16"), None);
    assert_eq!(list.position_of_text("ne-dato"), None);
}
