use garfeo::date::{parse_date, Date};
use garfeo::list::build_posts;
use garfeo::post::RawPost;
use garfeo::site::{favorite_positions, format_date_slashed, full_title, site_context, site_context_texts};

fn entry(dir: &str, good: bool) -> RawPost {
    let mut fields = vec![
        ("title".to_string(), format!("Titolo {}", dir)),
        ("date".to_string(), dir.to_string()),
    ];
    if good {
        fields.push(("good".to_string(), String::new()));
    }
    RawPost {
        dir_name: dir.to_string(),
        fields,
        has_esperanto_image: true,
        has_english_image: true,
    }
}

#[test]
fn slashed_date_fragment() {
    let d = parse_date("2024-12-25").unwrap();
    assert_eq!(format_date_slashed(&d), "2024/12/25");
    let d = Date { year: 2004, month: 6, day: 19 };
    assert_eq!(format_date_slashed(&d), "2004/06/19");
}

#[test]
fn full_title_forms() {
    assert_eq!(full_title(""), "Garfildo Esperanta");
    assert_eq!(full_title("Informejo"), "Garfildo Esperanta - Informejo");
}

#[test]
fn favorites_keep_corpus_order() {
    let list = build_posts(vec![
        entry("2020-01-01", false),
        entry("2020-01-02", true),
        entry("2020-01-03", false),
        entry("2020-01-04", true),
    ])
    .unwrap();
    let favs = favorite_positions(&list);
    assert_eq!(favs, vec![1, 3]);
    assert!(list.get(1).props.good);
    assert!(list.get(3).props.good);
}

#[test]
fn context_carries_first_and_last() {
    let list = build_posts(vec![
        entry("2021-05-05", false),
        entry("2019-05-05", false),
        entry("2020-05-05", false),
    ])
    .unwrap();
    let ctx = site_context(&list);
    let (first, last) = site_context_texts(&ctx);
    assert_eq!(first, "2019-05-05");
    assert_eq!(last, "2021-05-05");
}
