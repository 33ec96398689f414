use genshin_gallery_api::artwork::{ArtworkInfo, ArtworkModerate, Category};
use genshin_gallery_api::store::{collection_name_by_artwork_type, ArtStore, ArtworkQueryOption};

fn record(art_id: i64, title: &str, characters: Vec<&str>, upload_timestamp: i64) -> ArtworkInfo {
    ArtworkInfo {
        art_id,
        title: title.to_string(),
        tag_str: String::new(),
        characters: characters.into_iter().map(|c| c.to_string()).collect(),
        view_count: 0,
        like_count: 0,
        love_count: 0,
        artist_id: 1,
        upload_timestamp,
        is_404: None,
        sl: None,
        images: None,
        moderate: Some(ArtworkModerate {
            art_type: Some("SFW".to_string()),
            status: Some("PASS".to_string()),
            reason: None,
        }),
    }
}

fn moderated(mut rec: ArtworkInfo, art_type: &str, status: &str) -> ArtworkInfo {
    rec.moderate = Some(ArtworkModerate {
        art_type: Some(art_type.to_string()),
        status: Some(status.to_string()),
        reason: None,
    });
    rec
}

#[test]
fn unrecognized_labels_fall_open_to_sfw() {
    assert_eq!(collection_name_by_artwork_type("SFW"), "artworks_sfw");
    assert_eq!(collection_name_by_artwork_type("sfw"), "artworks_sfw");
    assert_eq!(collection_name_by_artwork_type("NSFW"), "artworks_nsfw");
    assert_eq!(collection_name_by_artwork_type("nSfW"), "artworks_nsfw");
    assert_eq!(collection_name_by_artwork_type("R18"), "artworks_r18");
    assert_eq!(collection_name_by_artwork_type("r18"), "artworks_r18");
    assert_eq!(collection_name_by_artwork_type(""), "artworks_sfw");
    assert_eq!(collection_name_by_artwork_type("unknown"), "artworks_sfw");
    assert_eq!(collection_name_by_artwork_type("R-18"), "artworks_sfw");
}

#[test]
fn long_s_labels_resolve_by_their_upper_case() {
    assert_eq!(collection_name_by_artwork_type("n\u{17F}fw"), "artworks_nsfw");
    assert_eq!(collection_name_by_artwork_type("N\u{17F}FW"), "artworks_nsfw");
    assert_eq!(collection_name_by_artwork_type("\u{17F}fw"), "artworks_sfw");
}

#[test]
fn select_by_ids_orders_a_fetched_batch() {
    let fetched = vec![
        record(3, "three", vec![], 30),
        record(1, "one", vec![], 10),
        record(2, "two", vec![], 20),
    ];
    let selected = genshin_gallery_api::store::select_by_ids(fetched, &vec![2, 9, 1, 2]);
    let titles: Vec<&str> = selected.iter().map(|r| r.title.as_str()).collect();
    assert_eq!(titles, vec!["two", "one", "two"]);
}

#[test]
fn get_by_ids_empty_input_yields_empty_output() {
    let mut store = ArtStore::new();
    store.upsert_one(record(1, "a", vec![], 10));
    let out = store.get_by_ids(&Vec::new());
    assert_eq!(out.len(), 0);
}

#[test]
fn get_by_ids_preserves_order_and_duplicates_drops_unknown() {
    let mut store = ArtStore::new();
    store.upsert_one(record(1, "record a", vec![], 10));
    let out = store.get_by_ids(&vec![1, 2, 1]);
    assert_eq!(out.len(), 2);
    assert_eq!(out[0].art_id, 1);
    assert_eq!(out[0].title, "record a");
    assert_eq!(out[1].art_id, 1);
    assert_eq!(out[1].title, "record a");
}

#[test]
fn upsert_same_id_twice_keeps_one_record_with_latest_title() {
    let mut store = ArtStore::new();
    store.upsert_one(record(7, "first title", vec![], 10));
    store.upsert_one(record(7, "second title", vec![], 11));
    assert_eq!(store.count_total(), 1);
    let found = store.find_record(7).unwrap();
    assert_eq!(found.title, "second title");
    assert_eq!(found.upload_timestamp, 11);
}

#[test]
fn upsert_many_inserts_and_replaces() {
    let mut store = ArtStore::new();
    store.upsert_one(record(1, "old", vec![], 1));
    store.upsert_many(vec![
        record(2, "two", vec![], 2),
        record(1, "new", vec![], 3),
        record(3, "three", vec![], 4),
    ]);
    assert_eq!(store.count_total(), 3);
    assert_eq!(store.find_record(1).unwrap().title, "new");
    assert_eq!(store.find_record(2).unwrap().title, "two");
    assert_eq!(store.find_record(3).unwrap().title, "three");
}

#[test]
fn rewriting_a_record_unchanged_changes_nothing() {
    let mut store = ArtStore::new();
    store.upsert_one(record(5, "kept", vec!["Klee"], 42));
    let read_back = store.find_record(5).unwrap();
    store.upsert_one(read_back);
    assert_eq!(store.count_total(), 1);
    let again = store.find_record(5).unwrap();
    assert_eq!(again.title, "kept");
    assert_eq!(again.characters, vec!["Klee".to_string()]);
    assert_eq!(again.upload_timestamp, 42);
}

#[test]
fn latest_upload_timestamp_is_zero_on_empty_store() {
    let store = ArtStore::new();
    assert_eq!(store.latest_upload_timestamp(), 0);
}

#[test]
fn latest_upload_timestamp_is_the_maximum() {
    let mut store = ArtStore::new();
    store.upsert_one(record(1, "a", vec![], 5));
    store.upsert_one(record(2, "b", vec![], 9));
    store.upsert_one(record(3, "c", vec![], 7));
    assert_eq!(store.latest_upload_timestamp(), 9);
}

#[test]
fn list_ids_sorts_newest_first() {
    let mut store = ArtStore::new();
    store.upsert_one(record(11, "a", vec![], 1));
    store.upsert_one(record(12, "b", vec![], 3));
    store.upsert_one(record(13, "c", vec![], 2));
    let ids = store.list_ids(&ArtworkQueryOption::new(None, None));
    assert_eq!(ids, vec![12, 13, 11]);
}

#[test]
fn list_ids_selects_by_category_and_excludes_dead_records() {
    let mut store = ArtStore::new();
    store.upsert_one(record(1, "sfw pass", vec![], 10));
    store.upsert_one(moderated(record(2, "r18 push", vec![], 20), "R18", "PUSH"));
    store.upsert_one(moderated(record(3, "sfw rejected", vec![], 30), "SFW", "REJECT"));
    let mut gone = record(4, "sfw 404", vec![], 40);
    gone.is_404 = Some(true);
    store.upsert_one(gone);
    store.upsert_one({
        let mut r = record(5, "no moderation", vec![], 50);
        r.moderate = None;
        r
    });
    store.upsert_one(moderated(record(6, "lowercase type", vec![], 60), "sfw", "PASS"));

    let sfw_ids = store.list_ids(&ArtworkQueryOption::new(None, None));
    assert_eq!(sfw_ids, vec![1]);
    let r18_ids = store.list_ids(&ArtworkQueryOption::new(None, Some("r18".to_string())));
    assert_eq!(r18_ids, vec![2]);
    let unknown_label = store.list_ids(&ArtworkQueryOption::new(None, Some("whatever".to_string())));
    assert_eq!(unknown_label, vec![1]);
}

#[test]
fn list_ids_character_filter_is_case_insensitive_substring() {
    let mut store = ArtStore::new();
    store.upsert_one(record(1, "a", vec!["Hu Tao"], 3));
    store.upsert_one(record(2, "b", vec!["Zhongli"], 2));
    store.upsert_one(record(3, "c", vec!["hu tao", "Yanfei"], 1));

    let opts = ArtworkQueryOption::new(Some(vec!["HU TAO".to_string()]), None);
    assert_eq!(store.list_ids(&opts), vec![1, 3]);

    let opts = ArtworkQueryOption::new(Some(vec!["  zhong  ".to_string()]), None);
    assert_eq!(store.list_ids(&opts), vec![2]);

    let opts = ArtworkQueryOption::new(Some(vec!["nobody".to_string()]), None);
    assert_eq!(store.list_ids(&opts).len(), 0);
}

#[test]
fn blank_character_filters_match_everything() {
    let mut store = ArtStore::new();
    store.upsert_one(record(1, "a", vec!["Hu Tao"], 2));
    store.upsert_one(record(2, "b", vec![], 1));
    let opts = ArtworkQueryOption::new(
        Some(vec!["   ".to_string(), "\t".to_string(), String::new()]),
        None,
    );
    assert_eq!(store.list_ids(&opts), vec![1, 2]);
}

#[test]
fn counts_by_category_and_total() {
    let mut store = ArtStore::new();
    store.upsert_one(record(1, "a", vec![], 1));
    store.upsert_one(record(2, "b", vec![], 2));
    store.upsert_one(moderated(record(3, "c", vec![], 3), "NSFW", "PASS"));
    store.upsert_one(moderated(record(4, "d", vec![], 4), "R18", "PUSH"));
    store.upsert_one(moderated(record(5, "e", vec![], 5), "SFW", "OTHER"));
    assert_eq!(store.count_total(), 5);
    assert_eq!(store.count_by_category(Category::Sfw), 2);
    assert_eq!(store.count_by_category(Category::Nsfw), 1);
    assert_eq!(store.count_by_category(Category::R18), 1);
}
