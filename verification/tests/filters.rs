use genshin_gallery_api::artwork::{ArtworkInfo, ArtworkModerate, Category};
use genshin_gallery_api::filter::compile_character_filter;
use genshin_gallery_api::text::{ci_contains_bytes, ci_eq_bytes, eq_bytes, trim_bytes};

fn plain_record(characters: Vec<&str>) -> ArtworkInfo {
    ArtworkInfo {
        art_id: 1,
        title: String::new(),
        tag_str: String::new(),
        characters: characters.into_iter().map(|c| c.to_string()).collect(),
        view_count: 0,
        like_count: 0,
        love_count: 0,
        artist_id: 0,
        upload_timestamp: 0,
        is_404: None,
        sl: None,
        images: None,
        moderate: None,
    }
}

#[test]
fn blank_names_compile_to_the_permissive_filter() {
    let names = vec!["   ".to_string(), "\t\n".to_string(), String::new()];
    let filter = compile_character_filter(&names);
    assert!(filter.is_match_all());
    assert!(filter.matches(&plain_record(vec![])));
    assert!(filter.matches(&plain_record(vec!["anyone"])));
}

#[test]
fn compiled_filter_trims_and_drops_blanks() {
    let names = vec!["  Ganyu ".to_string(), "  ".to_string(), "Keqing".to_string()];
    let filter = compile_character_filter(&names);
    assert!(!filter.is_match_all());
    assert_eq!(filter.conds.len(), 2);
    assert_eq!(filter.conds[0], b"Ganyu".to_vec());
    assert_eq!(filter.conds[1], b"Keqing".to_vec());
}

#[test]
fn filter_matches_any_of_its_conditions() {
    let names = vec!["ganyu".to_string(), "keqing".to_string()];
    let filter = compile_character_filter(&names);
    assert!(filter.matches(&plain_record(vec!["Keqing"])));
    assert!(filter.matches(&plain_record(vec!["Shenhe", "GANYU"])));
    assert!(!filter.matches(&plain_record(vec!["Shenhe"])));
    assert!(!filter.matches(&plain_record(vec![])));
}

#[test]
fn matching_is_substring_based() {
    let filter = compile_character_filter(&vec!["tao".to_string()]);
    assert!(filter.matches(&plain_record(vec!["Hu Tao"])));
    assert!(!filter.matches(&plain_record(vec!["Hu T ao"])));
}

#[test]
fn non_ascii_names_match_exactly() {
    let filter = compile_character_filter(&vec![" 刻晴 ".to_string()]);
    assert!(filter.matches(&plain_record(vec!["刻晴"])));
    assert!(filter.matches(&plain_record(vec!["「刻晴」甘雨"])));
    assert!(!filter.matches(&plain_record(vec!["甘雨"])));
}

#[test]
fn trim_removes_ascii_whitespace_at_both_ends() {
    assert_eq!(trim_bytes(b"  hello \t"), b"hello".to_vec());
    assert_eq!(trim_bytes(b"\n\r"), Vec::<u8>::new());
    assert_eq!(trim_bytes(b"a b"), b"a b".to_vec());
    assert_eq!(trim_bytes(b""), Vec::<u8>::new());
}

#[test]
fn trim_removes_unicode_whitespace_at_both_ends() {
    assert_eq!(trim_bytes("\u{A0}a".as_bytes()), b"a".to_vec());
    assert_eq!(trim_bytes("\u{3000}hi\u{2028}".as_bytes()), b"hi".to_vec());
    assert_eq!(trim_bytes("\u{0085}\u{2009} x \u{205F}".as_bytes()), b"x".to_vec());
    assert_eq!(trim_bytes("\u{A0}\u{1680}\u{202F}".as_bytes()), Vec::<u8>::new());
    assert_eq!(trim_bytes("a\u{A0}b".as_bytes()), "a\u{A0}b".as_bytes().to_vec());
}

#[test]
fn unicode_blank_names_compile_to_the_permissive_filter() {
    let names = vec!["\u{A0}".to_string(), "\u{3000}\u{2029}".to_string()];
    let filter = compile_character_filter(&names);
    assert!(filter.is_match_all());
    assert!(filter.matches(&plain_record(vec![])));
}

#[test]
fn compiled_conditions_lose_unicode_whitespace_edges() {
    let names = vec!["\u{A0}Zhongli\u{3000}".to_string()];
    let filter = compile_character_filter(&names);
    assert_eq!(filter.conds.len(), 1);
    assert_eq!(filter.conds[0], b"Zhongli".to_vec());
}

#[test]
fn byte_comparisons_fold_ascii_case_only() {
    assert!(ci_eq_bytes(b"R18", b"r18"));
    assert!(!ci_eq_bytes(b"R18", b"R-18"));
    assert!(eq_bytes(b"PASS", b"PASS"));
    assert!(!eq_bytes(b"PASS", b"pass"));
    assert!(ci_contains_bytes(b"Hello World", b"o w"));
    assert!(!ci_contains_bytes(b"Hello", b"world"));
    assert!(ci_contains_bytes(b"abc", b""));
}

#[test]
fn category_membership_requires_exact_type_and_live_status() {
    let mut rec = plain_record(vec![]);
    assert!(!rec.in_category(Category::Sfw));
    rec.moderate = Some(ArtworkModerate {
        art_type: Some("SFW".to_string()),
        status: Some("PUSH".to_string()),
        reason: None,
    });
    assert!(rec.in_category(Category::Sfw));
    assert!(!rec.in_category(Category::Nsfw));
    rec.is_404 = Some(true);
    assert!(!rec.in_category(Category::Sfw));
    rec.is_404 = Some(false);
    assert!(rec.in_category(Category::Sfw));
}
