use unicode_layzy_match::matcher::{initials_match, match_layzy_pinyin, starts_with_unspaced};
use unicode_layzy_match::{match_transliterated, unicode_layzy_match};

fn owned(v: &[&str]) -> Vec<String> {
    v.iter().map(|s| s.to_string()).collect()
}

#[test]
fn tets_unicode_layzy_match_witch_layzy_acsii() {
    let lst_hz = vec![
        "不算",
        "Beif",
        "よろしく",
        "北方",
        "不对",
        "こんにちわ",
        "同步",
        "Привет",
        "彼方",
        "其他",
    ];

    assert_eq!(vec!["よろしく"], unicode_layzy_match(&lst_hz, "y").unwrap());
    assert_eq!(vec!["Привет"], unicode_layzy_match(&lst_hz, "Priv").unwrap());
}

#[test]
fn tets_unicode_layzy_match_witch_layzy_pinyin() {
    let lst_hz = vec![
        "不算",
        "Beif",
        "よろしく",
        "不对",
        "北方",
        "こんにちわ",
        "同步",
        "Привет",
        "彼方",
        "其他",
    ];

    assert_eq!(
        vec!["Beif", "不算", "不对", "北方", "彼方"],
        unicode_layzy_match(&lst_hz, "b").unwrap()
    );
    assert_eq!(vec!["北方", "彼方"], unicode_layzy_match(&lst_hz, "bf").unwrap());

    assert_eq!(vec!["Beif", "北方"], unicode_layzy_match(&lst_hz, "beif").unwrap());
    assert_eq!(vec!["北方"], unicode_layzy_match(&lst_hz, "beifa").unwrap());
}

#[test]
fn tets_unicode_layzy_match_witch_not_matched() {
    let lst_hz = vec!["北方", "彼方", "其他", "不凡"];
    assert!(unicode_layzy_match(&lst_hz, "wd").is_none());
}

#[test]
fn doc_example_list() {
    let lst_uc = vec![
        "不算",
        "北方",
        "不对",
        "よろしく",
        "こんにちわ",
        "Привет",
        "同步",
        "彼方",
        "其他",
    ];
    assert_eq!(vec!["よろしく"], unicode_layzy_match(&lst_uc, "y").unwrap());
    assert_eq!(vec!["こんにちわ"], unicode_layzy_match(&lst_uc, "kon").unwrap());
    assert_eq!(vec!["北方", "彼方"], unicode_layzy_match(&lst_uc, "bf").unwrap());
    assert_eq!(vec!["Привет"], unicode_layzy_match(&lst_uc, "Priv").unwrap());
}

#[test]
fn scenario_mixed_scripts() {
    let lst = vec!["不算", "北方", "不对", "よろしく", "こんにちわ", "同步", "彼方", "其他"];
    assert_eq!(Some(vec!["よろしく"]), unicode_layzy_match(&lst, "y"));
    assert_eq!(Some(vec!["こんにちわ"]), unicode_layzy_match(&lst, "kon"));
    assert_eq!(
        Some(vec!["不算", "北方", "不对", "彼方"]),
        unicode_layzy_match(&lst, "b")
    );
}

#[test]
fn prefix_ignores_syllable_breaks() {
    assert_eq!(Some(vec!["北方"]), unicode_layzy_match(&["北方"], "beif"));
}

#[test]
fn initials_need_one_letter_per_syllable() {
    assert_eq!(Some(vec!["北方"]), unicode_layzy_match(&["北方"], "bf"));
    assert_eq!(Some(vec!["不凡"]), unicode_layzy_match(&["不凡"], "bf"));
    assert_eq!(None, unicode_layzy_match(&["北方"], "bfa"));
}

#[test]
fn initials_match_reported_once() {
    assert_eq!(Some(vec!["北方"]), unicode_layzy_match(&["北方"], "bf"));
    let cands = ["北方", "bf"];
    let ts = owned(&["bei fang", "bf"]);
    assert_eq!(Some(vec!["北方", "bf"]), match_transliterated(&cands, &ts, "bf"));
}

#[test]
fn first_letter_mismatch_gives_none() {
    assert_eq!(None, unicode_layzy_match(&["其他"], "b"));
}

#[test]
fn empty_query_gives_none() {
    assert_eq!(None, unicode_layzy_match(&["北方", "abc"], ""));
    assert_eq!(None, match_transliterated(&["a"], &owned(&["a"]), ""));
}

#[test]
fn empty_candidate_list_gives_none() {
    let empty: Vec<&str> = vec![];
    assert_eq!(None, unicode_layzy_match(&empty, "b"));
}

#[test]
fn same_inputs_same_result() {
    let lst = vec!["不算", "北方", "不对", "彼方", "其他"];
    assert_eq!(unicode_layzy_match(&lst, "b"), unicode_layzy_match(&lst, "b"));
    assert_eq!(unicode_layzy_match(&lst, "bf"), unicode_layzy_match(&lst, "bf"));
}

#[test]
fn query_longer_than_transliteration() {
    assert_eq!(None, match_transliterated(&["x"], &owned(&["ab"]), "abc"));
    assert_eq!(None, unicode_layzy_match(&["北"], "beifang"));
}

#[test]
fn duplicates_are_kept() {
    assert_eq!(
        Some(vec!["北方", "北方"]),
        unicode_layzy_match(&["北方", "其他", "北方"], "bf")
    );
}

#[test]
fn query_is_case_insensitive() {
    assert_eq!(Some(vec!["北方"]), unicode_layzy_match(&["北方"], "BF"));
    assert_eq!(Some(vec!["北方"]), unicode_layzy_match(&["北方"], "BeiF"));
}

#[test]
fn query_with_space_matches_nothing() {
    let cands = ["a", "b", "c"];
    let ts = owned(&["bei fang", "bu dui", "beifang"]);
    assert_eq!(None, match_transliterated(&cands, &ts, "bei f"));
}

#[test]
fn leading_space_fails_first_letter_filter() {
    let cands = ["a", "b"];
    let ts = owned(&[" bei", "bei"]);
    assert_eq!(Some(vec!["b"]), match_transliterated(&cands, &ts, "b"));
}

#[test]
fn initials_over_other_white_space() {
    let cands = ["a", "b", "c"];
    let ts = owned(&["bei\tfang", "bei\u{3000}fang", "bei-fang"]);
    assert_eq!(Some(vec!["a", "b"]), match_transliterated(&cands, &ts, "bf"));
}

#[test]
fn initials_and_prefix_keep_input_order() {
    let cands = ["p", "q", "r", "s"];
    let ts = owned(&["bu suan", "b", "qi ta", "bei fang"]);
    assert_eq!(Some(vec!["q", "p", "s"]), match_transliterated(&cands, &ts, "b"));
}

#[test]
fn transliterations_compared_in_lowercase() {
    let cands = ["x", "y", "z"];
    let ts = owned(&["Bei Fang", "BEIJING", "Qi Ta"]);
    assert_eq!(Some(vec!["x"]), match_transliterated(&cands, &ts, "bf"));
    assert_eq!(Some(vec!["x", "y"]), match_transliterated(&cands, &ts, "BEI"));
    assert_eq!(None, match_transliterated(&cands, &ts, "bt"));
}

#[test]
fn initials_of_syllables() {
    assert!(initials_match("bei fang", "bf"));
    assert!(!initials_match("Bei Fang", "bf"));
    assert!(!initials_match("bei fang", "bfa"));
    assert!(!initials_match("bei fang", "b"));
    assert!(initials_match("  bei   fang ", "bf"));
    assert!(match_layzy_pinyin("Bei Fang", "bf"));
    assert!(!match_layzy_pinyin("Bei Fang", "bx"));
}

#[test]
fn prefix_without_spaces() {
    assert!(starts_with_unspaced("bei fang", "beif"));
    assert!(starts_with_unspaced("bei fang", ""));
    assert!(!starts_with_unspaced("bei fang", "bei f"));
    assert!(!starts_with_unspaced("bei", "beif"));
}
