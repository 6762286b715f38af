use margin_notes::item::Item;
use margin_notes::notes::ExtractedNotes;
use margin_notes::reading::{
    choose_title, collect_comments, collect_image_ids, stable_id_from_url, title_warning,
    title_warnings, url_and_id, ExtractError,
};
use margin_notes::title::normalize_title;

fn strings(items: &[&str]) -> Vec<String> {
    items.iter().map(|s| s.to_string()).collect()
}

#[test]
fn title_runs_of_white_space_collapse() {
    assert_eq!(normalize_title("  Summary \n\n of   Chapter "), "Summary of Chapter");
}

#[test]
fn title_tabs_and_newlines_become_one_space() {
    assert_eq!(normalize_title("a\t\tb\r\nc"), "a b c");
}

#[test]
fn title_unicode_white_space_counts() {
    assert_eq!(normalize_title("\u{3000}a\u{a0}\u{2003}b\u{2028}"), "a b");
}

#[test]
fn title_single_white_space_becomes_a_space() {
    assert_eq!(normalize_title("a\tb"), "a b");
}

#[test]
fn title_without_white_space_is_kept() {
    assert_eq!(normalize_title("Chapter"), "Chapter");
}

#[test]
fn title_of_white_space_only_is_empty() {
    assert_eq!(normalize_title(" \n\t "), "");
    assert_eq!(normalize_title(""), "");
}

#[test]
fn title_normalized_twice_is_the_same() {
    let once = normalize_title("  x \n y  ");
    assert_eq!(normalize_title(&once), once);
}

#[test]
fn title_falls_back_to_the_identifier() {
    let id = Some("ABCD-1234".to_string());
    let choice = choose_title("  \n ", &id).unwrap();
    assert_eq!(choice.given_title, None);
    assert_eq!(choice.title, "ABCD-1234");
}

#[test]
fn title_given_wins_over_the_identifier() {
    let id = Some("ABCD-1234".to_string());
    let choice = choose_title(" My  note ", &id).unwrap();
    assert_eq!(choice.given_title, Some("My note".to_string()));
    assert_eq!(choice.title, "My note");
}

#[test]
fn title_given_without_identifier() {
    let choice = choose_title("Group", &None).unwrap();
    assert_eq!(choice.given_title, Some("Group".to_string()));
    assert_eq!(choice.title, "Group");
}

#[test]
fn title_missing_without_identifier_is_an_error() {
    assert!(matches!(choose_title("   ", &None), Err(ExtractError::Untitled)));
}

#[test]
fn identifier_follows_the_address_prefix() {
    assert_eq!(stable_id_from_url("marginnote3app://note/ABCD-1234"), "ABCD-1234");
}

#[test]
fn identifier_of_a_short_address_is_empty() {
    assert_eq!(stable_id_from_url("marginnote3app://note/"), "");
    assert_eq!(stable_id_from_url("short"), "");
}

#[test]
fn identifier_counts_characters_not_bytes() {
    assert_eq!(stable_id_from_url("çççççççççççççççççççççç-id"), "-id");
}

#[test]
fn address_and_identifier_come_together() {
    let (url, id) = url_and_id(Some("marginnote3app://note/XYZ".to_string()));
    assert_eq!(url, Some("marginnote3app://note/XYZ".to_string()));
    assert_eq!(id, Some("XYZ".to_string()));
    let (url, id) = url_and_id(None);
    assert_eq!(url, None);
    assert_eq!(id, None);
}

#[test]
fn images_of_the_cells_come_first() {
    let ids = collect_image_ids(&strings(&["a", "b"]), &strings(&["c"]));
    assert_eq!(ids, strings(&["a", "b", "c"]));
}

#[test]
fn images_may_be_missing() {
    assert_eq!(collect_image_ids(&strings(&[]), &strings(&[])), strings(&[]));
    assert_eq!(collect_image_ids(&strings(&[]), &strings(&["c"])), strings(&["c"]));
}

#[test]
fn comments_are_joined_without_separator() {
    assert_eq!(collect_comments(&strings(&["one ", "two", "three"])), Some("one twothree".to_string()));
}

#[test]
fn comments_without_text_are_none() {
    assert_eq!(collect_comments(&strings(&[])), None);
}

#[test]
fn comments_of_one_empty_text_are_empty() {
    assert_eq!(collect_comments(&strings(&[""])), Some(String::new()));
}

#[test]
fn fallback_to_the_identifier_gives_a_warning() {
    let id = Some("ABCD-1234".to_string());
    let choice = choose_title("\t", &id).unwrap();
    let item = Item {
        given_title: choice.given_title,
        margin_note_id: id,
        image_ids: vec![],
        comments: None,
    };
    assert_eq!(choice.title, "ABCD-1234");
    assert_eq!(
        title_warning(&item),
        Some("Warning using margin note id as title for ABCD-1234".to_string())
    );
}

#[test]
fn titled_item_gives_no_warning() {
    let item = Item {
        given_title: Some("T".to_string()),
        margin_note_id: Some("ABCD-1234".to_string()),
        image_ids: vec![],
        comments: None,
    };
    assert_eq!(title_warning(&item), None);
    let group = Item {
        given_title: Some("T".to_string()),
        margin_note_id: None,
        image_ids: vec![],
        comments: None,
    };
    assert_eq!(title_warning(&group), None);
}

#[test]
fn warnings_follow_the_positions_of_the_items() {
    let item = |title: Option<&str>, id: Option<&str>| Item {
        given_title: title.map(|s| s.to_string()),
        margin_note_id: id.map(|s| s.to_string()),
        image_ids: vec![],
        comments: None,
    };
    let mut notes = ExtractedNotes::new();
    assert_eq!(title_warnings(&notes), Vec::<String>::new());
    let a = notes.add_root(item(None, Some("ID-A")));
    notes.add_child(a, item(Some("T"), Some("ID-B")));
    notes.add_child(a, item(None, Some("ID-C")));
    notes.add_root(item(Some("G"), None));
    assert_eq!(
        title_warnings(&notes),
        vec![
            "Warning using margin note id as title for ID-A".to_string(),
            "Warning using margin note id as title for ID-C".to_string()
        ]
    );
}

#[test]
fn title_is_the_words_joined_by_single_spaces() {
    for raw in [
        "  Summary \n\n of   Chapter ",
        "one",
        " one",
        "one ",
        "a\tb\u{a0}c\u{3000}\u{2003}d",
        "x  y",
        "",
        " \n ",
        "é  ü\r\nß",
    ] {
        let words: Vec<&str> = raw.split_whitespace().collect();
        assert_eq!(normalize_title(raw), words.join(" "));
    }
}
