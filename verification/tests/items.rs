use margin_notes::item::{make_link, Item};

fn item(title: Option<&str>, id: Option<&str>) -> Item {
    Item {
        given_title: title.map(|s| s.to_string()),
        margin_note_id: id.map(|s| s.to_string()),
        image_ids: vec![],
        comments: None,
    }
}

#[test]
fn metadata_of_a_titled_item_with_parent() {
    let front = item(Some("Summary"), Some("ID-1")).metadata(Some("(LIT) Book".to_string()));
    assert_eq!(front.tags, vec!["source-margin-note".to_string()]);
    assert_eq!(front.margin_note_id, Some("ID-1".to_string()));
    assert_eq!(front.up, Some(vec!["[[(LIT) Book]]".to_string()]));
    assert_eq!(front.title, Some("Summary".to_string()));
}

#[test]
fn metadata_of_a_root_group() {
    let front = item(Some("Group"), None).metadata(None);
    assert_eq!(front.tags, vec!["source-margin-note".to_string()]);
    assert_eq!(front.margin_note_id, None);
    assert_eq!(front.up, None);
    assert_eq!(front.title, Some("Group".to_string()));
}

#[test]
fn url_is_rebuilt_from_the_identifier() {
    assert_eq!(
        item(None, Some("ABCD-1234")).margin_note_url(),
        Some("marginnote3app://note/ABCD-1234".to_string())
    );
}

#[test]
fn url_is_missing_without_identifier() {
    assert_eq!(item(Some("Group"), None).margin_note_url(), None);
}

#[test]
fn link_is_bracketed() {
    assert_eq!(make_link("a b"), "[[a b]]");
    assert_eq!(make_link(""), "[[]]");
}

#[test]
fn items_compare_by_their_fields() {
    assert_eq!(item(Some("a"), Some("b")), item(Some("a"), Some("b")));
    assert_ne!(item(Some("a"), Some("b")), item(Some("a"), None));
}
