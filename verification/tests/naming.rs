use margin_notes::item::Item;
use margin_notes::naming::{create_node_name_map, initial_note_name, settle_name, NamingError};
use margin_notes::notes::ExtractedNotes;
use margin_notes::textmap::TextMap;

fn item(title: Option<&str>, id: Option<&str>) -> Item {
    Item {
        given_title: title.map(|s| s.to_string()),
        margin_note_id: id.map(|s| s.to_string()),
        image_ids: vec![],
        comments: None,
    }
}

fn name_of(table: &TextMap, id: &str) -> Option<String> {
    table.get(&id.to_string()).cloned()
}

#[test]
fn initial_name_has_the_marker() {
    assert_eq!(initial_note_name(&item(Some("Summary"), Some("ID-1"))), "(LIT) Summary");
}

#[test]
fn initial_name_replaces_path_separators() {
    assert_eq!(initial_note_name(&item(Some("a/b/c"), None)), "(LIT) a(or)b(or)c");
    assert_eq!(initial_note_name(&item(Some("/"), None)), "(LIT) (or)");
}

#[test]
fn initial_name_keeps_other_punctuation() {
    assert_eq!(initial_note_name(&item(Some("a\\b $1 (x)"), None)), "(LIT) a\\b $1 (x)");
}

#[test]
fn initial_name_without_title_is_the_identifier() {
    assert_eq!(initial_note_name(&item(None, Some("AB/CD"))), "(LIT) AB/CD");
}

#[test]
fn forest_positions_count_from_one() {
    let mut notes = ExtractedNotes::new();
    assert_eq!(notes.len(), 0);
    let a = notes.add_root(item(Some("A"), Some("1")));
    let b = notes.add_child(a, item(Some("B"), Some("2")));
    let c = notes.add_child(a, item(Some("C"), None));
    let d = notes.add_child(b, item(Some("D"), Some("4")));
    let e = notes.add_root(item(Some("E"), Some("5")));
    assert_eq!((a, b, c, d, e), (1, 2, 3, 4, 5));
    assert_eq!(notes.len(), 5);
    assert_eq!(notes.roots, vec![1, 5]);
    assert_eq!(notes.parent(a), None);
    assert_eq!(notes.parent(b), Some(a));
    assert_eq!(notes.parent(c), Some(a));
    assert_eq!(notes.parent(d), Some(b));
    assert_eq!(notes.parent(e), None);
    assert_eq!(notes.children(a), vec![b, c]);
    assert_eq!(notes.children(b), vec![d]);
    assert_eq!(notes.children(c), Vec::<usize>::new());
    assert_eq!(notes.item(d).given_title, Some("D".to_string()));
    assert_eq!(notes.item(c).margin_note_id, None);
    assert_eq!(notes.item(e).margin_note_id, Some("5".to_string()));
}

#[test]
fn names_without_collision_are_initial_names() {
    let mut notes = ExtractedNotes::new();
    let a = notes.add_root(item(Some("Book"), Some("1")));
    notes.add_child(a, item(Some("Summary"), Some("2")));
    notes.add_child(a, item(None, Some("3")));
    let table = create_node_name_map(&notes).unwrap();
    assert_eq!(table.len(), 3);
    assert_eq!(name_of(&table, "1"), Some("(LIT) Book".to_string()));
    assert_eq!(name_of(&table, "2"), Some("(LIT) Summary".to_string()));
    assert_eq!(name_of(&table, "3"), Some("(LIT) 3".to_string()));
}

#[test]
fn names_skip_items_without_identifier() {
    let mut notes = ExtractedNotes::new();
    let a = notes.add_root(item(Some("Group"), None));
    notes.add_child(a, item(Some("Group"), Some("1")));
    let table = create_node_name_map(&notes).unwrap();
    assert_eq!(table.len(), 1);
    assert_eq!(name_of(&table, "1"), Some("(LIT) Group".to_string()));
}

#[test]
fn colliding_name_takes_the_parent_in_brackets() {
    let mut notes = ExtractedNotes::new();
    let one = notes.add_root(item(Some("Chapter 1"), Some("ca")));
    let two = notes.add_root(item(Some("Chapter 2"), Some("cb")));
    notes.add_child(one, item(Some("Summary"), Some("sa")));
    notes.add_child(two, item(Some("Summary"), Some("sb")));
    let table = create_node_name_map(&notes).unwrap();
    let first = name_of(&table, "sa").unwrap();
    let second = name_of(&table, "sb").unwrap();
    assert_eq!(first, "(LIT) Summary");
    assert_eq!(second, "(LIT) Summary ((LIT) Chapter 2)");
    assert_ne!(first, second);
    assert!(second.contains("(LIT) Chapter 2"));
}

#[test]
fn colliding_names_walk_up_the_ancestors() {
    let mut notes = ExtractedNotes::new();
    let book = notes.add_root(item(Some("Book"), Some("b")));
    let part_a = notes.add_child(book, item(Some("Part"), Some("pa")));
    notes.add_child(part_a, item(Some("Summary"), Some("sa")));
    let other = notes.add_root(item(Some("Other"), Some("o")));
    let part_b = notes.add_child(other, item(Some("Part"), Some("pb")));
    notes.add_child(part_b, item(Some("Summary"), Some("sb")));
    let part_c = notes.add_child(book, item(Some("Part"), Some("pc")));
    notes.add_child(part_c, item(Some("Summary"), Some("sc")));
    let table = create_node_name_map(&notes).unwrap();
    assert_eq!(name_of(&table, "pa"), Some("(LIT) Part".to_string()));
    assert_eq!(name_of(&table, "sa"), Some("(LIT) Summary".to_string()));
    assert_eq!(name_of(&table, "pb"), Some("(LIT) Part ((LIT) Other)".to_string()));
    assert_eq!(name_of(&table, "sb"), Some("(LIT) Summary ((LIT) Part)".to_string()));
    assert_eq!(name_of(&table, "pc"), Some("(LIT) Part ((LIT) Book)".to_string()));
    assert_eq!(
        name_of(&table, "sc"),
        Some("(LIT) Summary ((LIT) Part) ((LIT) Book)".to_string())
    );
}

#[test]
fn collision_at_the_root_is_an_error() {
    let mut notes = ExtractedNotes::new();
    notes.add_root(item(Some("Same"), Some("1")));
    notes.add_root(item(Some("Other"), Some("2")));
    notes.add_root(item(Some("Same"), Some("3")));
    assert!(matches!(create_node_name_map(&notes), Err(NamingError::Unresolved(3))));
}

#[test]
fn collision_that_the_ancestors_cannot_resolve_is_an_error() {
    let mut notes = ExtractedNotes::new();
    let a = notes.add_root(item(Some("A"), Some("1")));
    notes.add_child(a, item(Some("A ((LIT) A)"), Some("2")));
    notes.add_child(a, item(Some("A"), Some("3")));
    assert!(matches!(create_node_name_map(&notes), Err(NamingError::Unresolved(3))));
}

#[test]
fn repeated_identifier_keeps_the_later_name() {
    let mut notes = ExtractedNotes::new();
    let a = notes.add_root(item(Some("Book"), Some("b")));
    notes.add_child(a, item(Some("First"), Some("dup")));
    notes.add_child(a, item(Some("Second"), Some("dup")));
    let table = create_node_name_map(&notes).unwrap();
    assert_eq!(table.len(), 2);
    assert_eq!(name_of(&table, "dup"), Some("(LIT) Second".to_string()));
}

#[test]
fn empty_forest_has_an_empty_table() {
    let notes = ExtractedNotes::new();
    let table = create_node_name_map(&notes).unwrap();
    assert_eq!(table.len(), 0);
}

#[test]
fn settle_name_against_a_given_table() {
    let mut notes = ExtractedNotes::new();
    let a = notes.add_root(item(Some("A"), Some("1")));
    let b = notes.add_child(a, item(Some("B"), Some("2")));
    let mut table = TextMap::new();
    assert_eq!(settle_name(&notes, &table, b), Some("(LIT) B".to_string()));
    table.insert("x".to_string(), "(LIT) B".to_string());
    assert_eq!(settle_name(&notes, &table, b), Some("(LIT) B ((LIT) A)".to_string()));
    table.insert("y".to_string(), "(LIT) B ((LIT) A)".to_string());
    assert_eq!(settle_name(&notes, &table, b), None);
    table.insert("z".to_string(), "(LIT) A".to_string());
    assert_eq!(settle_name(&notes, &table, a), None);
}

#[test]
fn text_map_replaces_and_finds() {
    let mut map = TextMap::new();
    assert_eq!(map.len(), 0);
    assert_eq!(map.get(&"k".to_string()), None);
    map.insert("k".to_string(), "v".to_string());
    map.insert("l".to_string(), "w".to_string());
    assert_eq!(map.get(&"k".to_string()), Some(&"v".to_string()));
    assert!(map.contains_value(&"w".to_string()));
    assert!(!map.contains_value(&"k".to_string()));
    map.insert("k".to_string(), "w2".to_string());
    assert_eq!(map.len(), 2);
    assert_eq!(map.get(&"k".to_string()), Some(&"w2".to_string()));
    assert!(!map.contains_value(&"v".to_string()));
}
