use margin_notes::body::{compose_note, front_matter_block};
use margin_notes::exporter::{Exporter, NoteWrite};
use margin_notes::item::Item;
use margin_notes::naming::NamingError;
use margin_notes::notes::ExtractedNotes;
use margin_notes::oo3::OO3File;
use margin_notes::scan::{
    create_previous_id_map, index_notes, previous_note_id, NoteFile, ScannedNote,
};
use std::collections::BTreeMap;

fn item(title: Option<&str>, id: Option<&str>) -> Item {
    Item {
        given_title: title.map(|s| s.to_string()),
        margin_note_id: id.map(|s| s.to_string()),
        image_ids: vec![],
        comments: None,
    }
}

fn sample(summary_title: &str) -> ExtractedNotes {
    let mut notes = ExtractedNotes::new();
    let book = notes.add_root(item(Some("Book"), Some("B-1")));
    notes.add_child(
        book,
        Item {
            given_title: Some(summary_title.to_string()),
            margin_note_id: Some("S-1".to_string()),
            image_ids: vec!["a".to_string(), "b".to_string()],
            comments: Some("hello\nworld".to_string()),
        },
    );
    notes.add_child(book, item(Some("Group"), None));
    notes
}

fn exporter(notes: ExtractedNotes, scanned: &Vec<NoteFile>) -> Exporter {
    Exporter::new(
        OO3File::new("book.oo3".to_string()),
        notes,
        "out".to_string(),
        "img".to_string(),
        scanned,
    )
    .unwrap()
}

fn carry_out(files: &mut BTreeMap<String, String>, plan: &Vec<NoteWrite>) {
    for step in plan {
        if let Some(stale) = &step.stale {
            files.remove(stale);
        }
        files.insert(step.path.clone(), step.body.clone());
    }
}

fn front_matter_id(text: &str) -> Option<String> {
    previous_note_id(text)
}

fn scan(files: &BTreeMap<String, String>) -> Vec<NoteFile> {
    files.iter().map(|(path, text)| NoteFile { path: path.clone(), text: text.clone() }).collect()
}

#[test]
fn header_block_is_yaml_closed_by_the_delimiter() {
    let front = item(Some("Summary"), Some("ID-1")).metadata(Some("(LIT) Book".to_string()));
    assert_eq!(
        front_matter_block(&front),
        Some(
            "---\ntags:\n  - source-margin-note\nmargin_note_id: ID-1\nup:\n  - \"[[(LIT) Book]]\"\ntitle: Summary\n---"
                .to_string()
        )
    );
}

#[test]
fn header_block_writes_missing_fields_as_null() {
    let front = item(None, None).metadata(None);
    assert_eq!(
        front_matter_block(&front),
        Some("---\ntags:\n  - source-margin-note\nmargin_note_id: ~\nup: ~\ntitle: ~\n---".to_string())
    );
}

#[test]
fn note_has_all_six_blocks() {
    let it = Item {
        given_title: Some("Summary".to_string()),
        margin_note_id: Some("ID-1".to_string()),
        image_ids: vec!["a".to_string(), "b".to_string()],
        comments: Some("hello".to_string()),
    };
    let children = vec!["(LIT) One".to_string(), "(LIT) Two".to_string()];
    assert_eq!(
        compose_note("HEADER", &it, &children),
        "HEADER\n\n# Summary\n\n> [source](marginnote3app://note/ID-1)\n\n- [[(LIT) One]]\n- [[(LIT) Two]]\n\nhello\n\n![[a.png]]\n![[b.png]]"
    );
}

#[test]
fn note_keeps_empty_lists_as_empty_blocks() {
    let it = item(None, None);
    assert_eq!(compose_note("HEADER", &it, &vec![]), "HEADER\n\n\n\n");
}

#[test]
fn note_leaves_out_what_is_missing() {
    let it = item(Some("T"), None);
    assert_eq!(compose_note("H", &it, &vec!["c".to_string()]), "H\n\n# T\n\n- [[c]]\n\n");
    let it = Item {
        given_title: None,
        margin_note_id: Some("I".to_string()),
        image_ids: vec!["x".to_string()],
        comments: None,
    };
    assert_eq!(
        compose_note("H", &it, &vec![]),
        "H\n\n> [source](marginnote3app://note/I)\n\n\n\n![[x.png]]"
    );
}

#[test]
fn note_for_links_parent_and_children() {
    let e = exporter(sample("Summary"), &vec![]);
    assert_eq!(
        e.note_for(1),
        Some(
            "---\ntags:\n  - source-margin-note\nmargin_note_id: B-1\nup: ~\ntitle: Book\n---\n\n# Book\n\n> [source](marginnote3app://note/B-1)\n\n- [[(LIT) Summary]]\n- [[(LIT) Group]]\n\n"
                .to_string()
        )
    );
    assert_eq!(
        e.note_for(2),
        Some(
            "---\ntags:\n  - source-margin-note\nmargin_note_id: S-1\nup:\n  - \"[[(LIT) Book]]\"\ntitle: Summary\n---\n\n# Summary\n\n> [source](marginnote3app://note/S-1)\n\n\n\nhello\nworld\n\n![[a.png]]\n![[b.png]]"
                .to_string()
        )
    );
}

#[test]
fn paths_are_under_the_note_directory() {
    let e = exporter(sample("Summary"), &vec![]);
    assert_eq!(e.note_name_at(1), "(LIT) Book");
    assert_eq!(e.note_name_at(3), "(LIT) Group");
    assert_eq!(e.path_of(&"out".to_string(), e.notes.item(2)), "out/(LIT) Summary.md");
    assert_eq!(e.path_of(&"elsewhere".to_string(), e.notes.item(3)), "elsewhere/(LIT) Group.md");
    assert_eq!(e.note_dir, "out");
    assert_eq!(e.image_dir, "img");
}

#[test]
fn name_with_a_dot_keeps_what_follows_it() {
    let mut notes = ExtractedNotes::new();
    notes.add_root(item(Some("v1.2 notes"), Some("D-1")));
    let e = exporter(notes, &vec![]);
    assert_eq!(e.path_of(&"out".to_string(), e.notes.item(1)), "out/(LIT) v1.2 notes.md");
}

#[test]
fn first_export_writes_one_file_per_item() {
    let e = exporter(sample("Summary"), &vec![]);
    let plan = e.export_notes().unwrap();
    assert_eq!(plan.len(), 3);
    let paths: Vec<&str> = plan.iter().map(|w| w.path.as_str()).collect();
    assert_eq!(paths, vec!["out/(LIT) Book.md", "out/(LIT) Summary.md", "out/(LIT) Group.md"]);
    assert!(plan.iter().all(|w| w.stale.is_none()));
    assert_eq!(Some(plan[1].body.clone()), e.note_for(2));
    assert_eq!(Some(plan[0].body.clone()), e.note_for(1));
}

#[test]
fn export_twice_is_idempotent() {
    let mut files = BTreeMap::new();
    let first = exporter(sample("Summary"), &scan(&files));
    carry_out(&mut files, &first.export_notes().unwrap());
    let after_first = files.clone();
    let second = exporter(sample("Summary"), &scan(&files));
    let plan = second.export_notes().unwrap();
    assert!(plan.iter().all(|w| w.stale.is_none()));
    carry_out(&mut files, &plan);
    assert_eq!(files, after_first);
    assert_eq!(files.len(), 3);
}

#[test]
fn renamed_item_replaces_its_file() {
    let mut files = BTreeMap::new();
    let first = exporter(sample("Summary"), &scan(&files));
    carry_out(&mut files, &first.export_notes().unwrap());
    assert!(files.contains_key("out/(LIT) Summary.md"));
    let second = exporter(sample("Conclusion"), &scan(&files));
    let plan = second.export_notes().unwrap();
    assert_eq!(plan[1].stale, Some("out/(LIT) Summary.md".to_string()));
    assert_eq!(plan[1].path, "out/(LIT) Conclusion.md");
    assert_eq!(plan[0].stale, None);
    assert_eq!(plan[2].stale, None);
    carry_out(&mut files, &plan);
    assert!(!files.contains_key("out/(LIT) Summary.md"));
    assert_eq!(files.len(), 3);
    let renamed = &files["out/(LIT) Conclusion.md"];
    assert_eq!(front_matter_id(renamed), Some("S-1".to_string()));
    let carriers = files.values().filter(|t| front_matter_id(t) == Some("S-1".to_string())).count();
    assert_eq!(carriers, 1);
}

#[test]
fn unchanged_path_is_not_deleted() {
    let files = vec![NoteFile {
        path: "out/(LIT) Book.md".to_string(),
        text: "---\nmargin_note_id: B-1\n---\n\nold text".to_string(),
    }];
    let e = exporter(sample("Summary"), &files);
    assert_eq!(e.previous_item_path(e.notes.item(1)), Some("out/(LIT) Book.md".to_string()));
    assert_eq!(e.previous_item_path(e.notes.item(2)), None);
    assert_eq!(e.previous_item_path(e.notes.item(3)), None);
    let plan = e.export_all_notes().unwrap();
    assert_eq!(plan[0].stale, None);
}

#[test]
fn file_in_another_place_is_stale() {
    let files = vec![NoteFile {
        path: "elsewhere/(LIT) Book.md".to_string(),
        text: "---\nmargin_note_id: B-1\n---\n".to_string(),
    }];
    let e = exporter(sample("Summary"), &files);
    let plan = e.export_all_notes().unwrap();
    assert_eq!(plan[0].stale, Some("elsewhere/(LIT) Book.md".to_string()));
    assert_eq!(plan[0].path, "out/(LIT) Book.md");
}

#[test]
fn every_note_carries_its_identifier_in_the_header() {
    let e = exporter(sample("Summary: a \"quoted\" # title"), &vec![]);
    let plan = e.export_notes().unwrap();
    assert_eq!(front_matter_id(&plan[0].body), Some("B-1".to_string()));
    assert_eq!(front_matter_id(&plan[1].body), Some("S-1".to_string()));
    assert_eq!(front_matter_id(&plan[2].body), None);
}

#[test]
fn header_round_trips_identifiers_that_look_like_other_yaml() {
    for id in ["12345", "true", "~", "a: b", "- x", "4DD0F7E2-6A0C-4F2B-9A57-0E5D1F0C9B11"] {
        let front = item(Some("T"), Some(id)).metadata(None);
        let block = front_matter_block(&front).unwrap();
        assert_eq!(front_matter_id(&format!("{}\n\nbody", block)), Some(id.to_string()));
    }
}

#[test]
fn metadata_block_is_read_for_the_identifier() {
    assert_eq!(previous_note_id("---\nmargin_note_id: ABC\n---\nbody"), Some("ABC".to_string()));
    assert_eq!(
        previous_note_id("---\ntags:\n  - x\nmargin_note_id: \"12\"\ntitle: T\n---\n"),
        Some("12".to_string())
    );
}

#[test]
fn note_without_usable_metadata_has_no_identifier() {
    assert_eq!(previous_note_id(""), None);
    assert_eq!(previous_note_id("just a note"), None);
    assert_eq!(previous_note_id("---\n---\nbody"), None);
    assert_eq!(previous_note_id("---\ntitle: T\n---\nbody"), None);
    assert_eq!(previous_note_id("---\nmargin_note_id: ~\n---\nbody"), None);
    assert_eq!(previous_note_id("---\nmargin_note_id: 12\n---\nbody"), None);
    assert_eq!(previous_note_id("---\nmargin_note_id: [a]\n---\nbody"), None);
    assert_eq!(previous_note_id("---\n- margin_note_id\n---\nbody"), None);
    assert_eq!(previous_note_id("---\njust text\n---\nbody"), None);
    assert_eq!(previous_note_id("---\n{ not yaml\n---\nbody"), None);
    assert_eq!(previous_note_id("text\n---\nmargin_note_id: ABC\n---\n"), None);
}

#[test]
fn previous_index_skips_notes_without_identifier() {
    let files = vec![
        NoteFile { path: "out/a.md".to_string(), text: "no header".to_string() },
        NoteFile { path: "out/b.md".to_string(), text: "---\ntitle: B\n---\n".to_string() },
        NoteFile { path: "out/c.md".to_string(), text: "---\nmargin_note_id: C\n---\n".to_string() },
    ];
    let index = create_previous_id_map(&files);
    assert_eq!(index.len(), 1);
    assert_eq!(index.get(&"C".to_string()), Some(&"out/c.md".to_string()));
}

#[test]
fn previous_index_keeps_the_later_of_two_files() {
    let note = |path: &str| NoteFile {
        path: path.to_string(),
        text: "---\nmargin_note_id: X\n---\n".to_string(),
    };
    let index = create_previous_id_map(&vec![note("out/a.md"), note("out/b.md")]);
    assert_eq!(index.len(), 1);
    assert_eq!(index.get(&"X".to_string()), Some(&"out/b.md".to_string()));
}

#[test]
fn scanned_notes_are_indexed_by_identifier() {
    let note = |path: &str, id: Option<&str>| ScannedNote {
        path: path.to_string(),
        margin_note_id: id.map(|s| s.to_string()),
    };
    let index = index_notes(&vec![
        note("a.md", Some("A")),
        note("b.md", None),
        note("c.md", Some("C")),
        note("d.md", Some("A")),
    ]);
    assert_eq!(index.len(), 2);
    assert_eq!(index.get(&"A".to_string()), Some(&"d.md".to_string()));
    assert_eq!(index.get(&"C".to_string()), Some(&"c.md".to_string()));
    assert_eq!(index_notes(&vec![]).len(), 0);
}

#[test]
fn exporter_refuses_names_it_cannot_tell_apart() {
    let mut notes = ExtractedNotes::new();
    notes.add_root(item(Some("Same"), Some("1")));
    notes.add_root(item(Some("Same"), Some("2")));
    let r = Exporter::new(
        OO3File::new("book.oo3".to_string()),
        notes,
        "out".to_string(),
        "img".to_string(),
        &vec![],
    );
    assert!(matches!(r, Err(NamingError::Unresolved(2))));
}

#[test]
fn images_go_under_their_own_names() {
    let e = exporter(sample("Summary"), &vec![]);
    let copies = e.copy_images(&vec![
        "book.oo3/a.png".to_string(),
        "/abs/dir.x/b c.png".to_string(),
        "plain.png".to_string(),
    ]);
    let pairs: Vec<(&str, &str)> = copies.iter().map(|c| (c.from.as_str(), c.to.as_str())).collect();
    assert_eq!(
        pairs,
        vec![
            ("book.oo3/a.png", "img/a.png"),
            ("/abs/dir.x/b c.png", "img/b c.png"),
            ("plain.png", "img/plain.png")
        ]
    );
    assert_eq!(e.copy_images(&vec![]).len(), 0);
}
