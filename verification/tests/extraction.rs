use margin_notes::extractor::{
    first_text, found_or_error, node_texts, parse_xml, MarginNotesExtractor, OutlineSchema,
};
use margin_notes::query::is_plain_query;
use margin_notes::notes::ExtractedNotes;
use margin_notes::reading::ExtractError;

const HEAD: &str = "<?xml version=\"1.0\" encoding=\"UTF-8\"?>\n<!DOCTYPE outline PUBLIC \"-//omnigroup.com//DTD OUTLINE 3.0//EN\" \"http://www.omnigroup.com/namespace/OmniOutliner/xmloutline-v3.dtd\">\n<outline xmlns=\"http://www.omnigroup.com/namespace/OmniOutliner/v3\"><root>";
const TAIL: &str = "</root></outline>";

fn titled(title: &str) -> String {
    format!("<text><p><run><lit>{}</lit></run></p></text>", title)
}

fn linked(id: &str) -> String {
    format!(
        "<text/><text/><text><p><run><lit>x</lit></run></p><p><run><lit><cell href=\"marginnote3app://note/{}\"/></lit></run></p></text>",
        id
    )
}

fn node(values: &str, note: &str, children: &str) -> String {
    let kids = if children.is_empty() {
        String::new()
    } else {
        format!("<children>{}</children>", children)
    };
    format!("<item><values>{}</values>{}{}</item>", values, note, kids)
}

fn read(body: &str) -> Result<ExtractedNotes, ExtractError> {
    let package = parse_xml(&format!("{}{}{}", HEAD, body, TAIL))?;
    MarginNotesExtractor::new()?.read_items(package)
}

#[test]
fn outline_is_read_in_document_order() {
    let leaf_a = node(&format!("{}{}", titled("Leaf A"), linked("AAAA-1")), "", "");
    let leaf_b = node(&format!("{}{}", titled("Leaf B"), linked("BBBB-2")), "", "");
    let first = node(&titled("First"), "", &format!("{}{}", leaf_a, leaf_b));
    let second = node(&format!("{}{}", titled("Second"), linked("CCCC-3")), "", "");
    let notes = read(&format!("{}{}", first, second)).unwrap();
    assert_eq!(notes.len(), 4);
    assert_eq!(notes.roots, vec![1, 4]);
    let titles: Vec<Option<String>> = (1..=4).map(|p| notes.item(p).given_title.clone()).collect();
    assert_eq!(
        titles,
        vec![
            Some("First".to_string()),
            Some("Leaf A".to_string()),
            Some("Leaf B".to_string()),
            Some("Second".to_string())
        ]
    );
    let ids: Vec<Option<String>> = (1..=4).map(|p| notes.item(p).margin_note_id.clone()).collect();
    assert_eq!(
        ids,
        vec![
            None,
            Some("AAAA-1".to_string()),
            Some("BBBB-2".to_string()),
            Some("CCCC-3".to_string())
        ]
    );
    assert_eq!(notes.children(1), vec![2, 3]);
    assert_eq!(notes.children(4), Vec::<usize>::new());
    assert_eq!(notes.parent(2), Some(1));
    assert_eq!(notes.parent(3), Some(1));
    assert_eq!(notes.parent(1), None);
    assert_eq!(notes.parent(4), None);
}

#[test]
fn extracted_title_is_normalized() {
    let notes = read(&node(&titled("  Summary \n\n of   Chapter "), "", "")).unwrap();
    assert_eq!(notes.item(1).given_title, Some("Summary of Chapter".to_string()));
}

#[test]
fn extracted_item_without_title_uses_its_identifier() {
    let notes = read(&node(&format!("{}{}", titled("   "), linked("ABCD-1234")), "", "")).unwrap();
    assert_eq!(notes.item(1).given_title, None);
    assert_eq!(notes.item(1).margin_note_id, Some("ABCD-1234".to_string()));
}

#[test]
fn extracted_item_without_title_or_identifier_is_an_error() {
    assert!(matches!(read(&node(&titled(" "), "", "")), Err(ExtractError::Untitled)));
    assert!(matches!(read(&node("", "", "")), Err(ExtractError::Untitled)));
}

#[test]
fn extracted_images_put_the_cells_first() {
    let values = format!(
        "<text><p><run><lit>Pictures<cell refid=\"a\"/></lit></run></p></text><text><p><run><lit><cell refid=\"b\"/></lit></run></p></text>"
    );
    let note = "<note><text><p><run><lit><cell refid=\"c\"/></lit></run></p></text></note>";
    let notes = read(&node(&values, note, "")).unwrap();
    assert_eq!(
        notes.item(1).image_ids,
        vec!["a".to_string(), "b".to_string(), "c".to_string()]
    );
}

#[test]
fn extracted_comment_joins_the_note_texts() {
    let note = "<note><text><p><run><lit>first </lit></run><run><lit>second</lit></run></p><p><run><lit>third</lit></run></p></text></note>";
    let notes = read(&node(&titled("T"), note, "")).unwrap();
    assert_eq!(notes.item(1).comments, Some("first secondthird".to_string()));
}

#[test]
fn extracted_comment_is_missing_without_note_text() {
    let notes = read(&node(&titled("T"), "", "")).unwrap();
    assert_eq!(notes.item(1).comments, None);
    let note = "<note><text><p><run><lit><cell refid=\"c\"/></lit></run></p></text></note>";
    let notes = read(&node(&titled("T"), note, "")).unwrap();
    assert_eq!(notes.item(1).comments, None);
}

#[test]
fn images_of_children_are_not_the_parents() {
    let child = node(
        "<text><p><run><lit>Child<cell refid=\"inner\"/></lit></run></p></text>",
        "",
        "",
    );
    let notes = read(&node(&titled("Parent"), "", &child)).unwrap();
    assert_eq!(notes.item(1).image_ids, Vec::<String>::new());
    assert_eq!(notes.item(2).image_ids, vec!["inner".to_string()]);
}

#[test]
fn empty_outline_has_no_items() {
    let notes = read("").unwrap();
    assert_eq!(notes.len(), 0);
    assert_eq!(notes.roots, Vec::<usize>::new());
}

#[test]
fn malformed_document_is_a_parse_error() {
    assert!(matches!(parse_xml("<outline><root>"), Err(ExtractError::Parse)));
    assert!(matches!(parse_xml(""), Err(ExtractError::Parse)));
}

#[test]
fn document_type_declaration_is_left_out() {
    assert!(parse_xml(&format!("{}{}", HEAD, TAIL)).is_ok());
}

#[test]
fn root_items_returns_the_new_roots() {
    let body = format!("{}{}", node(&titled("A"), "", &node(&titled("B"), "", "")), node(&titled("C"), "", ""));
    let package = parse_xml(&format!("{}{}{}", HEAD, body, TAIL)).unwrap();
    let mut extractor = MarginNotesExtractor::new().unwrap();
    assert_eq!(extractor.root_items(package).unwrap(), vec![1, 3]);
}

#[test]
fn other_namespace_is_not_an_outline() {
    let notes = MarginNotesExtractor::new()
        .unwrap()
        .read_items(parse_xml("<outline><root><item/></root></outline>").unwrap())
        .unwrap();
    assert_eq!(notes.len(), 0);
}

#[test]
fn deep_outline_is_followed() {
    let mut body = node(&titled("leaf"), "", "");
    for depth in 0..40 {
        body = node(&titled(&format!("level {}", depth)), "", &body);
    }
    let notes = read(&body).unwrap();
    assert_eq!(notes.len(), 41);
    assert_eq!(notes.parent(41), Some(40));
    assert_eq!(notes.item(41).given_title, Some("leaf".to_string()));
}

fn schema_with(change: fn(&mut OutlineSchema)) -> OutlineSchema {
    let mut schema = OutlineSchema::omni_outliner();
    change(&mut schema);
    schema
}

fn read_with(schema: OutlineSchema, body: &str) -> Result<ExtractedNotes, ExtractError> {
    let package = parse_xml(&format!("{}{}{}", HEAD, body, TAIL))?;
    MarginNotesExtractor::with_schema(schema)?.read_items(package)
}

#[test]
fn schema_of_the_outline_format() {
    let schema = OutlineSchema::omni_outliner();
    assert_eq!(schema.namespace_prefix, "o");
    assert_eq!(schema.namespace_uri, "http://www.omnigroup.com/namespace/OmniOutliner/v3");
    assert_eq!(schema.root_items, "/o:outline/o:root/o:item");
    assert_eq!(schema.title, "string(./o:values/o:text[1]/o:p/o:run/o:lit/text())");
    assert_eq!(schema.margin_note_url, "./o:values/o:text[4]/o:p[2]/o:run/o:lit/o:cell/@href");
    assert_eq!(schema.children, "o:children/o:item");
    assert_eq!(schema.cell_images, "./o:values//o:cell/@refid");
    assert_eq!(schema.note_images, "./o:note//o:cell/@refid");
    assert_eq!(schema.comments, "./o:note//o:p//o:lit/text()");
    assert_eq!(schema.max_depth, usize::MAX);
}

#[test]
fn query_that_does_not_compile_is_refused() {
    let schema = schema_with(|s| s.children = "o:children/[".to_string());
    assert!(matches!(MarginNotesExtractor::with_schema(schema), Err(ExtractError::Pattern)));
    let schema = schema_with(|s| s.title = String::new());
    assert!(matches!(MarginNotesExtractor::with_schema(schema), Err(ExtractError::Pattern)));
}

#[test]
fn title_query_that_gives_nodes_is_a_schema_error() {
    let schema = schema_with(|s| s.title = "./o:values/o:text[1]".to_string());
    assert!(matches!(read_with(schema, &node(&titled("T"), "", "")), Err(ExtractError::Schema)));
}

#[test]
fn node_query_that_gives_a_string_is_a_schema_error() {
    let body = node(&titled("T"), "", "");
    let schema = schema_with(|s| s.root_items = "string(/o:outline)".to_string());
    assert!(matches!(read_with(schema, &body), Err(ExtractError::Schema)));
    let schema = schema_with(|s| s.children = "count(./o:children)".to_string());
    assert!(matches!(read_with(schema, &body), Err(ExtractError::Schema)));
    let schema = schema_with(|s| s.comments = "true()".to_string());
    assert!(matches!(read_with(schema, &body), Err(ExtractError::Schema)));
    let schema = schema_with(|s| s.cell_images = "string(.)".to_string());
    assert!(matches!(read_with(schema, &body), Err(ExtractError::Schema)));
    let schema = schema_with(|s| s.note_images = "1".to_string());
    assert!(matches!(read_with(schema, &body), Err(ExtractError::Schema)));
    let schema = schema_with(|s| s.margin_note_url = "'x'".to_string());
    assert!(matches!(read_with(schema, &body), Err(ExtractError::Schema)));
}

#[test]
fn query_that_cannot_be_evaluated_is_a_query_error() {
    let body = node(&titled("T"), "", "");
    let schema = schema_with(|s| s.title = "no-such-function()".to_string());
    assert!(matches!(read_with(schema, &body), Err(ExtractError::Query)));
    let schema = schema_with(|s| s.root_items = "$unset".to_string());
    assert!(matches!(read_with(schema, &body), Err(ExtractError::Query)));
}

#[test]
fn query_with_a_foreign_prefix_is_refused() {
    for query in ["/unbound:outline", "/x:outline/o:root", "/oo:outline", "child::o:item", "//*[o:item]"] {
        let mut schema = OutlineSchema::omni_outliner();
        schema.root_items = query.to_string();
        assert!(!schema.is_plain());
        assert!(matches!(MarginNotesExtractor::with_schema(schema), Err(ExtractError::Pattern)));
    }
}

#[test]
fn prefix_of_the_schema_is_one_letter() {
    for prefix in ["", "oo", "1", "-", "é"] {
        let mut schema = OutlineSchema::omni_outliner();
        schema.namespace_prefix = prefix.to_string();
        assert!(!schema.is_plain());
        assert!(matches!(MarginNotesExtractor::with_schema(schema), Err(ExtractError::Pattern)));
    }
}

#[test]
fn plain_queries_are_told_apart() {
    assert!(is_plain_query("/o:outline/o:root/o:item", "o"));
    assert!(is_plain_query("o:children/o:item", "o"));
    assert!(is_plain_query("string(./o:values/o:text[1]/o:p/o:run/o:lit/text())", "o"));
    assert!(is_plain_query("count(/*)", "o"));
    assert!(is_plain_query("", "o"));
    assert!(is_plain_query("/Z:a", "Z"));
    assert!(!is_plain_query("/o:a", "x"));
    assert!(!is_plain_query(":a", "o"));
    assert!(!is_plain_query("/xo:a", "o"));
    assert!(!is_plain_query("(o:a)", "o"));
    assert!(!is_plain_query("/o::a", "o"));
    assert!(!is_plain_query("/o:a", "ox"));
    assert!(!is_plain_query("/o:a", ""));
    assert!(!is_plain_query("/1:a", "1"));
}

#[test]
fn query_that_could_call_sum_is_not_plain() {
    assert!(!is_plain_query("sum(/o:a/o:b)", "o"));
    assert!(!is_plain_query("string(sum(/o:a/o:b))", "o"));
    assert!(!is_plain_query("/o:a[sum(./o:b) = 0.6]", "o"));
    assert!(!is_plain_query("/o:summary", "o"));
    assert!(!is_plain_query("sum", "o"));
    assert!(!is_plain_query("xsum", "o"));
    assert!(is_plain_query("su", "o"));
    assert!(is_plain_query("s/u/m", "o"));
    assert!(is_plain_query("Sum(/o:a)", "o"));
    assert!(is_plain_query("count(/o:a/o:b)", "o"));
    let schema = schema_with(|s| s.title = "string(sum(./o:values/o:text))".to_string());
    assert!(!schema.is_plain());
    assert!(matches!(MarginNotesExtractor::with_schema(schema), Err(ExtractError::Pattern)));
}

#[test]
fn another_prefix_for_the_same_namespace_reads_the_same() {
    let body = node(&titled("A"), "", &node(&titled("B"), "", ""));
    let mut schema = OutlineSchema::omni_outliner();
    schema.namespace_prefix = "x".to_string();
    schema.root_items = "/x:outline/x:root/x:item".to_string();
    schema.title = "string(./x:values/x:text[1]/x:p/x:run/x:lit/text())".to_string();
    schema.margin_note_url = "./x:values/x:text[4]/x:p[2]/x:run/x:lit/x:cell/@href".to_string();
    schema.children = "x:children/x:item".to_string();
    schema.cell_images = "./x:values//x:cell/@refid".to_string();
    schema.note_images = "./x:note//x:cell/@refid".to_string();
    schema.comments = "./x:note//x:p//x:lit/text()".to_string();
    assert!(schema.is_plain());
    let notes = read_with(schema, &body).unwrap();
    assert_eq!(notes.len(), 2);
    assert_eq!(notes.item(2).given_title, Some("B".to_string()));
}

#[test]
fn outline_deeper_than_the_limit_is_refused() {
    let body = node(&titled("A"), "", &node(&titled("B"), "", &node(&titled("C"), "", "")));
    let schema = schema_with(|s| s.max_depth = 2);
    assert!(matches!(read_with(schema, &body), Err(ExtractError::TooDeep)));
    let schema = schema_with(|s| s.max_depth = 3);
    assert_eq!(read_with(schema, &body).unwrap().len(), 3);
    let schema = schema_with(|s| s.max_depth = 0);
    assert!(matches!(read_with(schema, &body), Err(ExtractError::TooDeep)));
    let schema = schema_with(|s| s.max_depth = 0);
    assert_eq!(read_with(schema, "").unwrap().len(), 0);
}

#[test]
fn value_of_the_kind_asked_for_is_passed_on() {
    let found: Result<Option<u8>, sxd_xpath::Error> = Ok(Some(7));
    assert_eq!(found_or_error(found), Ok(7));
    let texts: Result<Option<String>, sxd_xpath::Error> = Ok(Some("x".to_string()));
    assert_eq!(found_or_error(texts), Ok("x".to_string()));
}

#[test]
fn value_of_another_kind_is_a_schema_error() {
    let found: Result<Option<u8>, sxd_xpath::Error> = Ok(None);
    assert_eq!(found_or_error(found), Err(ExtractError::Schema));
}

#[test]
fn failed_evaluation_is_a_query_error() {
    let found: Result<Option<u8>, sxd_xpath::Error> = Err(sxd_xpath::Error::NoXPath);
    assert_eq!(found_or_error(found), Err(ExtractError::Query));
}

#[test]
fn first_of_the_texts_is_taken() {
    assert_eq!(first_text(vec![]), None);
    assert_eq!(first_text(vec!["a".to_string()]), Some("a".to_string()));
    assert_eq!(
        first_text(vec!["a".to_string(), "b".to_string(), "c".to_string()]),
        Some("a".to_string())
    );
}

#[test]
fn every_node_gives_one_text() {
    let package = parse_xml("<r><a>one</a><b/><c>three<d>four</d></c></r>").unwrap();
    let document = package.as_document();
    let value = sxd_xpath::evaluate_xpath(&document, "/r/*").unwrap();
    let nodes = match value {
        sxd_xpath::Value::Nodeset(set) => set.document_order(),
        _ => panic!("the query gives nodes"),
    };
    assert_eq!(
        node_texts(&nodes),
        vec!["one".to_string(), String::new(), "threefour".to_string()]
    );
    assert_eq!(node_texts(&vec![]), Vec::<String>::new());
}

#[test]
fn first_address_in_document_order_gives_the_identifier() {
    let values = "<text><p><run><lit>T</lit></run></p></text><text/><text/><text><p/><p><run><lit><cell href=\"marginnote3app://note/FIRST-1\"/><cell href=\"marginnote3app://note/SECOND-2\"/></lit></run></p></text>";
    let notes = read(&node(values, "", "")).unwrap();
    assert_eq!(notes.item(1).margin_note_id, Some("FIRST-1".to_string()));
}

#[test]
fn roots_of_a_second_document_follow_the_first() {
    let first = format!(
        "{}{}",
        node(&titled("A"), "", &node(&titled("B"), "", "")),
        node(&titled("C"), "", "")
    );
    let second = format!(
        "{}{}",
        node(&titled("D"), "", ""),
        node(&titled("E"), "", &format!("{}{}", node(&titled("F"), "", ""), node(&titled("G"), "", "")))
    );
    let mut extractor = MarginNotesExtractor::new().unwrap();
    let package = parse_xml(&format!("{}{}{}", HEAD, first, TAIL)).unwrap();
    assert_eq!(extractor.root_items(package).unwrap(), vec![1, 3]);
    let package = parse_xml(&format!("{}{}{}", HEAD, second, TAIL)).unwrap();
    assert_eq!(extractor.root_items(package).unwrap(), vec![4, 5]);
    let package = parse_xml(&format!("{}{}", HEAD, TAIL)).unwrap();
    assert_eq!(extractor.root_items(package).unwrap(), Vec::<usize>::new());
    let notes = extractor.read_items(parse_xml(&format!("{}{}", HEAD, TAIL)).unwrap()).unwrap();
    assert_eq!(notes.len(), 7);
    assert_eq!(notes.roots, vec![1, 3, 4, 5]);
    assert_eq!(notes.children(1), vec![2]);
    assert_eq!(notes.children(5), vec![6, 7]);
    assert_eq!(notes.children(3), Vec::<usize>::new());
    assert_eq!(notes.parent(6), Some(5));
    assert_eq!(notes.parent(7), Some(5));
    assert_eq!(notes.parent(4), None);
}

#[test]
fn failed_item_ends_the_reading() {
    let body = format!("{}{}", node(&titled("A"), "", &node(&titled(" "), "", "")), node(&titled("C"), "", ""));
    assert!(matches!(read(&body), Err(ExtractError::Untitled)));
}

#[test]
fn items_read_before_a_failure_stay_in_the_forest() {
    let body = format!(
        "{}{}",
        node(&format!("{}{}", titled(" "), linked("KEPT-1")), "", ""),
        node(&titled(" "), "", "")
    );
    let package = parse_xml(&format!("{}{}{}", HEAD, body, TAIL)).unwrap();
    let mut extractor = MarginNotesExtractor::new().unwrap();
    assert!(matches!(extractor.root_items(package), Err(ExtractError::Untitled)));
    assert_eq!(extractor.notes().len(), 1);
    assert_eq!(extractor.notes().item(1).margin_note_id, Some("KEPT-1".to_string()));
    let notes = extractor.into_notes();
    assert_eq!(notes.len(), 1);
    assert_eq!(notes.roots, vec![1]);
}

#[test]
fn same_document_read_twice_gives_the_same_forest() {
    let body = format!(
        "{}{}",
        node(
            &format!("{}{}", titled("A  b"), linked("AAAA-1")),
            "<note><text><p><run><lit>n<cell refid=\"i\"/></lit></run></p></text></note>",
            &node(&titled("B"), "", "")
        ),
        node(&titled("C"), "", "")
    );
    let one = read(&body).unwrap();
    let two = read(&body).unwrap();
    assert_eq!(one.len(), two.len());
    assert_eq!(one.roots, two.roots);
    for position in 1..=one.len() {
        assert_eq!(one.item(position), two.item(position));
        assert_eq!(one.parent(position), two.parent(position));
        assert_eq!(one.children(position), two.children(position));
    }
    assert_eq!(one.item(1).comments, Some("n".to_string()));
    assert_eq!(one.item(1).image_ids, vec!["i".to_string()]);
}

#[test]
fn error_of_the_first_failing_reading_is_returned() {
    let body = node(&titled(" "), "", "");
    let schema = schema_with(|s| s.margin_note_url = "'x'".to_string());
    assert!(matches!(read_with(schema, &body), Err(ExtractError::Schema)));
    let schema = schema_with(|s| {
        s.title = "no-such-function()".to_string();
        s.cell_images = "1".to_string();
    });
    assert!(matches!(read_with(schema, &body), Err(ExtractError::Query)));
    let schema = schema_with(|s| s.cell_images = "1".to_string());
    assert!(matches!(read_with(schema, &body), Err(ExtractError::Untitled)));
    let schema = schema_with(|s| {
        s.max_depth = 0;
        s.title = "no-such-function()".to_string();
    });
    assert!(matches!(read_with(schema, &body), Err(ExtractError::TooDeep)));
}
