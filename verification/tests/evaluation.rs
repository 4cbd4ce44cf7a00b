use forge_obsidian::eval::{eval_expr, eval_filter, evaluate_expression, ThisContext};
use forge_obsidian::lexer::tokenize;
use forge_obsidian::note::NoteContext;
use forge_obsidian::parser::{Expr, Parser};
use forge_obsidian::props::{MapEntry, PropVal};
use forge_obsidian::value::Val;

fn make_note(name: &str, folder: &str, tags: &[&str], links: &[&str]) -> NoteContext {
    let mut properties = Vec::new();
    let tag_vals: Vec<PropVal> = tags.iter().map(|t| PropVal::Str(t.to_string())).collect();
    properties.push(MapEntry { key: "tags".to_owned(), val: PropVal::List(tag_vals) });
    properties.push(MapEntry { key: "created".to_owned(), val: PropVal::Str("2026-01-15".into()) });

    NoteContext {
        rel_path: format!("{folder}/{name}.md"),
        name: name.to_owned(),
        ext: "md".to_owned(),
        folder: folder.to_owned(),
        tags: tags.iter().map(|s| s.to_string()).collect(),
        links: links.iter().map(|s| s.to_string()).collect(),
        properties,
        content: String::new(),
    }
}

fn make_this(name: &str, folder: &str) -> ThisContext {
    ThisContext {
        name: name.to_owned(),
        folder: folder.to_owned(),
        rel_path: format!("{folder}/{name}.base"),
        properties: Vec::new(),
    }
}

#[test]
fn eval_contains_file_path() {
    let note = make_note("Paint", "Resources/Inventory/Painting", &["type/item/painting"], &[]);
    let this = make_this("Painting", "Resources/Inventory/Painting");
    assert!(eval_filter(r#"contains(file.path, "Inventory")"#, &note, &this));
    assert!(!eval_filter(r#"contains(file.path, "Contacts")"#, &note, &this));
}

#[test]
fn eval_contains_file_ext() {
    let note = make_note("Paint", "Notes", &[], &[]);
    let this = make_this("Test", "Notes");
    assert!(eval_filter(r#"contains(file.ext, "md")"#, &note, &this));
}

#[test]
fn eval_contains_property_tags() {
    let note = make_note("Paint", "Notes", &["type/item/painting"], &[]);
    let this = make_this("Test", "Notes");
    assert!(eval_filter(r#"contains(property.tags, "type/item/painting")"#, &note, &this));
    assert!(!eval_filter(r#"contains(property.tags, "type/person")"#, &note, &this));
}

#[test]
fn eval_file_fullname_neq_this() {
    let note = make_note("Note", "Notes", &[], &[]);
    let this = make_this("Base", "Notes");
    assert!(eval_filter("file.fullname != this.file.fullname", &note, &this));

    // Same file should fail
    let this_same = make_this("Note", "Notes");
    // rel_path won't match because note is .md and this is .base
    assert!(eval_filter("file.fullname != this.file.fullname", &note, &this_same));
}

#[test]
fn eval_starts_with() {
    let note = make_note("2026-01-15", "Resources/Journals/Daily/2026/01", &[], &[]);
    let this = make_this("Test", "Notes");
    assert!(eval_filter(r#"file.path.startsWith("Resources/Journals")"#, &note, &this));
}

#[test]
fn eval_negation() {
    let note = make_note("My Note", "Notes", &[], &[]);
    let this = make_this("Test", "Notes");
    assert!(eval_filter(r#"!file.name.contains("template")"#, &note, &this));

    let template = make_note("template", "Notes", &[], &[]);
    assert!(!eval_filter(r#"!file.name.contains("template")"#, &template, &this));
}

#[test]
fn eval_has_tag() {
    let note = make_note("Event", "Notes", &["type/event"], &[]);
    let this = make_this("Test", "Notes");
    assert!(eval_filter(r#"file.hasTag("type/event")"#, &note, &this));
    assert!(!eval_filter(r#"file.hasTag("type/project")"#, &note, &this));
}

#[test]
fn eval_has_tag_multi() {
    let note = make_note("Event", "Notes", &["type/event"], &[]);
    let this = make_this("Test", "Notes");
    assert!(eval_filter(r#"file.hasTag("type/project", "type/event")"#, &note, &this));
}

#[test]
fn eval_has_link() {
    let note = make_note("Daily", "Journals", &[], &["Project A", "Project B"]);
    let this = make_this("Project A", "Projects");
    assert!(eval_filter(r#"file.hasLink(this.file)"#, &note, &this));
}

#[test]
fn eval_method_chain_slice() {
    let note = make_note("Note", "Notes", &[], &[]);
    let this = make_this("2026-01-15", "Journals");
    // Test: this.file.name.slice(5, 10) should give "01-15"
    let tokens = tokenize("this.file.name.slice(5, 10)");
    let mut parser = Parser::new(tokens);
    let expr = parser.parse_expr().unwrap();
    let result = eval_expr(&expr, &note, &this);
    assert_eq!(result.to_string_val(), "01-15");
}

#[test]
fn eval_folder_starts_with() {
    let note = make_note("Child", "Projects/MyProject", &[], &[]);
    let this = make_this("MyProject", "Projects/MyProject");
    assert!(eval_filter(r#"file.folder.startsWith(this.file.folder)"#, &note, &this));
}

#[test]
fn eval_file_links_contains() {
    let note = make_note("Daily", "Journals", &[], &["MyProject"]);
    let this = make_this("MyProject", "Projects");
    assert!(eval_filter("file.links.contains(this.file)", &note, &this));
}

#[test]
fn contains_function_and_method_diverge_on_partial_match() {
    // function form matches list elements by substring; method form by
    // exact element equality
    let note = make_note("Paint", "Notes", &["type/item/painting"], &[]);
    let this = make_this("Test", "Notes");
    assert!(eval_filter(r#"contains(property.tags, "item")"#, &note, &this));
    assert!(!eval_filter(r#"property.tags.contains("item")"#, &note, &this));
}

#[test]
fn has_tag_matches_hierarchical_prefix() {
    let this = make_this("Test", "Notes");
    let exact = make_note("A", "N", &["type/item"], &[]);
    let child = make_note("B", "N", &["type/item/painting"], &[]);
    let sibling = make_note("C", "N", &["type/items"], &[]);
    assert!(eval_filter(r#"file.hasTag("type/item")"#, &exact, &this));
    assert!(eval_filter(r#"file.hasTag("type/item")"#, &child, &this));
    assert!(!eval_filter(r#"file.hasTag("type/item")"#, &sibling, &this));
}

#[test]
fn slice_clamps_indices() {
    let note = make_note("hello", "Notes", &[], &[]);
    let this = make_this("Test", "Notes");
    let mut parser = Parser::new(tokenize("file.name.slice(2, 100)"));
    let expr = parser.parse_expr().unwrap();
    assert_eq!(eval_expr(&expr, &note, &this).to_string_val(), "llo");

    let mut parser = Parser::new(tokenize("file.name.slice(100, 200)"));
    let expr = parser.parse_expr().unwrap();
    assert_eq!(eval_expr(&expr, &note, &this).to_string_val(), "");
}

#[test]
fn slice_without_arguments_or_reversed_bounds() {
    let note = make_note("hello", "Notes", &[], &[]);
    let this = make_this("Test", "Notes");
    let mut parser = Parser::new(tokenize("file.name.slice()"));
    let expr = parser.parse_expr().unwrap();
    assert_eq!(eval_expr(&expr, &note, &this).to_string_val(), "hello");

    // evaluation is total: reversed bounds yield the empty string
    let mut parser = Parser::new(tokenize("file.name.slice(3, 1)"));
    let expr = parser.parse_expr().unwrap();
    assert_eq!(eval_expr(&expr, &note, &this).to_string_val(), "");

    // an unparsable bound falls back to its default
    let mut parser = Parser::new(tokenize(r#"file.name.slice("x", 2)"#));
    let expr = parser.parse_expr().unwrap();
    assert_eq!(eval_expr(&expr, &note, &this).to_string_val(), "he");
}

#[test]
fn sequence_property_evaluates_to_list_in_order() {
    let mut note = make_note("Paint", "Notes", &[], &[]);
    note.properties.push(MapEntry {
        key: "aliases".to_owned(),
        val: PropVal::List(vec![
            PropVal::Str("first".into()),
            PropVal::Str("second".into()),
            PropVal::Str("third".into()),
        ]),
    });
    let this = make_this("Test", "Notes");
    let mut parser = Parser::new(tokenize("property.aliases"));
    let expr = parser.parse_expr().unwrap();
    match eval_expr(&expr, &note, &this) {
        Val::List(items) => assert_eq!(items, vec!["first", "second", "third"]),
        other => panic!("expected List, got {other:?}"),
    }
}

#[test]
fn end_to_end_journal_record() {
    let note = NoteContext {
        rel_path: "Journals/2026-01-15.md".to_owned(),
        name: "2026-01-15".to_owned(),
        ext: "md".to_owned(),
        folder: "Journals".to_owned(),
        tags: vec!["type/event".to_owned()],
        links: Vec::new(),
        properties: Vec::new(),
        content: String::new(),
    };
    let this = make_this("Events", "Bases");
    assert!(eval_filter(r#"file.hasTag("type/event")"#, &note, &this));
    assert!(eval_filter(r#"contains(file.path, "Journals")"#, &note, &this));
}

#[test]
fn unparseable_expression_includes_record() {
    let note = make_note("Note", "Notes", &[], &[]);
    let this = make_this("Test", "Notes");
    assert!(eval_filter("", &note, &this));
    assert!(eval_filter("((((", &note, &this));
    assert!(eval_filter("!!file.name", &note, &this));
    assert!(eval_filter(", , ,", &note, &this));
}

#[test]
fn double_negation_at_tree_level() {
    let note = make_note("Note", "Notes", &[], &[]);
    let this = make_this("Test", "Notes");
    let mut parser = Parser::new(tokenize("file.name"));
    let expr = parser.parse_expr().unwrap();
    let plain = eval_expr(&expr, &note, &this).as_bool();
    let mut parser = Parser::new(tokenize("file.name"));
    let expr = parser.parse_expr().unwrap();
    let doubled = Expr::Not(Box::new(Expr::Not(Box::new(expr))));
    assert_eq!(eval_expr(&doubled, &note, &this).as_bool(), plain);
}

#[test]
fn numeric_literal_is_truthy_and_compares_as_text() {
    let note = make_note("Note", "Notes", &[], &[]);
    let this = make_this("Test", "Notes");
    // the literal renders through its numeric value
    assert!(eval_filter("5", &note, &this));
    assert!(eval_filter("5 != 6", &note, &this));
    assert!(eval_filter("007 == 7", &note, &this));
}

#[test]
fn dotted_property_key_is_tried_verbatim_first() {
    let mut note = make_note("Item", "Notes", &[], &[]);
    note.properties.push(MapEntry {
        key: "item.owned".to_owned(),
        val: PropVal::Bool(true),
    });
    let this = make_this("Test", "Notes");
    assert!(eval_filter("property.item.owned", &note, &this));
}

#[test]
fn nested_mapping_property_descends_by_key() {
    let mut note = make_note("Item", "Notes", &[], &[]);
    note.properties.push(MapEntry {
        key: "item".to_owned(),
        val: PropVal::Mapping {
            entries: vec![MapEntry { key: "owner".to_owned(), val: PropVal::Str("me".into()) }],
            text: "owner: me".to_owned(),
        },
    });
    let this = make_this("Test", "Notes");
    assert!(eval_filter(r#"property.item.owner == "me""#, &note, &this));
    assert!(!eval_filter("property.item.missing", &note, &this));
}

#[test]
fn bare_property_lookup_and_unknowns_yield_null() {
    let note = make_note("Note", "Notes", &[], &[]);
    let this = make_this("Test", "Notes");
    // bare property name resolves through the frontmatter
    assert!(eval_filter(r#"created == "2026-01-15""#, &note, &this));
    // unknown property, method and function all evaluate to null (falsy)
    assert!(!eval_filter("nosuchthing", &note, &this));
    assert!(!eval_filter("file.name.frobnicate()", &note, &this));
    assert!(!eval_filter("frobnicate(file.name)", &note, &this));
}

#[test]
fn to_string_joins_lists_comma_space() {
    let note = make_note("Note", "Notes", &["a", "b"], &[]);
    let this = make_this("Test", "Notes");
    let mut parser = Parser::new(tokenize("file.tags.toString()"));
    let expr = parser.parse_expr().unwrap();
    assert_eq!(eval_expr(&expr, &note, &this).to_string_val(), "a, b");
}

#[test]
fn has_link_is_case_insensitive() {
    let note = make_note("Daily", "Journals", &[], &["Project A"]);
    let this = make_this("PROJECT a", "Projects");
    assert!(eval_filter("file.hasLink(this.file)", &note, &this));
    let other = make_this("Project B", "Projects");
    assert!(!eval_filter("file.hasLink(this.file)", &note, &other));
}

#[test]
fn evaluate_expression_yields_values_and_null() {
    let note = make_note("Paint", "Notes", &["a"], &[]);
    let this = make_this("Test", "Notes");
    let v = evaluate_expression("file.name", &note, &this);
    assert_eq!(v.as_str(), "Paint");
    // display of a list property
    let v = evaluate_expression("property.tags", &note, &this);
    assert_eq!(v.to_string_val(), "a");
    // an unparseable expression displays as null, never an abort
    let v = evaluate_expression("((", &note, &this);
    assert!(matches!(v, Val::Null));
}

#[test]
fn ends_with_method() {
    let note = make_note("2026-01-15", "Journals", &[], &[]);
    let this = make_this("Test", "Notes");
    assert!(eval_filter(r#"file.name.endsWith("15")"#, &note, &this));
    assert!(!eval_filter(r#"file.name.endsWith("14")"#, &note, &this));
}
