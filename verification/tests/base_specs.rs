use forge_obsidian::base::{BaseSpec, SortDirection};
use forge_obsidian::eval::ThisContext;
use forge_obsidian::filter::{matches_filter, FilterEntry, FilterNode};
use forge_obsidian::note::NoteContext;
use forge_obsidian::props::{MapEntry, PropVal};

fn mapping(entries: Vec<(&str, PropVal)>) -> PropVal {
    PropVal::Mapping {
        entries: entries
            .into_iter()
            .map(|(k, v)| MapEntry { key: k.to_owned(), val: v })
            .collect(),
        text: String::new(),
    }
}

fn text(v: &str) -> PropVal {
    PropVal::Str(v.to_owned())
}

fn plain_note(name: &str) -> NoteContext {
    NoteContext {
        rel_path: format!("Notes/{name}.md"),
        name: name.to_owned(),
        ext: "md".to_owned(),
        folder: "Notes".to_owned(),
        tags: Vec::new(),
        links: Vec::new(),
        properties: Vec::new(),
        content: String::new(),
    }
}

fn plain_this() -> ThisContext {
    ThisContext {
        name: "Test".to_owned(),
        folder: "Bases".to_owned(),
        rel_path: "Bases/Test.base".to_owned(),
        properties: Vec::new(),
    }
}

#[test]
fn parse_simple_base() {
    let tree = mapping(vec![(
        "views",
        PropVal::List(vec![mapping(vec![
            ("type", text("table")),
            ("name", text("Table")),
            (
                "filters",
                mapping(vec![(
                    "and",
                    PropVal::List(vec![
                        text(r#"contains(file.path, "Inventory")"#),
                        text(r#"contains(file.ext, "md")"#),
                    ]),
                )]),
            ),
            ("order", PropVal::List(vec![text("file.name"), text("root")])),
            (
                "sort",
                PropVal::List(vec![mapping(vec![
                    ("property", text("file.name")),
                    ("direction", text("ASC")),
                ])]),
            ),
        ])]),
    )]);

    let spec = BaseSpec::from_tree(&tree);
    assert!(spec.filters.is_none());
    assert_eq!(spec.views.len(), 1);
    let view = &spec.views[0];
    assert_eq!(view.view_type, "table");
    assert_eq!(view.name, "Table");
    assert_eq!(view.order, vec!["file.name", "root"]);
    assert_eq!(view.sort.len(), 1);
    assert_eq!(view.sort[0].direction, SortDirection::Asc);

    match &view.filters {
        Some(FilterNode::And(entries)) => {
            assert_eq!(entries.len(), 2);
            match &entries[0] {
                FilterEntry::Expr(s) => assert_eq!(s, r#"contains(file.path, "Inventory")"#),
                other => panic!("expected Expr, got {other:?}"),
            }
        }
        other => panic!("expected And, got {other:?}"),
    }
}

#[test]
fn parse_nested_filters() {
    let tree = mapping(vec![(
        "views",
        PropVal::List(vec![mapping(vec![
            ("type", text("table")),
            ("name", text("Mixed")),
            (
                "filters",
                mapping(vec![(
                    "or",
                    PropVal::List(vec![
                        mapping(vec![(
                            "and",
                            PropVal::List(vec![text(r#"contains(property.tags, "type/item")"#)]),
                        )]),
                        mapping(vec![(
                            "and",
                            PropVal::List(vec![text(r#"contains(file.path, "Inventory")"#)]),
                        )]),
                    ]),
                )]),
            ),
        ])]),
    )]);

    let spec = BaseSpec::from_tree(&tree);
    let view = &spec.views[0];
    match &view.filters {
        Some(FilterNode::Or(entries)) => {
            assert_eq!(entries.len(), 2);
            assert!(matches!(&entries[0], FilterEntry::Nested(FilterNode::And(_))));
        }
        other => panic!("expected Or, got {other:?}"),
    }
}

#[test]
fn parse_top_level_filters() {
    let tree = mapping(vec![
        (
            "filters",
            mapping(vec![(
                "and",
                PropVal::List(vec![text("file.fullname != this.file.fullname")]),
            )]),
        ),
        (
            "views",
            PropVal::List(vec![mapping(vec![("type", text("table")), ("name", text("Notes"))])]),
        ),
    ]);

    let spec = BaseSpec::from_tree(&tree);
    assert!(spec.filters.is_some());
    match &spec.filters {
        Some(FilterNode::And(entries)) => {
            assert_eq!(entries.len(), 1);
        }
        other => panic!("expected And, got {other:?}"),
    }
}

#[test]
fn parse_column_sort_key() {
    let tree = mapping(vec![(
        "views",
        PropVal::List(vec![mapping(vec![
            ("type", text("table")),
            ("name", text("T")),
            (
                "sort",
                PropVal::List(vec![mapping(vec![
                    ("column", text("property.tags")),
                    ("direction", text("DESC")),
                ])]),
            ),
        ])]),
    )]);

    let spec = BaseSpec::from_tree(&tree);
    assert_eq!(spec.views[0].sort[0].property, "property.tags");
    assert_eq!(spec.views[0].sort[0].direction, SortDirection::Desc);
}

#[test]
fn views_without_type_are_dropped() {
    let tree = mapping(vec![(
        "views",
        PropVal::List(vec![
            mapping(vec![("name", text("No type"))]),
            mapping(vec![("type", text("list"))]),
        ]),
    )]);
    let spec = BaseSpec::from_tree(&tree);
    assert_eq!(spec.views.len(), 1);
    assert_eq!(spec.views[0].view_type, "list");
    assert_eq!(spec.views[0].name, "Unnamed");
}

#[test]
fn empty_and_matches_everything() {
    let note = plain_note("A");
    let this = plain_this();
    assert!(matches_filter(&FilterNode::And(Vec::new()), &note, &this));
}

#[test]
fn empty_or_matches_nothing() {
    let note = plain_note("A");
    let this = plain_this();
    assert!(!matches_filter(&FilterNode::Or(Vec::new()), &note, &this));
}

#[test]
fn singleton_and_equals_expression_truthiness() {
    let note = plain_note("A");
    let this = plain_this();
    let truthy = FilterNode::And(vec![FilterEntry::Expr("file.name".to_owned())]);
    let falsy = FilterNode::And(vec![FilterEntry::Expr("file.missing".to_owned())]);
    assert!(matches_filter(&truthy, &note, &this));
    assert!(!matches_filter(&falsy, &note, &this));
}

#[test]
fn nested_filters_combine() {
    let note = plain_note("A");
    let this = plain_this();
    let tree = FilterNode::Or(vec![
        FilterEntry::Nested(FilterNode::And(vec![FilterEntry::Expr("file.missing".to_owned())])),
        FilterEntry::Nested(FilterNode::And(vec![FilterEntry::Expr("file.name".to_owned())])),
    ]);
    assert!(matches_filter(&tree, &note, &this));
}

#[test]
fn unparseable_leaf_is_fail_open() {
    let note = plain_note("A");
    let this = plain_this();
    let tree = FilterNode::And(vec![FilterEntry::Expr("((((".to_owned())]);
    assert!(matches_filter(&tree, &note, &this));
}
