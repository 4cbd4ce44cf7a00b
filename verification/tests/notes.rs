use forge_obsidian::note::{extract_tags, extract_wikilinks, split_frontmatter, NoteContext};
use forge_obsidian::props::{MapEntry, PropVal};

#[test]
fn extracts_wikilinks() {
    let body = "See [[Note A]] and [[Note B|display]] but not [regular](link).";
    let links = extract_wikilinks(body);
    assert_eq!(links, vec!["Note A", "Note B"]);
}

#[test]
fn wikilink_edge_cases() {
    // empty targets and unclosed fences never match
    assert_eq!(extract_wikilinks("[[]] [[|x]] [[open"), Vec::<String>::new());
    // a bar with empty display text is no match
    assert_eq!(extract_wikilinks("[[a|]]"), Vec::<String>::new());
    // the display part may hold further bars
    assert_eq!(extract_wikilinks("[[a|b|c]]"), vec!["a"]);
    // matches are non-overlapping, leftmost first
    assert_eq!(extract_wikilinks("[[a]][[b]]"), vec!["a", "b"]);
}

#[test]
fn extracts_tags_from_sequence() {
    let mut props = Vec::new();
    props.push(MapEntry {
        key: "tags".to_owned(),
        val: PropVal::List(vec![
            PropVal::Str("type/note".into()),
            PropVal::Str("#topic/rust".into()),
        ]),
    });
    let tags = extract_tags(&props);
    assert_eq!(tags, vec!["type/note", "topic/rust"]);
}

#[test]
fn extracts_tags_from_comma_string() {
    let props = vec![MapEntry {
        key: "tags".to_owned(),
        val: PropVal::Str(" #a , b/c ,, ".into()),
    }];
    let tags = extract_tags(&props);
    assert_eq!(tags, vec!["a", "b/c"]);
}

#[test]
fn extracts_no_tags_from_other_shapes() {
    assert_eq!(extract_tags(&Vec::new()), Vec::<String>::new());
    let props = vec![MapEntry { key: "tags".to_owned(), val: PropVal::Bool(true) }];
    assert_eq!(extract_tags(&props), Vec::<String>::new());
    // numbers inside a sequence are not tags
    let props = vec![MapEntry {
        key: "tags".to_owned(),
        val: PropVal::List(vec![PropVal::Num("3".into()), PropVal::Str("real".into())]),
    }];
    assert_eq!(extract_tags(&props), vec!["real"]);
}

#[test]
fn splits_frontmatter_and_body() {
    let content = "---\ntitle: Hello\ntags:\n  - type/note\n---\n# Hello\n\nBody text with [[Link One]].\n";
    let (yaml, body) = split_frontmatter(content).unwrap();
    assert_eq!(yaml, "title: Hello\ntags:\n  - type/note");
    assert!(body.contains("# Hello"));
    assert!(body.contains("[[Link One]]"));
}

#[test]
fn frontmatter_requires_opening_and_closing_fence() {
    assert!(split_frontmatter("# Just a body").is_none());
    assert!(split_frontmatter("---\nnever closed").is_none());
}

#[test]
fn note_context_predicates() {
    let ctx = NoteContext {
        rel_path: "Notes/test.md".to_owned(),
        name: "test".to_owned(),
        ext: "md".to_owned(),
        folder: "Notes".to_owned(),
        tags: vec!["type/item".to_owned()],
        links: vec!["Other Note".to_owned()],
        properties: vec![MapEntry { key: "title".to_owned(), val: PropVal::Str("Test".into()) }],
        content: String::new(),
    };
    assert!(ctx.has_tag("type/item"));
    assert!(!ctx.has_tag("type/project"));
    assert!(ctx.has_link("Other Note"));
    assert!(ctx.has_link("other note"));
    assert!(!ctx.has_link("Missing"));
    assert!(matches!(ctx.get_property("title"), Some(PropVal::Str(s)) if s == "Test"));
    assert!(ctx.get_property("missing").is_none());
}
