use xmlsql::load::StoreIds;
use xmlsql::tree::{flatten_document, merge_text, Element};

fn element(tag: &str, attributes: &[(&str, &str)], texts: &[&str], children: Vec<Element>) -> Element {
    Element {
        tag_name: tag.to_string(),
        attributes: attributes.iter().map(|(n, v)| (n.to_string(), v.to_string())).collect(),
        texts: texts.iter().map(|t| t.to_string()).collect(),
        children,
    }
}

#[test]
fn flatten_numbers_in_preorder() {
    let root = element(
        "root",
        &[],
        &["\n  ", "A", " C "],
        vec![
            element("b", &[("id", "1")], &["Bold"], vec![element("i", &[], &[], vec![])]),
            element("c", &[("class", "x y"), ("id", "2")], &["  "], vec![]),
        ],
    );
    let nodes = flatten_document(&root);
    assert_eq!(nodes.len(), 4);
    let tags: Vec<&str> = nodes.iter().map(|n| n.tag_name.as_str()).collect();
    assert_eq!(tags, vec!["root", "b", "i", "c"]);
    let ids: Vec<i64> = nodes.iter().map(|n| n.id).collect();
    assert_eq!(ids, vec![1, 2, 3, 4]);
    let parents: Vec<Option<i64>> = nodes.iter().map(|n| n.parent_id).collect();
    assert_eq!(parents, vec![None, Some(1), Some(2), Some(1)]);
    let depths: Vec<i32> = nodes.iter().map(|n| n.depth).collect();
    assert_eq!(depths, vec![0, 1, 2, 1]);
    assert_eq!(nodes[0].text_content, Some("A C".to_string()));
    assert_eq!(nodes[1].text_content, Some("Bold".to_string()));
    assert_eq!(nodes[2].text_content, None);
    assert_eq!(nodes[3].text_content, None);
    assert_eq!(
        nodes[3].attributes,
        vec![("class".to_string(), "x y".to_string()), ("id".to_string(), "2".to_string())]
    );
}

#[test]
fn single_root_has_no_parent() {
    let nodes = flatten_document(&element("html", &[], &[], vec![]));
    assert_eq!(nodes.len(), 1);
    assert_eq!(nodes[0].id, 1);
    assert_eq!(nodes[0].parent_id, None);
    assert_eq!(nodes[0].depth, 0);
}

#[test]
fn text_pieces_are_trimmed_and_joined() {
    let texts = vec!["  Hello ".to_string(), "\t".to_string(), "World\n".to_string()];
    assert_eq!(merge_text(&texts), Some("Hello World".to_string()));
    assert_eq!(merge_text(&vec![" \u{3000} ".to_string()]), None);
    assert_eq!(merge_text(&Vec::new()), None);
}

#[test]
fn store_ids_resolve_parents_and_root() {
    let root = element("r", &[], &[], vec![element("a", &[], &[], vec![])]);
    let nodes = flatten_document(&root);
    let mut ids = StoreIds::new();
    assert_eq!(ids.root_in_store(&nodes), None);
    assert_eq!(ids.parent_in_store(&nodes[0]), None);
    ids.record(nodes[0].id, 40);
    assert_eq!(ids.parent_in_store(&nodes[1]), Some(40));
    ids.record(nodes[1].id, 41);
    assert_eq!(ids.get(2), Some(41));
    assert_eq!(ids.get(3), None);
    assert_eq!(ids.root_in_store(&nodes), Some(40));
    assert_eq!(ids.root_in_store(&[]), None);
}

#[test]
fn repeated_attribute_keeps_last_value() {
    let root = element("p", &[("class", "a"), ("id", "x"), ("class", "b")], &[], vec![]);
    let nodes = flatten_document(&root);
    assert_eq!(
        nodes[0].attributes,
        vec![("class".to_string(), "b".to_string()), ("id".to_string(), "x".to_string())]
    );
}
