use vortex_inspect::tree::{
    column_encodings, contains_encoding, find_columns_with_encoding, find_first_struct_children, is_struct_node,
    EncodingNode, NodeDetail,
};

fn node(id: &str, byte_size: u64, children: Vec<EncodingNode>) -> EncodingNode {
    EncodingNode::new(id.to_string(), byte_size, children)
}

fn leaf(id: &str, byte_size: u64) -> EncodingNode {
    node(id, byte_size, Vec::new())
}

fn names(items: &[&str]) -> Vec<String> {
    items.iter().map(|s| s.to_string()).collect()
}

fn ids(nodes: &[EncodingNode]) -> Vec<String> {
    nodes.iter().map(|n| n.encoding_id.clone()).collect()
}

#[test]
fn struct_node_is_recognised() {
    assert!(is_struct_node(&leaf("vortex.struct", 0)));
    assert!(!is_struct_node(&leaf("vortex.structs", 0)));
    assert!(!is_struct_node(&leaf("vortex.chunked", 0)));
}

#[test]
fn contains_encoding_searches_every_depth() {
    let tree = node(
        "vortex.chunked",
        10,
        vec![
            node("vortex.struct", 5, vec![leaf("vortex.primitive", 1)]),
            node("vortex.struct", 5, vec![node("vortex.dict", 3, vec![leaf("vortex.zstd", 2)])]),
        ],
    );
    assert!(contains_encoding(&tree, "vortex.chunked"));
    assert!(contains_encoding(&tree, "vortex.zstd"));
    assert!(contains_encoding(&tree, "vortex.dict"));
    assert!(!contains_encoding(&tree, "vortex.runend"));
    assert!(!contains_encoding(&tree, ""));
    assert!(!contains_encoding(&leaf("vortex.alp", 1), "vortex.zstd"));
}

#[test]
fn first_struct_search_stops_at_outer_struct() {
    let b = node("vortex.struct", 4, vec![leaf("p", 1), leaf("q", 1)]);
    let a = node("vortex.struct", 8, vec![leaf("x", 1), node("vortex.wrapper", 4, vec![b])]);
    let found = find_first_struct_children(&a);
    assert_eq!(ids(found), names(&["x", "vortex.wrapper"]));
    let root = node("vortex.chunked", 9, vec![a]);
    let found = find_first_struct_children(&root);
    assert_eq!(ids(found), names(&["x", "vortex.wrapper"]));
}

#[test]
fn first_struct_search_is_preorder() {
    let root = node(
        "vortex.chunked",
        9,
        vec![
            leaf("vortex.primitive", 1),
            node("vortex.wrapper", 2, vec![node("vortex.struct", 2, vec![leaf("first", 1)])]),
            node("vortex.struct", 2, vec![leaf("second", 1)]),
        ],
    );
    assert_eq!(ids(find_first_struct_children(&root)), names(&["first"]));
}

#[test]
fn first_struct_search_skips_empty_structs() {
    let root = node(
        "vortex.chunked",
        9,
        vec![leaf("vortex.struct", 0), node("vortex.struct", 2, vec![leaf("a", 1), leaf("b", 1)])],
    );
    assert_eq!(ids(find_first_struct_children(&root)), names(&["a", "b"]));
    assert!(find_first_struct_children(&leaf("vortex.primitive", 1)).is_empty());
    assert!(find_first_struct_children(&leaf("vortex.struct", 0)).is_empty());
}

#[test]
fn single_occurrence_flags_every_column() {
    let root = node(
        "vortex.struct",
        30,
        vec![
            leaf("vortex.primitive", 10),
            node("vortex.dict", 10, vec![leaf("vortex.zstd", 4)]),
            leaf("vortex.alp", 10),
        ],
    );
    let cols = names(&["id", "name", "price"]);
    assert_eq!(find_columns_with_encoding(&root, "vortex.zstd", &cols), cols);
    assert_eq!(find_columns_with_encoding(&root, "vortex.fsst", &cols), Vec::<String>::new());
}

#[test]
fn chunked_tree_flags_every_column() {
    let chunk = |z: &str| node("vortex.struct", 4, vec![leaf("vortex.primitive", 2), leaf(z, 2)]);
    let root = node("vortex.chunked", 8, vec![chunk("vortex.primitive"), chunk("vortex.zstd")]);
    let cols = names(&["a", "b"]);
    assert_eq!(find_columns_with_encoding(&root, "vortex.zstd", &cols), cols);
    assert_eq!(find_columns_with_encoding(&root, "vortex.delta", &cols), Vec::<String>::new());
}

#[test]
fn column_encodings_pair_names_with_struct_children() {
    let root = node(
        "vortex.chunked",
        100,
        vec![node(
            "vortex.struct",
            90,
            vec![
                EncodingNode {
                    encoding_id: "vortex.dict".to_string(),
                    byte_size: 40,
                    children: Vec::new(),
                    detail: NodeDetail::Dict { values: 3, codes: 12 },
                },
                leaf("vortex.zstd", 50),
                leaf("vortex.alp", 7),
            ],
        )],
    );
    let cols = column_encodings(&root, &names(&["city", "notes"]));
    assert_eq!(cols.len(), 2);
    assert_eq!(cols[0].name, "city");
    assert_eq!(cols[0].encoding_id, "vortex.dict");
    assert_eq!(cols[0].byte_size, 40);
    assert_eq!(cols[0].description, " [Dict: 3 values, 12 codes]");
    assert_eq!(cols[1].name, "notes");
    assert_eq!(cols[1].encoding_id, "vortex.zstd");
    assert_eq!(cols[1].byte_size, 50);
    assert_eq!(cols[1].description, " [Zstd]");
    assert!(column_encodings(&leaf("vortex.primitive", 1), &names(&["a"])).is_empty());
}
