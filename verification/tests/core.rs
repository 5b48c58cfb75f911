use sandbox_fs::breadcrumb::{build_breadcrumbs, Breadcrumb};
use sandbox_fs::csv_reader::{demo_table_info, read_csv_bytes, ColumnInfo};
use sandbox_fs::dir_list::{build_list_response, ChildEntry, EntryKind};
use sandbox_fs::path_resolve::resolve_nested;

#[test]
fn test_build_breadcrumbs() {
    let path = resolve_nested("a/b/c").unwrap();
    assert_eq!(
        build_breadcrumbs(&path),
        vec![
            Breadcrumb { title: "ROOT".to_string(), path: "".to_string() },
            Breadcrumb { title: "a".to_string(), path: "a".to_string() },
            Breadcrumb { title: "b".to_string(), path: "a/b".to_string() }
        ]
    );
}

#[test]
fn test_resolve_path() {
    println!("{:?}", resolve_nested("/home/stas/../dev/temp/root"));

    assert_eq!(resolve_nested("/").unwrap().rel_path(), "");
    assert!(resolve_nested("../home/stas/dev/temp/root").is_none());
    assert!(resolve_nested("/../home/stas/dev/temp/root").is_none());
    assert_eq!(
        resolve_nested("/home/stas/../dev/./temp/root").unwrap().rel_path(),
        "home/dev/temp/root"
    );
}

#[test]
fn test_resolve_rejects_climb() {
    assert!(resolve_nested("../../etc").is_none());
    assert!(resolve_nested("/../x").is_none());
    assert!(resolve_nested("a/../..").is_none());
    assert!(resolve_nested("a/../../b").is_none());
}

#[test]
fn test_resolve_without_parent_stays_under_root() {
    for raw in ["", "/", "a/b", "/a//b", "./a", "a/./b/"] {
        let resolved = resolve_nested(raw).expect("a path without .. resolves");
        let target = resolved.target_path("/sandbox/root");
        assert!(target.starts_with("/sandbox/root"));
    }
}

#[test]
fn test_resolve_normalizes_parent_steps() {
    let normalized = resolve_nested("/a/../b").unwrap();
    let plain = resolve_nested("/b").unwrap();
    assert_eq!(normalized.rel_path(), plain.rel_path());
    assert_eq!(normalized.rel_path(), "b");
}

#[test]
fn test_resolve_of_resolved_is_identity() {
    let first = resolve_nested("/home/stas/../dev/./temp/root").unwrap();
    let again = resolve_nested(&first.rel_path()).unwrap();
    assert_eq!(again.rel_path(), first.rel_path());
}

#[test]
fn test_root_breadcrumbs_empty() {
    let root = resolve_nested("/").unwrap();
    assert!(build_breadcrumbs(&root).is_empty());
}

#[test]
fn test_target_path_joins_under_root() {
    let path = resolve_nested("a/b").unwrap();
    assert_eq!(path.target_path("/data"), "/data/a/b");
    let root = resolve_nested("/").unwrap();
    assert_eq!(root.target_path("/data"), "/data");
    assert!(root.is_root());
    assert!(!path.is_root());
}

#[test]
fn test_list_skips_special_entries() {
    let dir = resolve_nested("docs").unwrap();
    let children = vec![
        ChildEntry { name: "a.txt".to_string(), kind: EntryKind::File },
        ChildEntry { name: "weird.sock".to_string(), kind: EntryKind::Other },
        ChildEntry { name: "sub".to_string(), kind: EntryKind::Dir },
    ];
    let response = build_list_response(&dir, &children);
    assert_eq!(response.entries.len(), 2);
    assert_eq!(response.entries[0].path, "docs/a.txt");
    assert!(response.entries[0].is_file);
    assert_eq!(response.entries[1].path, "docs/sub");
    assert!(!response.entries[1].is_file);
    assert_eq!(response.breadcrumbs.len(), 1);
    assert_eq!(response.breadcrumbs[0].title, "ROOT");
    assert_eq!(response.breadcrumbs[0].path, "");
}

#[test]
fn test_list_at_root_uses_bare_names() {
    let root = resolve_nested("/").unwrap();
    let children = vec![ChildEntry { name: "top".to_string(), kind: EntryKind::Dir }];
    let response = build_list_response(&root, &children);
    assert_eq!(response.entries.len(), 1);
    assert_eq!(response.entries[0].path, "top");
    assert!(response.breadcrumbs.is_empty());
}

#[test]
fn test_csv_round_trip() {
    let table = read_csv_bytes(b"id,title\n1,Chair\n").unwrap();
    assert_eq!(table.columns.len(), 2);
    assert_eq!(table.columns[0].key, "id");
    assert_eq!(table.columns[0].name, "id");
    assert_eq!(table.columns[1].key, "title");
    assert_eq!(table.columns[1].name, "title");
    assert_eq!(table.rows.len(), 1);
    assert_eq!(
        table.rows[0].cells,
        vec![
            ("id".to_string(), "1".to_string()),
            ("title".to_string(), "Chair".to_string())
        ]
    );
}

#[test]
fn test_csv_short_row_omits_trailing_keys() {
    let table = read_csv_bytes(b"id,title\n1\n").unwrap();
    assert_eq!(table.rows.len(), 1);
    assert_eq!(table.rows[0].cells, vec![("id".to_string(), "1".to_string())]);
}

#[test]
fn test_csv_long_row_drops_excess_cells() {
    let table = read_csv_bytes(b"id\n1,extra\n").unwrap();
    assert_eq!(table.rows.len(), 1);
    assert_eq!(table.rows[0].cells, vec![("id".to_string(), "1".to_string())]);
}

#[test]
fn test_csv_malformed_bytes_reported() {
    let result = read_csv_bytes(b"id\n\xff\xfe\n");
    assert!(result.is_err());
}

#[test]
fn test_column_info_new() {
    let column = ColumnInfo::new("id", "ID");
    assert_eq!(column.key, "id");
    assert_eq!(column.name, "ID");
}

#[test]
fn test_demo_table_info() {
    let info = demo_table_info();
    let pairs: Vec<(&str, &str)> = info
        .columns
        .iter()
        .map(|c| (c.key.as_str(), c.name.as_str()))
        .collect();
    assert_eq!(
        pairs,
        vec![
            ("id", "ID"),
            ("title", "Title"),
            ("product_type", "Product type"),
            ("price", "Price"),
            ("stock", "Stock"),
        ]
    );
}
