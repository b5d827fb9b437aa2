use loader_tree::builder::BaseLoaderTreeBuilder;
use loader_tree::ComponentType;

#[test]
fn allocator_counts_from_zero() {
    let mut b = BaseLoaderTreeBuilder::new();
    assert_eq!(b.counter(), 0);
    let mut seen = Vec::new();
    for _ in 0..10 {
        seen.push(b.unique_number());
    }
    assert_eq!(seen, vec![0, 1, 2, 3, 4, 5, 6, 7, 8, 9]);
    assert_eq!(b.counter(), 10);
}

#[test]
fn fresh_builder_is_empty() {
    let b = BaseLoaderTreeBuilder::new();
    assert_eq!(b.imports.len(), 0);
    assert!(b.inner_assets.is_empty());
}

#[test]
fn two_calls_same_path_stay_independent() {
    let mut b = BaseLoaderTreeBuilder::new();
    let code0 = b.create_component_tuple_code(ComponentType::Page, 11, "/app/page.tsx");
    let code1 = b.create_component_tuple_code(ComponentType::Layout, 22, "/app/page.tsx");

    assert_eq!(b.imports.len(), 2);
    assert_eq!(
        b.imports[0],
        "import * as __LOADER_TREE__page_0__ from \"COMPONENT_0\";\n"
    );
    assert_eq!(
        b.imports[1],
        "import * as __LOADER_TREE__layout_1__ from \"COMPONENT_1\";\n"
    );

    assert_eq!(b.inner_assets.len(), 2);
    let (k0, v0) = b.inner_assets.get_index(0).unwrap();
    let (k1, v1) = b.inner_assets.get_index(1).unwrap();
    assert_eq!((k0.as_str(), *v0), ("COMPONENT_0", 11));
    assert_eq!((k1.as_str(), *v1), ("COMPONENT_1", 22));

    assert_eq!(code0, "[() => __LOADER_TREE__page_0__, \"/app/page.tsx\"]");
    assert_eq!(code1, "[() => __LOADER_TREE__layout_1__, \"/app/page.tsx\"]");
}

#[test]
fn identifier_and_key_share_the_call_number() {
    let mut b = BaseLoaderTreeBuilder::new();
    for i in 0..12 {
        b.create_component_tuple_code(ComponentType::Template, i as u64, "/app/template.tsx");
    }
    for i in 0..12 {
        let line = &b.imports[i];
        let ident = line
            .strip_prefix("import * as ")
            .unwrap()
            .split(" from ")
            .next()
            .unwrap();
        assert!(ident.ends_with(&format!("_{i}__")));
        let (key, _) = b.inner_assets.get_index(i).unwrap();
        assert_eq!(key.as_str(), &format!("COMPONENT_{i}"));
        assert!(line.contains(&format!(" from \"COMPONENT_{i}\";")));
    }
}

#[test]
fn repeated_kind_mints_distinct_identifiers() {
    let mut b = BaseLoaderTreeBuilder::new();
    let mut idents = Vec::new();
    for i in 0..100 {
        b.create_component_tuple_code(ComponentType::Layout, i as u64, "/app/layout.tsx");
        let line = &b.imports[i];
        let ident = line
            .strip_prefix("import * as ")
            .unwrap()
            .split(" from ")
            .next()
            .unwrap()
            .to_string();
        idents.push(ident);
    }
    for a in 0..idents.len() {
        for b2 in (a + 1)..idents.len() {
            assert_ne!(idents[a], idents[b2]);
        }
    }
}

#[test]
fn external_allocation_skips_a_number() {
    let mut b = BaseLoaderTreeBuilder::new();
    let first = b.unique_number();
    assert_eq!(first, 0);
    b.create_component_tuple_code(ComponentType::Error, 7, "/app/error.tsx");
    assert_eq!(
        b.imports[0],
        "import * as __LOADER_TREE__error_1__ from \"COMPONENT_1\";\n"
    );
    let (key, v) = b.inner_assets.get_index(0).unwrap();
    assert_eq!((key.as_str(), *v), ("COMPONENT_1", 7));
}
