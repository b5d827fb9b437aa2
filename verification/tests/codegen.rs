use loader_tree::builder::BaseLoaderTreeBuilder;
use loader_tree::ComponentType;

fn tags() -> Vec<(ComponentType, &'static str)> {
    vec![
        (ComponentType::Page, "page"),
        (ComponentType::DefaultPage, "defaultPage"),
        (ComponentType::Error, "error"),
        (ComponentType::Layout, "layout"),
        (ComponentType::Loading, "loading"),
        (ComponentType::Template, "template"),
        (ComponentType::NotFound, "not-found"),
    ]
}

#[test]
fn component_tags_are_stable() {
    for (kind, tag) in tags() {
        assert_eq!(kind.name(), tag);
    }
}

#[test]
fn tag_with_hyphen_is_hex_encoded() {
    let mut b = BaseLoaderTreeBuilder::new();
    b.create_component_tuple_code(ComponentType::NotFound, 1, "/app/not-found.tsx");
    assert_eq!(
        b.imports[0],
        "import * as __LOADER_TREE__not$2d$found_0__ from \"COMPONENT_0\";\n"
    );
}

#[test]
fn quote_in_path_is_backslash_escaped() {
    let mut b = BaseLoaderTreeBuilder::new();
    let code = b.create_component_tuple_code(ComponentType::Page, 5, "/app/\"odd\"/page.tsx");
    assert_eq!(
        code,
        "[() => __LOADER_TREE__page_0__, \"/app/\\\"odd\\\"/page.tsx\"]"
    );
    assert!(code.contains("\\\""));
}

#[test]
fn backslash_and_control_chars_are_escaped() {
    let mut b = BaseLoaderTreeBuilder::new();
    let code = b.create_component_tuple_code(ComponentType::Loading, 5, "a\\b\nc\td\re");
    assert_eq!(
        code,
        "[() => __LOADER_TREE__loading_0__, \"a\\\\b\\nc\\td\\re\"]"
    );
}

#[test]
fn non_ascii_chars_are_code_point_escaped() {
    let mut b = BaseLoaderTreeBuilder::new();
    let code = b.create_component_tuple_code(ComponentType::Page, 5, "/app/caf\u{e9}/\u{1f600}.tsx");
    assert_eq!(
        code,
        "[() => __LOADER_TREE__page_0__, \"/app/caf\\u{e9}/\\u{1f600}.tsx\"]"
    );
}

/// Reads a quoted, escaped literal back into the string it embeds.
fn unescape_literal(lit: &str) -> String {
    let chars: Vec<char> = lit.chars().collect();
    assert_eq!(chars.first(), Some(&'"'));
    assert_eq!(chars.last(), Some(&'"'));
    let mut out = String::new();
    let mut i: usize = 1;
    while i < chars.len() - 1 {
        if chars[i] != '\\' {
            out.push(chars[i]);
            i += 1;
        } else {
            match chars[i + 1] {
                '"' => out.push('"'),
                '\\' => out.push('\\'),
                'n' => out.push('\n'),
                'r' => out.push('\r'),
                't' => out.push('\t'),
                'u' => {
                    assert_eq!(chars[i + 2], '{');
                    let mut v: u32 = 0;
                    let mut j: usize = i + 3;
                    while chars[j] != '}' {
                        v = v * 16 + chars[j].to_digit(16).unwrap();
                        j += 1;
                    }
                    out.push(char::from_u32(v).unwrap());
                    i = j + 1;
                    continue;
                }
                other => panic!("unexpected escape {other}"),
            }
            i += 2;
        }
    }
    out
}

#[test]
fn substituted_tuples_round_trip_to_registered_modules() {
    let mut b = BaseLoaderTreeBuilder::new();
    let paths = ["/app/page.tsx", "/app/\"q\"/layout.tsx", "/caf\u{e9}\\x\n.tsx"];
    let kinds = [
        ComponentType::Page,
        ComponentType::Layout,
        ComponentType::NotFound,
    ];
    let mut codes = Vec::new();
    for (i, (kind, path)) in kinds.iter().zip(paths.iter()).enumerate() {
        codes.push(b.create_component_tuple_code(*kind, 100 + i as u64, path));
    }
    for (i, code) in codes.iter().enumerate() {
        // The lazy accessor names exactly the identifier bound by import i.
        let accessor = code
            .strip_prefix("[() => ")
            .unwrap()
            .split(", \"")
            .next()
            .unwrap()
            .to_string();
        let line = &b.imports[i];
        assert!(line.starts_with(&format!("import * as {accessor} from ")));
        // The specifier of import i is the key of asset entry i, so the
        // substitution step hands the accessor exactly the module
        // registered by call i.
        let (key, module) = b.inner_assets.get_index(i).unwrap();
        assert!(line.contains(&format!("from \"{key}\";")));
        assert_eq!(*module, 100 + i as u64);
        // The second tuple element reads back as exactly the canonical path.
        let start = code.find(", ").unwrap() + 2;
        let literal = &code[start..code.len() - 1];
        assert_eq!(unescape_literal(literal), paths[i]);
    }
}
