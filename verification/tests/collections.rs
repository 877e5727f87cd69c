use graph_util::dependency::{Dependencies, Dependency, Import};
use graph_util::graph_data::{CheckedLibs, TsTypeLib};
use graph_util::resolution::{Position, Range, Resolved};
use graph_util::specifier::ModuleSpecifier;
use graph_util::specifier_map::{SpecifierMap, SpecifierSet};
use graph_util::text::{contains_text, decimal_text, is_text_less};

fn import(text: &str, is_dynamic: bool) -> Import {
    Import {
        text: text.to_string(),
        npm: false,
        dependency: Dependency {
            maybe_code: Resolved::Nothing,
            maybe_type: Resolved::Nothing,
            is_dynamic,
            maybe_assert_type: Some("json".to_string()),
        },
    }
}

fn texts(dependencies: &Dependencies) -> Vec<&str> {
    (0..dependencies.len()).map(|i| dependencies.import_at(i).text.as_str()).collect()
}

#[test]
fn dependencies_stand_in_the_order_of_their_texts() {
    let mut dependencies = Dependencies::new();
    assert_eq!(dependencies.len(), 0);
    for text in ["./m.ts", "./z.ts", "./a.ts", "./aa.ts", "", "./\u{e9}.ts"] {
        dependencies.insert(import(text, false));
    }
    assert_eq!(
        texts(&dependencies),
        vec!["", "./a.ts", "./aa.ts", "./m.ts", "./z.ts", "./\u{e9}.ts"]
    );
}

#[test]
fn dependencies_hold_each_text_once() {
    let mut dependencies = Dependencies::new();
    dependencies.insert(import("b", false));
    dependencies.insert(import("a", false));
    dependencies.insert(import("b", true));
    assert_eq!(texts(&dependencies), vec!["a", "b"]);
    assert!(dependencies.import_at(1).dependency.is_dynamic);
    assert!(!dependencies.import_at(0).dependency.is_dynamic);
    let copy = dependencies.clone();
    assert_eq!(copy.import_at(1), dependencies.import_at(1));
}

#[test]
fn dependencies_are_found_by_text() {
    let mut dependencies = Dependencies::new();
    assert!(dependencies.get("a").is_none());
    for (text, is_dynamic) in [("m", false), ("a", true), ("z", false), ("m", true)] {
        dependencies.insert(import(text, is_dynamic));
    }
    assert!(dependencies.get("a").unwrap().is_dynamic);
    assert!(dependencies.get("m").unwrap().is_dynamic);
    assert!(!dependencies.get("z").unwrap().is_dynamic);
    for text in ["", "b", "mm", "zz"] {
        assert!(dependencies.get(text).is_none());
    }
}

#[test]
fn specifier_map_keeps_the_last_value_of_a_key() {
    let mut map: SpecifierMap<u32> = SpecifierMap::new();
    map.insert(ModuleSpecifier::url("b"), 1);
    map.insert(ModuleSpecifier::url("a"), 2);
    map.insert(ModuleSpecifier::url("b"), 3);
    assert_eq!(map.len(), 2);
    assert_eq!(map.get(&ModuleSpecifier::url("b")), Some(&3));
    assert_eq!(map.get(&ModuleSpecifier::url("a")), Some(&2));
    assert_eq!(map.get(&ModuleSpecifier::url("c")), None);
    assert_eq!(map.key_at(0), &ModuleSpecifier::url("b"));
    assert_eq!(map.replace(0, 4), 3);
    assert_eq!(map.value_at(0), &4);
    assert_eq!(map.index_of(&ModuleSpecifier::url("a")), Some(1));
}

#[test]
fn specifier_map_tells_npm_references_from_urls() {
    let mut map: SpecifierMap<u32> = SpecifierMap::new();
    map.insert(ModuleSpecifier::url("npm:a"), 1);
    assert!(!map.contains_key(&ModuleSpecifier::npm_reference("npm:a")));
    map.insert(ModuleSpecifier::npm_reference("npm:a"), 2);
    assert_eq!(map.get(&ModuleSpecifier::url("npm:a")), Some(&1));
    assert_eq!(map.get(&ModuleSpecifier::npm_reference("npm:a")), Some(&2));
}

#[test]
fn specifier_set_holds_what_was_inserted() {
    let mut set = SpecifierSet::new();
    assert!(!set.contains(&ModuleSpecifier::url("a")));
    set.insert(ModuleSpecifier::url("a"));
    set.insert(ModuleSpecifier::url("a"));
    assert!(set.contains(&ModuleSpecifier::url("a")));
    assert!(!set.contains(&ModuleSpecifier::url("b")));
}

#[test]
fn checked_libs_hold_window_worker_or_both() {
    let none = CheckedLibs::new();
    assert!(!none.contains(&TsTypeLib::DenoWindow) && !none.contains(&TsTypeLib::DenoWorker));
    let window = none.with(TsTypeLib::DenoWindow);
    assert!(window.contains(&TsTypeLib::DenoWindow) && !window.contains(&TsTypeLib::DenoWorker));
    let both = window.with(TsTypeLib::DenoWorker);
    assert!(both.contains(&TsTypeLib::DenoWindow) && both.contains(&TsTypeLib::DenoWorker));
}

#[test]
fn ranges_are_shown_counted_from_one() {
    let range = |line: usize, character: usize| Range {
        specifier: ModuleSpecifier::url("file:///a.ts"),
        start: Position { line, character },
        end: Position { line, character },
    };
    assert_eq!(range(0, 0).show(), "file:///a.ts:1:1");
    assert_eq!(range(9, 99).show(), "file:///a.ts:10:100");
}

#[test]
fn decimals_are_written_as_usual() {
    for n in [0u128, 1, 9, 10, 11, 99, 100, 12345, u128::MAX] {
        assert_eq!(decimal_text(n), n.to_string());
    }
}

#[test]
fn texts_are_searched_for_parts() {
    let cases = ["", "$", "$deno", "x$deno$y", "$den", "$$deno", "$deno$deno", "deno"];
    for whole in cases {
        for part in cases {
            assert_eq!(contains_text(whole, part), whole.contains(part));
        }
    }
}

#[test]
fn texts_are_ordered_as_strings_are() {
    let cases = ["", "a", "aa", "ab", "b", "B", "\u{e9}", "\u{ffff}", "\u{10000}", "a\u{e9}"];
    for a in cases {
        for b in cases {
            assert_eq!(is_text_less(a, b), a < b);
        }
    }
}
