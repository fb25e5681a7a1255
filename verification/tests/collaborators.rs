use esm_generate::bundle_reference::ReferenceKind;
use esm_generate::module::{ModuleAnalyzer, ModuleAnalyzerManager, ModuleId};
use esm_generate::name_order::{str_eq, str_lt};
use esm_generate::string_map::StringMap;
use esm_generate::uniq_name::{BundleVariable, Var};

#[test]
fn names_are_ordered_by_their_bytes() {
    assert!(str_lt("", "a"));
    assert!(!str_lt("", ""));
    assert!(str_lt("a", "b"));
    assert!(!str_lt("b", "a"));
    assert!(!str_lt("a", "a"));
    assert!(str_lt("a", "ab"));
    assert!(!str_lt("ab", "a"));
    assert!(str_lt("Z", "a"));
    assert!(str_lt("a10", "a2"));
    assert!(str_lt("z", "é"));
    assert!(str_lt("é", "中"));
    assert!(str_lt("中", "😀"));
    assert!(!str_lt("😀", "中"));
}

#[test]
fn name_order_agrees_with_the_order_of_strings() {
    let names = ["", "a", "ab", "b", "B", "é", "e", "中文", "😀", "a/b", "a.b", "__x", "x_1"];
    for a in names {
        for b in names {
            assert_eq!(str_lt(a, b), a < b);
            assert_eq!(str_eq(a, b), a == b);
        }
    }
}

#[test]
fn string_map_is_walked_in_the_order_of_its_names() {
    let mut map: StringMap<u32> = StringMap::new();
    assert!(map.is_empty());
    assert_eq!(map.insert("pear".to_string(), 1), None);
    assert_eq!(map.insert("apple".to_string(), 2), None);
    assert_eq!(map.insert("quince".to_string(), 3), None);
    assert_eq!(map.insert("banana".to_string(), 4), None);
    assert_eq!(map.len(), 4);
    assert!(!map.is_empty());
    let keys: Vec<String> = (0..map.len()).map(|i| map.key_at(i).clone()).collect();
    assert_eq!(keys, vec!["apple", "banana", "pear", "quince"]);
    let values: Vec<u32> = (0..map.len()).map(|i| *map.value_at(i)).collect();
    assert_eq!(values, vec![2, 4, 1, 3]);
}

#[test]
fn string_map_replaces_the_value_of_a_name() {
    let mut map: StringMap<u32> = StringMap::new();
    map.insert("a".to_string(), 1);
    map.insert("b".to_string(), 2);
    assert_eq!(map.insert("a".to_string(), 10), Some(1));
    assert_eq!(map.len(), 2);
    assert_eq!(map.get("a"), Some(&10));
    assert_eq!(map.get("b"), Some(&2));
    assert_eq!(map.get("c"), None);
    assert!(map.contains_key("b"));
    assert!(!map.contains_key(""));
    assert_eq!(map.find("b"), Some(1));
    assert_eq!(map.find("ab"), None);
    *map.value_at_mut(1) = 20;
    assert_eq!(map.get("b"), Some(&20));
}

#[test]
fn string_map_gives_up_its_greatest_name_first() {
    let mut map: StringMap<u32> = StringMap::new();
    map.insert("b".to_string(), 2);
    map.insert("c".to_string(), 3);
    map.insert("a".to_string(), 1);
    assert_eq!(map.pop_last(), Some(("c".to_string(), 3)));
    assert_eq!(map.pop_last(), Some(("b".to_string(), 2)));
    assert_eq!(map.pop_last(), Some(("a".to_string(), 1)));
    assert_eq!(map.pop_last(), None);
    assert!(map.is_empty());
}

#[test]
fn unknown_modules_are_reported_as_nothing() {
    let mut manager = ModuleAnalyzerManager::new();
    let id = ModuleId::new("src/a.ts");
    assert!(!manager.contains(&id));
    assert!(!manager.is_entry(&id));
    assert!(!manager.is_external(&id));
    assert!(!manager.is_commonjs(&id));
    assert_eq!(manager.module_analyzer(&id), None);
    let analyzer = ModuleAnalyzer {
        entry: true,
        external: false,
        commonjs: true,
        resource_pot_id: "index".to_string(),
    };
    manager.insert(ModuleId::new("src/a.ts"), analyzer.clone());
    assert!(manager.contains(&id));
    assert!(manager.is_entry(&id));
    assert!(!manager.is_external(&id));
    assert!(manager.is_commonjs(&id));
    assert_eq!(manager.module_analyzer(&id), Some(&analyzer));
    assert!(!manager.is_entry(&ModuleId::new("src/b.ts")));
}

#[test]
fn symbols_are_addressed_by_index() {
    let mut table = BundleVariable::new();
    assert_eq!(table.len(), 0);
    let first = Var {
        name: "a".to_string(),
        render_name: "a_1".to_string(),
        removed: false,
        module_id: Some(ModuleId::new("src/a.ts")),
    };
    let second = Var {
        name: "b".to_string(),
        render_name: "b".to_string(),
        removed: true,
        module_id: None,
    };
    assert_eq!(table.register_var(first.clone()), 0);
    assert_eq!(table.register_var(second.clone()), 1);
    assert_eq!(table.len(), 2);
    assert_eq!(table.name(0), "a");
    assert_eq!(table.render_name(0), "a_1");
    assert_eq!(table.var_by_index(1), &second);
    assert!(table.var_by_index(1).removed);
    assert_eq!(table.module_id_by_var_index(0), Some(&ModuleId::new("src/a.ts")));
    assert_eq!(table.module_id_by_var_index(1), None);
}

#[test]
fn reference_sources_are_named_by_their_identifiers() {
    assert_eq!(ReferenceKind::Bundle("vendor".to_string()).to_string(), "vendor");
    assert_eq!(ReferenceKind::Module(ModuleId::new("src/a.ts?raw")).to_string(), "src/a.ts?raw");
    assert_eq!(ModuleId::new("src/a.ts").as_str(), "src/a.ts");
}

#[test]
fn chunks_come_before_modules() {
    let chunk_a = ReferenceKind::Bundle("a".to_string());
    let chunk_z = ReferenceKind::Bundle("z".to_string());
    let module_a = ReferenceKind::Module(ModuleId::new("a"));
    let module_b = ReferenceKind::Module(ModuleId::new("b"));
    assert!(chunk_a.comes_before(&chunk_z));
    assert!(!chunk_z.comes_before(&chunk_a));
    assert!(chunk_z.comes_before(&module_a));
    assert!(!module_a.comes_before(&chunk_z));
    assert!(!module_a.comes_before(&chunk_a));
    assert!(module_a.comes_before(&module_b));
    assert!(!module_b.comes_before(&module_a));
    assert!(!module_a.comes_before(&module_a));
}
