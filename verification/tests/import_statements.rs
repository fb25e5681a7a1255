use esm_generate::ast::{ImportSpecifier, ModuleItem};
use esm_generate::bundle_reference::{ExternalReferenceImport, ImportMap, ReferenceKind};
use esm_generate::common::with_bundle_reference_slot_name;
use esm_generate::module::{ModuleAnalyzer, ModuleAnalyzerManager, ModuleId};
use esm_generate::uniq_name::{BundleVariable, Var};
use esm_generate::EsmGenerate;

fn symbol(table: &mut BundleVariable, render_name: &str) -> usize {
    table.register_var(Var {
        name: render_name.to_string(),
        render_name: render_name.to_string(),
        removed: false,
        module_id: None,
    })
}

fn classify(manager: &mut ModuleAnalyzerManager, id: &str, entry: bool, external: bool, pot: &str) {
    manager.insert(
        ModuleId::new(id),
        ModuleAnalyzer { entry, external, commonjs: false, resource_pot_id: pot.to_string() },
    );
}

fn module(id: &str) -> ReferenceKind {
    ReferenceKind::Module(ModuleId::new(id))
}

fn named(local: &str, imported: Option<&str>) -> ImportSpecifier {
    ImportSpecifier::Named { local: local.to_string(), imported: imported.map(|i| i.to_string()) }
}

fn import_of(names: &[(&str, usize)]) -> ExternalReferenceImport {
    let mut import = ExternalReferenceImport::new();
    for (name, symbol) in names {
        import.named.insert(name.to_string(), *symbol);
    }
    import
}

fn generate(
    table: &BundleVariable,
    import_map: &ImportMap,
    manager: &ModuleAnalyzerManager,
) -> Vec<ModuleItem> {
    assert!(import_map.is_valid(table, manager));
    EsmGenerate::generate_import(table, import_map, manager, "index")
}

#[test]
fn slot_name_wraps_the_chunk_identifier() {
    assert_eq!(
        with_bundle_reference_slot_name(&"vendor".to_string()),
        "__FARM_BUNDLE_REFERENCE_SLOT__(vendor)"
    );
    assert_eq!(with_bundle_reference_slot_name(&String::new()), "__FARM_BUNDLE_REFERENCE_SLOT__()");
}

#[test]
fn empty_map_gives_no_statement() {
    let table = BundleVariable::new();
    let manager = ModuleAnalyzerManager::new();
    assert_eq!(generate(&table, &ImportMap::new(), &manager), vec![]);
}

#[test]
fn sources_with_different_urls_get_a_statement_each() {
    let mut table = BundleVariable::new();
    let x1 = symbol(&mut table, "x_1");
    let x2 = symbol(&mut table, "x_2");
    let mut manager = ModuleAnalyzerManager::new();
    classify(&mut manager, "A", false, true, "");
    classify(&mut manager, "B", false, true, "");
    let mut import_map = ImportMap::new();
    import_map.insert(module("B"), import_of(&[("x", x2)]));
    import_map.insert(module("A"), import_of(&[("x", x1)]));
    assert_eq!(
        generate(&table, &import_map, &manager),
        vec![
            ModuleItem::Import {
                specifiers: vec![named("x_1", Some("x"))],
                src: "A".to_string(),
            },
            ModuleItem::Import {
                specifiers: vec![named("x_2", Some("x"))],
                src: "B".to_string(),
            },
        ]
    );
}

#[test]
fn an_empty_record_gives_no_statement() {
    let mut table = BundleVariable::new();
    let x = symbol(&mut table, "x");
    let mut manager = ModuleAnalyzerManager::new();
    classify(&mut manager, "side-effect", false, true, "");
    classify(&mut manager, "lib", false, true, "");
    let mut import_map = ImportMap::new();
    import_map.insert(module("side-effect"), ExternalReferenceImport::new());
    assert!(ExternalReferenceImport::new().is_empty());
    assert_eq!(generate(&table, &import_map, &manager), vec![]);
    import_map.insert(module("lib"), import_of(&[("x", x)]));
    assert_eq!(
        generate(&table, &import_map, &manager),
        vec![ModuleItem::Import { specifiers: vec![named("x", None)], src: "lib".to_string() }]
    );
}

#[test]
fn an_empty_record_adds_nothing_to_the_statement_of_its_url() {
    let mut table = BundleVariable::new();
    let x = symbol(&mut table, "x");
    let mut manager = ModuleAnalyzerManager::new();
    classify(&mut manager, "src/a.ts", false, false, "shared");
    classify(&mut manager, "src/b.ts", false, false, "shared");
    let mut import_map = ImportMap::new();
    import_map.insert(module("src/a.ts"), ExternalReferenceImport::new());
    import_map.insert(module("src/b.ts"), import_of(&[("x", x)]));
    assert_eq!(
        generate(&table, &import_map, &manager),
        vec![ModuleItem::Import {
            specifiers: vec![named("x", None)],
            src: "__FARM_BUNDLE_REFERENCE_SLOT__(shared)".to_string(),
        }]
    );
}

#[test]
fn chunk_sources_are_skipped() {
    let mut table = BundleVariable::new();
    let x = symbol(&mut table, "x");
    let manager = ModuleAnalyzerManager::new();
    let mut import_map = ImportMap::new();
    import_map.insert(ReferenceKind::Bundle("vendor".to_string()), import_of(&[("x", x)]));
    assert_eq!(generate(&table, &import_map, &manager), vec![]);
}

#[test]
fn modules_of_one_chunk_share_one_statement() {
    let mut table = BundleVariable::new();
    let a = symbol(&mut table, "a_1");
    let b = symbol(&mut table, "b");
    let c = symbol(&mut table, "c_2");
    let mut manager = ModuleAnalyzerManager::new();
    classify(&mut manager, "src/one.ts", false, false, "shared");
    classify(&mut manager, "src/two.ts", false, false, "shared");
    let mut import_map = ImportMap::new();
    import_map.insert(module("src/two.ts"), import_of(&[("c", c), ("a", a)]));
    import_map.insert(module("src/one.ts"), import_of(&[("b", b), ("a", a)]));
    assert_eq!(
        generate(&table, &import_map, &manager),
        vec![ModuleItem::Import {
            specifiers: vec![named("a_1", None), named("b", None), named("c_2", None)],
            src: "__FARM_BUNDLE_REFERENCE_SLOT__(shared)".to_string(),
        }]
    );
}

#[test]
fn statements_are_ordered_by_url() {
    let mut table = BundleVariable::new();
    let a = symbol(&mut table, "a");
    let b = symbol(&mut table, "b");
    let c = symbol(&mut table, "c");
    let mut manager = ModuleAnalyzerManager::new();
    classify(&mut manager, "m1", false, false, "zeta");
    classify(&mut manager, "m2", false, true, "");
    classify(&mut manager, "m3", false, false, "alpha");
    let mut import_map = ImportMap::new();
    import_map.insert(module("m1"), import_of(&[("a", a)]));
    import_map.insert(module("m2"), import_of(&[("b", b)]));
    import_map.insert(module("m3"), import_of(&[("c", c)]));
    assert_eq!(
        generate(&table, &import_map, &manager),
        vec![
            ModuleItem::Import {
                specifiers: vec![named("c", None)],
                src: "__FARM_BUNDLE_REFERENCE_SLOT__(alpha)".to_string(),
            },
            ModuleItem::Import {
                specifiers: vec![named("a", None)],
                src: "__FARM_BUNDLE_REFERENCE_SLOT__(zeta)".to_string(),
            },
            ModuleItem::Import { specifiers: vec![named("b", None)], src: "m2".to_string() },
        ]
    );
}

#[test]
fn import_does_not_depend_on_insertion_order() {
    let mut table = BundleVariable::new();
    let a = symbol(&mut table, "a_1");
    let b = symbol(&mut table, "b_1");
    let mut manager = ModuleAnalyzerManager::new();
    classify(&mut manager, "x", false, true, "");
    classify(&mut manager, "y", false, true, "");
    let mut first = ImportMap::new();
    first.insert(module("x"), import_of(&[("a", a), ("b", b)]));
    first.insert(module("y"), import_of(&[("b", b)]));
    let mut second = ImportMap::new();
    second.insert(module("y"), import_of(&[("b", b)]));
    second.insert(module("x"), import_of(&[("b", b), ("a", a)]));
    let expected = vec![
        ModuleItem::Import {
            specifiers: vec![named("a_1", Some("a")), named("b_1", Some("b"))],
            src: "x".to_string(),
        },
        ModuleItem::Import { specifiers: vec![named("b_1", Some("b"))], src: "y".to_string() },
    ];
    assert_eq!(generate(&table, &first, &manager), expected);
    assert_eq!(generate(&table, &second, &manager), expected);
    assert_eq!(generate(&table, &first, &manager), expected);
}

#[test]
fn the_entry_module_of_a_chunk_keeps_aliases() {
    let mut table = BundleVariable::new();
    let a = symbol(&mut table, "a_1");
    let same = symbol(&mut table, "same");
    let mut manager = ModuleAnalyzerManager::new();
    classify(&mut manager, "src/entry.ts", true, false, "other");
    let mut import_map = ImportMap::new();
    import_map.insert(module("src/entry.ts"), import_of(&[("a", a), ("same", same)]));
    assert_eq!(
        generate(&table, &import_map, &manager),
        vec![ModuleItem::Import {
            specifiers: vec![named("a_1", Some("a")), named("same", None)],
            src: "__FARM_BUNDLE_REFERENCE_SLOT__(other)".to_string(),
        }]
    );
}

#[test]
fn a_used_name_is_imported_once() {
    let mut table = BundleVariable::new();
    let first = symbol(&mut table, "v_1");
    let second = symbol(&mut table, "v_2");
    let mut manager = ModuleAnalyzerManager::new();
    classify(&mut manager, "src/a.ts", true, false, "shared");
    classify(&mut manager, "src/b.ts", true, false, "shared");
    let mut import_map = ImportMap::new();
    import_map.insert(module("src/a.ts"), import_of(&[("v", first)]));
    import_map.insert(module("src/b.ts"), import_of(&[("v", second)]));
    assert_eq!(
        generate(&table, &import_map, &manager),
        vec![ModuleItem::Import {
            specifiers: vec![named("v_1", Some("v"))],
            src: "__FARM_BUNDLE_REFERENCE_SLOT__(shared)".to_string(),
        }]
    );
}

#[test]
fn namespace_and_default_follow_the_named_imports() {
    let mut table = BundleVariable::new();
    let a = symbol(&mut table, "a");
    let ns = symbol(&mut table, "ns_1");
    let d = symbol(&mut table, "d_1");
    let mut manager = ModuleAnalyzerManager::new();
    classify(&mut manager, "react", false, true, "");
    let mut import = import_of(&[("a", a)]);
    import.namespace = Some(ns);
    import.default = Some(d);
    assert!(!import.is_empty());
    let mut import_map = ImportMap::new();
    import_map.insert(module("react"), import);
    assert_eq!(
        generate(&table, &import_map, &manager),
        vec![ModuleItem::Import {
            specifiers: vec![
                named("a", None),
                ImportSpecifier::Namespace { local: "ns_1".to_string() },
                ImportSpecifier::Default { local: "d_1".to_string() },
            ],
            src: "react".to_string(),
        }]
    );
}

#[test]
fn default_of_a_merged_module_is_a_named_import() {
    let mut table = BundleVariable::new();
    let d = symbol(&mut table, "lib_default");
    let mut manager = ModuleAnalyzerManager::new();
    classify(&mut manager, "src/lib.ts", false, false, "shared");
    let mut import = ExternalReferenceImport::new();
    import.default = Some(d);
    let mut import_map = ImportMap::new();
    import_map.insert(module("src/lib.ts"), import);
    assert_eq!(
        generate(&table, &import_map, &manager),
        vec![ModuleItem::Import {
            specifiers: vec![named("lib_default", None)],
            src: "__FARM_BUNDLE_REFERENCE_SLOT__(shared)".to_string(),
        }]
    );
}

#[test]
fn a_default_whose_name_is_used_is_dropped() {
    let mut table = BundleVariable::new();
    let a = symbol(&mut table, "a");
    let mut manager = ModuleAnalyzerManager::new();
    classify(&mut manager, "lib", false, true, "");
    let mut import = import_of(&[("a", a)]);
    import.default = Some(a);
    let mut import_map = ImportMap::new();
    import_map.insert(module("lib"), import);
    assert_eq!(
        generate(&table, &import_map, &manager),
        vec![ModuleItem::Import { specifiers: vec![named("a", None)], src: "lib".to_string() }]
    );
}

#[test]
fn namespace_specifiers_are_never_dropped() {
    let mut table = BundleVariable::new();
    let ns = symbol(&mut table, "ns");
    let mut manager = ModuleAnalyzerManager::new();
    classify(&mut manager, "src/a.ts", false, false, "shared");
    classify(&mut manager, "src/b.ts", false, false, "shared");
    let mut first = ExternalReferenceImport::new();
    first.namespace = Some(ns);
    let mut second = import_of(&[("ns", ns)]);
    second.namespace = Some(ns);
    let mut import_map = ImportMap::new();
    import_map.insert(module("src/a.ts"), first);
    import_map.insert(module("src/b.ts"), second);
    assert_eq!(
        generate(&table, &import_map, &manager),
        vec![ModuleItem::Import {
            specifiers: vec![
                ImportSpecifier::Namespace { local: "ns".to_string() },
                named("ns", None),
                ImportSpecifier::Namespace { local: "ns".to_string() },
            ],
            src: "__FARM_BUNDLE_REFERENCE_SLOT__(shared)".to_string(),
        }]
    );
}

#[test]
fn a_later_record_replaces_the_record_of_its_source() {
    let mut table = BundleVariable::new();
    let a = symbol(&mut table, "a");
    let b = symbol(&mut table, "b");
    let mut manager = ModuleAnalyzerManager::new();
    classify(&mut manager, "lib", false, true, "");
    let mut import_map = ImportMap::new();
    import_map.insert(module("lib"), import_of(&[("a", a)]));
    import_map.insert(module("lib"), import_of(&[("b", b)]));
    assert_eq!(
        generate(&table, &import_map, &manager),
        vec![ModuleItem::Import { specifiers: vec![named("b", None)], src: "lib".to_string() }]
    );
}

#[test]
fn a_map_is_valid_only_with_known_symbols_and_modules() {
    let mut table = BundleVariable::new();
    let a = symbol(&mut table, "a");
    let mut manager = ModuleAnalyzerManager::new();
    let mut import_map = ImportMap::new();
    import_map.insert(module("lib"), import_of(&[("a", a)]));
    assert!(!import_map.is_valid(&table, &manager));
    classify(&mut manager, "lib", false, true, "");
    assert!(import_map.is_valid(&table, &manager));
    import_map.insert(ReferenceKind::Bundle("vendor".to_string()), import_of(&[("a", 5)]));
    assert!(!import_map.is_valid(&table, &manager));
    let mut import_map = ImportMap::new();
    import_map.insert(module("lib"), import_of(&[("a", 1)]));
    assert!(!import_map.is_valid(&table, &manager));
    let mut import = ExternalReferenceImport::new();
    import.namespace = Some(3);
    assert!(!import.is_valid(&table));
    import.namespace = Some(0);
    assert!(import.is_valid(&table));
}
