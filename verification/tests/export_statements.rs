use esm_generate::ast::{ExportSpecifier, ModuleItem};
use esm_generate::bundle_reference::{ExternalReferenceExport, ReferenceKind};
use esm_generate::module::{ModuleAnalyzer, ModuleAnalyzerManager, ModuleId};
use esm_generate::uniq_name::{BundleVariable, Var};
use esm_generate::EsmGenerate;

fn var(name: &str, render_name: &str, module: Option<&str>) -> Var {
    Var {
        name: name.to_string(),
        render_name: render_name.to_string(),
        removed: false,
        module_id: module.map(ModuleId::new),
    }
}

fn removed_var(name: &str, render_name: &str, module: Option<&str>) -> Var {
    Var { removed: true, ..var(name, render_name, module) }
}

fn analyzer(entry: bool, external: bool, commonjs: bool, resource_pot_id: &str) -> ModuleAnalyzer {
    ModuleAnalyzer { entry, external, commonjs, resource_pot_id: resource_pot_id.to_string() }
}

fn named(orig: &str, exported: Option<&str>) -> ExportSpecifier {
    ExportSpecifier::Named { orig: orig.to_string(), exported: exported.map(|e| e.to_string()) }
}

fn generate(
    source: Option<&ReferenceKind>,
    export: &ExternalReferenceExport,
    table: &BundleVariable,
    manager: &ModuleAnalyzerManager,
) -> Vec<ModuleItem> {
    assert!(export.is_valid(table));
    EsmGenerate::generate_export(source, export, table, manager)
}

#[test]
fn empty_record_gives_no_statement() {
    let table = BundleVariable::new();
    let manager = ModuleAnalyzerManager::new();
    let export = ExternalReferenceExport::new();
    assert_eq!(generate(None, &export, &table, &manager), vec![]);
}

#[test]
fn named_exports_keep_their_public_names() {
    let mut table = BundleVariable::new();
    let foo = table.register_var(var("foo", "foo_1", Some("src/index.ts")));
    let bar = table.register_var(var("bar", "bar", Some("src/index.ts")));
    let mut manager = ModuleAnalyzerManager::new();
    manager.insert(ModuleId::new("src/index.ts"), analyzer(true, false, false, "index"));
    let mut export = ExternalReferenceExport::new();
    export.named.insert("foo".to_string(), foo);
    export.named.insert("bar".to_string(), bar);
    assert_eq!(
        generate(None, &export, &table, &manager),
        vec![ModuleItem::ExportNamed {
            specifiers: vec![named("bar", None), named("foo_1", Some("foo"))],
            src: None,
        }]
    );
}

#[test]
fn named_exports_of_synthetic_symbols_keep_their_public_names() {
    let mut table = BundleVariable::new();
    let foo = table.register_var(var("foo", "foo_1", None));
    let bar = table.register_var(var("bar", "bar", None));
    let manager = ModuleAnalyzerManager::new();
    let mut export = ExternalReferenceExport::new();
    export.named.insert("foo".to_string(), foo);
    export.named.insert("bar".to_string(), bar);
    assert_eq!(
        generate(None, &export, &table, &manager),
        vec![ModuleItem::ExportNamed {
            specifiers: vec![named("bar", None), named("foo_1", Some("foo"))],
            src: None,
        }]
    );
}

#[test]
fn symbols_of_other_modules_are_exported_under_their_final_names() {
    let mut table = BundleVariable::new();
    let foo = table.register_var(var("foo", "foo_1", Some("src/lib.ts")));
    let bar = table.register_var(var("bar", "bar", Some("src/lib.ts")));
    let mut manager = ModuleAnalyzerManager::new();
    manager.insert(ModuleId::new("src/lib.ts"), analyzer(false, false, false, "index"));
    let mut export = ExternalReferenceExport::new();
    export.named.insert("foo".to_string(), foo);
    export.named.insert("bar".to_string(), bar);
    assert_eq!(
        generate(None, &export, &table, &manager),
        vec![ModuleItem::ExportNamed {
            specifiers: vec![named("bar", None), named("foo_1", None)],
            src: None,
        }]
    );
}

#[test]
fn a_module_without_classification_is_not_the_entry() {
    let mut table = BundleVariable::new();
    let foo = table.register_var(var("foo", "foo_1", Some("src/unknown.ts")));
    let manager = ModuleAnalyzerManager::new();
    let mut export = ExternalReferenceExport::new();
    export.named.insert("foo".to_string(), foo);
    assert_eq!(
        generate(None, &export, &table, &manager),
        vec![ModuleItem::ExportNamed { specifiers: vec![named("foo_1", None)], src: None }]
    );
}

#[test]
fn export_does_not_depend_on_insertion_order() {
    let mut table = BundleVariable::new();
    let a = table.register_var(var("a", "a_1", None));
    let b = table.register_var(var("b", "b_1", None));
    let c = table.register_var(var("c", "c", None));
    let manager = ModuleAnalyzerManager::new();
    let mut first = ExternalReferenceExport::new();
    first.named.insert("a".to_string(), a);
    first.named.insert("b".to_string(), b);
    first.named.insert("c".to_string(), c);
    let mut second = ExternalReferenceExport::new();
    second.named.insert("c".to_string(), c);
    second.named.insert("a".to_string(), a);
    second.named.insert("b".to_string(), b);
    let expected = vec![ModuleItem::ExportNamed {
        specifiers: vec![named("a_1", Some("a")), named("b_1", Some("b")), named("c", None)],
        src: None,
    }];
    assert_eq!(generate(None, &first, &table, &manager), expected);
    assert_eq!(generate(None, &second, &table, &manager), expected);
    assert_eq!(generate(None, &second, &table, &manager), expected);
}

#[test]
fn removed_symbols_are_not_exported() {
    let mut table = BundleVariable::new();
    let live = table.register_var(var("live", "live", None));
    let dead = table.register_var(removed_var("dead", "dead_1", None));
    let manager = ModuleAnalyzerManager::new();
    let mut export = ExternalReferenceExport::new();
    export.named.insert("dead".to_string(), dead);
    export.named.insert("live".to_string(), live);
    assert_eq!(
        generate(None, &export, &table, &manager),
        vec![ModuleItem::ExportNamed { specifiers: vec![named("live", None)], src: None }]
    );
}

#[test]
fn only_removed_symbols_give_no_statement() {
    let mut table = BundleVariable::new();
    let dead = table.register_var(removed_var("dead", "dead_1", None));
    let manager = ModuleAnalyzerManager::new();
    let mut export = ExternalReferenceExport::new();
    export.named.insert("dead".to_string(), dead);
    assert_eq!(generate(None, &export, &table, &manager), vec![]);
}

#[test]
fn a_final_name_is_exported_once() {
    let mut table = BundleVariable::new();
    let first = table.register_var(var("value", "value_1", None));
    let second = table.register_var(var("other", "value_1", None));
    let manager = ModuleAnalyzerManager::new();
    let mut export = ExternalReferenceExport::new();
    export.named.insert("b".to_string(), second);
    export.named.insert("a".to_string(), first);
    assert_eq!(
        generate(None, &export, &table, &manager),
        vec![ModuleItem::ExportNamed {
            specifiers: vec![named("value_1", Some("a"))],
            src: None,
        }]
    );
}

#[test]
fn namespace_follows_the_named_exports() {
    let mut table = BundleVariable::new();
    let a = table.register_var(var("a", "a", None));
    let ns = table.register_var(var("ns", "ns_1", None));
    let manager = ModuleAnalyzerManager::new();
    let mut export = ExternalReferenceExport::new();
    export.named.insert("a".to_string(), a);
    export.namespace = Some(ns);
    assert_eq!(
        generate(None, &export, &table, &manager),
        vec![ModuleItem::ExportNamed {
            specifiers: vec![
                named("a", None),
                ExportSpecifier::Namespace { name: "ns_1".to_string() },
            ],
            src: None,
        }]
    );
}

#[test]
fn default_of_the_entry_module_is_a_default_export() {
    let mut table = BundleVariable::new();
    let d = table.register_var(var("default", "main_default", Some("src/index.ts")));
    let mut manager = ModuleAnalyzerManager::new();
    manager.insert(ModuleId::new("src/index.ts"), analyzer(true, false, false, "index"));
    let mut export = ExternalReferenceExport::new();
    export.default = Some(d);
    assert_eq!(
        generate(None, &export, &table, &manager),
        vec![ModuleItem::ExportDefaultExpr { expr: "main_default".to_string() }]
    );
}

#[test]
fn default_of_a_synthetic_symbol_is_a_default_export() {
    let mut table = BundleVariable::new();
    let d = table.register_var(var("default", "d_1", None));
    let manager = ModuleAnalyzerManager::new();
    let mut export = ExternalReferenceExport::new();
    export.default = Some(d);
    assert_eq!(
        generate(None, &export, &table, &manager),
        vec![ModuleItem::ExportDefaultExpr { expr: "d_1".to_string() }]
    );
}

#[test]
fn default_of_another_module_is_a_named_export() {
    let mut table = BundleVariable::new();
    let a = table.register_var(var("a", "a", Some("src/lib.ts")));
    let d = table.register_var(var("default", "lib_default", Some("src/lib.ts")));
    let mut manager = ModuleAnalyzerManager::new();
    manager.insert(ModuleId::new("src/lib.ts"), analyzer(false, false, false, "index"));
    let mut export = ExternalReferenceExport::new();
    export.named.insert("a".to_string(), a);
    export.default = Some(d);
    assert_eq!(
        generate(None, &export, &table, &manager),
        vec![ModuleItem::ExportNamed {
            specifiers: vec![named("a", None), named("lib_default", None)],
            src: None,
        }]
    );
}

#[test]
fn export_all_comes_first_and_alone() {
    let mut table = BundleVariable::new();
    let a = table.register_var(var("a", "a_1", None));
    let d = table.register_var(var("default", "d", None));
    let mut manager = ModuleAnalyzerManager::new();
    manager.insert(ModuleId::new("src/dep.ts"), analyzer(false, false, false, "dep"));
    let mut export = ExternalReferenceExport::new();
    export.named.insert("a".to_string(), a);
    export.default = Some(d);
    export.all = true;
    let source = ReferenceKind::Module(ModuleId::new("src/dep.ts"));
    assert_eq!(
        generate(Some(&source), &export, &table, &manager),
        vec![
            ModuleItem::ExportAll { src: "src/dep.ts".to_string() },
            ModuleItem::ExportDefaultExpr { expr: "d".to_string() },
            ModuleItem::ExportNamed {
                specifiers: vec![named("a_1", Some("a"))],
                src: Some("src/dep.ts".to_string()),
            },
        ]
    );
}

#[test]
fn no_export_all_from_a_commonjs_module() {
    let mut table = BundleVariable::new();
    let a = table.register_var(var("a", "a", None));
    let mut manager = ModuleAnalyzerManager::new();
    manager.insert(ModuleId::new("src/legacy.cjs"), analyzer(false, false, true, "dep"));
    let mut export = ExternalReferenceExport::new();
    export.named.insert("a".to_string(), a);
    export.all = true;
    let source = ReferenceKind::Module(ModuleId::new("src/legacy.cjs"));
    let stmts = generate(Some(&source), &export, &table, &manager);
    assert!(stmts.iter().all(|s| !matches!(s, ModuleItem::ExportAll { .. })));
    assert_eq!(
        stmts,
        vec![ModuleItem::ExportNamed {
            specifiers: vec![named("a", None)],
            src: Some("src/legacy.cjs".to_string()),
        }]
    );
}

#[test]
fn no_export_all_without_the_flag_or_from_a_chunk() {
    let table = BundleVariable::new();
    let mut manager = ModuleAnalyzerManager::new();
    manager.insert(ModuleId::new("src/dep.ts"), analyzer(false, false, false, "dep"));
    let mut export = ExternalReferenceExport::new();
    let module = ReferenceKind::Module(ModuleId::new("src/dep.ts"));
    assert_eq!(generate(Some(&module), &export, &table, &manager), vec![]);
    export.all = true;
    let chunk = ReferenceKind::Bundle("dep".to_string());
    assert_eq!(generate(Some(&chunk), &export, &table, &manager), vec![]);
    assert_eq!(generate(None, &export, &table, &manager), vec![]);
    assert_eq!(
        generate(Some(&module), &export, &table, &manager),
        vec![ModuleItem::ExportAll { src: "src/dep.ts".to_string() }]
    );
}

#[test]
fn a_chunk_source_is_named_by_its_identifier() {
    let mut table = BundleVariable::new();
    let a = table.register_var(var("a", "a", None));
    let manager = ModuleAnalyzerManager::new();
    let mut export = ExternalReferenceExport::new();
    export.named.insert("a".to_string(), a);
    let chunk = ReferenceKind::Bundle("vendor".to_string());
    assert_eq!(
        generate(Some(&chunk), &export, &table, &manager),
        vec![ModuleItem::ExportNamed {
            specifiers: vec![named("a", None)],
            src: Some("vendor".to_string()),
        }]
    );
}

#[test]
fn a_symbol_outside_the_table_is_not_valid() {
    let mut table = BundleVariable::new();
    let a = table.register_var(var("a", "a", None));
    let mut export = ExternalReferenceExport::new();
    export.named.insert("a".to_string(), a);
    assert!(export.is_valid(&table));
    export.named.insert("b".to_string(), 1);
    assert!(!export.is_valid(&table));
    let mut export = ExternalReferenceExport::new();
    export.namespace = Some(7);
    assert!(!export.is_valid(&table));
    let mut export = ExternalReferenceExport::new();
    export.default = Some(1);
    assert!(!export.is_valid(&table));
    export.default = Some(0);
    assert!(export.is_valid(&table));
}
