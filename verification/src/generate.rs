//! Synthesis of the import and export statements of one chunk.
//!
//! What is synthesized is stated by [`spec_generate_export`] and [`spec_generate_import`], two
//! functions of the mathematical values of the records, the symbol table and the classification
//! of the modules. Names are walked in the order of [`sorted_names`], so the statements depend on
//! what the records hold and not on the order in which they were filled.

use vstd::prelude::*;
use vstd::hash_set::StringHashSet;
use crate::EsmGenerate;
use crate::ast::{
    export_specifiers_view, import_specifiers_view, module_items_view, ExportSpecifier,
    ExportSpecifierView, ImportSpecifier, ImportSpecifierView, ModuleItem, ModuleItemView,
};
use crate::bundle_reference::{
    spec_module_sources, spec_reference_text, ExportView, ExternalReferenceExport,
    ExternalReferenceImport, ImportMap, ImportView, ReferenceKind, ReferenceKindView,
};
use crate::common::{spec_bundle_reference_slot_name, with_bundle_reference_slot_name};
use crate::module::{
    spec_is_commonjs, spec_is_entry, spec_is_external, ModuleAnalyzerManager, ModuleAnalyzerView,
    ModuleId,
};
use crate::name_order::{lemma_sorted_names, sorted_names, str_eq};
use crate::string_map::StringMap;
use crate::uniq_name::{BundleVariable, VarView};

verus! {

/// The mathematical value of an optional reference source.
pub open spec fn spec_source(source: Option<&ReferenceKind>) -> Option<ReferenceKindView> {
    match source {
        Some(kind) => Some(kind@),
        None => None,
    }
}

/// The symbol is exposed under its final name, which is unique over the whole bundle: the module
/// that declares it is known and is not reported as the entry module of the chunk.
pub open spec fn spec_should_reexport_uniq(
    var: VarView,
    classifier: Map<Seq<char>, ModuleAnalyzerView>,
) -> bool {
    var.module_id matches Some(module) && !spec_is_entry(classifier, module)
}

/// The specifier that exports the symbol `var` under the name `exported`. The alias is left out
/// if and only if the symbol is exposed under its unique final name or that name is `exported`.
pub open spec fn export_named_specifier(
    exported: Seq<char>,
    var: VarView,
    classifier: Map<Seq<char>, ModuleAnalyzerView>,
) -> ExportSpecifierView {
    ExportSpecifierView::Named {
        orig: var.render_name,
        exported: if spec_should_reexport_uniq(var, classifier) || var.render_name == exported {
            None
        } else {
            Some(exported)
        },
    }
}

/// The local name that an export specifier refers to.
pub open spec fn export_local_name(specifier: ExportSpecifierView) -> Seq<char> {
    match specifier {
        ExportSpecifierView::Named { orig, .. } => orig,
        ExportSpecifierView::Namespace { name } => name,
    }
}

/// Whether one of `specifiers` refers to the local name `name`.
pub open spec fn export_mentions(specifiers: Seq<ExportSpecifierView>, name: Seq<char>) -> bool {
    exists|j: int| 0 <= j < specifiers.len() && export_local_name(#[trigger] specifiers[j]) == name
}

/// The specifiers of the first `n` of the exported names `names`: one for each name whose symbol
/// is not removed and whose final name no earlier specifier refers to.
pub open spec fn export_named_specifiers(
    names: Seq<Seq<char>>,
    n: nat,
    named: Map<Seq<char>, usize>,
    table: Seq<VarView>,
    classifier: Map<Seq<char>, ModuleAnalyzerView>,
) -> Seq<ExportSpecifierView>
    decreases n,
{
    if n == 0 {
        Seq::empty()
    } else {
        let before = export_named_specifiers(names, (n - 1) as nat, named, table, classifier);
        let exported = names[n - 1];
        let var = table[named[exported] as int];
        if var.removed || export_mentions(before, var.render_name) {
            before
        } else {
            before.push(export_named_specifier(exported, var, classifier))
        }
    }
}

/// Whether the default export is exposed as a named export under its final name.
pub open spec fn default_is_named(
    export: ExportView,
    table: Seq<VarView>,
    classifier: Map<Seq<char>, ModuleAnalyzerView>,
) -> bool {
    export.default matches Some(symbol) && spec_should_reexport_uniq(
        table[symbol as int],
        classifier,
    )
}

/// The specifiers of the one named-export statement: those of the exported names in their
/// order, then the namespace, then a default export that is exposed as a named one.
pub open spec fn export_specifiers(
    export: ExportView,
    table: Seq<VarView>,
    classifier: Map<Seq<char>, ModuleAnalyzerView>,
) -> Seq<ExportSpecifierView> {
    let names = sorted_names(export.named.dom());
    let named = export_named_specifiers(names, names.len(), export.named, table, classifier);
    let with_namespace = match export.namespace {
        Some(symbol) => named.push(
            ExportSpecifierView::Namespace { name: table[symbol as int].render_name },
        ),
        None => named,
    };
    if default_is_named(export, table, classifier) {
        with_namespace.push(
            ExportSpecifierView::Named {
                orig: table[export.default->0 as int].render_name,
                exported: None,
            },
        )
    } else {
        with_namespace
    }
}

/// Whether every binding of `source` is exported again: the record asks for it, the source is a
/// module, and the module is not reported as CommonJS.
pub open spec fn exports_all(
    source: Option<ReferenceKindView>,
    export: ExportView,
    classifier: Map<Seq<char>, ModuleAnalyzerView>,
) -> bool {
    source matches Some(ReferenceKindView::Module(module)) && export.all && !spec_is_commonjs(
        classifier,
        module,
    )
}

/// The statements that export what `export` describes: an export-all statement where
/// [`exports_all`] holds, a default-export statement where the default export is not exposed as
/// a named one, and one named-export statement where there is any specifier.
pub open spec fn spec_generate_export(
    source: Option<ReferenceKindView>,
    export: ExportView,
    table: Seq<VarView>,
    classifier: Map<Seq<char>, ModuleAnalyzerView>,
) -> Seq<ModuleItemView> {
    let all = if exports_all(source, export, classifier) {
        seq![ModuleItemView::ExportAll { src: spec_reference_text(source->0) }]
    } else {
        Seq::empty()
    };
    let default = if export.default is Some && !default_is_named(export, table, classifier) {
        seq![
            ModuleItemView::ExportDefaultExpr {
                expr: table[export.default->0 as int].render_name,
            },
        ]
    } else {
        Seq::empty()
    };
    let specifiers = export_specifiers(export, table, classifier);
    let named = if specifiers.len() > 0 {
        seq![
            ModuleItemView::ExportNamed {
                specifiers,
                src: match source {
                    Some(kind) => Some(spec_reference_text(kind)),
                    None => None,
                },
            },
        ]
    } else {
        Seq::empty()
    };
    all + default + named
}

/// A specifier more: the names that the list refers to are those it referred to and the new one.
pub proof fn lemma_export_mentions_push(
    specifiers: Seq<ExportSpecifierView>,
    specifier: ExportSpecifierView,
    name: Seq<char>,
)
    ensures
        export_mentions(specifiers.push(specifier), name) <==> export_mentions(specifiers, name)
            || export_local_name(specifier) == name,
{
    let longer = specifiers.push(specifier);
    if export_mentions(specifiers, name) {
        let j = choose|j: int|
            0 <= j < specifiers.len() && export_local_name(#[trigger] specifiers[j]) == name;
        assert(export_local_name(longer[j]) == name);
    }
    if export_local_name(specifier) == name {
        assert(export_local_name(longer[specifiers.len() as int]) == name);
    }
    if export_mentions(longer, name) {
        let j = choose|j: int|
            0 <= j < longer.len() && export_local_name(#[trigger] longer[j]) == name;
        if j < specifiers.len() {
            assert(export_local_name(specifiers[j]) == name);
        }
    }
}

/// Whether the symbol at `index` is exposed under its unique final name.
fn should_reexport_uniq(
    bundle_variable: &BundleVariable,
    module_analyzer_manager: &ModuleAnalyzerManager,
    index: usize,
) -> (r: bool)
    requires
        index < bundle_variable@.len(),
        module_analyzer_manager.wf(),
    ensures
        r == spec_should_reexport_uniq(bundle_variable@[index as int], module_analyzer_manager@),
{
    match bundle_variable.module_id_by_var_index(index) {
        Some(module) => !module_analyzer_manager.is_entry(module),
        None => false,
    }
}

impl EsmGenerate {
    /// Synthesizes the statements that export what `export` describes, from `source` where the
    /// record is tied to one: see [`spec_generate_export`].
    pub fn generate_export(
        source: Option<&ReferenceKind>,
        export: &ExternalReferenceExport,
        bundle_variable: &BundleVariable,
        module_analyzer_manager: &ModuleAnalyzerManager,
    ) -> (stmts: Vec<ModuleItem>)
        requires
            export.valid(bundle_variable@),
            module_analyzer_manager.wf(),
        ensures
            module_items_view(stmts@) == spec_generate_export(
                spec_source(source),
                export@,
                bundle_variable@,
                module_analyzer_manager@,
            ),
            (spec_source(source) matches Some(ReferenceKindView::Module(module))
                && spec_is_commonjs(module_analyzer_manager@, module)) ==> forall|i: int|
                0 <= i < stmts@.len() ==> !((#[trigger] stmts@[i])@ is ExportAll),
    {
        let ghost table = bundle_variable@;
        let ghost classifier = module_analyzer_manager@;
        let ghost names = export.named.spec_keys();
        let mut stmts: Vec<ModuleItem> = Vec::new();
        let mut specifiers: Vec<ExportSpecifier> = Vec::new();
        let mut uniq_sets = StringHashSet::new();
        let n = export.named.len();
        proof {
            export.named.lemma_canonical();
            assert(export_specifiers_view(specifiers@) =~= Seq::empty());
        }
        let mut i: usize = 0;
        while i < n
            invariant
                i <= n,
                n == names.len(),
                export.valid(table),
                module_analyzer_manager.wf(),
                table == bundle_variable@,
                classifier == module_analyzer_manager@,
                names == export.named.spec_keys(),
                forall|j: int|
                    0 <= j < names.len() ==> export@.named[#[trigger] names[j]]
                        == export.named.spec_values()[j],
                export_specifiers_view(specifiers@) == export_named_specifiers(
                    names,
                    i as nat,
                    export@.named,
                    table,
                    classifier,
                ),
                forall|name: Seq<char>|
                    uniq_sets@.contains(name) <==> export_mentions(
                        export_specifiers_view(specifiers@),
                        name,
                    ),
            decreases n - i,
        {
            let exported = export.named.key_at(i);
            let local = *export.named.value_at(i);
            proof {
                assert(names.contains(names[i as int]));
                assert(export@.named.dom().contains(names[i as int]));
                assert(export@.named[names[i as int]] == local);
            }
            if !bundle_variable.var_by_index(local).removed {
                let uniq = should_reexport_uniq(
                    bundle_variable,
                    module_analyzer_manager,
                    local,
                );
                let named_render_name = bundle_variable.render_name(local);
                if !uniq_sets.contains(named_render_name.as_str()) {
                    uniq_sets.insert(named_render_name.clone());
                    let exported_name = if uniq || str_eq(
                        named_render_name.as_str(),
                        exported.as_str(),
                    ) {
                        None
                    } else {
                        Some(exported.clone())
                    };
                    let ghost before = export_specifiers_view(specifiers@);
                    let specifier = ExportSpecifier::Named {
                        orig: named_render_name,
                        exported: exported_name,
                    };
                    specifiers.push(specifier);
                    proof {
                        assert(export_specifiers_view(specifiers@) =~= before.push(specifier@));
                        assert forall|name: Seq<char>|
                            uniq_sets@.contains(name) <==> export_mentions(
                                export_specifiers_view(specifiers@),
                                name,
                            ) by {
                            lemma_export_mentions_push(before, specifier@, name);
                        }
                    }
                }
            }
            i = i + 1;
        }
        proof {
            assert(names.to_set() =~= export@.named.dom());
        }
        if let Some(namespace) = export.namespace {
            let ghost before = export_specifiers_view(specifiers@);
            let specifier = ExportSpecifier::Namespace {
                name: bundle_variable.render_name(namespace),
            };
            specifiers.push(specifier);
            assert(export_specifiers_view(specifiers@) =~= before.push(specifier@));
        }
        if let Some(ReferenceKind::Module(module)) = source {
            if export.all && !module_analyzer_manager.is_commonjs(module) {
                stmts.push(ModuleItem::ExportAll { src: module.to_string() });
            }
        }
        if let Some(default) = export.default {
            let name = bundle_variable.render_name(default);
            if should_reexport_uniq(bundle_variable, module_analyzer_manager, default) {
                let ghost before = export_specifiers_view(specifiers@);
                let specifier = ExportSpecifier::Named { orig: name, exported: None };
                specifiers.push(specifier);
                assert(export_specifiers_view(specifiers@) =~= before.push(specifier@));
            } else {
                stmts.push(ModuleItem::ExportDefaultExpr { expr: name });
            }
        }
        assert(export_specifiers_view(specifiers@) == export_specifiers(
            export@,
            table,
            classifier,
        ));
        if !specifiers.is_empty() {
            let src = match source {
                Some(kind) => Some(kind.to_string()),
                None => None,
            };
            stmts.push(ModuleItem::ExportNamed { specifiers, src });
        }
        assert(module_items_view(stmts@) =~= spec_generate_export(
            spec_source(source),
            export@,
            table,
            classifier,
        ));
        stmts
    }
}

/// The address from which the bindings of `module` are imported: the module's own specifier
/// where it resolves outside the bundle, else the token of the chunk that it belongs to.
pub open spec fn import_url(
    module: Seq<char>,
    classifier: Map<Seq<char>, ModuleAnalyzerView>,
) -> Seq<char> {
    if spec_is_external(classifier, module) {
        module
    } else {
        spec_bundle_reference_slot_name(classifier[module].resource_pot_id)
    }
}

/// Every binding imported from `module` already has a final name that is unique over the whole
/// bundle: the module is inside the bundle and is not reported as the entry module of its chunk.
pub open spec fn is_import_uniq_name(
    module: Seq<char>,
    classifier: Map<Seq<char>, ModuleAnalyzerView>,
) -> bool {
    !spec_is_external(classifier, module) && !spec_is_entry(classifier, module)
}

/// The specifier that imports the name `imported` into the local name `local`. The alias is left
/// out if and only if the names of the source are unique or `imported` is `local`.
pub open spec fn import_named_specifier(
    imported: Seq<char>,
    local: Seq<char>,
    uniq: bool,
) -> ImportSpecifierView {
    ImportSpecifierView::Named {
        local,
        imported: if uniq || imported == local {
            None
        } else {
            Some(imported)
        },
    }
}

/// The name by which a specifier is told from the others of its statement: the alias where it
/// has one, else the local name. A namespace specifier has none.
pub open spec fn import_used_name(specifier: ImportSpecifierView) -> Option<Seq<char>> {
    match specifier {
        ImportSpecifierView::Named { local, imported } => Some(
            match imported {
                Some(alias) => alias,
                None => local,
            },
        ),
        ImportSpecifierView::Namespace { .. } => None,
        ImportSpecifierView::Default { local } => Some(local),
    }
}

/// Whether one of `specifiers` has the used name `name`.
pub open spec fn import_uses(specifiers: Seq<ImportSpecifierView>, name: Seq<char>) -> bool {
    exists|j: int|
        0 <= j < specifiers.len() && import_used_name(#[trigger] specifiers[j]) == Some(name)
}

/// `before`, and after it the specifiers of the first `n` of the imported names `names`: one for
/// each name whose used name no earlier specifier has.
pub open spec fn import_named_specifiers(
    before: Seq<ImportSpecifierView>,
    names: Seq<Seq<char>>,
    n: nat,
    named: Map<Seq<char>, usize>,
    table: Seq<VarView>,
    uniq: bool,
) -> Seq<ImportSpecifierView>
    decreases n,
{
    if n == 0 {
        before
    } else {
        let earlier = import_named_specifiers(before, names, (n - 1) as nat, named, table, uniq);
        let imported = names[n - 1];
        let specifier = import_named_specifier(
            imported,
            table[named[imported] as int].render_name,
            uniq,
        );
        if import_uses(earlier, import_used_name(specifier)->0) {
            earlier
        } else {
            earlier.push(specifier)
        }
    }
}

/// `before`, and after it what `import` adds to a statement: the named imports in the order of
/// their names, then the namespace, then the default import unless its name is used already. The
/// default import is a named specifier where the names of the source are unique.
pub open spec fn import_specifiers(
    before: Seq<ImportSpecifierView>,
    import: ImportView,
    table: Seq<VarView>,
    uniq: bool,
) -> Seq<ImportSpecifierView> {
    let names = sorted_names(import.named.dom());
    let named = import_named_specifiers(before, names, names.len(), import.named, table, uniq);
    let with_namespace = match import.namespace {
        Some(symbol) => named.push(
            ImportSpecifierView::Namespace { local: table[symbol as int].render_name },
        ),
        None => named,
    };
    match import.default {
        Some(symbol) => {
            let name = table[symbol as int].render_name;
            if import_uses(with_namespace, name) {
                with_namespace
            } else if uniq {
                with_namespace.push(ImportSpecifierView::Named { local: name, imported: None })
            } else {
                with_namespace.push(ImportSpecifierView::Default { local: name })
            }
        },
        None => with_namespace,
    }
}

/// Whether the `Module` source `module` adds to the statement of `url`: its record is not empty
/// and it is imported from `url`.
pub open spec fn contributes_to(
    module: Seq<char>,
    url: Seq<char>,
    import_map: Map<ReferenceKindView, ImportView>,
    classifier: Map<Seq<char>, ModuleAnalyzerView>,
) -> bool {
    !import_map[ReferenceKindView::Module(module)].is_empty() && import_url(module, classifier)
        == url
}

/// The specifiers that the first `n` of the modules `modules` add to the statement of `url`.
pub open spec fn url_specifiers(
    url: Seq<char>,
    modules: Seq<Seq<char>>,
    n: nat,
    import_map: Map<ReferenceKindView, ImportView>,
    table: Seq<VarView>,
    classifier: Map<Seq<char>, ModuleAnalyzerView>,
) -> Seq<ImportSpecifierView>
    decreases n,
{
    if n == 0 {
        Seq::empty()
    } else {
        let before = url_specifiers(url, modules, (n - 1) as nat, import_map, table, classifier);
        let module = modules[n - 1];
        if contributes_to(module, url, import_map, classifier) {
            import_specifiers(
                before,
                import_map[ReferenceKindView::Module(module)],
                table,
                is_import_uniq_name(module, classifier),
            )
        } else {
            before
        }
    }
}

/// The addresses that get a statement: those of the first `n` of `modules` whose record is not
/// empty.
pub open spec fn import_urls(
    modules: Seq<Seq<char>>,
    n: nat,
    import_map: Map<ReferenceKindView, ImportView>,
    classifier: Map<Seq<char>, ModuleAnalyzerView>,
) -> Set<Seq<char>> {
    Set::new(
        |url: Seq<char>|
            exists|i: int|
                0 <= i < n && contributes_to(#[trigger] modules[i], url, import_map, classifier),
    )
}

/// The import statements of a chunk: one for each address that a `Module` source with a record
/// that is not empty is imported from, in the order of the addresses. The statement of an
/// address holds what the sources imported from it add, source after source in their order.
/// `Bundle` sources add nothing.
pub open spec fn spec_generate_import(
    table: Seq<VarView>,
    import_map: Map<ReferenceKindView, ImportView>,
    classifier: Map<Seq<char>, ModuleAnalyzerView>,
) -> Seq<ModuleItemView> {
    let modules = sorted_names(spec_module_sources(import_map));
    let urls = sorted_names(import_urls(modules, modules.len(), import_map, classifier));
    Seq::new(
        urls.len(),
        |k: int|
            ModuleItemView::Import {
                specifiers: url_specifiers(
                    urls[k],
                    modules,
                    modules.len(),
                    import_map,
                    table,
                    classifier,
                ),
                src: urls[k],
            },
    )
}

/// A specifier more: the used names of the list are those it had and that of the new one.
pub proof fn lemma_import_uses_push(
    specifiers: Seq<ImportSpecifierView>,
    specifier: ImportSpecifierView,
    name: Seq<char>,
)
    ensures
        import_uses(specifiers.push(specifier), name) <==> import_uses(specifiers, name)
            || import_used_name(specifier) == Some(name),
{
    let longer = specifiers.push(specifier);
    if import_uses(specifiers, name) {
        let j = choose|j: int|
            0 <= j < specifiers.len() && import_used_name(#[trigger] specifiers[j]) == Some(name);
        assert(import_used_name(longer[j]) == Some(name));
    }
    if import_used_name(specifier) == Some(name) {
        assert(import_used_name(longer[specifiers.len() as int]) == Some(name));
    }
    if import_uses(longer, name) {
        let j = choose|j: int|
            0 <= j < longer.len() && import_used_name(#[trigger] longer[j]) == Some(name);
        if j < specifiers.len() {
            assert(import_used_name(specifiers[j]) == Some(name));
        }
    }
}

/// An address that none of the first `n` modules adds to has no specifier.
pub proof fn lemma_url_specifiers_empty(
    url: Seq<char>,
    modules: Seq<Seq<char>>,
    n: nat,
    import_map: Map<ReferenceKindView, ImportView>,
    table: Seq<VarView>,
    classifier: Map<Seq<char>, ModuleAnalyzerView>,
)
    requires
        !import_urls(modules, n, import_map, classifier).contains(url),
    ensures
        url_specifiers(url, modules, n, import_map, table, classifier) == Seq::<
            ImportSpecifierView,
        >::empty(),
    decreases n,
{
    if n > 0 {
        let m = (n - 1) as nat;
        if import_urls(modules, m, import_map, classifier).contains(url) {
            let i = choose|i: int|
                0 <= i < m && contributes_to(#[trigger] modules[i], url, import_map, classifier);
            assert(0 <= i < n && contributes_to(modules[i], url, import_map, classifier));
        }
        assert(!contributes_to(modules[n - 1], url, import_map, classifier));
        lemma_url_specifiers_empty(url, modules, m, import_map, table, classifier);
    }
}

/// One module more: its address is added if its record is not empty.
pub proof fn lemma_import_urls_step(
    modules: Seq<Seq<char>>,
    n: nat,
    import_map: Map<ReferenceKindView, ImportView>,
    classifier: Map<Seq<char>, ModuleAnalyzerView>,
)
    ensures
        import_urls(modules, n + 1, import_map, classifier) == if import_map[ReferenceKindView::Module(
            modules[n as int],
        )].is_empty() {
            import_urls(modules, n, import_map, classifier)
        } else {
            import_urls(modules, n, import_map, classifier).insert(
                import_url(modules[n as int], classifier),
            )
        },
{
    let before = import_urls(modules, n, import_map, classifier);
    let after = import_urls(modules, n + 1, import_map, classifier);
    let url = import_url(modules[n as int], classifier);
    let empty = import_map[ReferenceKindView::Module(modules[n as int])].is_empty();
    assert forall|u: Seq<char>| before.contains(u) implies after.contains(u) by {
        let j = choose|j: int|
            0 <= j < n && contributes_to(#[trigger] modules[j], u, import_map, classifier);
        assert(0 <= j < n + 1 && contributes_to(modules[j], u, import_map, classifier));
    }
    assert forall|u: Seq<char>| after.contains(u) implies before.contains(u) || (!empty && u
        == url) by {
        let j = choose|j: int|
            0 <= j < n + 1 && contributes_to(#[trigger] modules[j], u, import_map, classifier);
        if j < n {
            assert(before.contains(u));
        }
    }
    if !empty {
        assert(contributes_to(modules[n as int], url, import_map, classifier));
        assert(after.contains(url));
        assert(after =~= before.insert(url));
    } else {
        assert(after =~= before);
    }
}

/// The statement of one address while it is built: its specifiers, and the used names of those
/// that are no namespace specifier.
struct ImportItem {
    import_specifies: Vec<ImportSpecifier>,
    used_named: StringHashSet,
}

impl ImportItem {
    spec fn specifiers(&self) -> Seq<ImportSpecifierView> {
        import_specifiers_view(self.import_specifies@)
    }

    spec fn wf(&self) -> bool {
        forall|name: Seq<char>|
            self.used_named@.contains(name) <==> import_uses(self.specifiers(), name)
    }

    /// The item holds what the first `n` of `modules` add to the statement of `url`.
    spec fn holds(
        &self,
        url: Seq<char>,
        modules: Seq<Seq<char>>,
        n: nat,
        import_map: Map<ReferenceKindView, ImportView>,
        table: Seq<VarView>,
        classifier: Map<Seq<char>, ModuleAnalyzerView>,
    ) -> bool {
        self.wf() && self.specifiers() == url_specifiers(
            url,
            modules,
            n,
            import_map,
            table,
            classifier,
        )
    }

    /// Adds `specifier` unless its used name `used_name` is taken.
    fn push_unless_used(&mut self, specifier: ImportSpecifier, used_name: String)
        requires
            old(self).wf(),
            import_used_name(specifier@) == Some(used_name@),
        ensures
            final(self).wf(),
            final(self).specifiers() == if import_uses(old(self).specifiers(), used_name@) {
                old(self).specifiers()
            } else {
                old(self).specifiers().push(specifier@)
            },
    {
        if !self.used_named.contains(used_name.as_str()) {
            let ghost before = self.specifiers();
            self.used_named.insert(used_name);
            self.import_specifies.push(specifier);
            proof {
                assert(self.specifiers() =~= before.push(specifier@));
                assert forall|name: Seq<char>|
                    self.used_named@.contains(name) <==> import_uses(self.specifiers(), name) by {
                    lemma_import_uses_push(before, specifier@, name);
                }
            }
        }
    }

    /// Adds what `import` imports: see [`import_specifiers`].
    fn append(
        &mut self,
        import: &ExternalReferenceImport,
        bundle_variable: &BundleVariable,
        is_import_uniq_name: bool,
    )
        requires
            old(self).wf(),
            import.valid(bundle_variable@),
        ensures
            final(self).wf(),
            final(self).specifiers() == import_specifiers(
                old(self).specifiers(),
                import@,
                bundle_variable@,
                is_import_uniq_name,
            ),
    {
        let ghost table = bundle_variable@;
        let ghost names = import.named.spec_keys();
        let ghost start = self.specifiers();
        let n = import.named.len();
        proof {
            import.named.lemma_canonical();
        }
        let mut i: usize = 0;
        while i < n
            invariant
                i <= n,
                n == names.len(),
                import.valid(table),
                table == bundle_variable@,
                names == import.named.spec_keys(),
                forall|j: int|
                    0 <= j < names.len() ==> import@.named[#[trigger] names[j]]
                        == import.named.spec_values()[j],
                self.wf(),
                self.specifiers() == import_named_specifiers(
                    start,
                    names,
                    i as nat,
                    import@.named,
                    table,
                    is_import_uniq_name,
                ),
            decreases n - i,
        {
            let imported = import.named.key_at(i);
            let local = *import.named.value_at(i);
            proof {
                assert(names.contains(names[i as int]));
                assert(import@.named.dom().contains(names[i as int]));
                assert(import@.named[names[i as int]] == local);
            }
            let local_named = bundle_variable.render_name(local);
            if is_import_uniq_name || str_eq(imported.as_str(), local_named.as_str()) {
                let used_name = local_named.clone();
                self.push_unless_used(
                    ImportSpecifier::Named { local: local_named, imported: None },
                    used_name,
                );
            } else {
                let used_name = imported.clone();
                self.push_unless_used(
                    ImportSpecifier::Named { local: local_named, imported: Some(imported.clone()) },
                    used_name,
                );
            }
            i = i + 1;
        }
        if let Some(namespace) = import.namespace {
            let ghost before = self.specifiers();
            let specifier = ImportSpecifier::Namespace {
                local: bundle_variable.render_name(namespace),
            };
            self.import_specifies.push(specifier);
            proof {
                assert(self.specifiers() =~= before.push(specifier@));
                assert forall|name: Seq<char>|
                    self.used_named@.contains(name) <==> import_uses(self.specifiers(), name) by {
                    lemma_import_uses_push(before, specifier@, name);
                }
            }
        }
        if let Some(default) = import.default {
            let name = bundle_variable.render_name(default);
            let used_name = name.clone();
            if is_import_uniq_name {
                self.push_unless_used(
                    ImportSpecifier::Named { local: name, imported: None },
                    used_name,
                );
            } else {
                self.push_unless_used(ImportSpecifier::Default { local: name }, used_name);
            }
        }
    }
}

/// The index of the item of `url`, which is made, without specifiers, if there is none yet.
fn init_import_specify(generate_import_specifies: &mut StringMap<ImportItem>, url: &String) -> (index:
    usize)
    requires
        old(generate_import_specifies).wf(),
    ensures
        final(generate_import_specifies).wf(),
        index < final(generate_import_specifies).spec_keys().len(),
        final(generate_import_specifies).spec_keys()[index as int] == url@,
        final(generate_import_specifies)@.dom() == old(generate_import_specifies)@.dom().insert(
            url@,
        ),
        forall|k: Seq<char>|
            old(generate_import_specifies)@.dom().contains(k) ==> (
            #[trigger] final(generate_import_specifies)@[k]) == old(generate_import_specifies)@[k],
        !old(generate_import_specifies)@.dom().contains(url@) ==> {
            &&& final(generate_import_specifies)@[url@].wf()
            &&& final(generate_import_specifies)@[url@].specifiers() == Seq::<
                ImportSpecifierView,
            >::empty()
        },
{
    let ghost before = generate_import_specifies@;
    match generate_import_specifies.find(url.as_str()) {
        Some(index) => {
            proof {
                assert(generate_import_specifies.spec_keys().contains(url@));
                assert(before.dom().insert(url@) =~= before.dom());
            }
            index
        },
        None => {
            let item = ImportItem { import_specifies: Vec::new(), used_named: StringHashSet::new() };
            proof {
                assert(item.specifiers() =~= Seq::<ImportSpecifierView>::empty());
            }
            generate_import_specifies.insert(url.clone(), item);
            proof {
                assert(generate_import_specifies@.dom() =~= before.dom().insert(url@));
            }
            let found = generate_import_specifies.find(url.as_str());
            found.unwrap()
        },
    }
}

/// The statements in the opposite order.
fn reversed(items: Vec<ModuleItem>) -> (r: Vec<ModuleItem>)
    ensures
        r@ == items@.reverse(),
{
    let ghost all = items@;
    let mut items = items;
    let mut r: Vec<ModuleItem> = Vec::new();
    while items.len() > 0
        invariant
            items@.len() + r@.len() == all.len(),
            items@ == all.take(items@.len() as int),
            forall|j: int| 0 <= j < r@.len() ==> r@[j] == all[all.len() - 1 - j],
        decreases items@.len(),
    {
        let item = items.pop().unwrap();
        r.push(item);
    }
    assert(r@ =~= all.reverse());
    r
}

impl EsmGenerate {
    /// Synthesizes the import statements of a chunk from what it imports from each reference
    /// source: see [`spec_generate_import`].
    #[allow(unused_variables)]
    pub fn generate_import(
        bundle_variable: &BundleVariable,
        import_map: &ImportMap,
        module_analyzer_manager: &ModuleAnalyzerManager,
        resource_pot_name: &str,
    ) -> (stmts: Vec<ModuleItem>)
        requires
            import_map.valid(bundle_variable@, module_analyzer_manager@),
            module_analyzer_manager.wf(),
        ensures
            module_items_view(stmts@) == spec_generate_import(
                bundle_variable@,
                import_map@,
                module_analyzer_manager@,
            ),
    {
        let ghost table = bundle_variable@;
        let ghost classifier = module_analyzer_manager@;
        let ghost sources = import_map@;
        let ghost modules = import_map.modules.spec_keys();
        let mut generate_import_specifies: StringMap<ImportItem> = StringMap::new();
        let n = import_map.modules.len();
        proof {
            import_map.modules.lemma_canonical();
            assert(modules.to_set() =~= spec_module_sources(sources));
            lemma_sorted_names(modules);
            assert forall|j: int| 0 <= j < modules.len() implies {
                &&& sources.dom().contains(ReferenceKindView::Module(#[trigger] modules[j]))
                &&& sources[ReferenceKindView::Module(modules[j])]
                    == import_map.modules.spec_values()[j]@
            } by {
                assert(modules.contains(modules[j]));
                assert(import_map.modules@[modules[j]] == import_map.modules.spec_values()[j]);
            }
            assert(generate_import_specifies@.dom() =~= import_urls(
                modules,
                0,
                sources,
                classifier,
            ));
        }
        let mut i: usize = 0;
        while i < n
            invariant
                i <= n,
                n == modules.len(),
                import_map.valid(table, classifier),
                module_analyzer_manager.wf(),
                table == bundle_variable@,
                classifier == module_analyzer_manager@,
                sources == import_map@,
                modules == import_map.modules.spec_keys(),
                forall|j: int|
                    0 <= j < modules.len() ==> {
                        &&& sources.dom().contains(ReferenceKindView::Module(#[trigger] modules[j]))
                        &&& sources[ReferenceKindView::Module(modules[j])]
                            == import_map.modules.spec_values()[j]@
                    },
                generate_import_specifies.wf(),
                generate_import_specifies@.dom() == import_urls(
                    modules,
                    i as nat,
                    sources,
                    classifier,
                ),
                forall|url: Seq<char>|
                    generate_import_specifies@.dom().contains(url) ==> (
                    #[trigger] generate_import_specifies@[url]).holds(
                        url,
                        modules,
                        i as nat,
                        sources,
                        table,
                        classifier,
                    ),
            decreases n - i,
        {
            let module = ModuleId::new(import_map.modules.key_at(i).as_str());
            let import = import_map.modules.value_at(i);
            let ghost name = modules[i as int];
            proof {
                assert(sources.dom().contains(ReferenceKindView::Module(modules[i as int])));
                assert(classifier.dom().contains(name));
                assert(sources[ReferenceKindView::Module(name)] == import@);
                assert(import@.resolves_in(table));
            }
            let mut is_import_uniq_name = false;
            let url = if module_analyzer_manager.is_external(&module) {
                module.to_string()
            } else {
                if !module_analyzer_manager.is_entry(&module) {
                    is_import_uniq_name = true;
                }
                with_bundle_reference_slot_name(
                    &module_analyzer_manager.module_analyzer(&module).unwrap().resource_pot_id,
                )
            };
            let ghost before = generate_import_specifies;
            if !import.is_empty() {
                let index = init_import_specify(&mut generate_import_specifies, &url);
                let ghost made = generate_import_specifies;
                proof {
                    made.lemma_canonical();
                    assert(made.spec_keys().contains(made.spec_keys()[index as int]));
                    if !before@.dom().contains(url@) {
                        lemma_url_specifiers_empty(
                            url@,
                            modules,
                            i as nat,
                            sources,
                            table,
                            classifier,
                        );
                    }
                    assert(made@[url@].holds(url@, modules, i as nat, sources, table, classifier));
                }
                let item = generate_import_specifies.value_at_mut(index);
                item.append(import, bundle_variable, is_import_uniq_name);
                proof {
                    let after = generate_import_specifies;
                    made.lemma_value_replaced(
                        &after,
                        index as int,
                        after.spec_values()[index as int],
                    );
                    assert(contributes_to(name, url@, sources, classifier));
                    lemma_import_urls_step(modules, i as nat, sources, classifier);
                    assert(after@.dom() =~= import_urls(
                        modules,
                        (i + 1) as nat,
                        sources,
                        classifier,
                    ));
                    assert forall|u: Seq<char>| after@.dom().contains(u) implies (
                    #[trigger] after@[u]).holds(
                        u,
                        modules,
                        (i + 1) as nat,
                        sources,
                        table,
                        classifier,
                    ) by {
                        if u != url@ {
                            assert(!contributes_to(name, u, sources, classifier));
                            assert(before@.dom().contains(u));
                            assert(after@[u] == made@[u]);
                            assert(made@[u] == before@[u]);
                        }
                    }
                }
            } else {
                proof {
                    lemma_import_urls_step(modules, i as nat, sources, classifier);
                }
            }
            i = i + 1;
        }
        let ghost urls = generate_import_specifies.spec_keys();
        let ghost items = generate_import_specifies.spec_values();
        proof {
            generate_import_specifies.lemma_canonical();
            assert forall|k: int| 0 <= k < urls.len() implies (#[trigger] items[k]).holds(
                urls[k],
                modules,
                n as nat,
                sources,
                table,
                classifier,
            ) by {
                assert(urls.contains(urls[k]));
                assert(generate_import_specifies@[urls[k]] == items[k]);
            }
        }
        let total = generate_import_specifies.len();
        let mut backwards: Vec<ModuleItem> = Vec::new();
        let mut k: usize = total;
        while k > 0
            invariant
                k <= total,
                total == urls.len(),
                urls.len() == items.len(),
                generate_import_specifies.wf(),
                generate_import_specifies.spec_keys() == urls.take(k as int),
                generate_import_specifies.spec_values() == items.take(k as int),
                backwards@.len() == total - k,
                forall|j: int|
                    0 <= j < backwards@.len() ==> (#[trigger] backwards@[j])@
                        == (ModuleItemView::Import {
                        specifiers: items[total - 1 - j].specifiers(),
                        src: urls[total - 1 - j],
                    }),
            decreases k,
        {
            let (url, item) = generate_import_specifies.pop_last().unwrap();
            backwards.push(ModuleItem::Import { specifiers: item.import_specifies, src: url });
            k = k - 1;
            proof {
                assert(urls.take(k as int + 1).drop_last() =~= urls.take(k as int));
                assert(items.take(k as int + 1).drop_last() =~= items.take(k as int));
            }
        }
        let stmts = reversed(backwards);
        proof {
            assert(urls == sorted_names(import_urls(modules, n as nat, sources, classifier)));
            assert(module_items_view(stmts@) =~= spec_generate_import(table, sources, classifier));
        }
        stmts
    }
}

} // verus!
