//! What holds of the import statements of every chunk.

use vstd::prelude::*;
use crate::ast::{ImportSpecifierView, ModuleItemView};
use crate::bundle_reference::{spec_module_sources, ImportMap, ImportView, ReferenceKindView};
use crate::generate::{
    contributes_to, import_named_specifier, import_named_specifiers, import_specifiers,
    import_url, import_urls, import_used_name, import_uses, is_import_uniq_name,
    lemma_import_urls_step, lemma_import_uses_push, spec_generate_import, url_specifiers,
};
use crate::module::ModuleAnalyzerView;
use crate::name_order::{
    enumerates, lemma_enumerates_empty, lemma_enumerates_insert, lemma_sorted_names, name_lt,
    sorted_names,
};
use crate::uniq_name::VarView;

verus! {

/// The specifier of a default import of the local name `local`: a named one without alias where
/// the names of the source are unique, else a default one.
pub open spec fn import_default_specifier(local: Seq<char>, uniq: bool) -> ImportSpecifierView {
    if uniq {
        ImportSpecifierView::Named { local, imported: None }
    } else {
        ImportSpecifierView::Default { local }
    }
}

/// Whether `specifier` is the specifier of the named import `imported` of a record.
pub open spec fn is_named_import_of(
    specifier: ImportSpecifierView,
    imported: Seq<char>,
    named: Map<Seq<char>, usize>,
    table: Seq<VarView>,
    uniq: bool,
) -> bool {
    &&& named.dom().contains(imported)
    &&& specifier == import_named_specifier(
        imported,
        table[named[imported] as int].render_name,
        uniq,
    )
}

/// Whether `specifier` is the specifier of one of the named imports of a record.
pub open spec fn is_named_import(
    specifier: ImportSpecifierView,
    named: Map<Seq<char>, usize>,
    table: Seq<VarView>,
    uniq: bool,
) -> bool {
    exists|imported: Seq<char>|
        #[trigger] is_named_import_of(specifier, imported, named, table, uniq)
}

/// Whether `specifier` is what `import` asks for in one of its places: a named import, the
/// namespace, or the default import.
pub open spec fn is_import_of(
    specifier: ImportSpecifierView,
    import: ImportView,
    table: Seq<VarView>,
    uniq: bool,
) -> bool {
    ||| is_named_import(specifier, import.named, table, uniq)
    ||| import.namespace matches Some(symbol) && specifier == (ImportSpecifierView::Namespace {
        local: table[symbol as int].render_name,
    })
    ||| import.default matches Some(symbol) && specifier == import_default_specifier(
        table[symbol as int].render_name,
        uniq,
    )
}

/// Whether the source `module` adds to the statement of `url` and asks for `specifier`.
pub open spec fn source_gives(
    module: Seq<char>,
    specifier: ImportSpecifierView,
    url: Seq<char>,
    import_map: Map<ReferenceKindView, ImportView>,
    table: Seq<VarView>,
    classifier: Map<Seq<char>, ModuleAnalyzerView>,
) -> bool {
    &&& contributes_to(module, url, import_map, classifier)
    &&& is_import_of(
        specifier,
        import_map[ReferenceKindView::Module(module)],
        table,
        is_import_uniq_name(module, classifier),
    )
}

/// Whether one of the first `n` of `modules` adds to the statement of `url` and asks for
/// `specifier`.
pub open spec fn is_import_from(
    specifier: ImportSpecifierView,
    url: Seq<char>,
    modules: Seq<Seq<char>>,
    n: nat,
    import_map: Map<ReferenceKindView, ImportView>,
    table: Seq<VarView>,
    classifier: Map<Seq<char>, ModuleAnalyzerView>,
) -> bool {
    exists|j: int|
        0 <= j < n && source_gives(
            #[trigger] modules[j],
            specifier,
            url,
            import_map,
            table,
            classifier,
        )
}

/// No two of `specifiers` have the same used name. Namespace specifiers have none.
pub open spec fn import_used_names_distinct(specifiers: Seq<ImportSpecifierView>) -> bool {
    forall|a: int, b: int|
        0 <= a < b < specifiers.len() && import_used_name(#[trigger] specifiers[a]) is Some
            ==> import_used_name(specifiers[a]) != import_used_name(#[trigger] specifiers[b])
}

/// The used name of the specifier of the named import `imported` of a record.
pub open spec fn named_used_name(
    imported: Seq<char>,
    named: Map<Seq<char>, usize>,
    table: Seq<VarView>,
    uniq: bool,
) -> Seq<char> {
    import_used_name(
        import_named_specifier(imported, table[named[imported] as int].render_name, uniq),
    )->0
}

/// Whether `specifiers` hold all that `import` asks for, up to names that are used already:
/// the used name of every named import, the namespace specifier, the name of the default import.
pub open spec fn covers(
    specifiers: Seq<ImportSpecifierView>,
    import: ImportView,
    table: Seq<VarView>,
    uniq: bool,
) -> bool {
    &&& forall|imported: Seq<char>|
        import.named.dom().contains(imported) ==> import_uses(
            specifiers,
            #[trigger] named_used_name(imported, import.named, table, uniq),
        )
    &&& import.namespace matches Some(symbol) ==> specifiers.contains(
        ImportSpecifierView::Namespace { local: table[symbol as int].render_name },
    )
    &&& import.default matches Some(symbol) ==> import_uses(
        specifiers,
        table[symbol as int].render_name,
    )
}

/// `longer` begins with `shorter`.
pub open spec fn extends(
    longer: Seq<ImportSpecifierView>,
    shorter: Seq<ImportSpecifierView>,
) -> bool {
    &&& shorter.len() <= longer.len()
    &&& forall|i: int|
        #![trigger longer[i]]
        #![trigger shorter[i]]
        0 <= i < shorter.len() ==> longer[i] == shorter[i]
}

/// The address that the import statement `item` imports from.
pub open spec fn import_item_src(item: ModuleItemView) -> Seq<char> {
    match item {
        ModuleItemView::Import { src, .. } => src,
        _ => Seq::empty(),
    }
}

/// The specifiers of the import statement `item`.
pub open spec fn import_item_specifiers(item: ModuleItemView) -> Seq<ImportSpecifierView> {
    match item {
        ModuleItemView::Import { specifiers, .. } => specifiers,
        _ => Seq::empty(),
    }
}

/// Whether one of the statements `items` imports from the address of `module` and holds all
/// that the record of `module` asks for, up to names that are used already.
pub open spec fn has_statement_of(
    items: Seq<ModuleItemView>,
    module: Seq<char>,
    import_map: Map<ReferenceKindView, ImportView>,
    table: Seq<VarView>,
    classifier: Map<Seq<char>, ModuleAnalyzerView>,
) -> bool {
    exists|k: int|
        0 <= k < items.len() && import_item_src(#[trigger] items[k]) == import_url(
            module,
            classifier,
        ) && covers(
            import_item_specifiers(items[k]),
            import_map[ReferenceKindView::Module(module)],
            table,
            is_import_uniq_name(module, classifier),
        )
}

/// The alias of a named import is left out if and only if the names of the source are unique
/// or the imported name is the local name. An alias that is there is the imported name.
pub proof fn lemma_import_alias_minimal(imported: Seq<char>, local: Seq<char>, uniq: bool)
    ensures
        import_named_specifier(imported, local, uniq) matches ImportSpecifierView::Named {
            local: name,
            imported: alias,
        } && name == local && (alias is None <==> uniq || imported == local) && (alias is Some
            ==> alias == Some(imported)),
{
}

proof fn lemma_extends_uses(
    longer: Seq<ImportSpecifierView>,
    shorter: Seq<ImportSpecifierView>,
    name: Seq<char>,
)
    requires
        extends(longer, shorter),
        import_uses(shorter, name),
    ensures
        import_uses(longer, name),
{
    let j = choose|j: int|
        0 <= j < shorter.len() && import_used_name(#[trigger] shorter[j]) == Some(name);
    assert(longer[j] == shorter[j]);
}

proof fn lemma_extends_covers(
    longer: Seq<ImportSpecifierView>,
    shorter: Seq<ImportSpecifierView>,
    import: ImportView,
    table: Seq<VarView>,
    uniq: bool,
)
    requires
        extends(longer, shorter),
        covers(shorter, import, table, uniq),
    ensures
        covers(longer, import, table, uniq),
{
    assert forall|imported: Seq<char>| import.named.dom().contains(imported) implies import_uses(
        longer,
        #[trigger] named_used_name(imported, import.named, table, uniq),
    ) by {
        lemma_extends_uses(longer, shorter, named_used_name(imported, import.named, table, uniq));
    }
    if let Some(symbol) = import.namespace {
        let specifier = ImportSpecifierView::Namespace { local: table[symbol as int].render_name };
        let j = choose|j: int| 0 <= j < shorter.len() && shorter[j] == specifier;
        assert(longer[j] == specifier);
    }
    if let Some(symbol) = import.default {
        lemma_extends_uses(longer, shorter, table[symbol as int].render_name);
    }
}

/// One specifier more, added unless its used name is used: what then holds of the list.
proof fn lemma_push_unless_used(
    start: Seq<ImportSpecifierView>,
    before: Seq<ImportSpecifierView>,
    specifier: ImportSpecifierView,
) -> (after: Seq<ImportSpecifierView>)
    requires
        extends(before, start),
        import_used_names_distinct(before),
        import_used_name(specifier) is Some,
    ensures
        after == if import_uses(before, import_used_name(specifier)->0) {
            before
        } else {
            before.push(specifier)
        },
        extends(after, before),
        extends(after, start),
        import_used_names_distinct(after),
        import_uses(after, import_used_name(specifier)->0),
        forall|k: int| before.len() <= k < after.len() ==> after[k] == specifier,
{
    let name = import_used_name(specifier)->0;
    if import_uses(before, name) {
        before
    } else {
        let after = before.push(specifier);
        lemma_import_uses_push(before, specifier, name);
        assert forall|a: int, b: int|
            0 <= a < b < after.len() && import_used_name(
                #[trigger] after[a],
            ) is Some implies import_used_name(after[a]) != import_used_name(
            #[trigger] after[b],
        ) by {
            assert(after[a] == before[a]);
            if b < before.len() {
                assert(after[b] == before[b]);
            }
        }
        after
    }
}

proof fn lemma_import_named(
    before: Seq<ImportSpecifierView>,
    names: Seq<Seq<char>>,
    n: nat,
    named: Map<Seq<char>, usize>,
    table: Seq<VarView>,
    uniq: bool,
)
    requires
        n <= names.len(),
        forall|j: int| 0 <= j < names.len() ==> named.dom().contains(#[trigger] names[j]),
        import_used_names_distinct(before),
    ensures
        ({
            let specifiers = import_named_specifiers(before, names, n, named, table, uniq);
            &&& extends(specifiers, before)
            &&& import_used_names_distinct(specifiers)
            &&& forall|k: int|
                before.len() <= k < specifiers.len() ==> is_named_import(
                    #[trigger] specifiers[k],
                    named,
                    table,
                    uniq,
                )
            &&& forall|j: int|
                0 <= j < n ==> import_uses(
                    specifiers,
                    named_used_name(#[trigger] names[j], named, table, uniq),
                )
        }),
    decreases n,
{
    if n > 0 {
        let m = (n - 1) as nat;
        lemma_import_named(before, names, m, named, table, uniq);
        let earlier = import_named_specifiers(before, names, m, named, table, uniq);
        let imported = names[n - 1];
        let specifier = import_named_specifier(
            imported,
            table[named[imported] as int].render_name,
            uniq,
        );
        let specifiers = lemma_push_unless_used(before, earlier, specifier);
        assert(specifiers == import_named_specifiers(before, names, n, named, table, uniq));
        assert(is_named_import_of(specifier, imported, named, table, uniq));
        assert forall|k: int| before.len() <= k < specifiers.len() implies is_named_import(
            #[trigger] specifiers[k],
            named,
            table,
            uniq,
        ) by {
            if k < earlier.len() {
                assert(specifiers[k] == earlier[k]);
            } else {
                assert(is_named_import_of(specifiers[k], imported, named, table, uniq));
            }
        }
        assert forall|j: int| 0 <= j < n implies import_uses(
            specifiers,
            named_used_name(#[trigger] names[j], named, table, uniq),
        ) by {
            if j < m {
                lemma_extends_uses(
                    specifiers,
                    earlier,
                    named_used_name(names[j], named, table, uniq),
                );
            }
        }
    }
}

/// What one record adds to a statement.
proof fn lemma_import_record(
    before: Seq<ImportSpecifierView>,
    import: ImportView,
    table: Seq<VarView>,
    uniq: bool,
)
    requires
        enumerates(import.named.dom()),
        import_used_names_distinct(before),
    ensures
        ({
            let specifiers = import_specifiers(before, import, table, uniq);
            &&& extends(specifiers, before)
            &&& import_used_names_distinct(specifiers)
            &&& forall|k: int|
                before.len() <= k < specifiers.len() ==> is_import_of(
                    #[trigger] specifiers[k],
                    import,
                    table,
                    uniq,
                )
            &&& covers(specifiers, import, table, uniq)
        }),
{
    let names = sorted_names(import.named.dom());
    assert forall|j: int| 0 <= j < names.len() implies import.named.dom().contains(
        #[trigger] names[j],
    ) by {
        assert(names.contains(names[j]));
    }
    lemma_import_named(before, names, names.len(), import.named, table, uniq);
    let named = import_named_specifiers(before, names, names.len(), import.named, table, uniq);
    assert forall|imported: Seq<char>| import.named.dom().contains(imported) implies import_uses(
        named,
        #[trigger] named_used_name(imported, import.named, table, uniq),
    ) by {
        assert(names.contains(imported));
        let j = choose|j: int| 0 <= j < names.len() && names[j] == imported;
        assert(import_uses(named, named_used_name(names[j], import.named, table, uniq)));
    }
    let with_namespace = match import.namespace {
        Some(symbol) => named.push(
            ImportSpecifierView::Namespace { local: table[symbol as int].render_name },
        ),
        None => named,
    };
    assert(extends(with_namespace, named));
    assert(import_used_names_distinct(with_namespace)) by {
        assert forall|a: int, b: int|
            0 <= a < b < with_namespace.len() && import_used_name(
                #[trigger] with_namespace[a],
            ) is Some implies import_used_name(with_namespace[a]) != import_used_name(
            #[trigger] with_namespace[b],
        ) by {
            assert(with_namespace[a] == named[a]);
            if b < named.len() {
                assert(with_namespace[b] == named[b]);
            }
        }
    }
    if let Some(symbol) = import.namespace {
        assert(with_namespace[named.len() as int] == (ImportSpecifierView::Namespace {
            local: table[symbol as int].render_name,
        }));
    }
    assert(extends(with_namespace, before));
    let specifiers = import_specifiers(before, import, table, uniq);
    match import.default {
        Some(symbol) => {
            let specifier = import_default_specifier(table[symbol as int].render_name, uniq);
            let after = lemma_push_unless_used(before, with_namespace, specifier);
            assert(after == specifiers);
        },
        None => {
            assert(specifiers == with_namespace);
        },
    }
    assert(extends(specifiers, with_namespace));
    assert forall|k: int| before.len() <= k < specifiers.len() implies is_import_of(
        #[trigger] specifiers[k],
        import,
        table,
        uniq,
    ) by {
        if k < named.len() {
            assert(specifiers[k] == with_namespace[k]);
            assert(with_namespace[k] == named[k]);
            assert(is_named_import(named[k], import.named, table, uniq));
        } else if k < with_namespace.len() {
            assert(specifiers[k] == with_namespace[k]);
        }
    }
    assert(covers(specifiers, import, table, uniq)) by {
        assert forall|imported: Seq<char>|
            import.named.dom().contains(imported) implies import_uses(
            specifiers,
            #[trigger] named_used_name(imported, import.named, table, uniq),
        ) by {
            let name = named_used_name(imported, import.named, table, uniq);
            lemma_extends_uses(with_namespace, named, name);
            lemma_extends_uses(specifiers, with_namespace, name);
        }
        if let Some(symbol) = import.namespace {
            assert(specifiers[named.len() as int] == with_namespace[named.len() as int]);
        }
    }
}

proof fn lemma_url_specifiers(
    url: Seq<char>,
    modules: Seq<Seq<char>>,
    n: nat,
    import_map: Map<ReferenceKindView, ImportView>,
    table: Seq<VarView>,
    classifier: Map<Seq<char>, ModuleAnalyzerView>,
)
    requires
        n <= modules.len(),
        forall|j: int|
            0 <= j < modules.len() ==> enumerates(
                import_map[ReferenceKindView::Module(#[trigger] modules[j])].named.dom(),
            ),
    ensures
        ({
            let specifiers = url_specifiers(url, modules, n, import_map, table, classifier);
            &&& import_used_names_distinct(specifiers)
            &&& forall|k: int|
                0 <= k < specifiers.len() ==> is_import_from(
                    #[trigger] specifiers[k],
                    url,
                    modules,
                    n,
                    import_map,
                    table,
                    classifier,
                )
            &&& forall|j: int|
                0 <= j < n && contributes_to(#[trigger] modules[j], url, import_map, classifier)
                    ==> covers(
                    specifiers,
                    import_map[ReferenceKindView::Module(modules[j])],
                    table,
                    is_import_uniq_name(modules[j], classifier),
                )
        }),
    decreases n,
{
    if n > 0 {
        let m = (n - 1) as nat;
        lemma_url_specifiers(url, modules, m, import_map, table, classifier);
        let before = url_specifiers(url, modules, m, import_map, table, classifier);
        let specifiers = url_specifiers(url, modules, n, import_map, table, classifier);
        let module = modules[n - 1];
        let import = import_map[ReferenceKindView::Module(module)];
        let uniq = is_import_uniq_name(module, classifier);
        if contributes_to(module, url, import_map, classifier) {
            lemma_import_record(before, import, table, uniq);
        }
        assert(extends(specifiers, before));
        assert forall|k: int| 0 <= k < specifiers.len() implies is_import_from(
            #[trigger] specifiers[k],
            url,
            modules,
            n,
            import_map,
            table,
            classifier,
        ) by {
            if k < before.len() {
                assert(specifiers[k] == before[k]);
                let j = choose|j: int|
                    0 <= j < m && source_gives(
                        #[trigger] modules[j],
                        before[k],
                        url,
                        import_map,
                        table,
                        classifier,
                    );
                assert(0 <= j < n && source_gives(
                    modules[j],
                    specifiers[k],
                    url,
                    import_map,
                    table,
                    classifier,
                ));
            } else {
                assert(source_gives(
                    modules[n - 1],
                    specifiers[k],
                    url,
                    import_map,
                    table,
                    classifier,
                ));
            }
        }
        assert forall|j: int|
            0 <= j < n && contributes_to(
                #[trigger] modules[j],
                url,
                import_map,
                classifier,
            ) implies covers(
            specifiers,
            import_map[ReferenceKindView::Module(modules[j])],
            table,
            is_import_uniq_name(modules[j], classifier),
        ) by {
            if j < m {
                lemma_extends_covers(
                    specifiers,
                    before,
                    import_map[ReferenceKindView::Module(modules[j])],
                    table,
                    is_import_uniq_name(modules[j], classifier),
                );
            }
        }
    }
}

/// The addresses of the first `n` of `modules` can be enumerated in their order.
pub proof fn lemma_import_urls_enumerated(
    modules: Seq<Seq<char>>,
    n: nat,
    import_map: Map<ReferenceKindView, ImportView>,
    classifier: Map<Seq<char>, ModuleAnalyzerView>,
)
    ensures
        enumerates(import_urls(modules, n, import_map, classifier)),
    decreases n,
{
    if n == 0 {
        assert(import_urls(modules, 0, import_map, classifier) =~= Set::<Seq<char>>::empty());
        lemma_enumerates_empty();
    } else {
        let m = (n - 1) as nat;
        lemma_import_urls_enumerated(modules, m, import_map, classifier);
        lemma_import_urls_step(modules, m, import_map, classifier);
        if !import_map[ReferenceKindView::Module(modules[m as int])].is_empty() {
            lemma_enumerates_insert(
                import_urls(modules, m, import_map, classifier),
                import_url(modules[m as int], classifier),
            );
        }
    }
}

/// The import statements of a chunk. Their addresses strictly increase, so no two statements
/// import from one address. Within a statement no two specifiers that are no namespace
/// specifier have the same used name, and every specifier is asked for by a source that is
/// imported from the address of the statement. Every `Module` source whose record is not empty
/// has the statement of its address, which holds all that the record asks for, up to names
/// that are used already.
pub proof fn lemma_import_statements(
    import_map: &ImportMap,
    table: Seq<VarView>,
    classifier: Map<Seq<char>, ModuleAnalyzerView>,
)
    requires
        import_map.wf(),
    ensures
        ({
            let items = spec_generate_import(table, import_map@, classifier);
            let modules = sorted_names(spec_module_sources(import_map@));
            &&& forall|k: int| 0 <= k < items.len() ==> (#[trigger] items[k]) is Import
            &&& forall|a: int, b: int|
                0 <= a < b < items.len() ==> name_lt(
                    import_item_src(#[trigger] items[a]),
                    import_item_src(#[trigger] items[b]),
                )
            &&& forall|k: int|
                0 <= k < items.len() ==> import_used_names_distinct(
                    import_item_specifiers(#[trigger] items[k]),
                )
            &&& forall|k: int, i: int|
                0 <= k < items.len() && 0 <= i < import_item_specifiers(items[k]).len()
                    ==> is_import_from(
                    #[trigger] import_item_specifiers(items[k])[i],
                    import_item_src(items[k]),
                    modules,
                    modules.len(),
                    import_map@,
                    table,
                    classifier,
                )
            &&& forall|module: Seq<char>|
                import_map@.dom().contains(ReferenceKindView::Module(module))
                    && !import_map@[ReferenceKindView::Module(module)].is_empty()
                    ==> #[trigger] has_statement_of(items, module, import_map@, table, classifier)
        }),
{
    let sources = import_map@;
    let items = spec_generate_import(table, sources, classifier);
    import_map.modules.lemma_canonical();
    let modules = import_map.modules.spec_keys();
    assert(modules.to_set() =~= spec_module_sources(sources));
    lemma_sorted_names(modules);
    assert(modules == sorted_names(spec_module_sources(sources)));
    assert forall|j: int| 0 <= j < modules.len() implies enumerates(
        sources[ReferenceKindView::Module(#[trigger] modules[j])].named.dom(),
    ) by {
        assert(modules.contains(modules[j]));
        assert(import_map.modules@[modules[j]] == import_map.modules.spec_values()[j]);
        import_map.modules.spec_values()[j].named.lemma_enumerated();
    }
    let n = modules.len();
    lemma_import_urls_enumerated(modules, n, sources, classifier);
    let urls = sorted_names(import_urls(modules, n, sources, classifier));
    assert forall|k: int| 0 <= k < items.len() implies {
        &&& import_used_names_distinct(import_item_specifiers(#[trigger] items[k]))
        &&& forall|i: int|
            0 <= i < import_item_specifiers(items[k]).len() ==> is_import_from(
                #[trigger] import_item_specifiers(items[k])[i],
                import_item_src(items[k]),
                modules,
                n,
                sources,
                table,
                classifier,
            )
    } by {
        lemma_url_specifiers(urls[k], modules, n, sources, table, classifier);
    }
    assert forall|module: Seq<char>|
        sources.dom().contains(ReferenceKindView::Module(module))
            && !sources[ReferenceKindView::Module(module)].is_empty() implies #[trigger] has_statement_of(
        items,
        module,
        sources,
        table,
        classifier,
    ) by {
        assert(modules.contains(module));
        let j = choose|j: int| 0 <= j < modules.len() && modules[j] == module;
        let url = import_url(module, classifier);
        assert(contributes_to(modules[j], url, sources, classifier));
        assert(import_urls(modules, n, sources, classifier).contains(url));
        assert(urls.contains(url));
        let k = choose|k: int| 0 <= k < urls.len() && urls[k] == url;
        lemma_url_specifiers(url, modules, n, sources, table, classifier);
        assert(import_item_src(items[k]) == url);
    }
}

/// The local name that an import specifier binds.
pub open spec fn import_local_name(specifier: ImportSpecifierView) -> Seq<char> {
    match specifier {
        ImportSpecifierView::Named { local, .. } => local,
        ImportSpecifierView::Namespace { local } => local,
        ImportSpecifierView::Default { local } => local,
    }
}

/// Whether `import` refers to `symbol`: as a named import, as the namespace, or as the default
/// import.
pub open spec fn import_refers_to(import: ImportView, symbol: usize) -> bool {
    ||| exists|imported: Seq<char>|
        import.named.dom().contains(imported) && #[trigger] import.named[imported] == symbol
    ||| import.namespace == Some(symbol)
    ||| import.default == Some(symbol)
}

/// A specifier that a record asks for binds the final name of a symbol that the record refers
/// to.
pub proof fn lemma_import_binds_a_symbol(
    specifier: ImportSpecifierView,
    import: ImportView,
    table: Seq<VarView>,
    uniq: bool,
) -> (symbol: usize)
    requires
        is_import_of(specifier, import, table, uniq),
    ensures
        import_refers_to(import, symbol),
        import_local_name(specifier) == table[symbol as int].render_name,
{
    if is_named_import(specifier, import.named, table, uniq) {
        let imported = choose|imported: Seq<char>|
            #[trigger] is_named_import_of(specifier, imported, import.named, table, uniq);
        import.named[imported]
    } else if import.namespace matches Some(symbol) && specifier == (ImportSpecifierView::Namespace {
        local: table[symbol as int].render_name,
    }) {
        import.namespace->0
    } else {
        import.default->0
    }
}

/// Import records are taken as they come: removal is not looked at. So no import statement
/// binds the final name of a removed symbol, as long as no record of a `Module` source refers
/// to a symbol of that final name.
pub proof fn lemma_import_excludes_removed(
    import_map: &ImportMap,
    table: Seq<VarView>,
    classifier: Map<Seq<char>, ModuleAnalyzerView>,
    removed: usize,
)
    requires
        import_map.wf(),
        removed < table.len(),
        table[removed as int].removed,
        forall|module: Seq<char>, symbol: usize|
            import_map@.dom().contains(ReferenceKindView::Module(module)) && #[trigger] import_refers_to(
                import_map@[ReferenceKindView::Module(module)],
                symbol,
            ) ==> table[symbol as int].render_name != table[removed as int].render_name,
    ensures
        forall|k: int, i: int|
            0 <= k < spec_generate_import(table, import_map@, classifier).len() && 0 <= i
                < import_item_specifiers(
                spec_generate_import(table, import_map@, classifier)[k],
            ).len() ==> import_local_name(
                #[trigger] import_item_specifiers(
                    spec_generate_import(table, import_map@, classifier)[k],
                )[i],
            ) != table[removed as int].render_name,
{
    let sources = import_map@;
    let items = spec_generate_import(table, sources, classifier);
    let modules = sorted_names(spec_module_sources(sources));
    lemma_import_statements(import_map, table, classifier);
    import_map.modules.lemma_canonical();
    assert(import_map.modules.spec_keys().to_set() =~= spec_module_sources(sources));
    lemma_sorted_names(import_map.modules.spec_keys());
    assert forall|k: int, i: int|
        0 <= k < items.len() && 0 <= i < import_item_specifiers(
            items[k],
        ).len() implies import_local_name(#[trigger] import_item_specifiers(items[k])[i])
        != table[removed as int].render_name by {
        let specifier = import_item_specifiers(items[k])[i];
        assert(is_import_from(
            specifier,
            import_item_src(items[k]),
            modules,
            modules.len(),
            sources,
            table,
            classifier,
        ));
        let j = choose|j: int|
            0 <= j < modules.len() && source_gives(
                #[trigger] modules[j],
                specifier,
                import_item_src(items[k]),
                sources,
                table,
                classifier,
            );
        assert(modules.contains(modules[j]));
        assert(sources.dom().contains(ReferenceKindView::Module(modules[j])));
        let symbol = lemma_import_binds_a_symbol(
            specifier,
            sources[ReferenceKindView::Module(modules[j])],
            table,
            is_import_uniq_name(modules[j], classifier),
        );
        assert(import_refers_to(sources[ReferenceKindView::Module(modules[j])], symbol));
    }
}

/// Two import maps that hold the same are walked in the same order and give the same
/// statements, however each was filled.
pub proof fn lemma_import_deterministic(
    first: &ImportMap,
    second: &ImportMap,
    table: Seq<VarView>,
    classifier: Map<Seq<char>, ModuleAnalyzerView>,
)
    requires
        first.wf(),
        second.wf(),
        first@ == second@,
    ensures
        first.modules.spec_keys() == second.modules.spec_keys(),
        first.bundles.spec_keys() == second.bundles.spec_keys(),
        spec_generate_import(table, first@, classifier) == spec_generate_import(
            table,
            second@,
            classifier,
        ),
{
    first.modules.lemma_canonical();
    second.modules.lemma_canonical();
    first.bundles.lemma_canonical();
    second.bundles.lemma_canonical();
    assert(first.modules@.dom() =~= second.modules@.dom()) by {
        assert forall|id: Seq<char>|
            first.modules@.dom().contains(id) <==> second.modules@.dom().contains(id) by {
            assert(first@.dom().contains(ReferenceKindView::Module(id))
                == first.modules@.dom().contains(id));
            assert(second@.dom().contains(ReferenceKindView::Module(id))
                == second.modules@.dom().contains(id));
        }
    }
    assert(first.bundles@.dom() =~= second.bundles@.dom()) by {
        assert forall|id: Seq<char>|
            first.bundles@.dom().contains(id) <==> second.bundles@.dom().contains(id) by {
            assert(first@.dom().contains(ReferenceKindView::Bundle(id))
                == first.bundles@.dom().contains(id));
            assert(second@.dom().contains(ReferenceKindView::Bundle(id))
                == second.bundles@.dom().contains(id));
        }
    }
}

} // verus!
