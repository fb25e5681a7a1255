//! What holds of the export statements of every chunk.

use vstd::prelude::*;
use crate::ast::{ExportSpecifierView, ModuleItemView};
use crate::bundle_reference::{ExportView, ExternalReferenceExport, ReferenceKindView};
use crate::generate::{
    default_is_named, export_local_name, export_mentions, export_named_specifier,
    export_named_specifiers, export_specifiers, exports_all, lemma_export_mentions_push,
    spec_generate_export, spec_should_reexport_uniq,
};
use crate::module::{spec_is_commonjs, ModuleAnalyzerView};
use crate::name_order::sorted_names;
use crate::uniq_name::VarView;

verus! {

/// Whether `specifier` is the specifier of the named export `exported` of a record, and the
/// symbol of that export is not removed.
pub open spec fn is_named_export_of(
    specifier: ExportSpecifierView,
    exported: Seq<char>,
    named: Map<Seq<char>, usize>,
    table: Seq<VarView>,
    classifier: Map<Seq<char>, ModuleAnalyzerView>,
) -> bool {
    &&& named.dom().contains(exported)
    &&& !table[named[exported] as int].removed
    &&& specifier == export_named_specifier(exported, table[named[exported] as int], classifier)
}

/// Whether `specifier` is the specifier of one of the named exports of a record.
pub open spec fn is_named_export(
    specifier: ExportSpecifierView,
    named: Map<Seq<char>, usize>,
    table: Seq<VarView>,
    classifier: Map<Seq<char>, ModuleAnalyzerView>,
) -> bool {
    exists|exported: Seq<char>|
        #[trigger] is_named_export_of(specifier, exported, named, table, classifier)
}

/// Whether the statement `item` refers to the local name `name`.
pub open spec fn export_item_mentions(item: ModuleItemView, name: Seq<char>) -> bool {
    match item {
        ModuleItemView::ExportNamed { specifiers, .. } => export_mentions(specifiers, name),
        ModuleItemView::ExportDefaultExpr { expr } => expr == name,
        _ => false,
    }
}

/// Whether `export` refers to `symbol` in a place from which a statement is made: as a named
/// export while the symbol is not removed, as the namespace, or as the default export.
pub open spec fn export_refers_to(export: ExportView, table: Seq<VarView>, symbol: usize) -> bool {
    ||| exists|exported: Seq<char>|
        export.named.dom().contains(exported) && #[trigger] export.named[exported] == symbol
            && !table[symbol as int].removed
    ||| export.namespace == Some(symbol)
    ||| export.default == Some(symbol)
}

/// No two of `specifiers` refer to the same local name.
pub open spec fn export_names_distinct(specifiers: Seq<ExportSpecifierView>) -> bool {
    forall|a: int, b: int|
        0 <= a < b < specifiers.len() ==> export_local_name(#[trigger] specifiers[a])
            != export_local_name(#[trigger] specifiers[b])
}

/// What follows the named exports in the statement repeats no name: neither the namespace nor
/// a default export that is exposed as a named one has a final name that is there already.
pub open spec fn export_tail_is_fresh(
    export: ExportView,
    table: Seq<VarView>,
    classifier: Map<Seq<char>, ModuleAnalyzerView>,
) -> bool {
    let names = sorted_names(export.named.dom());
    let named = export_named_specifiers(names, names.len(), export.named, table, classifier);
    &&& export.namespace matches Some(symbol) ==> !export_mentions(
        named,
        table[symbol as int].render_name,
    )
    &&& default_is_named(export, table, classifier) ==> {
        &&& !export_mentions(named, table[export.default->0 as int].render_name)
        &&& export.namespace matches Some(symbol) ==> table[symbol as int].render_name
            != table[export.default->0 as int].render_name
    }
}

/// The alias of a named export is left out if and only if the symbol is exposed under its
/// unique final name or its final name is the exported name. An alias that is there is the
/// exported name, and the local name is the final name of the symbol.
pub proof fn lemma_export_alias_minimal(
    exported: Seq<char>,
    var: VarView,
    classifier: Map<Seq<char>, ModuleAnalyzerView>,
)
    ensures
        export_named_specifier(exported, var, classifier) matches ExportSpecifierView::Named {
            orig,
            exported: alias,
        } && orig == var.render_name && (alias is None <==> spec_should_reexport_uniq(
            var,
            classifier,
        ) || var.render_name == exported) && (alias is Some ==> alias == Some(exported)),
{
}

proof fn lemma_named_specifiers(
    names: Seq<Seq<char>>,
    n: nat,
    named: Map<Seq<char>, usize>,
    table: Seq<VarView>,
    classifier: Map<Seq<char>, ModuleAnalyzerView>,
)
    requires
        n <= names.len(),
        forall|j: int| 0 <= j < names.len() ==> named.dom().contains(#[trigger] names[j]),
    ensures
        ({
            let specifiers = export_named_specifiers(names, n, named, table, classifier);
            &&& export_names_distinct(specifiers)
            &&& forall|k: int|
                0 <= k < specifiers.len() ==> is_named_export(
                    #[trigger] specifiers[k],
                    named,
                    table,
                    classifier,
                )
            &&& forall|j: int|
                0 <= j < n && !table[named[names[j]] as int].removed ==> export_mentions(
                    specifiers,
                    #[trigger] table[named[names[j]] as int].render_name,
                )
        }),
    decreases n,
{
    if n > 0 {
        let m = (n - 1) as nat;
        lemma_named_specifiers(names, m, named, table, classifier);
        let before = export_named_specifiers(names, m, named, table, classifier);
        let specifiers = export_named_specifiers(names, n, named, table, classifier);
        let exported = names[n - 1];
        let var = table[named[exported] as int];
        let specifier = export_named_specifier(exported, var, classifier);
        if !(var.removed || export_mentions(before, var.render_name)) {
            assert(specifiers == before.push(specifier));
            assert(is_named_export_of(specifier, exported, named, table, classifier));
            assert forall|a: int, b: int| 0 <= a < b < specifiers.len() implies export_local_name(
                #[trigger] specifiers[a],
            ) != export_local_name(#[trigger] specifiers[b]) by {
                if b == before.len() {
                    assert(specifiers[a] == before[a]);
                }
            }
            assert forall|k: int| 0 <= k < specifiers.len() implies is_named_export(
                #[trigger] specifiers[k],
                named,
                table,
                classifier,
            ) by {
                if k < before.len() {
                    assert(specifiers[k] == before[k]);
                }
            }
            assert forall|j: int|
                0 <= j < n && !table[named[names[j]] as int].removed implies export_mentions(
                specifiers,
                #[trigger] table[named[names[j]] as int].render_name,
            ) by {
                lemma_export_mentions_push(
                    before,
                    specifier,
                    table[named[names[j]] as int].render_name,
                );
            }
        }
    }
}

/// The named exports of a statement: each comes from one named export of the record whose
/// symbol is not removed, no two of them refer to the same final name, and the final name of
/// every named export whose symbol is not removed is referred to.
pub proof fn lemma_export_named_specifiers(
    export: &ExternalReferenceExport,
    table: Seq<VarView>,
    classifier: Map<Seq<char>, ModuleAnalyzerView>,
)
    requires
        export.wf(),
    ensures
        ({
            let names = sorted_names(export@.named.dom());
            let named = export_named_specifiers(
                names,
                names.len(),
                export@.named,
                table,
                classifier,
            );
            &&& export_names_distinct(named)
            &&& forall|k: int|
                0 <= k < named.len() ==> is_named_export(
                    #[trigger] named[k],
                    export@.named,
                    table,
                    classifier,
                )
            &&& forall|exported: Seq<char>|
                export@.named.dom().contains(exported) && !table[export@.named[exported] as int].removed
                    ==> export_mentions(
                    named,
                    #[trigger] table[export@.named[exported] as int].render_name,
                )
        }),
{
    export.named.lemma_canonical();
    let names = export.named.spec_keys();
    assert forall|j: int| 0 <= j < names.len() implies export@.named.dom().contains(
        #[trigger] names[j],
    ) by {
        assert(names.contains(names[j]));
    }
    lemma_named_specifiers(names, names.len(), export@.named, table, classifier);
    let named = export_named_specifiers(names, names.len(), export@.named, table, classifier);
    assert forall|exported: Seq<char>|
        export@.named.dom().contains(exported) && !table[export@.named[exported] as int].removed implies export_mentions(
        named,
        #[trigger] table[export@.named[exported] as int].render_name,
    ) by {
        let j = export.named.spec_index_of(exported);
        assert(names[j] == exported);
        assert(!table[export@.named[names[j]] as int].removed);
    }
}

/// Within the one named-export statement no two specifiers refer to the same local name,
/// unless what follows the named exports repeats a name.
pub proof fn lemma_export_specifiers_distinct(
    export: &ExternalReferenceExport,
    table: Seq<VarView>,
    classifier: Map<Seq<char>, ModuleAnalyzerView>,
)
    requires
        export.wf(),
        export_tail_is_fresh(export@, table, classifier),
    ensures
        export_names_distinct(export_specifiers(export@, table, classifier)),
{
    lemma_export_named_specifiers(export, table, classifier);
    let names = sorted_names(export@.named.dom());
    let named = export_named_specifiers(names, names.len(), export@.named, table, classifier);
    let with_namespace = match export@.namespace {
        Some(symbol) => named.push(
            ExportSpecifierView::Namespace { name: table[symbol as int].render_name },
        ),
        None => named,
    };
    assert(export_names_distinct(with_namespace)) by {
        assert forall|a: int, b: int|
            0 <= a < b < with_namespace.len() implies export_local_name(
            #[trigger] with_namespace[a],
        ) != export_local_name(#[trigger] with_namespace[b]) by {
            if b == named.len() {
                assert(with_namespace[a] == named[a]);
            }
        }
    }
    let specifiers = export_specifiers(export@, table, classifier);
    if default_is_named(export@, table, classifier) {
        let name = table[export@.default->0 as int].render_name;
        assert forall|a: int, b: int| 0 <= a < b < specifiers.len() implies export_local_name(
            #[trigger] specifiers[a],
        ) != export_local_name(#[trigger] specifiers[b]) by {
            if b == with_namespace.len() {
                assert(specifiers[a] == with_namespace[a]);
                if a < named.len() {
                    assert(with_namespace[a] == named[a]);
                }
            } else {
                assert(specifiers[a] == with_namespace[a]);
                assert(specifiers[b] == with_namespace[b]);
            }
        }
    }
}

/// No statement refers to the final name of a removed symbol, unless the record refers to a
/// symbol of that final name from a place where removal is not looked at: as the namespace, as
/// the default export, or as a named export of another symbol, not removed, of the same name.
pub proof fn lemma_export_excludes_removed(
    source: Option<ReferenceKindView>,
    export: &ExternalReferenceExport,
    table: Seq<VarView>,
    classifier: Map<Seq<char>, ModuleAnalyzerView>,
    removed: usize,
)
    requires
        export.wf(),
        removed < table.len(),
        table[removed as int].removed,
        forall|symbol: usize|
            export_refers_to(export@, table, symbol) ==> (#[trigger] table[symbol as int]).render_name
                != table[removed as int].render_name,
    ensures
        forall|i: int|
            0 <= i < spec_generate_export(source, export@, table, classifier).len()
                ==> !export_item_mentions(
                #[trigger] spec_generate_export(source, export@, table, classifier)[i],
                table[removed as int].render_name,
            ),
{
    let name = table[removed as int].render_name;
    lemma_export_named_specifiers(export, table, classifier);
    let names = sorted_names(export@.named.dom());
    let named = export_named_specifiers(names, names.len(), export@.named, table, classifier);
    assert(!export_mentions(named, name)) by {
        if export_mentions(named, name) {
            let k = choose|k: int|
                0 <= k < named.len() && export_local_name(#[trigger] named[k]) == name;
            assert(is_named_export(named[k], export@.named, table, classifier));
            let exported = choose|exported: Seq<char>|
                #[trigger] is_named_export_of(named[k], exported, export@.named, table, classifier);
            let symbol = export@.named[exported];
            assert(export_refers_to(export@, table, symbol));
            assert(table[symbol as int].render_name != name);
        }
    }
    let with_namespace = match export@.namespace {
        Some(symbol) => named.push(
            ExportSpecifierView::Namespace { name: table[symbol as int].render_name },
        ),
        None => named,
    };
    assert(!export_mentions(with_namespace, name)) by {
        if let Some(symbol) = export@.namespace {
            assert(export_refers_to(export@, table, symbol));
            assert(table[symbol as int].render_name != name);
            lemma_export_mentions_push(
                named,
                ExportSpecifierView::Namespace { name: table[symbol as int].render_name },
                name,
            );
        }
    }
    let specifiers = export_specifiers(export@, table, classifier);
    if let Some(symbol) = export@.default {
        assert(export_refers_to(export@, table, symbol));
        assert(table[symbol as int].render_name != name);
        if default_is_named(export@, table, classifier) {
            lemma_export_mentions_push(
                with_namespace,
                ExportSpecifierView::Named {
                    orig: table[symbol as int].render_name,
                    exported: None,
                },
                name,
            );
        }
    }
    assert(!export_mentions(specifiers, name));
}

/// A record tied to a module that is reported as CommonJS gives no export-all statement.
pub proof fn lemma_no_export_all_from_commonjs(
    module: Seq<char>,
    export: ExportView,
    table: Seq<VarView>,
    classifier: Map<Seq<char>, ModuleAnalyzerView>,
)
    requires
        spec_is_commonjs(classifier, module),
    ensures
        !exports_all(Some(ReferenceKindView::Module(module)), export, classifier),
        forall|i: int|
            0 <= i < spec_generate_export(
                Some(ReferenceKindView::Module(module)),
                export,
                table,
                classifier,
            ).len() ==> !(#[trigger] spec_generate_export(
                Some(ReferenceKindView::Module(module)),
                export,
                table,
                classifier,
            )[i] is ExportAll),
{
}

/// Two records that hold the same are walked in the same order and give the same statements,
/// however each was filled.
pub proof fn lemma_export_deterministic(
    source: Option<ReferenceKindView>,
    first: &ExternalReferenceExport,
    second: &ExternalReferenceExport,
    table: Seq<VarView>,
    classifier: Map<Seq<char>, ModuleAnalyzerView>,
)
    requires
        first.wf(),
        second.wf(),
        first@ == second@,
    ensures
        first.named.spec_keys() == second.named.spec_keys(),
        first.named.spec_values() == second.named.spec_values(),
        spec_generate_export(source, first@, table, classifier) == spec_generate_export(
            source,
            second@,
            table,
            classifier,
        ),
{
    first.named.lemma_same_view_same_order(&second.named);
}

} // verus!
