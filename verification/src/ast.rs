//! The import and export statements that synthesis produces.

use vstd::prelude::*;

verus! {

/// The mathematical value of an optional name.
pub open spec fn option_name_view(name: Option<String>) -> Option<Seq<char>> {
    match name {
        Some(n) => Some(n@),
        None => None,
    }
}

/// One binding inside the braces of an export statement.
#[derive(Debug, Clone, PartialEq, Eq)]
pub enum ExportSpecifier {
    /// `orig`, or `orig as exported`.
    Named { orig: String, exported: Option<String> },
    /// `* as name`.
    Namespace { name: String },
}

/// The mathematical value of an [`ExportSpecifier`].
pub enum ExportSpecifierView {
    Named { orig: Seq<char>, exported: Option<Seq<char>> },
    Namespace { name: Seq<char> },
}

impl View for ExportSpecifier {
    type V = ExportSpecifierView;

    open spec fn view(&self) -> ExportSpecifierView {
        match *self {
            ExportSpecifier::Named { orig, exported } => ExportSpecifierView::Named {
                orig: orig@,
                exported: option_name_view(exported),
            },
            ExportSpecifier::Namespace { name } => ExportSpecifierView::Namespace { name: name@ },
        }
    }
}

/// One binding of an import statement.
#[derive(Debug, Clone, PartialEq, Eq)]
pub enum ImportSpecifier {
    /// `local`, or `imported as local`.
    Named { local: String, imported: Option<String> },
    /// `* as local`.
    Namespace { local: String },
    /// The default binding `local`.
    Default { local: String },
}

/// The mathematical value of an [`ImportSpecifier`].
pub enum ImportSpecifierView {
    Named { local: Seq<char>, imported: Option<Seq<char>> },
    Namespace { local: Seq<char> },
    Default { local: Seq<char> },
}

impl View for ImportSpecifier {
    type V = ImportSpecifierView;

    open spec fn view(&self) -> ImportSpecifierView {
        match *self {
            ImportSpecifier::Named { local, imported } => ImportSpecifierView::Named {
                local: local@,
                imported: option_name_view(imported),
            },
            ImportSpecifier::Namespace { local } => ImportSpecifierView::Namespace { local: local@ },
            ImportSpecifier::Default { local } => ImportSpecifierView::Default { local: local@ },
        }
    }
}

/// The mathematical value of a list of export specifiers.
pub open spec fn export_specifiers_view(specifiers: Seq<ExportSpecifier>) -> Seq<
    ExportSpecifierView,
> {
    Seq::new(specifiers.len(), |i: int| specifiers[i]@)
}

/// The mathematical value of a list of import specifiers.
pub open spec fn import_specifiers_view(specifiers: Seq<ImportSpecifier>) -> Seq<
    ImportSpecifierView,
> {
    Seq::new(specifiers.len(), |i: int| specifiers[i]@)
}

/// One synthesized statement.
#[derive(Debug, Clone, PartialEq, Eq)]
#[allow(inconsistent_fields)]
pub enum ModuleItem {
    /// `import <specifiers> from "src"`.
    Import { specifiers: Vec<ImportSpecifier>, src: String },
    /// `export { <specifiers> }`, with `from "src"` where `src` is present.
    ExportNamed { specifiers: Vec<ExportSpecifier>, src: Option<String> },
    /// `export * from "src"`.
    ExportAll { src: String },
    /// `export default expr`, where `expr` is an identifier.
    ExportDefaultExpr { expr: String },
}

/// The mathematical value of a [`ModuleItem`].
#[allow(inconsistent_fields)]
pub enum ModuleItemView {
    Import { specifiers: Seq<ImportSpecifierView>, src: Seq<char> },
    ExportNamed { specifiers: Seq<ExportSpecifierView>, src: Option<Seq<char>> },
    ExportAll { src: Seq<char> },
    ExportDefaultExpr { expr: Seq<char> },
}

impl View for ModuleItem {
    type V = ModuleItemView;

    open spec fn view(&self) -> ModuleItemView {
        match *self {
            ModuleItem::Import { specifiers, src } => ModuleItemView::Import {
                specifiers: import_specifiers_view(specifiers@),
                src: src@,
            },
            ModuleItem::ExportNamed { specifiers, src } => ModuleItemView::ExportNamed {
                specifiers: export_specifiers_view(specifiers@),
                src: option_name_view(src),
            },
            ModuleItem::ExportAll { src } => ModuleItemView::ExportAll { src: src@ },
            ModuleItem::ExportDefaultExpr { expr } => ModuleItemView::ExportDefaultExpr {
                expr: expr@,
            },
        }
    }
}

/// The mathematical value of a list of statements.
pub open spec fn module_items_view(items: Seq<ModuleItem>) -> Seq<ModuleItemView> {
    Seq::new(items.len(), |i: int| items[i]@)
}

} // verus!
