//! What a chunk must import from each reference source, and what it must export.

use vstd::prelude::*;
use crate::module::{ModuleAnalyzerManager, ModuleAnalyzerView, ModuleId};
use crate::name_order::{
    lemma_name_lt_connected, lemma_name_lt_irreflexive, lemma_name_lt_transitive, name_lt, str_lt,
};
use crate::string_map::StringMap;
use crate::uniq_name::{BundleVariable, VarView};

verus! {

/// Where a symbol is imported from or exported to.
#[derive(Debug, Clone, PartialEq, Eq)]
pub enum ReferenceKind {
    /// Another output chunk, by its identifier.
    Bundle(String),
    /// A source module that has no chunk of its own.
    Module(ModuleId),
}

/// The mathematical value of a [`ReferenceKind`]. In the order of reference sources every
/// `Bundle` comes before every `Module`, and two of one kind are ordered by their identifiers.
pub enum ReferenceKindView {
    Bundle(Seq<char>),
    Module(Seq<char>),
}

impl View for ReferenceKind {
    type V = ReferenceKindView;

    open spec fn view(&self) -> ReferenceKindView {
        match *self {
            ReferenceKind::Bundle(id) => ReferenceKindView::Bundle(id@),
            ReferenceKind::Module(id) => ReferenceKindView::Module(id@),
        }
    }
}

/// The text that a statement names for a reference source: its identifier.
pub open spec fn spec_reference_text(kind: ReferenceKindView) -> Seq<char> {
    match kind {
        ReferenceKindView::Bundle(id) => id,
        ReferenceKindView::Module(id) => id,
    }
}

/// The order of reference sources: `a` comes strictly before `b`.
pub open spec fn spec_reference_lt(a: ReferenceKindView, b: ReferenceKindView) -> bool {
    match (a, b) {
        (ReferenceKindView::Bundle(x), ReferenceKindView::Bundle(y)) => name_lt(x, y),
        (ReferenceKindView::Bundle(_), ReferenceKindView::Module(_)) => true,
        (ReferenceKindView::Module(_), ReferenceKindView::Bundle(_)) => false,
        (ReferenceKindView::Module(x), ReferenceKindView::Module(y)) => name_lt(x, y),
    }
}

/// The order of reference sources is a strict total order.
pub proof fn lemma_reference_order(a: ReferenceKindView, b: ReferenceKindView, c: ReferenceKindView)
    ensures
        !spec_reference_lt(a, a),
        spec_reference_lt(a, b) && spec_reference_lt(b, c) ==> spec_reference_lt(a, c),
        a == b || spec_reference_lt(a, b) || spec_reference_lt(b, a),
{
    lemma_name_lt_irreflexive(spec_reference_text(a));
    lemma_name_lt_connected(spec_reference_text(a), spec_reference_text(b));
    if name_lt(spec_reference_text(a), spec_reference_text(b)) && name_lt(
        spec_reference_text(b),
        spec_reference_text(c),
    ) {
        lemma_name_lt_transitive(
            spec_reference_text(a),
            spec_reference_text(b),
            spec_reference_text(c),
        );
    }
}

impl ReferenceKind {
    /// Whether this reference source comes strictly before `other`.
    pub fn comes_before(&self, other: &ReferenceKind) -> (r: bool)
        ensures
            r == spec_reference_lt(self@, other@),
    {
        match (self, other) {
            (ReferenceKind::Bundle(x), ReferenceKind::Bundle(y)) => str_lt(x.as_str(), y.as_str()),
            (ReferenceKind::Bundle(_), ReferenceKind::Module(_)) => true,
            (ReferenceKind::Module(_), ReferenceKind::Bundle(_)) => false,
            (ReferenceKind::Module(x), ReferenceKind::Module(y)) => str_lt(x.as_str(), y.as_str()),
        }
    }

    /// The text that a statement names for this reference source.
    pub fn to_string(&self) -> (r: String)
        ensures
            r@ == spec_reference_text(self@),
    {
        match self {
            ReferenceKind::Bundle(id) => id.clone(),
            ReferenceKind::Module(id) => id.to_string(),
        }
    }
}

/// What one chunk exports.
pub struct ExternalReferenceExport {
    /// Exported name to the symbol that it exposes.
    pub named: StringMap<usize>,
    /// The symbol bound to the namespace object that collects all exports.
    pub namespace: Option<usize>,
    /// The symbol of the default export.
    pub default: Option<usize>,
    /// Every binding of the source that the record is tied to is exported again.
    pub all: bool,
}

/// The mathematical value of an [`ExternalReferenceExport`].
pub struct ExportView {
    pub named: Map<Seq<char>, usize>,
    pub namespace: Option<usize>,
    pub default: Option<usize>,
    pub all: bool,
}

impl ExportView {
    /// Every symbol that the record refers to is an index of `table`.
    pub open spec fn resolves_in(self, table: Seq<VarView>) -> bool {
        &&& forall|name: Seq<char>|
            self.named.dom().contains(name) ==> (#[trigger] self.named[name]) < table.len()
        &&& self.namespace matches Some(s) ==> s < table.len()
        &&& self.default matches Some(s) ==> s < table.len()
    }
}

impl View for ExternalReferenceExport {
    type V = ExportView;

    open spec fn view(&self) -> ExportView {
        ExportView {
            named: self.named@,
            namespace: self.namespace,
            default: self.default,
            all: self.all,
        }
    }
}

/// Whether every value of `symbols` is an index of a table of `len` symbols.
fn symbols_resolve(symbols: &StringMap<usize>, len: usize) -> (r: bool)
    requires
        symbols.wf(),
    ensures
        r == (forall|name: Seq<char>|
            symbols@.dom().contains(name) ==> (#[trigger] symbols@[name]) < len),
{
    let n = symbols.len();
    let mut i: usize = 0;
    proof {
        symbols.lemma_canonical();
    }
    while i < n
        invariant
            symbols.wf(),
            n == symbols.spec_keys().len(),
            i <= n,
            forall|j: int| 0 <= j < i ==> (#[trigger] symbols.spec_values()[j]) < len,
            forall|j: int|
                0 <= j < symbols.spec_keys().len() ==> symbols@[#[trigger] symbols.spec_keys()[j]]
                    == symbols.spec_values()[j],
        decreases n - i,
    {
        if *symbols.value_at(i) >= len {
            proof {
                let name = symbols.spec_keys()[i as int];
                assert(symbols.spec_keys().contains(name));
                assert(symbols@.dom().contains(name));
                assert(symbols@[name] == symbols.spec_values()[i as int]);
            }
            return false;
        }
        i = i + 1;
    }
    proof {
        assert forall|name: Seq<char>| symbols@.dom().contains(name) implies (
        #[trigger] symbols@[name]) < len by {
            let j = choose|j: int|
                0 <= j < symbols.spec_keys().len() && symbols.spec_keys()[j] == name;
            assert(symbols@[symbols.spec_keys()[j]] == symbols.spec_values()[j]);
        }
    }
    true
}

/// Whether `symbol`, where there is one, is an index of a table of `len` symbols.
fn symbol_resolves(symbol: &Option<usize>, len: usize) -> (r: bool)
    ensures
        r == (*symbol matches Some(s) ==> s < len),
{
    match symbol {
        Some(s) => *s < len,
        None => true,
    }
}

impl ExternalReferenceExport {
    /// A record that exports nothing.
    pub fn new() -> (r: Self)
        ensures
            r.wf(),
            r@.named == Map::<Seq<char>, usize>::empty(),
            r@.namespace is None,
            r@.default is None,
            !r@.all,
    {
        ExternalReferenceExport { named: StringMap::new(), namespace: None, default: None, all: false }
    }

    /// The invariant of the type.
    pub open spec fn wf(&self) -> bool {
        self.named.wf()
    }

    /// The record is well formed and every symbol that it refers to is in `table`.
    pub open spec fn valid(&self, table: Seq<VarView>) -> bool {
        self.wf() && self@.resolves_in(table)
    }

    /// Whether every symbol that the record refers to is in `table`.
    pub fn is_valid(&self, table: &BundleVariable) -> (r: bool)
        requires
            self.wf(),
        ensures
            r == self.valid(table@),
    {
        let len = table.len();
        let named = symbols_resolve(&self.named, len);
        let namespace = symbol_resolves(&self.namespace, len);
        let default = symbol_resolves(&self.default, len);
        proof {
            let view = self@;
            assert(view.named == self.named@);
            if named {
                assert forall|name: Seq<char>| view.named.dom().contains(name) implies (
                #[trigger] view.named[name]) < table@.len() by {
                    assert(self.named@[name] < len);
                }
            } else {
                let name = choose|name: Seq<char>|
                    self.named@.dom().contains(name) && !((#[trigger] self.named@[name]) < len);
                assert(view.named.dom().contains(name) && !(view.named[name] < table@.len()));
            }
        }
        named && namespace && default
    }
}

/// What one chunk imports from one reference source.
pub struct ExternalReferenceImport {
    /// Imported name, as the source exposes it, to the local symbol that receives it.
    pub named: StringMap<usize>,
    /// The symbol bound to the imported namespace object.
    pub namespace: Option<usize>,
    /// The symbol bound to the imported default value.
    pub default: Option<usize>,
}

/// The mathematical value of an [`ExternalReferenceImport`].
pub struct ImportView {
    pub named: Map<Seq<char>, usize>,
    pub namespace: Option<usize>,
    pub default: Option<usize>,
}

impl ImportView {
    /// The record imports nothing: no name, no namespace, no default.
    pub open spec fn is_empty(self) -> bool {
        self.named.dom() =~= Set::<Seq<char>>::empty() && self.namespace is None
            && self.default is None
    }

    /// Every symbol that the record refers to is an index of `table`.
    pub open spec fn resolves_in(self, table: Seq<VarView>) -> bool {
        &&& forall|name: Seq<char>|
            self.named.dom().contains(name) ==> (#[trigger] self.named[name]) < table.len()
        &&& self.namespace matches Some(s) ==> s < table.len()
        &&& self.default matches Some(s) ==> s < table.len()
    }
}

impl View for ExternalReferenceImport {
    type V = ImportView;

    open spec fn view(&self) -> ImportView {
        ImportView { named: self.named@, namespace: self.namespace, default: self.default }
    }
}

impl ExternalReferenceImport {
    /// A record that imports nothing.
    pub fn new() -> (r: Self)
        ensures
            r.wf(),
            r@.is_empty(),
    {
        ExternalReferenceImport { named: StringMap::new(), namespace: None, default: None }
    }

    /// The invariant of the type.
    pub open spec fn wf(&self) -> bool {
        self.named.wf()
    }

    /// The record is well formed and every symbol that it refers to is in `table`.
    pub open spec fn valid(&self, table: Seq<VarView>) -> bool {
        self.wf() && self@.resolves_in(table)
    }

    /// Whether the record imports nothing.
    pub fn is_empty(&self) -> (r: bool)
        requires
            self.wf(),
        ensures
            r == self@.is_empty(),
    {
        self.named.is_empty() && self.namespace.is_none() && self.default.is_none()
    }

    /// Whether every symbol that the record refers to is in `table`.
    pub fn is_valid(&self, table: &BundleVariable) -> (r: bool)
        requires
            self.wf(),
        ensures
            r == self.valid(table@),
    {
        let len = table.len();
        let named = symbols_resolve(&self.named, len);
        let namespace = symbol_resolves(&self.namespace, len);
        let default = symbol_resolves(&self.default, len);
        proof {
            let view = self@;
            assert(view.named == self.named@);
            if named {
                assert forall|name: Seq<char>| view.named.dom().contains(name) implies (
                #[trigger] view.named[name]) < table@.len() by {
                    assert(self.named@[name] < len);
                }
            } else {
                let name = choose|name: Seq<char>|
                    self.named@.dom().contains(name) && !((#[trigger] self.named@[name]) < len);
                assert(view.named.dom().contains(name) && !(view.named[name] < table@.len()));
            }
        }
        named && namespace && default
    }
}

/// What one chunk imports, by reference source. The sources are walked in their order: the
/// chunks by identifier, then the modules by identifier.
pub struct ImportMap {
    /// The records of the `Bundle` sources, by chunk identifier.
    pub bundles: StringMap<ExternalReferenceImport>,
    /// The records of the `Module` sources, by module identifier.
    pub modules: StringMap<ExternalReferenceImport>,
}

impl View for ImportMap {
    type V = Map<ReferenceKindView, ImportView>;

    open spec fn view(&self) -> Map<ReferenceKindView, ImportView> {
        Map::new(
            |k: ReferenceKindView|
                match k {
                    ReferenceKindView::Bundle(id) => self.bundles@.dom().contains(id),
                    ReferenceKindView::Module(id) => self.modules@.dom().contains(id),
                },
            |k: ReferenceKindView|
                match k {
                    ReferenceKindView::Bundle(id) => self.bundles@[id]@,
                    ReferenceKindView::Module(id) => self.modules@[id]@,
                },
        )
    }
}

/// The identifiers of the `Module` sources of an import map.
pub open spec fn spec_module_sources(import_map: Map<ReferenceKindView, ImportView>) -> Set<
    Seq<char>,
> {
    Set::new(|id: Seq<char>| import_map.dom().contains(ReferenceKindView::Module(id)))
}

/// Every record of the map resolves in `table`, and every `Module` source is classified.
pub open spec fn spec_import_map_resolves(
    import_map: Map<ReferenceKindView, ImportView>,
    table: Seq<VarView>,
    classifier: Map<Seq<char>, ModuleAnalyzerView>,
) -> bool {
    &&& forall|k: ReferenceKindView|
        import_map.dom().contains(k) ==> (#[trigger] import_map[k]).resolves_in(table)
    &&& forall|id: Seq<char>|
        (#[trigger] import_map.dom().contains(ReferenceKindView::Module(id)))
            ==> classifier.dom().contains(id)
}

/// Whether every record of `records` is well formed and resolves in `table`.
fn records_resolve(records: &StringMap<ExternalReferenceImport>, table: &BundleVariable) -> (r:
    bool)
    requires
        records.wf(),
        forall|i: int| 0 <= i < records.spec_values().len() ==> (#[trigger] records.spec_values()[i]).wf(),
    ensures
        r == (forall|i: int|
            0 <= i < records.spec_values().len() ==> (#[trigger] records.spec_values()[i])@.resolves_in(
                table@,
            )),
{
    let n = records.len();
    let mut i: usize = 0;
    while i < n
        invariant
            records.wf(),
            n == records.spec_keys().len(),
            i <= n,
            forall|j: int|
                0 <= j < records.spec_values().len() ==> (#[trigger] records.spec_values()[j]).wf(),
            forall|j: int|
                0 <= j < i ==> (#[trigger] records.spec_values()[j])@.resolves_in(table@),
        decreases n - i,
    {
        if !records.value_at(i).is_valid(table) {
            return false;
        }
        i = i + 1;
    }
    true
}

impl ImportMap {
    /// The invariant of the type: both maps and every record in them are well formed.
    pub open spec fn wf(&self) -> bool {
        &&& self.bundles.wf()
        &&& self.modules.wf()
        &&& forall|i: int|
            0 <= i < self.bundles.spec_values().len() ==> (#[trigger] self.bundles.spec_values()[i]).wf()
        &&& forall|i: int|
            0 <= i < self.modules.spec_values().len() ==> (#[trigger] self.modules.spec_values()[i]).wf()
    }

    /// The map is well formed, every record resolves in `table`, and `classifier` knows every
    /// `Module` source.
    pub open spec fn valid(
        &self,
        table: Seq<VarView>,
        classifier: Map<Seq<char>, ModuleAnalyzerView>,
    ) -> bool {
        self.wf() && spec_import_map_resolves(self@, table, classifier)
    }

    /// The sources in the order in which the map is walked.
    pub open spec fn spec_sources(&self) -> Seq<ReferenceKindView> {
        Seq::new(
            self.bundles.spec_keys().len() + self.modules.spec_keys().len(),
            |i: int|
                if i < self.bundles.spec_keys().len() {
                    ReferenceKindView::Bundle(self.bundles.spec_keys()[i])
                } else {
                    ReferenceKindView::Module(
                        self.modules.spec_keys()[i - self.bundles.spec_keys().len()],
                    )
                },
        )
    }

    /// The map is walked in the order of its sources, and it is walked over all of them.
    pub proof fn lemma_walked_in_order(&self)
        requires
            self.wf(),
        ensures
            forall|i: int, j: int|
                0 <= i < j < self.spec_sources().len() ==> spec_reference_lt(
                    #[trigger] self.spec_sources()[i],
                    #[trigger] self.spec_sources()[j],
                ),
            forall|k: ReferenceKindView| self@.dom().contains(k) <==> self.spec_sources().contains(k),
    {
        let sources = self.spec_sources();
        let bundles = self.bundles.spec_keys();
        let modules = self.modules.spec_keys();
        assert forall|i: int, j: int| 0 <= i < j < sources.len() implies spec_reference_lt(
            #[trigger] sources[i],
            #[trigger] sources[j],
        ) by {
            if j < bundles.len() {
                assert(name_lt(bundles[i], bundles[j]));
            } else if i >= bundles.len() {
                assert(name_lt(modules[i - bundles.len()], modules[j - bundles.len()]));
            }
        }
        assert forall|k: ReferenceKindView| self@.dom().contains(k) <==> sources.contains(k) by {
            match k {
                ReferenceKindView::Bundle(id) => {
                    if bundles.contains(id) {
                        let i = choose|i: int| 0 <= i < bundles.len() && bundles[i] == id;
                        assert(sources[i] == k);
                    }
                    if sources.contains(k) {
                        let i = choose|i: int| 0 <= i < sources.len() && sources[i] == k;
                        assert(bundles[i] == id);
                    }
                },
                ReferenceKindView::Module(id) => {
                    if modules.contains(id) {
                        let i = choose|i: int| 0 <= i < modules.len() && modules[i] == id;
                        assert(sources[i + bundles.len()] == k);
                    }
                    if sources.contains(k) {
                        let i = choose|i: int| 0 <= i < sources.len() && sources[i] == k;
                        assert(modules[i - bundles.len()] == id);
                    }
                },
            }
        }
    }

    /// A map without sources.
    pub fn new() -> (r: Self)
        ensures
            r.wf(),
            r@ == Map::<ReferenceKindView, ImportView>::empty(),
    {
        let r = ImportMap { bundles: StringMap::new(), modules: StringMap::new() };
        assert(r@ =~= Map::<ReferenceKindView, ImportView>::empty());
        r
    }

    /// Binds `source` to `import`, in place of an earlier record if there was one.
    pub fn insert(&mut self, source: ReferenceKind, import: ExternalReferenceImport)
        requires
            old(self).wf(),
            import.wf(),
        ensures
            final(self).wf(),
            final(self)@ == old(self)@.insert(source@, import@),
    {
        let ghost before = self@;
        let ghost old_bundles = self.bundles;
        let ghost old_modules = self.modules;
        match source {
            ReferenceKind::Bundle(id) => {
                self.bundles.insert(id, import);
                proof {
                    Self::lemma_records_wf(&old_bundles, &self.bundles, id@, import);
                }
            },
            ReferenceKind::Module(id) => {
                self.modules.insert(id.to_string(), import);
                proof {
                    Self::lemma_records_wf(&old_modules, &self.modules, id@, import);
                }
            },
        }
        assert(self@ =~= before.insert(source@, import@));
    }

    /// After one record was bound, every record is well formed if every one was before.
    proof fn lemma_records_wf(
        before: &StringMap<ExternalReferenceImport>,
        after: &StringMap<ExternalReferenceImport>,
        key: Seq<char>,
        import: ExternalReferenceImport,
    )
        requires
            before.wf(),
            after.wf(),
            import.wf(),
            after@ == before@.insert(key, import),
            forall|i: int|
                0 <= i < before.spec_values().len() ==> (#[trigger] before.spec_values()[i]).wf(),
        ensures
            forall|i: int|
                0 <= i < after.spec_values().len() ==> (#[trigger] after.spec_values()[i]).wf(),
    {
        before.lemma_canonical();
        after.lemma_canonical();
        assert forall|i: int| 0 <= i < after.spec_values().len() implies (
        #[trigger] after.spec_values()[i]).wf() by {
            let k = after.spec_keys()[i];
            assert(after@[k] == after.spec_values()[i]);
            assert(after.spec_keys().contains(k));
            if k != key {
                assert(before@.dom().contains(k));
                let j = before.spec_index_of(k);
                assert(before.spec_keys()[j] == k);
                assert(before@[before.spec_keys()[j]] == before.spec_values()[j]);
            }
        }
    }

    /// Whether every record resolves in `table` and `classifier` knows every `Module` source.
    pub fn is_valid(&self, table: &BundleVariable, classifier: &ModuleAnalyzerManager) -> (r: bool)
        requires
            self.wf(),
            classifier.wf(),
        ensures
            r == self.valid(table@, classifier@),
    {
        proof {
            self.bundles.lemma_canonical();
            self.modules.lemma_canonical();
        }
        if !records_resolve(&self.bundles, table) {
            proof {
                let i = choose|i: int|
                    0 <= i < self.bundles.spec_values().len() && !(
                    #[trigger] self.bundles.spec_values()[i])@.resolves_in(table@);
                let k = self.bundles.spec_keys()[i];
                assert(self.bundles.spec_keys().contains(k));
                assert(self@.dom().contains(ReferenceKindView::Bundle(k)));
                assert(self@[ReferenceKindView::Bundle(k)] == self.bundles.spec_values()[i]@);
            }
            return false;
        }
        if !records_resolve(&self.modules, table) {
            proof {
                let i = choose|i: int|
                    0 <= i < self.modules.spec_values().len() && !(
                    #[trigger] self.modules.spec_values()[i])@.resolves_in(table@);
                let k = self.modules.spec_keys()[i];
                assert(self.modules.spec_keys().contains(k));
                assert(self@.dom().contains(ReferenceKindView::Module(k)));
                assert(self@[ReferenceKindView::Module(k)] == self.modules.spec_values()[i]@);
            }
            return false;
        }
        proof {
            assert forall|k: ReferenceKindView| self@.dom().contains(k) implies (
            #[trigger] self@[k]).resolves_in(table@) by {
                match k {
                    ReferenceKindView::Bundle(id) => {
                        let i = self.bundles.spec_index_of(id);
                        assert(self.bundles.spec_keys()[i] == id);
                        assert(self.bundles@[self.bundles.spec_keys()[i]]
                            == self.bundles.spec_values()[i]);
                    },
                    ReferenceKindView::Module(id) => {
                        let i = self.modules.spec_index_of(id);
                        assert(self.modules.spec_keys()[i] == id);
                        assert(self.modules@[self.modules.spec_keys()[i]]
                            == self.modules.spec_values()[i]);
                    },
                }
            }
        }
        let n = self.modules.len();
        let mut i: usize = 0;
        while i < n
            invariant
                self.wf(),
                classifier.wf(),
                n == self.modules.spec_keys().len(),
                i <= n,
                forall|j: int|
                    0 <= j < i ==> classifier@.dom().contains(#[trigger] self.modules.spec_keys()[j]),
            decreases n - i,
        {
            let id = ModuleId::new(self.modules.key_at(i).as_str());
            if !classifier.contains(&id) {
                proof {
                    let k = self.modules.spec_keys()[i as int];
                    assert(self.modules.spec_keys().contains(k));
                    assert(self@.dom().contains(ReferenceKindView::Module(k)));
                }
                return false;
            }
            i = i + 1;
        }
        proof {
            assert forall|id: Seq<char>|
                (#[trigger] self@.dom().contains(
                    ReferenceKindView::Module(id),
                )) implies classifier@.dom().contains(id) by {
                let j = self.modules.spec_index_of(id);
                assert(self.modules.spec_keys()[j] == id);
            }
        }
        true
    }
}

} // verus!
