//! Module identifiers and what is known of each module when statements are synthesized.

use vstd::prelude::*;
use crate::string_map::StringMap;

verus! {

/// The identifier of a source module: its specifier.
#[derive(Debug, Clone, PartialEq, Eq)]
pub struct ModuleId {
    id: String,
}

impl View for ModuleId {
    type V = Seq<char>;

    closed spec fn view(&self) -> Seq<char> {
        self.id@
    }
}

impl ModuleId {
    /// The identifier of the module with the specifier `id`.
    pub fn new(id: &str) -> (r: Self)
        ensures
            r@ == id@,
    {
        ModuleId { id: id.to_owned() }
    }

    /// The specifier.
    pub fn as_str(&self) -> (r: &str)
        ensures
            r@ == self@,
    {
        self.id.as_str()
    }

    /// The specifier, as the text that an import or export statement names.
    pub fn to_string(&self) -> (r: String)
        ensures
            r@ == self@,
    {
        self.id.clone()
    }
}

/// What the classification of one module says.
#[derive(Debug, Clone, PartialEq, Eq)]
pub struct ModuleAnalyzer {
    /// The module is the entry module of its chunk.
    pub entry: bool,
    /// The module resolves outside the bundle.
    pub external: bool,
    /// The module's source format is CommonJS.
    pub commonjs: bool,
    /// The chunk that the module belongs to. Not read for an external module.
    pub resource_pot_id: String,
}

/// The mathematical value of a [`ModuleAnalyzer`].
pub struct ModuleAnalyzerView {
    pub entry: bool,
    pub external: bool,
    pub commonjs: bool,
    pub resource_pot_id: Seq<char>,
}

impl View for ModuleAnalyzer {
    type V = ModuleAnalyzerView;

    open spec fn view(&self) -> ModuleAnalyzerView {
        ModuleAnalyzerView {
            entry: self.entry,
            external: self.external,
            commonjs: self.commonjs,
            resource_pot_id: self.resource_pot_id@,
        }
    }
}

/// Whether `classifier` reports `module` as the entry module of its chunk. A module that is not
/// classified is not reported as anything.
pub open spec fn spec_is_entry(
    classifier: Map<Seq<char>, ModuleAnalyzerView>,
    module: Seq<char>,
) -> bool {
    classifier.dom().contains(module) && classifier[module].entry
}

/// Whether `classifier` reports `module` as resolving outside the bundle.
pub open spec fn spec_is_external(
    classifier: Map<Seq<char>, ModuleAnalyzerView>,
    module: Seq<char>,
) -> bool {
    classifier.dom().contains(module) && classifier[module].external
}

/// Whether `classifier` reports `module` as a CommonJS module.
pub open spec fn spec_is_commonjs(
    classifier: Map<Seq<char>, ModuleAnalyzerView>,
    module: Seq<char>,
) -> bool {
    classifier.dom().contains(module) && classifier[module].commonjs
}

/// The classification of the modules of a build, by module identifier.
pub struct ModuleAnalyzerManager {
    module_map: StringMap<ModuleAnalyzer>,
}

impl View for ModuleAnalyzerManager {
    type V = Map<Seq<char>, ModuleAnalyzerView>;

    closed spec fn view(&self) -> Map<Seq<char>, ModuleAnalyzerView> {
        Map::new(
            |m: Seq<char>| self.module_map@.dom().contains(m),
            |m: Seq<char>| self.module_map@[m]@,
        )
    }
}

impl ModuleAnalyzerManager {
    /// The invariant of the type.
    pub closed spec fn wf(&self) -> bool {
        self.module_map.wf()
    }

    /// A classification that knows no module.
    pub fn new() -> (r: Self)
        ensures
            r.wf(),
            r@ == Map::<Seq<char>, ModuleAnalyzerView>::empty(),
    {
        let r = ModuleAnalyzerManager { module_map: StringMap::new() };
        assert(r@ =~= Map::<Seq<char>, ModuleAnalyzerView>::empty());
        r
    }

    /// Records the classification of `module_id`, in place of an earlier one if there was one.
    pub fn insert(&mut self, module_id: ModuleId, analyzer: ModuleAnalyzer)
        requires
            old(self).wf(),
        ensures
            final(self).wf(),
            final(self)@ == old(self)@.insert(module_id@, analyzer@),
    {
        let ghost before = self@;
        self.module_map.insert(module_id.to_string(), analyzer);
        assert(self@ =~= before.insert(module_id@, analyzer@));
    }

    /// The classification of `module_id`, if it has one.
    pub fn module_analyzer(&self, module_id: &ModuleId) -> (r: Option<&ModuleAnalyzer>)
        requires
            self.wf(),
        ensures
            match r {
                Some(a) => self@.dom().contains(module_id@) && a@ == self@[module_id@],
                None => !self@.dom().contains(module_id@),
            },
    {
        self.module_map.get(module_id.as_str())
    }

    /// Whether `module_id` is classified.
    pub fn contains(&self, module_id: &ModuleId) -> (r: bool)
        requires
            self.wf(),
        ensures
            r == self@.dom().contains(module_id@),
    {
        self.module_map.contains_key(module_id.as_str())
    }

    /// Whether `module_id` is reported as the entry module of its chunk.
    pub fn is_entry(&self, module_id: &ModuleId) -> (r: bool)
        requires
            self.wf(),
        ensures
            r == spec_is_entry(self@, module_id@),
    {
        match self.module_analyzer(module_id) {
            Some(a) => a.entry,
            None => false,
        }
    }

    /// Whether `module_id` is reported as resolving outside the bundle.
    pub fn is_external(&self, module_id: &ModuleId) -> (r: bool)
        requires
            self.wf(),
        ensures
            r == spec_is_external(self@, module_id@),
    {
        match self.module_analyzer(module_id) {
            Some(a) => a.external,
            None => false,
        }
    }

    /// Whether `module_id` is reported as a CommonJS module.
    pub fn is_commonjs(&self, module_id: &ModuleId) -> (r: bool)
        requires
            self.wf(),
        ensures
            r == spec_is_commonjs(self@, module_id@),
    {
        match self.module_analyzer(module_id) {
            Some(a) => a.commonjs,
            None => false,
        }
    }
}

} // verus!
