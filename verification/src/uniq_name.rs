//! The table of the symbols of a bundle.

use vstd::prelude::*;
use crate::module::ModuleId;

verus! {

/// One symbol of the merged scope.
#[derive(Debug, Clone, PartialEq, Eq)]
pub struct Var {
    /// The name as the source declares it.
    pub name: String,
    /// The final name, free of collisions over the whole bundle.
    pub render_name: String,
    /// Dead-code elimination dropped the symbol.
    pub removed: bool,
    /// The module that declares the symbol, or none for a synthetic symbol.
    pub module_id: Option<ModuleId>,
}

/// The mathematical value of a [`Var`].
pub struct VarView {
    pub name: Seq<char>,
    pub render_name: Seq<char>,
    pub removed: bool,
    pub module_id: Option<Seq<char>>,
}

impl View for Var {
    type V = VarView;

    open spec fn view(&self) -> VarView {
        VarView {
            name: self.name@,
            render_name: self.render_name@,
            removed: self.removed,
            module_id: match self.module_id {
                Some(m) => Some(m@),
                None => None,
            },
        }
    }
}

/// The symbols of a bundle, each addressed by its index.
pub struct BundleVariable {
    variables: Vec<Var>,
}

impl View for BundleVariable {
    type V = Seq<VarView>;

    closed spec fn view(&self) -> Seq<VarView> {
        Seq::new(self.variables@.len(), |i: int| self.variables@[i]@)
    }
}

impl BundleVariable {
    /// A table without symbols.
    pub fn new() -> (r: Self)
        ensures
            r@ == Seq::<VarView>::empty(),
    {
        let r = BundleVariable { variables: Vec::new() };
        assert(r@ =~= Seq::<VarView>::empty());
        r
    }

    /// Adds a symbol and returns its index.
    pub fn register_var(&mut self, var: Var) -> (index: usize)
        ensures
            index == old(self)@.len(),
            final(self)@ == old(self)@.push(var@),
    {
        let index = self.variables.len();
        let ghost before = self@;
        self.variables.push(var);
        assert(self@ =~= before.push(var@));
        index
    }

    /// The number of symbols.
    pub fn len(&self) -> (r: usize)
        ensures
            r == self@.len(),
    {
        self.variables.len()
    }

    /// The symbol at `index`.
    pub fn var_by_index(&self, index: usize) -> (r: &Var)
        requires
            index < self@.len(),
        ensures
            r@ == self@[index as int],
    {
        &self.variables[index]
    }

    /// The declared name of the symbol at `index`.
    pub fn name(&self, index: usize) -> (r: String)
        requires
            index < self@.len(),
        ensures
            r@ == self@[index as int].name,
    {
        self.variables[index].name.clone()
    }

    /// The final name of the symbol at `index`.
    pub fn render_name(&self, index: usize) -> (r: String)
        requires
            index < self@.len(),
        ensures
            r@ == self@[index as int].render_name,
    {
        self.variables[index].render_name.clone()
    }

    /// The module that declares the symbol at `index`, if one does.
    pub fn module_id_by_var_index(&self, index: usize) -> (r: Option<&ModuleId>)
        requires
            index < self@.len(),
        ensures
            match r {
                Some(m) => self@[index as int].module_id == Some(m@),
                None => self@[index as int].module_id is None,
            },
    {
        self.variables[index].module_id.as_ref()
    }
}

} // verus!
