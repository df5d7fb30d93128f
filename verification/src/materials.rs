use vstd::prelude::*;
use crate::atom::Atom;

verus! {

/// How an atom of a material behaves.
#[derive(Clone, Copy, Debug, PartialEq, Eq, Structural)]
pub enum AtomState {
    Void,
    Object,
    Powder,
    Liquid,
    Solid,
}

/// The integer part of a material: how far a liquid flows sideways in a
/// step, and its state.
#[derive(Clone, Copy, Debug, PartialEq, Eq, Structural)]
pub struct Material {
    pub flow: u8,
    pub default_state: AtomState,
}

impl Material {
    pub open spec fn is_void_spec(&self) -> bool {
        self.default_state == AtomState::Void
    }

    pub open spec fn is_object_spec(&self) -> bool {
        self.default_state == AtomState::Object
    }

    pub open spec fn is_powder_spec(&self) -> bool {
        self.default_state == AtomState::Powder
    }

    pub open spec fn is_liquid_spec(&self) -> bool {
        self.default_state == AtomState::Liquid
    }

    pub open spec fn is_solid_spec(&self) -> bool {
        self.default_state == AtomState::Solid
    }

    pub fn is_void(&self) -> (b: bool)
        ensures
            b == (self.default_state == AtomState::Void),
    {
        self.default_state == AtomState::Void
    }

    pub fn is_object(&self) -> (b: bool)
        ensures
            b == (self.default_state == AtomState::Object),
    {
        self.default_state == AtomState::Object
    }

    pub fn is_powder(&self) -> (b: bool)
        ensures
            b == (self.default_state == AtomState::Powder),
    {
        self.default_state == AtomState::Powder
    }

    pub fn is_liquid(&self) -> (b: bool)
        ensures
            b == (self.default_state == AtomState::Liquid),
    {
        self.default_state == AtomState::Liquid
    }

    pub fn is_solid(&self) -> (b: bool)
        ensures
            b == (self.default_state == AtomState::Solid),
    {
        self.default_state == AtomState::Solid
    }
}

/// The materials, indexed by atom id.
#[derive(Debug)]
pub struct Materials(pub Vec<Material>);

impl Materials {
    /// The material of an atom id.
    pub open spec fn of(&self, id: u8) -> Material {
        self.0@[id as int]
    }

    pub fn get_from_atom(&self, atom: &Atom) -> (m: &Material)
        requires
            (atom.id as int) < self.0.len(),
        ensures
            *m == self.of(atom.id),
    {
        &self.0[atom.id as usize]
    }

    pub fn get_from_id(&self, id: u8) -> (m: &Material)
        requires
            (id as int) < self.0.len(),
        ensures
            *m == self.of(id),
    {
        &self.0[id as usize]
    }
}

} // verus!
