//! The per-object store of composed images, and the decision of which
//! objects a pass recomputes.
use vstd::prelude::*;
use std::collections::{HashMap, HashSet};

use crate::compose::OutlinedTextImage;

verus! {

broadcast use vstd::std_specs::hash::group_hash_axioms;

/// What a pass does with one text object.
#[derive(Clone, Copy, Debug, PartialEq, Eq, Structural)]
pub enum PassAction {
    /// Its stored images still hold.
    Keep,
    /// It needs new images but its font is not loaded yet: try again on the
    /// next pass.
    Defer,
    /// Lay it out and compose it now.
    Recompute,
}

/// Composed images of each text object, keyed by the object's identifier,
/// and the objects whose recomputation is still owed.
pub struct OutlinedTextImages {
    cache: HashMap<u64, Vec<OutlinedTextImage>>,
    pending: HashSet<u64>,
}

impl OutlinedTextImages {
    pub closed spec fn entries(&self) -> Map<u64, Vec<OutlinedTextImage>> {
        self.cache@
    }

    pub closed spec fn pending_set(&self) -> Set<u64> {
        self.pending@
    }

    /// Whether an object has to be recomputed on this pass.
    pub open spec fn needs(
        &self,
        entity: u64,
        content_changed: bool,
        anchor_changed: bool,
        scale_changed: bool,
    ) -> bool {
        content_changed || anchor_changed || scale_changed || self.pending_set().contains(entity)
            || !self.entries().contains_key(entity)
    }

    pub fn new() -> (r: Self)
        ensures
            r.entries() == Map::<u64, Vec<OutlinedTextImage>>::empty(),
            r.pending_set() == Set::<u64>::empty(),
    {
        OutlinedTextImages { cache: HashMap::new(), pending: HashSet::new() }
    }

    pub fn needs_recompute(
        &self,
        entity: u64,
        content_changed: bool,
        anchor_changed: bool,
        scale_changed: bool,
    ) -> (r: bool)
        ensures
            r == self.needs(entity, content_changed, anchor_changed, scale_changed),
    {
        content_changed || anchor_changed || scale_changed || self.pending.contains(&entity)
            || !self.cache.contains_key(&entity)
    }

    /// Decides what a pass does with one object, given its change signals
    /// and whether its font is loaded.
    pub fn plan(
        &self,
        entity: u64,
        content_changed: bool,
        anchor_changed: bool,
        scale_changed: bool,
        font_loaded: bool,
    ) -> (r: PassAction)
        ensures
            r == if !self.needs(entity, content_changed, anchor_changed, scale_changed) {
                PassAction::Keep
            } else if !font_loaded {
                PassAction::Defer
            } else {
                PassAction::Recompute
            },
    {
        if !self.needs_recompute(entity, content_changed, anchor_changed, scale_changed) {
            PassAction::Keep
        } else if !font_loaded {
            PassAction::Defer
        } else {
            PassAction::Recompute
        }
    }

    /// Records that an object still owes a recomputation.
    pub fn defer(&mut self, entity: u64)
        ensures
            final(self).entries() == old(self).entries(),
            final(self).pending_set() == old(self).pending_set().insert(entity),
    {
        self.pending.insert(entity);
    }

    /// Replaces an object's images wholesale; an object with no images has
    /// no entry. Nothing is owed for it afterwards.
    pub fn store(&mut self, entity: u64, images: Vec<OutlinedTextImage>)
        ensures
            images@.len() == 0 ==> final(self).entries() == old(self).entries().remove(entity),
            images@.len() > 0 ==> final(self).entries() == old(self).entries().insert(entity, images),
            final(self).pending_set() == old(self).pending_set().remove(entity),
    {
        if images.len() == 0 {
            self.cache.remove(&entity);
        } else {
            self.cache.insert(entity, images);
        }
        self.pending.remove(&entity);
    }

    /// Forgets a destroyed object.
    pub fn remove(&mut self, entity: u64)
        ensures
            final(self).entries() == old(self).entries().remove(entity),
            final(self).pending_set() == old(self).pending_set().remove(entity),
    {
        self.cache.remove(&entity);
        self.pending.remove(&entity);
    }

    /// The images of an object, for drawing.
    pub fn get(&self, entity: u64) -> (r: Option<&Vec<OutlinedTextImage>>)
        ensures
            match r {
                Some(v) => self.entries().contains_key(entity) && *v == self.entries()[entity],
                None => !self.entries().contains_key(entity),
            },
    {
        self.cache.get(&entity)
    }
}

} // verus!
