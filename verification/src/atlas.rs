//! The texture atlas: where on the shared texture the picture of each block
//! type lies.

use crate::identifier::{
    identifier_precedes, lemma_identifier_asymmetric, lemma_identifier_transitive, Identifier,
    Rank,
};
use vstd::prelude::*;

verus! {

/// A rectangle on the atlas, in pixels, with the size of the whole atlas.
/// The texture coordinates of a corner are its pixels divided by that size.
#[derive(Clone, Copy, Debug, PartialEq, Eq, Structural)]
pub struct AtlasRect {
    pub min_x: u32,
    pub min_y: u32,
    pub max_x: u32,
    pub max_y: u32,
    pub atlas_width: u32,
    pub atlas_height: u32,
}

/// What an identifier is in contracts: its namespace and its path.
pub type IdentifierView = (Seq<char>, Seq<char>);

/// True where each identifier of `ids` comes before those behind it.
pub open spec fn strictly_ordered(ids: Seq<IdentifierView>) -> bool {
    forall|i: int, j: int| 0 <= i < j < ids.len() ==> identifier_precedes(ids[i], ids[j])
}

/// In an ordered sequence each identifier stands once, at its own place.
pub proof fn lemma_slot_of(ids: Seq<IdentifierView>, i: int)
    requires
        strictly_ordered(ids),
        0 <= i < ids.len(),
    ensures
        ids.contains(ids[i]),
        ids.index_of(ids[i]) == i,
{
    let j = ids.index_of(ids[i]);
    if j < i {
        lemma_identifier_asymmetric(ids[j], ids[i]);
    } else if i < j {
        lemma_identifier_asymmetric(ids[i], ids[j]);
    }
}

/// The registered textures, by the identifier of their block type, and the
/// place that each got on the atlas when it was last built. `T` is what
/// stands for a texture: the library hands it on and never looks inside.
pub struct AtlasManager<T> {
    identifiers: Vec<Identifier>,
    textures: Vec<T>,
    locations: Vec<Option<AtlasRect>>,
    error_texture: Option<T>,
    error_atlas_location: Option<AtlasRect>,
    atlas_texture: Option<T>,
}

impl<T> AtlasManager<T> {
    /// The registered identifiers, in their order.
    pub closed spec fn id_seq(&self) -> Seq<IdentifierView> {
        Seq::new(self.identifiers@.len(), |i: int| self.identifiers@[i]@)
    }

    /// The texture of each registered identifier, in the order of `id_seq`.
    pub closed spec fn texture_seq(&self) -> Seq<T> {
        self.textures@
    }

    /// The place on the atlas of each registered identifier, in the order of
    /// `id_seq`: `None` for one that was registered after the atlas was
    /// last built.
    pub closed spec fn location_seq(&self) -> Seq<Option<AtlasRect>> {
        self.locations@
    }

    /// The texture shown for identifiers that are not registered.
    pub closed spec fn error_texture(&self) -> Option<T> {
        self.error_texture
    }

    /// The place of the error texture on the atlas.
    pub closed spec fn error_atlas_location(&self) -> Option<AtlasRect> {
        self.error_atlas_location
    }

    /// The atlas itself, once it was built.
    pub closed spec fn built_texture(&self) -> Option<T> {
        self.atlas_texture
    }

    /// Every registered identifier has one texture and one place, and the
    /// identifiers stand in their order.
    #[verifier::type_invariant]
    pub open spec fn well_formed(self) -> bool {
        &&& self.texture_seq().len() == self.id_seq().len()
        &&& self.location_seq().len() == self.id_seq().len()
        &&& strictly_ordered(self.id_seq())
    }

    /// True where `id` is registered.
    pub open spec fn contains(&self, id: IdentifierView) -> bool {
        self.id_seq().contains(id)
    }

    /// The texture registered for `id`.
    pub open spec fn texture_of(&self, id: IdentifierView) -> T {
        self.texture_seq()[self.id_seq().index_of(id)]
    }

    /// The place on the atlas of `id`: `None` where `id` is not registered,
    /// and where it was registered after the atlas was last built.
    pub open spec fn location_of(&self, id: IdentifierView) -> Option<AtlasRect> {
        if self.contains(id) {
            self.location_seq()[self.id_seq().index_of(id)]
        } else {
            None
        }
    }

    /// The place on the atlas of `id`, or that of the error texture where
    /// `id` has none.
    pub open spec fn location_or_error(&self, id: IdentifierView) -> AtlasRect {
        match self.location_of(id) {
            Some(rect) => rect,
            None => self.error_atlas_location()->0,
        }
    }

    /// The number of textures that go onto the atlas before the registered
    /// ones: 1 where there is an error texture, else 0.
    pub open spec fn offset(&self) -> int {
        if self.error_texture() is Some {
            1
        } else {
            0
        }
    }

    /// An atlas manager with nothing registered.
    pub fn new() -> (atlas: Self)
        ensures
            atlas.id_seq() == Seq::<IdentifierView>::empty(),
            atlas.error_texture() is None,
            atlas.error_atlas_location() is None,
            atlas.built_texture() is None,
    {
        let atlas = AtlasManager {
            identifiers: Vec::new(),
            textures: Vec::new(),
            locations: Vec::new(),
            error_texture: None,
            error_atlas_location: None,
            atlas_texture: None,
        };
        assert(atlas.id_seq() =~= Seq::<IdentifierView>::empty());
        atlas
    }

    pub fn set_error_texture(&mut self, texture: T)
        ensures
            final(self).error_texture() == Some(texture),
            final(self).id_seq() == old(self).id_seq(),
            final(self).texture_seq() == old(self).texture_seq(),
            final(self).location_seq() == old(self).location_seq(),
            final(self).error_atlas_location() == old(self).error_atlas_location(),
            final(self).built_texture() == old(self).built_texture(),
    {
        proof {
            use_type_invariant(&*self);
        }
        self.error_texture = Some(texture);
    }

    /// The slot of the first registered identifier that does not come before
    /// `identifier`, and whether that one is `identifier` itself.
    fn find(&self, identifier: &Identifier) -> (found: (usize, bool))
        ensures
            found.0 <= self.id_seq().len(),
            forall|j: int| 0 <= j < found.0 ==> identifier_precedes(self.id_seq()[j], identifier@),
            found.1 ==> found.0 < self.id_seq().len() && self.id_seq()[found.0 as int]
                == identifier@,
            !found.1 ==> forall|j: int|
                found.0 <= j < self.id_seq().len() ==> identifier_precedes(
                    identifier@,
                    self.id_seq()[j],
                ),
            found.1 <==> self.contains(identifier@),
            found.1 ==> self.id_seq().index_of(identifier@) == found.0,
    {
        proof {
            use_type_invariant(self);
        }
        let ghost ids = self.id_seq();
        let mut i: usize = 0;
        while i < self.identifiers.len()
            invariant
                ids == self.id_seq(),
                strictly_ordered(ids),
                i <= ids.len(),
                ids.len() == self.identifiers@.len(),
                forall|j: int| 0 <= j < i ==> identifier_precedes(ids[j], identifier@),
            decreases ids.len() - i,
        {
            assert(ids[i as int] == self.identifiers@[i as int]@);
            match self.identifiers[i].rank(identifier) {
                Rank::Before => {
                    i += 1;
                },
                Rank::Same => {
                    proof {
                        lemma_slot_of(ids, i as int);
                    }
                    return (i, true);
                },
                Rank::After => {
                    proof {
                        assert forall|j: int| i <= j < ids.len() implies identifier_precedes(
                            identifier@,
                            ids[j],
                        ) by {
                            if i < j {
                                lemma_identifier_transitive(identifier@, ids[i as int], ids[j]);
                            }
                        }
                        if ids.contains(identifier@) {
                            let k = ids.index_of(identifier@);
                            if k < i {
                                lemma_identifier_asymmetric(ids[k], identifier@);
                            } else {
                                lemma_identifier_asymmetric(identifier@, ids[k]);
                            }
                        }
                    }
                    return (i, false);
                },
            }
        }
        proof {
            if ids.contains(identifier@) {
                let k = ids.index_of(identifier@);
                lemma_identifier_asymmetric(ids[k], identifier@);
            }
        }
        (i, false)
    }

    /// Registers `texture` for `identifier`, in place of the texture that
    /// was registered for it before. Its place on the atlas is unknown until
    /// the atlas is built again.
    pub fn add_data(&mut self, identifier: Identifier, texture: T)
        ensures
            forall|id: IdentifierView|
                final(self).contains(id) <==> (old(self).contains(id) || id == identifier@),
            final(self).texture_of(identifier@) == texture,
            final(self).location_of(identifier@) is None,
            forall|id: IdentifierView|
                id != identifier@ && old(self).contains(id) ==> final(self).texture_of(id) == old(
                    self,
                ).texture_of(id) && final(self).location_of(id) == old(self).location_of(id),
            final(self).id_seq().len() == old(self).id_seq().len() + (if old(self).contains(
                identifier@,
            ) {
                0int
            } else {
                1int
            }),
            final(self).error_texture() == old(self).error_texture(),
            final(self).error_atlas_location() == old(self).error_atlas_location(),
            final(self).built_texture() == old(self).built_texture(),
    {
        proof {
            use_type_invariant(&*self);
        }
        let ghost before = *self;
        let ghost old_ids = self.id_seq();
        let (slot, found) = self.find(&identifier);
        let mut taken = Self::new();
        std::mem::swap(self, &mut taken);
        let AtlasManager {
            mut identifiers,
            mut textures,
            mut locations,
            error_texture,
            error_atlas_location,
            atlas_texture,
        } = taken;
        if found {
            textures.push(texture);
            let _ = textures.swap_remove(slot);
            locations[slot] = None;
        } else {
            identifiers.insert(slot, identifier);
            textures.insert(slot, texture);
            locations.insert(slot, None);
        }
        let ghost new_ids = Seq::new(identifiers@.len(), |i: int| identifiers@[i]@);
        proof {
            if found {
                assert(new_ids =~= old_ids);
            } else {
                assert(new_ids =~= old_ids.insert(slot as int, identifier@));
                assert forall|i: int, j: int| 0 <= i < j < new_ids.len() implies identifier_precedes(
                    new_ids[i],
                    new_ids[j],
                ) by {
                    if j < slot {
                        assert(new_ids[i] == old_ids[i] && new_ids[j] == old_ids[j]);
                    } else if j == slot {
                        assert(new_ids[i] == old_ids[i]);
                    } else if i < slot {
                        assert(new_ids[i] == old_ids[i] && new_ids[j] == old_ids[j - 1]);
                        lemma_identifier_transitive(old_ids[i], identifier@, old_ids[j - 1]);
                    } else if i == slot {
                        assert(new_ids[j] == old_ids[j - 1]);
                    } else {
                        assert(new_ids[i] == old_ids[i - 1] && new_ids[j] == old_ids[j - 1]);
                    }
                }
            }
        }
        *self = AtlasManager {
            identifiers,
            textures,
            locations,
            error_texture,
            error_atlas_location,
            atlas_texture,
        };
        proof {
            assert(self.id_seq() =~= new_ids);
            lemma_slot_of(new_ids, slot as int);
            assert forall|id: IdentifierView|
                self.contains(id) <==> (before.contains(id) || id == identifier@) by {
                if self.contains(id) {
                    let k = new_ids.index_of(id);
                    if !found {
                        if k < slot {
                            assert(old_ids[k] == id);
                        } else if k > slot {
                            assert(old_ids[k - 1] == id);
                        }
                    }
                }
                if before.contains(id) {
                    let k = old_ids.index_of(id);
                    if !found {
                        if k < slot {
                            assert(new_ids[k] == id);
                        } else {
                            assert(new_ids[k + 1] == id);
                        }
                    }
                }
            }
            assert forall|id: IdentifierView| id != identifier@ && before.contains(id) implies (
            self.texture_of(id) == before.texture_of(id) && self.location_of(id)
                == before.location_of(id)) by {
                let k = old_ids.index_of(id);
                lemma_slot_of(old_ids, k);
                if found {
                    lemma_slot_of(new_ids, k);
                } else if k < slot {
                    assert(new_ids[k] == id);
                    lemma_slot_of(new_ids, k);
                } else {
                    assert(new_ids[k + 1] == id);
                    lemma_slot_of(new_ids, k + 1);
                }
            }
        }
    }
}

impl<T> AtlasManager<T> {
    /// Takes `identifier` and its texture out of the registered ones.
    pub fn remove_data(&mut self, identifier: &Identifier)
        ensures
            forall|id: IdentifierView|
                final(self).contains(id) <==> (old(self).contains(id) && id != identifier@),
            forall|id: IdentifierView|
                id != identifier@ && old(self).contains(id) ==> final(self).texture_of(id) == old(
                    self,
                ).texture_of(id) && final(self).location_of(id) == old(self).location_of(id),
            final(self).id_seq().len() == old(self).id_seq().len() - (if old(self).contains(
                identifier@,
            ) {
                1int
            } else {
                0int
            }),
            final(self).error_texture() == old(self).error_texture(),
            final(self).error_atlas_location() == old(self).error_atlas_location(),
            final(self).built_texture() == old(self).built_texture(),
    {
        proof {
            use_type_invariant(&*self);
        }
        let ghost before = *self;
        let ghost old_ids = self.id_seq();
        let (slot, found) = self.find(identifier);
        if !found {
            return ;
        }
        let mut taken = Self::new();
        std::mem::swap(self, &mut taken);
        let AtlasManager {
            mut identifiers,
            mut textures,
            mut locations,
            error_texture,
            error_atlas_location,
            atlas_texture,
        } = taken;
        let _ = identifiers.remove(slot);
        let _ = textures.remove(slot);
        let _ = locations.remove(slot);
        let ghost new_ids = Seq::new(identifiers@.len(), |i: int| identifiers@[i]@);
        proof {
            assert(new_ids =~= old_ids.remove(slot as int));
            assert forall|i: int, j: int| 0 <= i < j < new_ids.len() implies identifier_precedes(
                new_ids[i],
                new_ids[j],
            ) by {
                if j < slot {
                    assert(new_ids[i] == old_ids[i] && new_ids[j] == old_ids[j]);
                } else if i < slot {
                    assert(new_ids[i] == old_ids[i] && new_ids[j] == old_ids[j + 1]);
                } else {
                    assert(new_ids[i] == old_ids[i + 1] && new_ids[j] == old_ids[j + 1]);
                }
            }
        }
        *self = AtlasManager {
            identifiers,
            textures,
            locations,
            error_texture,
            error_atlas_location,
            atlas_texture,
        };
        proof {
            assert(self.id_seq() =~= new_ids);
            assert forall|id: IdentifierView|
                self.contains(id) <==> (before.contains(id) && id != identifier@) by {
                if self.contains(id) {
                    let k = new_ids.index_of(id);
                    if k < slot {
                        assert(old_ids[k] == id);
                        lemma_slot_of(old_ids, k);
                    } else {
                        assert(old_ids[k + 1] == id);
                        lemma_slot_of(old_ids, k + 1);
                    }
                }
                if before.contains(id) && id != identifier@ {
                    let k = old_ids.index_of(id);
                    if k < slot {
                        assert(new_ids[k] == id);
                    } else {
                        assert(new_ids[k - 1] == id);
                    }
                }
            }
            assert forall|id: IdentifierView| id != identifier@ && before.contains(id) implies (
            self.texture_of(id) == before.texture_of(id) && self.location_of(id)
                == before.location_of(id)) by {
                let k = old_ids.index_of(id);
                lemma_slot_of(old_ids, k);
                if k < slot {
                    assert(new_ids[k] == id);
                    lemma_slot_of(new_ids, k);
                } else {
                    assert(new_ids[k - 1] == id);
                    lemma_slot_of(new_ids, k - 1);
                }
            }
        }
    }

    /// The textures in the order in which they go onto the atlas: the error
    /// texture first, where there is one, then the registered textures in
    /// the order of their identifiers.
    pub fn build_order(&self) -> (order: Vec<&T>)
        ensures
            order@.len() == self.offset() + self.id_seq().len(),
            self.error_texture() matches Some(texture) ==> *order@[0] == texture,
            forall|i: int|
                0 <= i < self.id_seq().len() ==> *#[trigger] order@[self.offset() + i]
                    == self.texture_seq()[i],
    {
        proof {
            use_type_invariant(self);
        }
        let mut order: Vec<&T> = Vec::new();
        match &self.error_texture {
            Some(texture) => {
                order.push(texture);
            },
            None => {},
        }
        let mut i: usize = 0;
        while i < self.textures.len()
            invariant
                i <= self.textures@.len(),
                order@.len() == self.offset() + i,
                self.error_texture() matches Some(texture) ==> *order@[0] == texture,
                forall|j: int|
                    0 <= j < i ==> *#[trigger] order@[self.offset() + j] == self.textures@[j],
            decreases self.textures@.len() - i,
        {
            order.push(&self.textures[i]);
            i += 1;
        }
        order
    }

    /// Takes over a newly built atlas. `rects` holds the place that each
    /// texture of `build_order` got, in that order, and `texture` is the
    /// atlas itself. Places given out before are replaced, so a mesh built
    /// with them has to be built again.
    pub fn rebuild_atlas(&mut self, rects: &Vec<AtlasRect>, texture: T)
        requires
            rects@.len() >= old(self).offset() + old(self).id_seq().len(),
        ensures
            final(self).id_seq() == old(self).id_seq(),
            final(self).texture_seq() == old(self).texture_seq(),
            final(self).error_texture() == old(self).error_texture(),
            final(self).location_seq() == Seq::new(
                old(self).id_seq().len(),
                |i: int| Some(rects@[old(self).offset() + i]),
            ),
            final(self).error_atlas_location() == (if old(self).error_texture() is Some {
                Some(rects@[0])
            } else {
                old(self).error_atlas_location()
            }),
            final(self).built_texture() == Some(texture),
    {
        proof {
            use_type_invariant(&*self);
        }
        let offset: usize = if self.error_texture.is_some() {
            self.error_atlas_location = Some(rects[0]);
            1
        } else {
            0
        };
        let count = self.locations.len();
        let mut i: usize = 0;
        while i < count
            invariant
                i <= count,
                offset == old(self).offset(),
                count == old(self).id_seq().len(),
                count == self.locations@.len(),
                rects@.len() >= offset + count,
                self.id_seq() == old(self).id_seq(),
                self.texture_seq() == old(self).texture_seq(),
                self.error_texture() == old(self).error_texture(),
                self.built_texture() == old(self).built_texture(),
                self.error_atlas_location() == (if old(self).error_texture() is Some {
                    Some(rects@[0])
                } else {
                    old(self).error_atlas_location()
                }),
                strictly_ordered(self.id_seq()),
                self.texture_seq().len() == self.id_seq().len(),
                forall|j: int| 0 <= j < i ==> self.locations@[j] == Some(rects@[offset + j]),
            decreases count - i,
        {
            self.locations[i] = Some(rects[i + offset]);
            i += 1;
        }
        self.atlas_texture = Some(texture);
        assert(self.location_seq() =~= Seq::new(
            old(self).id_seq().len(),
            |i: int| Some(rects@[old(self).offset() + i]),
        ));
    }

    /// The place on the atlas of the texture of `identifier`.
    pub fn atlas_location(&self, identifier: &Identifier) -> (location: Option<AtlasRect>)
        ensures
            location == self.location_of(identifier@),
    {
        proof {
            use_type_invariant(self);
        }
        let (slot, found) = self.find(identifier);
        if found {
            self.locations[slot]
        } else {
            None
        }
    }

    /// The place on the atlas of the texture of `identifier`, or that of the
    /// error texture where `identifier` has none.
    pub fn atlas_location_or_error(&self, identifier: &Identifier) -> (location: AtlasRect)
        requires
            self.error_atlas_location() is Some,
        ensures
            location == self.location_or_error(identifier@),
    {
        match self.atlas_location(identifier) {
            Some(location) => location,
            None => self.error_atlas_location.unwrap(),
        }
    }

    /// Whether the atlas has a place for the error texture, so that every
    /// identifier can be given a place.
    pub fn has_error_location(&self) -> (has: bool)
        ensures
            has == self.error_atlas_location() is Some,
    {
        self.error_atlas_location.is_some()
    }

    /// The atlas itself, once it was built.
    pub fn atlas_texture(&self) -> (texture: Option<&T>)
        ensures
            match texture {
                Some(t) => self.built_texture() == Some(*t),
                None => self.built_texture() is None,
            },
    {
        self.atlas_texture.as_ref()
    }
}

} // verus!
