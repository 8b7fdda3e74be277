//! The dictionary of characters, keyed by id and written once per id.
use crate::bitmap::Bitmap;
use crate::button::Button;
use crate::keymap::KeyMap;
use crate::shape::{Rgba, Shape};
use crate::sound::Sound;
use crate::timeline::Timeline;
use vstd::prelude::*;

verus! {

#[derive(Copy, Clone, Debug, PartialEq, Eq, PartialOrd, Ord, Hash, Structural)]
pub struct CharacterId(pub u16);

/// An editable text field, shown with its initial text.
#[derive(Debug, PartialEq, Eq)]
pub struct DynamicText {
    pub text: Option<String>,
    pub font_size: Option<u16>,
    pub color: Option<Rgba>,
}

#[derive(Debug)]
pub enum Character<'a> {
    Shape(Shape<'a>),
    Bitmap(Bitmap),
    Sound(Sound),
    Sprite(Timeline),
    Button(Button),
    DynamicText(DynamicText),
}

/// Characters by id; an id is bound at most once.
#[derive(Debug)]
pub struct Dictionary<'a> {
    pub characters: KeyMap<Character<'a>>,
}

impl<'a> Dictionary<'a> {
    pub open spec fn wf(&self) -> bool {
        self.characters.wf()
    }

    /// The characters by id.
    pub open spec fn contents(&self) -> Map<u16, Character<'a>> {
        self.characters.contents()
    }

    pub fn new() -> (r: Self)
        ensures
            r.wf(),
            r.contents() == Map::<u16, Character<'a>>::empty(),
    {
        Dictionary { characters: KeyMap::new() }
    }

    /// Binds `id` to `character`. Ids are written once: defining a bound id
    /// is a structural violation that callers rule out (see `is_defined`).
    pub fn define(&mut self, id: CharacterId, character: Character<'a>)
        requires
            old(self).wf(),
            !old(self).contents().contains_key(id.0),
        ensures
            final(self).wf(),
            final(self).contents() == old(self).contents().insert(id.0, character),
    {
        self.characters.insert(id.0, character);
    }

    pub fn is_defined(&self, id: CharacterId) -> (r: bool)
        requires
            self.wf(),
        ensures
            r == self.contents().contains_key(id.0),
    {
        self.characters.find(id.0).is_ok()
    }

    pub fn get(&self, id: CharacterId) -> (r: Option<&Character<'a>>)
        requires
            self.wf(),
        ensures
            r matches Some(c) ==> self.contents().contains_key(id.0) && *c == self.contents()[id.0],
            r is None <==> !self.contents().contains_key(id.0),
    {
        self.characters.get(id.0)
    }
}

} // verus!
