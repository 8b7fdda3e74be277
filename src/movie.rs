//! The movie's tag stream: background color, write-once character
//! definitions and the events of the root timeline.
use crate::dictionary::{Character, CharacterId, Dictionary};
use crate::shape::Rgba;
use crate::timeline::{event_effect, event_error, BuildError, Frame, Timeline, TimelineBuilder, TimelineEvent};
use vstd::prelude::*;

verus! {

/// A tag of the movie, its records already read.
#[derive(Debug)]
pub enum MovieTag<'a> {
    SetBackgroundColor(Rgba),
    Define(u16, Character<'a>),
    Event(TimelineEvent),
}

#[derive(Copy, Clone, Debug, PartialEq, Eq, Structural)]
pub enum MovieError {
    /// A character id defined a second time.
    AlreadyDefined(u16),
    /// A timeline event that breaks the timeline's rules.
    Timeline(BuildError),
}

/// The state of a movie while its tags are read.
#[derive(Debug)]
pub struct MovieBuilder<'a> {
    pub dictionary: Dictionary<'a>,
    pub timeline: TimelineBuilder,
    pub background: Rgba,
}

impl<'a> MovieBuilder<'a> {
    pub open spec fn wf(&self) -> bool {
        self.dictionary.wf() && self.timeline.wf()
    }

    /// No characters, an empty timeline and a black background.
    pub fn new() -> (r: Self)
        ensures
            r.wf(),
            r.dictionary.contents() == Map::<u16, Character<'a>>::empty(),
            r.timeline.current_frame == Frame(0),
            r.timeline.timeline.layers.contents().len() == 0,
            r.background == (Rgba { r: 0, g: 0, b: 0, a: 255 }),
    {
        MovieBuilder {
            dictionary: Dictionary::new(),
            timeline: TimelineBuilder::new(),
            background: Rgba { r: 0, g: 0, b: 0, a: 255 },
        }
    }

    /// Reads one tag. The last background color wins; an id is defined
    /// once, and a second definition is refused; timeline events follow
    /// `TimelineBuilder::apply`. A refused tag changes nothing.
    pub fn feed(&mut self, tag: MovieTag<'a>) -> (r: Result<(), MovieError>)
        requires
            old(self).wf(),
        ensures
            final(self).wf(),
            match tag {
                MovieTag::SetBackgroundColor(c) => r is Ok && final(self).background == c
                    && final(self).dictionary == old(self).dictionary && final(self).timeline
                    == old(self).timeline,
                MovieTag::Define(id, c) => if old(self).dictionary.contents().contains_key(id) {
                    r == Err::<(), MovieError>(MovieError::AlreadyDefined(id)) && *final(self)
                        == *old(self)
                } else {
                    r is Ok && final(self).dictionary.contents() == old(
                        self,
                    ).dictionary.contents().insert(id, c) && final(self).timeline == old(
                        self,
                    ).timeline && final(self).background == old(self).background
                },
                MovieTag::Event(e) => match event_error(old(self).timeline, e) {
                    Some(err) => r == Err::<(), MovieError>(MovieError::Timeline(err))
                        && *final(self) == *old(self),
                    None => r is Ok && event_effect(old(self).timeline, final(self).timeline, e)
                        && final(self).dictionary == old(self).dictionary && final(self).background
                        == old(self).background,
                },
            },
    {
        match tag {
            MovieTag::SetBackgroundColor(c) => {
                self.background = c;
                Ok(())
            },
            MovieTag::Define(id, c) => {
                if self.dictionary.is_defined(CharacterId(id)) {
                    return Err(MovieError::AlreadyDefined(id));
                }
                self.dictionary.define(CharacterId(id), c);
                Ok(())
            },
            MovieTag::Event(e) => match self.timeline.apply(e) {
                Ok(()) => Ok(()),
                Err(err) => Err(MovieError::Timeline(err)),
            },
        }
    }

    /// The dictionary, the root timeline with the declared frame count, and
    /// the background color.
    pub fn finish(self, frame_count: Frame) -> (r: (Dictionary<'a>, Timeline, Rgba))
        ensures
            r.0 == self.dictionary,
            r.1 == (Timeline { frame_count, ..self.timeline.timeline }),
            r.2 == self.background,
    {
        let timeline = self.timeline.finish(frame_count);
        (self.dictionary, timeline, self.background)
    }
}

} // verus!
