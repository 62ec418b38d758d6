use vstd::prelude::*;
use vstd::hash_map::StringHashMap;

verus! {

/// Grid layout of a spritesheet: `columns` x `rows` frames of
/// `frame_width` x `frame_height` pixels each.
#[derive(Debug, Clone, Copy, PartialEq, Eq, Structural)]
pub struct SpriteSheet {
    pub frame_width: u32,
    pub frame_height: u32,
    pub columns: u32,
    pub rows: u32,
}

impl SpriteSheet {
    /// Pixel rectangle `(x, y, width, height)` of frame `frame`: its column
    /// `frame % columns` and row `frame / columns` scaled by the frame size.
    pub fn frame_pixel_rect(&self, frame: u32) -> (r: (u32, u32, u32, u32))
        requires
            self.columns > 0,
            (frame % self.columns) * self.frame_width <= u32::MAX,
            (frame / self.columns) * self.frame_height <= u32::MAX,
        ensures
            r.0 == (frame % self.columns) * self.frame_width,
            r.1 == (frame / self.columns) * self.frame_height,
            r.2 == self.frame_width,
            r.3 == self.frame_height,
    {
        let col = frame % self.columns;
        let row = frame / self.columns;
        (col * self.frame_width, row * self.frame_height, self.frame_width, self.frame_height)
    }
}

/// An opaque numeric tag that game code attaches to entities.
#[derive(Debug, Clone, Copy, PartialEq, Eq, Structural)]
pub struct Tag(pub u64);

/// The abstract state of an [`Animator`].
pub struct AnimatorView<C> {
    /// Clips by name.
    pub clips: Map<Seq<char>, C>,
    /// Name of the clip being played.
    pub current: Seq<char>,
    /// Position in the current clip's frame list.
    pub frame_index: usize,
}

impl<C> AnimatorView<C> {
    /// Playing `name`: switching to a different clip restarts at its first
    /// frame; asking for the clip already playing changes nothing.
    pub open spec fn play(self, name: Seq<char>) -> AnimatorView<C> {
        if self.current == name {
            self
        } else {
            AnimatorView { clips: self.clips, current: name, frame_index: 0 }
        }
    }
}

/// Named animation clips of type `C` and the playback position in the one
/// being played. The frame timer belongs to the caller, who restarts it
/// whenever [`Animator::play`] reports a switch.
#[verifier::reject_recursive_types(C)]
pub struct Animator<C> {
    clips: StringHashMap<C>,
    current: String,
    pub frame_index: usize,
}

impl<C> View for Animator<C> {
    type V = AnimatorView<C>;

    closed spec fn view(&self) -> AnimatorView<C> {
        AnimatorView { clips: self.clips@, current: self.current@, frame_index: self.frame_index }
    }
}

impl<C> Animator<C> {
    /// No clips; the empty name is playing, at frame 0.
    pub fn new() -> (a: Self)
        ensures
            a@.clips == Map::<Seq<char>, C>::empty(),
            a@.current == Seq::<char>::empty(),
            a@.frame_index == 0,
    {
        Animator { clips: StringHashMap::new(), current: String::new(), frame_index: 0 }
    }

    /// Adds (or replaces) the clip called `name`.
    pub fn add_clip(&mut self, name: &str, clip: C)
        ensures
            final(self)@ == (AnimatorView {
                clips: old(self)@.clips.insert(name@, clip),
                current: old(self)@.current,
                frame_index: old(self)@.frame_index,
            }),
    {
        self.clips.insert(name.to_string(), clip);
    }

    /// Plays the clip called `name` (see [`AnimatorView::play`]); returns
    /// whether this switched clips, in which case the frame timer restarts.
    pub fn play(&mut self, name: &str) -> (switched: bool)
        ensures
            final(self)@ == old(self)@.play(name@),
            switched == (old(self)@.current != name@),
            final(self)@.current == name@,
            final(self)@.clips == old(self)@.clips,
            final(self)@.frame_index == (if switched { 0 } else { old(self)@.frame_index }),
    {
        let name = name.to_string();
        if self.current != name {
            self.current = name;
            self.frame_index = 0;
            true
        } else {
            false
        }
    }

    /// The clip being played, if one of that name was added.
    pub fn current_clip(&self) -> (r: Option<&C>)
        ensures
            match r {
                Some(c) => self@.clips.contains_key(self@.current) && *c == self@.clips[self@.current],
                None => !self@.clips.contains_key(self@.current),
            },
    {
        self.clips.get(self.current.as_str())
    }
}

impl<C> Default for Animator<C> {
    fn default() -> (a: Self)
        ensures
            a@.clips == Map::<Seq<char>, C>::empty(),
            a@.current == Seq::<char>::empty(),
            a@.frame_index == 0,
    {
        Animator::new()
    }
}

/// Asking again for the clip already playing does not restart it.
pub proof fn lemma_play_same_clip_keeps_position<C>(a: AnimatorView<C>, name: Seq<char>, frame_index: usize)
    ensures
        ({
            let playing = a.play(name);
            let moved = AnimatorView { clips: playing.clips, current: playing.current, frame_index };
            moved.play(name) == moved
        }),
{
}

/// Switching to another clip starts it from its first frame.
pub proof fn lemma_play_switch_restarts<C>(a: AnimatorView<C>, name: Seq<char>)
    requires
        a.current != name,
    ensures
        a.play(name).current == name,
        a.play(name).frame_index == 0,
        a.play(name).clips == a.clips,
{
}

} // verus!
