//! The animation and shadow state of a model object: which animation
//! plays, whether it loops, and whether it has ended. The object's mesh,
//! transforms and the animation's clock live with the renderer, which
//! reports what the clock says.

use vstd::prelude::*;

verus! {

/// The animation that a model object plays.
pub struct CurrentAnimationData {
    pub animation_name: String,
    pub looping: bool,
    pub animation_ended: bool,
}

/// An animation by its name, whether it loops and whether it has ended.
pub struct AnimationView {
    pub name: Seq<char>,
    pub looping: bool,
    pub ended: bool,
}

/// A model object's animation and shadow settings.
pub struct ModelObject {
    animation_data: Option<CurrentAnimationData>,
    cast_shadows: bool,
}

impl CurrentAnimationData {
    /// The animation as plain values.
    pub open spec fn view(&self) -> AnimationView {
        AnimationView {
            name: self.animation_name@,
            looping: self.looping,
            ended: self.animation_ended,
        }
    }
}

impl ModelObject {
    /// The animation being played, if any.
    pub closed spec fn animation(&self) -> Option<AnimationView> {
        match &self.animation_data {
            Some(data) => Some(data.view()),
            None => None,
        }
    }

    /// Whether the object casts shadows.
    pub closed spec fn shadows(&self) -> bool {
        self.cast_shadows
    }

    /// No animation, and shadows cast.
    pub fn new() -> (r: Self)
        ensures
            r.animation() is None,
            r.shadows(),
    {
        ModelObject { animation_data: None, cast_shadows: true }
    }

    /// Plays `animation_name` from its start; whether it loops is kept
    /// from the animation that played before, and is false where none did.
    pub fn play_animation(&mut self, animation_name: String)
        ensures
            final(self).animation() == Some(
                AnimationView {
                    name: animation_name@,
                    looping: match old(self).animation() {
                        Some(a) => a.looping,
                        None => false,
                    },
                    ended: false,
                },
            ),
            final(self).shadows() == old(self).shadows(),
    {
        let looping = match &self.animation_data {
            Some(data) => data.looping,
            None => false,
        };
        self.animation_data = Some(
            CurrentAnimationData { animation_name, looping, animation_ended: false },
        );
    }

    /// Stops the animation.
    pub fn stop_animation(&mut self)
        ensures
            final(self).animation() is None,
            final(self).shadows() == old(self).shadows(),
    {
        self.animation_data = None;
    }

    /// Sets whether the object casts shadows.
    pub fn cast_shadows(&mut self, cast: bool)
        ensures
            final(self).shadows() == cast,
            final(self).animation() == old(self).animation(),
    {
        self.cast_shadows = cast;
    }

    /// Whether the object casts shadows.
    pub fn casts_shadows(&self) -> (r: bool)
        ensures
            r == self.shadows(),
    {
        self.cast_shadows
    }

    /// Sets whether the animation that plays loops; without one, nothing
    /// changes.
    pub fn set_looping(&mut self, looping: bool)
        ensures
            final(self).animation() == match old(self).animation() {
                Some(a) => Some(AnimationView { looping, ..a }),
                None => None,
            },
            final(self).shadows() == old(self).shadows(),
    {
        match &mut self.animation_data {
            Some(data) => {
                data.looping = looping;
            },
            None => {},
        }
    }

    /// Whether the animation that plays loops; false without one.
    pub fn looping(&self) -> (r: bool)
        ensures
            r == match self.animation() {
                Some(a) => a.looping,
                None => false,
            },
    {
        match &self.animation_data {
            Some(data) => data.looping,
            None => false,
        }
    }

    /// The name of the animation that plays; `None` where none does or it
    /// has ended.
    pub fn current_animation(&self) -> (r: Option<String>)
        ensures
            match self.animation() {
                Some(a) => if a.ended {
                    r is None
                } else {
                    r matches Some(name) && name@ == a.name
                },
                None => r is None,
            },
    {
        match &self.animation_data {
            Some(data) => {
                if data.animation_ended {
                    None
                } else {
                    Some(data.animation_name.clone())
                }
            },
            None => None,
        }
    }

    /// What happens when the animation's clock is read: where the model
    /// has no animation of that name, the animation stops; where the clock
    /// is past the animation's end, a looping animation starts over and
    /// another one ends. Gives whether the clock is to be started anew.
    pub fn loop_animation_if_needed(&mut self, animation_found: bool, past_end: bool) -> (r: bool)
        ensures
            final(self).shadows() == old(self).shadows(),
            match old(self).animation() {
                None => final(self).animation() is None && !r,
                Some(a) => if !animation_found {
                    final(self).animation() is None && !r
                } else if past_end && a.looping {
                    final(self).animation() == Some(a) && r
                } else if past_end {
                    final(self).animation() == Some(AnimationView { ended: true, ..a }) && !r
                } else {
                    final(self).animation() == Some(a) && !r
                },
            },
    {
        let mut restart = false;
        let mut should_stop = false;
        match &mut self.animation_data {
            Some(data) => {
                if animation_found {
                    if past_end {
                        if data.looping {
                            restart = true;
                        } else {
                            data.animation_ended = true;
                        }
                    }
                } else {
                    should_stop = true;
                }
            },
            None => {},
        }
        if should_stop {
            self.animation_data = None;
        }
        restart
    }
}

} // verus!
