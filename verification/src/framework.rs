//! The engine's bookkeeping between frames: the input, the saves, the
//! global values that systems share, and the debug mode.

use vstd::prelude::*;
use crate::input::{bind_hit, InputManager};
use crate::saves::{read_save, SavePlan, SavesManager};
use crate::string_map::StrMap;

verus! {

/// How much debugging information is shown.
#[derive(Clone, Copy, PartialEq, Eq, Structural, Debug)]
pub enum DebugMode {
    Hidden,
    ShowFps,
    Full,
}

/// The debug mode after the debug toggle was pressed: shown information
/// is hidden, and hidden information shows the frame rate.
pub open spec fn toggled(mode: DebugMode) -> DebugMode {
    match mode {
        DebugMode::Hidden => DebugMode::ShowFps,
        _ => DebugMode::Hidden,
    }
}

/// The debug mode that the inspector's "full debug" box asks for.
pub open spec fn from_full_debug_box(checked: bool) -> DebugMode {
    if checked {
        DebugMode::Full
    } else {
        DebugMode::ShowFps
    }
}

/// The name of the bind that toggles the debug mode.
pub open spec fn debug_toggle_bind() -> Seq<char> {
    seq!['d', 'e', 'b', 'u', 'g', '_', 't', 'o', 'g', 'g', 'l', 'e']
}

/// The engine's state between frames; `V` is the type of a global value.
pub struct Framework<V> {
    pub input: InputManager,
    pub saves: SavesManager<V>,
    pub system_globals: StrMap<Vec<V>>,
    pub debug_mode: DebugMode,
}

impl<V> Framework<V> {
    /// The global values, by name.
    pub open spec fn globals(&self) -> Map<Seq<char>, Vec<V>> {
        self.system_globals@
    }

    /// The current debug mode.
    pub open spec fn mode(&self) -> DebugMode {
        self.debug_mode
    }

    /// The framework's well-formedness.
    pub open spec fn wf(&self) -> bool {
        &&& self.input.wf()
        &&& self.saves.wf()
        &&& self.system_globals.wf()
    }

    /// No binds, no saves, no global values, and `debug_mode`.
    pub fn new(debug_mode: DebugMode) -> (r: Self)
        ensures
            r.wf(),
            r.globals() == Map::<Seq<char>, Vec<V>>::empty(),
            r.mode() == debug_mode,
            r.input.binds() == Map::<Seq<char>, Seq<crate::input::InputEventType>>::empty(),
            r.saves.registered() == Seq::<Seq<char>>::empty(),
            r.saves.current_save() is None,
    {
        Framework {
            input: InputManager::new(),
            saves: SavesManager::new(),
            system_globals: StrMap::new(),
            debug_mode,
        }
    }

    /// The current debug mode.
    pub fn debug_mode(&self) -> (r: DebugMode)
        ensures
            r == self.mode(),
    {
        self.debug_mode
    }

    /// Sets the debug mode.
    pub fn set_debug_mode(&mut self, debug_mode: DebugMode)
        ensures
            final(self).mode() == debug_mode,
            final(self).globals() == old(self).globals(),
            final(self).input == old(self).input,
            final(self).saves == old(self).saves,
            old(self).wf() ==> final(self).wf(),
    {
        self.debug_mode = debug_mode;
    }

    /// Stores a global value under `key`, replacing the one stored there.
    pub fn set_global_system_value(&mut self, key: &str, value: Vec<V>)
        requires
            old(self).wf(),
        ensures
            final(self).wf(),
            final(self).globals() == old(self).globals().insert(key@, value),
            final(self).mode() == old(self).mode(),
            final(self).input == old(self).input,
            final(self).saves == old(self).saves,
    {
        match self.system_globals.get_mut(key) {
            Some(stored) => {
                *stored = value;
            },
            None => {
                self.system_globals.insert(key.to_string(), value);
            },
        }
    }

    /// A copy of the global value stored under `key`.
    pub fn get_global_system_value(&self, key: &str) -> (r: Option<Vec<V>>) where V: Clone
        requires
            self.wf(),
        ensures
            self.globals().contains_key(key@) ==> (r matches Some(v) && v@.len()
                == self.globals()[key@]@.len() && forall|i: int|
                0 <= i < v@.len() ==> cloned::<V>(self.globals()[key@]@[i], v@[i])),
            !self.globals().contains_key(key@) ==> r is None,
    {
        match self.system_globals.get(key) {
            Some(value) => Some(value.clone()),
            None => None,
        }
    }

    /// The global values.
    pub fn global_system_values(&self) -> (r: &StrMap<Vec<V>>)
        requires
            self.wf(),
        ensures
            r.wf(),
            r@ == self.globals(),
    {
        &self.system_globals
    }

    /// Opens a save (see [SavesManager::load_save]) and stores the values
    /// it read as global values; refused where the save's list of values
    /// cannot be read.
    pub fn load_save<N: FnOnce(&str) -> Option<String>, L: Fn(&str, &str) -> Option<Vec<V>>>(
        &mut self,
        save_name: &str,
        load_names: N,
        load_value: L,
    ) -> (r: Result<(), ()>)
        requires
            old(self).wf(),
            forall|s: &str| call_requires(load_names, (s,)),
            forall|s: &str, n: &str| call_requires(load_value, (s, n)),
        ensures
            final(self).wf(),
            final(self).saves.current_save() == Some(save_name@),
            final(self).saves.registered() == old(self).saves.registered(),
            final(self).mode() == old(self).mode(),
            final(self).input == old(self).input,
            exists|loaded: Option<Map<Seq<char>, Vec<V>>>|
                #[trigger] read_save(save_name@, load_names, load_value, loaded) && match loaded {
                    None => r is Err && final(self).globals() == old(self).globals(),
                    Some(m) => r is Ok && final(self).globals() == old(self).globals().union_prefer_right(
                        m,
                    ),
                },
    {
        match self.saves.load_save(save_name, load_names, load_value) {
            Ok(values) => {
                self.system_globals.merge(values);
                Ok(())
            },
            Err(()) => Err(()),
        }
    }

    /// What saving the game writes now; see [SavesManager::save_game].
    pub fn save_game(&self) -> (r: Option<SavePlan>)
        requires
            self.wf(),
        ensures
            match r {
                None => self.saves.current_save() is None,
                Some(plan) => {
                    &&& self.saves.current_save() == Some(plan.save_name@)
                    &&& crate::saves::string_views(plan.values_to_save@)
                        == crate::saves::present_names(self.saves.registered(), self.globals())
                    &&& crate::saves::string_views(plan.missing_values@)
                        == crate::saves::missing_names(self.saves.registered(), self.globals())
                    &&& plan.values_list_json@ == crate::saves::value_names_json(
                        crate::saves::present_names(self.saves.registered(), self.globals()),
                    )
                    &&& crate::saves::value_names_of(plan.values_list_json@) == Some(
                        crate::saves::present_names(self.saves.registered(), self.globals()),
                    )
                },
            },
    {
        self.saves.save_game(&self.system_globals)
    }

    /// Registers a global value to be saved; see
    /// [SavesManager::register_save_value].
    pub fn register_save_value(&mut self, system_value_name: &str)
        requires
            old(self).wf(),
        ensures
            final(self).wf(),
            final(self).saves.registered() == crate::saves::with_registered(
                old(self).saves.registered(),
                system_value_name@,
            ),
            final(self).saves.current_save() == old(self).saves.current_save(),
            final(self).saves.lazy_values() == old(self).saves.lazy_values(),
            final(self).globals() == old(self).globals(),
            final(self).mode() == old(self).mode(),
            final(self).input == old(self).input,
    {
        self.saves.register_save_value(system_value_name)
    }

    /// Stops saving a global value; see
    /// [SavesManager::unregister_save_value].
    pub fn unregister_save_value(&mut self, system_value_name: &str)
        requires
            old(self).wf(),
        ensures
            final(self).wf(),
            final(self).saves.registered() == old(self).saves.registered().filter(
                crate::saves::other_name(system_value_name@),
            ),
            final(self).saves.current_save() == old(self).saves.current_save(),
            final(self).saves.lazy_values() == old(self).saves.lazy_values(),
            final(self).globals() == old(self).globals(),
            final(self).mode() == old(self).mode(),
            final(self).input == old(self).input,
    {
        self.saves.unregister_save_value(system_value_name)
    }

    /// Makes `save_name` the current save and gives what saving the game
    /// writes there; see [SavesManager::new_save].
    pub fn new_save(&mut self, save_name: &str) -> (r: SavePlan)
        requires
            old(self).wf(),
        ensures
            final(self).wf(),
            final(self).saves.current_save() == Some(save_name@),
            final(self).saves.registered() == old(self).saves.registered(),
            final(self).saves.lazy_values() == old(self).saves.lazy_values(),
            final(self).globals() == old(self).globals(),
            final(self).mode() == old(self).mode(),
            final(self).input == old(self).input,
            r.save_name@ == save_name@,
            crate::saves::string_views(r.values_to_save@) == crate::saves::present_names(
                old(self).saves.registered(),
                old(self).globals(),
            ),
            r.values_list_json@ == crate::saves::value_names_json(
                crate::saves::present_names(old(self).saves.registered(), old(self).globals()),
            ),
            crate::saves::value_names_of(r.values_list_json@) == Some(
                crate::saves::present_names(old(self).saves.registered(), old(self).globals()),
            ),
            crate::saves::string_views(r.missing_values@) == crate::saves::missing_names(
                old(self).saves.registered(),
                old(self).globals(),
            ),
    {
        self.saves.new_save(save_name, &self.system_globals)
    }

    /// Keeps a value aside to be written with the next save; see
    /// [SavesManager::save_lazy_value].
    pub fn save_lazy_value(&mut self, value_name: &str, value: Vec<V>)
        requires
            old(self).wf(),
        ensures
            final(self).wf(),
            final(self).saves.lazy_values() == old(self).saves.lazy_values().insert(value_name@, value),
            final(self).saves.registered() == old(self).saves.registered(),
            final(self).saves.current_save() == old(self).saves.current_save(),
            final(self).globals() == old(self).globals(),
            final(self).mode() == old(self).mode(),
            final(self).input == old(self).input,
    {
        self.saves.save_lazy_value(value_name, value)
    }

    /// A value kept aside, or read from the current save with `load`; see
    /// [SavesManager::load_lazy_value].
    pub fn load_lazy_value<F: Fn(&str, &str) -> Option<Vec<V>>>(
        &self,
        value_name: &str,
        load: F,
    ) -> (r: Option<Vec<V>>) where V: Clone
        requires
            self.wf(),
            forall|s: &str, n: &str| call_requires(load, (s, n)),
        ensures
            self.saves.lazy_values().contains_key(value_name@) ==> (r matches Some(v) && v@.len()
                == self.saves.lazy_values()[value_name@]@.len() && forall|i: int|
                0 <= i < v@.len() ==> cloned::<V>(self.saves.lazy_values()[value_name@]@[i], v@[i])),
            self.saves.lazy_values().contains_key(value_name@) && (forall|a: V, b: V|
                #[trigger] cloned::<V>(a, b) ==> a == b) ==> (r matches Some(v) && v@
                == self.saves.lazy_values()[value_name@]@),
            !self.saves.lazy_values().contains_key(value_name@) && self.saves.current_save() is None
                ==> r is None,
            !self.saves.lazy_values().contains_key(value_name@) && self.saves.current_save() is Some
                ==> crate::saves::value_read(self.saves.current_save().unwrap(), load, value_name@, r),
    {
        self.saves.load_lazy_value(value_name, load)
    }

    /// Whether a key or button of the bind went down since the last update.
    pub fn is_bind_pressed(&self, bind_name: &str) -> (r: bool)
        requires
            self.wf(),
        ensures
            r == bind_hit(self.input.binds(), bind_name@, self.input.just_pressed()),
    {
        self.input.is_bind_pressed(bind_name)
    }

    /// Whether a key or button of the bind is held.
    pub fn is_bind_down(&self, bind_name: &str) -> (r: bool)
        requires
            self.wf(),
        ensures
            r == bind_hit(self.input.binds(), bind_name@, self.input.down()),
    {
        self.input.is_bind_down(bind_name)
    }

    /// Whether a key or button of the bind went up since the last update.
    pub fn is_bind_released(&self, bind_name: &str) -> (r: bool)
        requires
            self.wf(),
        ensures
            r == bind_hit(self.input.binds(), bind_name@, self.input.released()),
    {
        self.input.is_bind_released(bind_name)
    }

    /// Whether the mouse is locked.
    pub fn is_mouse_locked(&self) -> (r: bool)
        ensures
            r == self.input.mouse_locked(),
    {
        self.input.is_mouse_locked()
    }

    /// Locks or unlocks the mouse.
    pub fn set_mouse_locked(&mut self, lock: bool)
        requires
            old(self).wf(),
        ensures
            final(self).wf(),
            final(self).input.mouse_locked() == lock,
            final(self).input.binds() == old(self).input.binds(),
            final(self).input.down() == old(self).input.down(),
            final(self).input.just_pressed() == old(self).input.just_pressed(),
            final(self).input.released() == old(self).input.released(),
            final(self).globals() == old(self).globals(),
            final(self).mode() == old(self).mode(),
            final(self).saves == old(self).saves,
    {
        self.input.set_mouse_locked(lock)
    }

    /// The game's own work at the start of a frame: pressing the debug
    /// toggle bind toggles the debug mode.
    pub fn update_debug_mode(&mut self)
        requires
            old(self).wf(),
        ensures
            final(self).wf(),
            final(self).mode() == if bind_hit(
                old(self).input.binds(),
                debug_toggle_bind(),
                old(self).input.just_pressed(),
            ) {
                toggled(old(self).mode())
            } else {
                old(self).mode()
            },
            final(self).globals() == old(self).globals(),
            final(self).input == old(self).input,
            final(self).saves == old(self).saves,
    {
        let pressed = self.input.is_bind_pressed("debug_toggle");
        proof {
            reveal_strlit("debug_toggle");
            assert("debug_toggle"@ =~= debug_toggle_bind());
        }
        if pressed {
            match self.debug_mode {
                DebugMode::Hidden => self.set_debug_mode(DebugMode::ShowFps),
                _ => self.set_debug_mode(DebugMode::Hidden),
            }
        }
    }

    /// Applies the inspector's "full debug" box: checked shows everything,
    /// unchecked the frame rate alone.
    pub fn handle_full_debug_checkbox_value(&mut self, full_debug: bool)
        ensures
            final(self).mode() == from_full_debug_box(full_debug),
            final(self).globals() == old(self).globals(),
            final(self).input == old(self).input,
            final(self).saves == old(self).saves,
            old(self).wf() ==> final(self).wf(),
    {
        if full_debug {
            self.set_debug_mode(DebugMode::Full)
        } else {
            self.set_debug_mode(DebugMode::ShowFps)
        }
    }
}

/// Pressing the debug toggle twice from the hidden mode hides the debug
/// information again, and from any shown mode shows the frame rate.
pub proof fn lemma_toggle_twice(mode: DebugMode)
    ensures
        toggled(toggled(mode)) == if mode is Hidden {
            DebugMode::Hidden
        } else {
            DebugMode::ShowFps
        },
{
}

/// The frame rate to show once more than a second has passed since the
/// count of frames started: the count; `None` before that.
/// `elapsed_nanos` is the time passed, in nanoseconds.
pub fn get_fps(elapsed_nanos: u128, frames: usize) -> (r: Option<usize>)
    ensures
        r == if elapsed_nanos > 1_000_000_000 {
            Some(frames)
        } else {
            None::<usize>
        },
{
    if elapsed_nanos > 1_000_000_000 {
        Some(frames)
    } else {
        None
    }
}

} // verus!
