//! Input bindings: named binds that map to keys and mouse buttons, and the
//! keys and buttons that are held, were just pressed, or were just released.

use vstd::prelude::*;
use crate::string_map::StrMap;

verus! {

broadcast use vstd::seq_lib::group_filter_ensures;

/// A mouse button.
#[derive(Clone, Copy, PartialEq, Eq, Structural, Debug)]
pub enum MouseButton {
    Left,
    Right,
    Middle,
    Back,
    Forward,
    Other(u16),
}

/// Something that a bind can be triggered by: a physical key, given by
/// its key code, or a mouse button.
#[derive(Clone, Copy, PartialEq, Eq, Structural, Debug)]
pub enum InputEventType {
    Key(u32),
    Mouse(MouseButton),
}

/// Whether a key or button went down or up.
#[derive(Clone, Copy, PartialEq, Eq, Structural, Debug)]
pub enum ElementState {
    Pressed,
    Released,
}

/// A window event that concerns the binds.
#[derive(Clone, Copy, PartialEq, Eq, Structural, Debug)]
pub enum InputEvent {
    /// A key with the given code went down or up.
    KeyboardInput { key: u32, state: ElementState },
    /// A mouse button went down or up.
    MouseInput { button: MouseButton, state: ElementState },
}

/// The state of the binds and of the keys and buttons.
pub struct InputManager {
    binds: StrMap<Vec<InputEventType>>,
    down_events: Vec<InputEventType>,
    just_pressed_events: Vec<InputEventType>,
    up_events: Vec<InputEventType>,
    is_mouse_locked: bool,
}

/// `ev` went down: it joins the held and the just pressed lists unless it
/// is held already.
pub open spec fn after_press(
    down: Seq<InputEventType>,
    pressed: Seq<InputEventType>,
    ev: InputEventType,
) -> (Seq<InputEventType>, Seq<InputEventType>) {
    if down.contains(ev) {
        (down, pressed)
    } else {
        (down.push(ev), pressed.push(ev))
    }
}

/// Whether `x` differs from `ev`.
pub open spec fn differs(ev: InputEventType) -> spec_fn(InputEventType) -> bool {
    |x: InputEventType| x != ev
}

/// `ev` went up: it joins the released list unless it is there, and leaves
/// the held list.
pub open spec fn after_release(
    down: Seq<InputEventType>,
    up: Seq<InputEventType>,
    ev: InputEventType,
) -> (Seq<InputEventType>, Seq<InputEventType>) {
    (
        down.filter(differs(ev)),
        if up.contains(ev) {
            up
        } else {
            up.push(ev)
        },
    )
}

/// Whether the bind `name` holds an event of `events`.
pub open spec fn bind_hit(
    binds: Map<Seq<char>, Seq<InputEventType>>,
    name: Seq<char>,
    events: Seq<InputEventType>,
) -> bool {
    binds.contains_key(name) && exists|i: int|
        0 <= i < events.len() && binds[name].contains(#[trigger] events[i])
}

/// Whether some bind holds `ev`.
pub open spec fn in_some_bind(binds: Map<Seq<char>, Seq<InputEventType>>, ev: InputEventType) -> bool {
    exists|name: Seq<char>| #[trigger] binds.contains_key(name) && binds[name].contains(ev)
}

/// Appending what a list lacks keeps it free of duplicates.
proof fn lemma_push_fresh(s: Seq<InputEventType>, x: InputEventType)
    requires
        s.no_duplicates(),
        !s.contains(x),
    ensures
        s.push(x).no_duplicates(),
{
    let g = s.push(x);
    assert forall|a: int, b: int| 0 <= a < g.len() && 0 <= b < g.len() && a != b implies g[a]
        != g[b] by {
        if a == g.len() - 1 {
            assert(s[b] == g[b]);
        } else if b == g.len() - 1 {
            assert(s[a] == g[a]);
        } else {
            assert(s[a] == g[a] && s[b] == g[b]);
        }
    }
}

/// Releasing a key or button takes that one out of the held list and puts
/// it in the released list; every other key or button stays held or not
/// held, and released or not released, as before.
pub proof fn lemma_release_touches_only_its_key(
    down: Seq<InputEventType>,
    up: Seq<InputEventType>,
    ev: InputEventType,
)
    ensures
        !after_release(down, up, ev).0.contains(ev),
        after_release(down, up, ev).1.contains(ev),
        forall|x: InputEventType|
            x != ev ==> (#[trigger] after_release(down, up, ev).0.contains(x) <==> down.contains(x)),
        forall|x: InputEventType|
            x != ev ==> (#[trigger] after_release(down, up, ev).1.contains(x) <==> up.contains(x)),
{
    let d = after_release(down, up, ev).0;
    let u = after_release(down, up, ev).1;
    assert(d == down.filter(differs(ev)));
    assert forall|x: InputEventType| x != ev implies (#[trigger] d.contains(x) <==> down.contains(x)) by {
        if down.contains(x) {
            let i = choose|i: int| 0 <= i < down.len() && down[i] == x;
            down.lemma_filter_contains(differs(ev), i);
        }
        if d.contains(x) {
            down.lemma_filter_contains_rev(differs(ev), x);
        }
    }
    if d.contains(ev) {
        let i = choose|i: int| 0 <= i < d.len() && d[i] == ev;
        down.lemma_filter_pred(differs(ev), i);
    }
    if !up.contains(ev) {
        assert(u[up.len() as int] == ev);
        assert forall|x: InputEventType| x != ev implies (#[trigger] u.contains(x) <==> up.contains(x)) by {
            if up.contains(x) {
                let i = choose|i: int| 0 <= i < up.len() && up[i] == x;
                assert(u[i] == x);
            }
            if u.contains(x) {
                let i = choose|i: int| 0 <= i < u.len() && u[i] == x;
                assert(up[i] == x);
            }
        }
    }
}

/// Pressing a key or button makes it held; every other key or button stays
/// held or not held as before.
pub proof fn lemma_press_touches_only_its_key(
    down: Seq<InputEventType>,
    pressed: Seq<InputEventType>,
    ev: InputEventType,
)
    ensures
        after_press(down, pressed, ev).0.contains(ev),
        forall|x: InputEventType|
            x != ev ==> (#[trigger] after_press(down, pressed, ev).0.contains(x) <==> down.contains(x)),
        down.contains(ev) ==> after_press(down, pressed, ev).1 == pressed,
        !down.contains(ev) ==> after_press(down, pressed, ev).1.contains(ev),
{
    if !down.contains(ev) {
        let d = down.push(ev);
        assert(d[down.len() as int] == ev);
        assert(pressed.push(ev)[pressed.len() as int] == ev);
        assert forall|x: InputEventType| x != ev implies (#[trigger] d.contains(x) <==> down.contains(x)) by {
            if down.contains(x) {
                let i = choose|i: int| 0 <= i < down.len() && down[i] == x;
                assert(d[i] == x);
            }
            if d.contains(x) {
                let i = choose|i: int| 0 <= i < d.len() && d[i] == x;
                assert(down[i] == x);
            }
        }
    }
}

fn seq_contains(v: &Vec<InputEventType>, ev: InputEventType) -> (r: bool)
    ensures
        r == v@.contains(ev),
{
    let mut i: usize = 0;
    while i < v.len()
        invariant
            i <= v@.len(),
            forall|j: int| 0 <= j < i ==> v@[j] != ev,
        decreases v@.len() - i,
    {
        if v[i] == ev {
            return true;
        }
        i = i + 1;
    }
    false
}

fn remove_all(v: &Vec<InputEventType>, ev: InputEventType) -> (r: Vec<InputEventType>)
    ensures
        r@ == v@.filter(differs(ev)),
{
    let ghost pred = differs(ev);
    let mut out: Vec<InputEventType> = Vec::new();
    let mut i: usize = 0;
    while i < v.len()
        invariant
            i <= v@.len(),
            out@ == v@.take(i as int).filter(pred),
            pred == differs(ev),
        decreases v@.len() - i,
    {
        proof {
            reveal_with_fuel(Seq::<_>::filter, 1);
            assert(v@.take(i + 1).drop_last() =~= v@.take(i as int));
            assert(v@.take(i + 1).last() == v@[i as int]);
            assert(pred(v@[i as int]) == (v@[i as int] != ev));
        }
        if v[i] != ev {
            out.push(v[i]);
        }
        i = i + 1;
    }
    assert(v@.take(v@.len() as int) =~= v@);
    out
}

fn copy_events(v: &Vec<InputEventType>) -> (r: Vec<InputEventType>)
    ensures
        r@ == v@,
{
    let mut out: Vec<InputEventType> = Vec::new();
    let mut i: usize = 0;
    while i < v.len()
        invariant
            i <= v@.len(),
            out@ == v@.take(i as int),
        decreases v@.len() - i,
    {
        out.push(v[i]);
        proof {
            assert(out@ =~= v@.take(i + 1));
        }
        i = i + 1;
    }
    assert(v@.take(v@.len() as int) =~= v@);
    out
}

fn any_in(events: &Vec<InputEventType>, bind: &Vec<InputEventType>) -> (r: bool)
    ensures
        r == exists|i: int| 0 <= i < events@.len() && bind@.contains(#[trigger] events@[i]),
{
    let mut i: usize = 0;
    while i < events.len()
        invariant
            i <= events@.len(),
            forall|j: int| 0 <= j < i ==> !bind@.contains(#[trigger] events@[j]),
        decreases events@.len() - i,
    {
        if seq_contains(bind, events[i]) {
            return true;
        }
        i = i + 1;
    }
    false
}

impl InputManager {
    /// The binds: for each name, the keys and buttons that trigger it.
    pub closed spec fn binds(&self) -> Map<Seq<char>, Seq<InputEventType>> {
        self.binds@.map_values(|v: Vec<InputEventType>| v@)
    }

    /// The keys and buttons that are held.
    pub closed spec fn down(&self) -> Seq<InputEventType> {
        self.down_events@
    }

    /// The keys and buttons that went down since the last update.
    pub closed spec fn just_pressed(&self) -> Seq<InputEventType> {
        self.just_pressed_events@
    }

    /// The keys and buttons that went up since the last update.
    pub closed spec fn released(&self) -> Seq<InputEventType> {
        self.up_events@
    }

    /// Whether the mouse is locked.
    pub closed spec fn mouse_locked(&self) -> bool {
        self.is_mouse_locked
    }

    /// The manager's well-formedness.
    pub closed spec fn wf(&self) -> bool {
        &&& self.binds.wf()
        &&& self.down_events@.no_duplicates()
        &&& self.up_events@.no_duplicates()
    }

    /// No key or button is held twice, nor released twice within a frame.
    pub proof fn lemma_events_distinct(&self)
        requires
            self.wf(),
        ensures
            self.down().no_duplicates(),
            self.released().no_duplicates(),
    {
    }

    /// A manager with no binds and nothing held.
    pub fn new() -> (r: Self)
        ensures
            r.wf(),
            r.binds() == Map::<Seq<char>, Seq<InputEventType>>::empty(),
            r.down() == Seq::<InputEventType>::empty(),
            r.just_pressed() == Seq::<InputEventType>::empty(),
            r.released() == Seq::<InputEventType>::empty(),
            !r.mouse_locked(),
    {
        let r = InputManager {
            binds: StrMap::new(),
            down_events: Vec::new(),
            just_pressed_events: Vec::new(),
            up_events: Vec::new(),
            is_mouse_locked: false,
        };
        assert(r.binds() =~= Map::<Seq<char>, Seq<InputEventType>>::empty());
        r
    }

    /// Adds a bind; where a bind of that name exists, the events are
    /// appended to its list.
    pub fn new_bind(&mut self, name: &str, input_events: Vec<InputEventType>)
        requires
            old(self).wf(),
        ensures
            final(self).wf(),
            final(self).binds() == old(self).binds().insert(
                name@,
                if old(self).binds().contains_key(name@) {
                    old(self).binds()[name@] + input_events@
                } else {
                    input_events@
                },
            ),
            final(self).down() == old(self).down(),
            final(self).just_pressed() == old(self).just_pressed(),
            final(self).released() == old(self).released(),
            final(self).mouse_locked() == old(self).mouse_locked(),
    {
        let ghost old_binds = self.binds();
        match self.binds.remove(name) {
            Some(mut evs) => {
                let mut i: usize = 0;
                let ghost start = evs@;
                while i < input_events.len()
                    invariant
                        i <= input_events@.len(),
                        evs@ == start + input_events@.take(i as int),
                    decreases input_events@.len() - i,
                {
                    evs.push(input_events[i]);
                    proof {
                        assert(start + input_events@.take(i + 1) =~= (start + input_events@.take(
                            i as int,
                        )).push(input_events@[i as int]));
                    }
                    i = i + 1;
                }
                assert(input_events@.take(input_events@.len() as int) =~= input_events@);
                self.binds.insert(name.to_string(), evs);
            },
            None => {
                self.binds.insert(name.to_string(), input_events);
            },
        }
        proof {
            broadcast use vstd::string::to_string_from_display_ensures_for_str;
        }
        assert(self.binds() =~= old_binds.insert(
            name@,
            if old_binds.contains_key(name@) {
                old_binds[name@] + input_events@
            } else {
                input_events@
            },
        ));
    }

    /// The keys and buttons of the bind `name`.
    pub fn get_bind_keys(&self, name: String) -> (r: Option<Vec<InputEventType>>)
        requires
            self.wf(),
        ensures
            match r {
                Some(v) => self.binds().contains_key(name@) && v@ == self.binds()[name@],
                None => !self.binds().contains_key(name@),
            },
    {
        match self.binds.get(name.as_str()) {
            Some(bind) => Some(copy_events(bind)),
            None => None,
        }
    }

    /// Registers a key or mouse button event. A key counts only where some
    /// bind holds it; a mouse button counts always.
    pub fn reg_event(&mut self, event: &InputEvent)
        requires
            old(self).wf(),
        ensures
            final(self).wf(),
            final(self).down().no_duplicates(),
            final(self).released().no_duplicates(),
            final(self).binds() == old(self).binds(),
            final(self).mouse_locked() == old(self).mouse_locked(),
            ({
                let (ev, state) = match *event {
                    InputEvent::KeyboardInput { key, state } => (InputEventType::Key(key), state),
                    InputEvent::MouseInput { button, state } => (InputEventType::Mouse(button), state),
                };
                let counts = match *event {
                    InputEvent::KeyboardInput { .. } => in_some_bind(old(self).binds(), ev),
                    InputEvent::MouseInput { .. } => true,
                };
                if !counts {
                    &&& final(self).down() == old(self).down()
                    &&& final(self).just_pressed() == old(self).just_pressed()
                    &&& final(self).released() == old(self).released()
                } else if state == ElementState::Pressed {
                    &&& (final(self).down(), final(self).just_pressed()) == after_press(
                        old(self).down(),
                        old(self).just_pressed(),
                        ev,
                    )
                    &&& final(self).released() == old(self).released()
                } else {
                    &&& (final(self).down(), final(self).released()) == after_release(
                        old(self).down(),
                        old(self).released(),
                        ev,
                    )
                    &&& final(self).just_pressed() == old(self).just_pressed()
                }
            }),
            ({
                let ev = match *event {
                    InputEvent::KeyboardInput { key, .. } => InputEventType::Key(key),
                    InputEvent::MouseInput { button, .. } => InputEventType::Mouse(button),
                };
                forall|x: InputEventType|
                    x != ev ==> (#[trigger] final(self).down().contains(x) <==> old(self).down().contains(x))
            }),
    {
        let ghost down0 = self.down();
        let ghost up0 = self.released();
        let ghost pressed0 = self.just_pressed();
        match *event {
            InputEvent::KeyboardInput { key, state } => {
                let ev = InputEventType::Key(key);
                proof {
                    lemma_release_touches_only_its_key(down0, up0, ev);
                    lemma_press_touches_only_its_key(down0, pressed0, ev);
                }
                if self.is_in_some_bind(ev) {
                    self.apply(ev, state);
                }
            },
            InputEvent::MouseInput { button, state } => {
                let ev = InputEventType::Mouse(button);
                proof {
                    lemma_release_touches_only_its_key(down0, up0, ev);
                    lemma_press_touches_only_its_key(down0, pressed0, ev);
                }
                self.apply(ev, state);
            },
        }
    }

    fn is_in_some_bind(&self, ev: InputEventType) -> (r: bool)
        requires
            self.wf(),
        ensures
            r == in_some_bind(self.binds(), ev),
    {
        let n = self.binds.len();
        let mut i: usize = 0;
        while i < n
            invariant
                self.wf(),
                n == self.binds.entries().len(),
                i <= n,
                forall|j: int|
                    0 <= j < i ==> !(#[trigger] self.binds.entries()[j]).1@.contains(ev),
            decreases n - i,
        {
            let (name, bind) = self.binds.entry_at(i);
            if seq_contains(bind, ev) {
                assert(self.binds().contains_key(name@) && self.binds()[name@].contains(ev));
                return true;
            }
            i = i + 1;
        }
        proof {
            if in_some_bind(self.binds(), ev) {
                let name = choose|name: Seq<char>| #[trigger] self.binds().contains_key(name) && self.binds()[name].contains(ev);
                self.binds.lemma_key_at(name);
                let j = choose|j: int| 0 <= j < self.binds.entries().len() && self.binds.entries()[j].0@ == name;
                assert(!self.binds.entries()[j].1@.contains(ev));
            }
        }
        false
    }

    fn apply(&mut self, ev: InputEventType, state: ElementState)
        requires
            old(self).wf(),
        ensures
            final(self).wf(),
            final(self).binds() == old(self).binds(),
            final(self).mouse_locked() == old(self).mouse_locked(),
            state == ElementState::Pressed ==> {
                &&& (final(self).down(), final(self).just_pressed()) == after_press(
                    old(self).down(),
                    old(self).just_pressed(),
                    ev,
                )
                &&& final(self).released() == old(self).released()
            },
            state == ElementState::Released ==> {
                &&& (final(self).down(), final(self).released()) == after_release(
                    old(self).down(),
                    old(self).released(),
                    ev,
                )
                &&& final(self).just_pressed() == old(self).just_pressed()
            },
    {
        match state {
            ElementState::Pressed => {
                if !seq_contains(&self.down_events, ev) {
                    proof {
                        lemma_push_fresh(self.down_events@, ev);
                    }
                    self.down_events.push(ev);
                    self.just_pressed_events.push(ev);
                }
            },
            ElementState::Released => {
                if !seq_contains(&self.up_events, ev) {
                    proof {
                        lemma_push_fresh(self.up_events@, ev);
                    }
                    self.up_events.push(ev);
                }
                proof {
                    crate::saves::lemma_filter_no_duplicates(self.down_events@, differs(ev));
                }
                self.down_events = remove_all(&self.down_events, ev);
            },
        }
    }

    /// Ends a frame: the just pressed and just released lists are emptied;
    /// what is held stays held.
    pub fn update(&mut self)
        requires
            old(self).wf(),
        ensures
            final(self).wf(),
            final(self).binds() == old(self).binds(),
            final(self).down() == old(self).down(),
            final(self).just_pressed() == Seq::<InputEventType>::empty(),
            final(self).released() == Seq::<InputEventType>::empty(),
            final(self).down().no_duplicates(),
            final(self).mouse_locked() == old(self).mouse_locked(),
    {
        self.just_pressed_events.clear();
        self.up_events.clear();
    }

    fn bind_hit_in(&self, events: &Vec<InputEventType>, requested_bind_name: &str) -> (r: bool)
        requires
            self.wf(),
        ensures
            r == bind_hit(self.binds(), requested_bind_name@, events@),
    {
        match self.binds.get(requested_bind_name) {
            Some(bind) => any_in(events, bind),
            None => false,
        }
    }

    /// Whether a key or button of the bind went down since the last update.
    pub fn is_bind_pressed(&self, requested_bind_name: &str) -> (r: bool)
        requires
            self.wf(),
        ensures
            r == bind_hit(self.binds(), requested_bind_name@, self.just_pressed()),
    {
        self.bind_hit_in(&self.just_pressed_events, requested_bind_name)
    }

    /// Whether a key or button of the bind is held.
    pub fn is_bind_down(&self, requested_bind_name: &str) -> (r: bool)
        requires
            self.wf(),
        ensures
            r == bind_hit(self.binds(), requested_bind_name@, self.down()),
    {
        self.bind_hit_in(&self.down_events, requested_bind_name)
    }

    /// Whether a key or button of the bind went up since the last update.
    pub fn is_bind_released(&self, requested_bind_name: &str) -> (r: bool)
        requires
            self.wf(),
        ensures
            r == bind_hit(self.binds(), requested_bind_name@, self.released()),
    {
        self.bind_hit_in(&self.up_events, requested_bind_name)
    }

    /// Whether the mouse is locked.
    pub fn is_mouse_locked(&self) -> (r: bool)
        ensures
            r == self.mouse_locked(),
    {
        self.is_mouse_locked
    }

    /// Locks or unlocks the mouse.
    pub fn set_mouse_locked(&mut self, lock: bool)
        ensures
            final(self).mouse_locked() == lock,
            final(self).binds() == old(self).binds(),
            final(self).down() == old(self).down(),
            final(self).just_pressed() == old(self).just_pressed(),
            final(self).released() == old(self).released(),
            old(self).wf() ==> final(self).wf(),
    {
        self.is_mouse_locked = lock
    }
}

/// A key or button that went down is held, and, unless it was held
/// already, counts as just pressed.
pub proof fn lemma_press_holds(
    down: Seq<InputEventType>,
    pressed: Seq<InputEventType>,
    ev: InputEventType,
)
    ensures
        after_press(down, pressed, ev).0.contains(ev),
        !down.contains(ev) ==> after_press(down, pressed, ev).1.contains(ev),
{
    if !down.contains(ev) {
        assert(down.push(ev)[down.len() as int] == ev);
        assert(pressed.push(ev)[pressed.len() as int] == ev);
    }
}

/// A key or button that goes down again while held changes nothing.
pub proof fn lemma_press_idempotent(
    down: Seq<InputEventType>,
    pressed: Seq<InputEventType>,
    ev: InputEventType,
)
    ensures
        ({
            let (d, p) = after_press(down, pressed, ev);
            after_press(d, p, ev) == (d, p)
        }),
{
    lemma_press_holds(down, pressed, ev);
}

/// A key or button that went up is no longer held and counts as just
/// released.
pub proof fn lemma_release_frees(
    down: Seq<InputEventType>,
    up: Seq<InputEventType>,
    ev: InputEventType,
)
    ensures
        !after_release(down, up, ev).0.contains(ev),
        after_release(down, up, ev).1.contains(ev),
{
    if !up.contains(ev) {
        assert(up.push(ev)[up.len() as int] == ev);
    }
    let f = down.filter(differs(ev));
    if f.contains(ev) {
        let k = choose|k: int| 0 <= k < f.len() && f[k] == ev;
        assert(differs(ev)(f[k]));
    }
}

} // verus!
