//! The immediate-mode UI's windows and widget trees: which windows exist,
//! the widgets in them, and the state that the last frame left in each
//! widget.
//!
//! `F` is the type of the sizes, spacings and slider values, which this
//! module only carries.

use vstd::prelude::*;
use crate::string_map::StrMap;

verus! {

broadcast use vstd::string::to_string_from_display_ensures_for_str;

/// What the last frame reported of a widget.
#[derive(Clone, Copy, PartialEq, Eq, Structural, Debug)]
pub struct WidgetState {
    pub left_clicked: bool,
    pub right_clicked: bool,
    pub double_clicked: bool,
    pub hovered: bool,
    pub dragged: bool,
    pub changed: bool,
}

/// What a widget shows.
#[derive(Debug)]
pub enum WidgetData<F> {
    Button(String),
    /// The text and its size.
    Label(String, F),
    Horizontal,
    Vertical,
    SinglelineTextEdit(String),
    MultilineTextEdit(String),
    /// Whether it is checked, and its label.
    Checkbox(bool, String),
    /// The value, the least and the greatest value.
    FloatSlider(F, F, F),
    /// The value, the least and the greatest value.
    IntSlider(i32, i32, i32),
    ProgressBar(F),
    /// The image's path.
    Image(String),
}

/// A widget and the widgets laid out inside it.
#[derive(Debug)]
pub struct Widget<F> {
    pub id: String,
    pub size: (F, F),
    pub widget_data: WidgetData<F>,
    pub children: Vec<Widget<F>>,
    pub state: WidgetState,
    pub spacing: F,
    pub theme: Option<String>,
}

/// A window and its widgets.
#[derive(Debug)]
pub struct UiManagerWindow<F> {
    pub position: Option<(F, F)>,
    pub size: Option<(F, F)>,
    pub widgets: Vec<Widget<F>>,
    pub transparent: bool,
    pub show_title_bar: bool,
    pub show_close_button: bool,
    pub show_on_top: bool,
    pub theme: Option<String>,
}

/// An image that is waiting to become a texture.
pub struct ImageToLoad {
    pub id: String,
    pub bytes: Vec<u8>,
    pub dimensions: [u32; 2],
}

/// The windows of the UI, by id, and the images waiting to become
/// textures, oldest first.
pub struct UiManager<F> {
    windows: StrMap<UiManagerWindow<F>>,
    images_to_load: Vec<ImageToLoad>,
}

/// Why a UI request was refused.
#[derive(Clone, Copy, PartialEq, Eq, Structural, Debug)]
pub enum UiError {
    /// No window has the id.
    WindowNotFound,
    /// A window with the id exists already.
    WindowExists,
    /// No widget has the id.
    WidgetNotFound,
    /// A widget with the id exists already.
    WidgetExists,
    /// The widget holds no text.
    NoText,
    /// The widget holds no number.
    NoNumber,
    /// The widget holds no truth value.
    NoBool,
}

/// The number that a widget holds.
#[derive(PartialEq, Eq, Structural, Debug)]
pub enum NumericValue<F> {
    Int(i32),
    Float(F),
}

/// A widget tree as a value.
pub struct WidgetView<F> {
    pub id: Seq<char>,
    pub size: (F, F),
    pub data: WidgetData<F>,
    pub children: Seq<WidgetView<F>>,
    pub state: WidgetState,
    pub spacing: F,
    pub theme: Option<Seq<char>>,
}

/// A window as a value.
pub struct WindowView<F> {
    pub position: Option<(F, F)>,
    pub size: Option<(F, F)>,
    pub widgets: Seq<WidgetView<F>>,
    pub transparent: bool,
    pub show_title_bar: bool,
    pub show_close_button: bool,
    pub show_on_top: bool,
    pub theme: Option<Seq<char>>,
}

/// The view of an optional string.
pub open spec fn opt_view(s: Option<String>) -> Option<Seq<char>> {
    match s {
        Some(t) => Some(t@),
        None => None,
    }
}

impl<F> Widget<F> {
    /// The widget tree as a value.
    pub open spec fn view(&self) -> WidgetView<F>
        decreases self,
    {
        proof {
            broadcast use vstd::std_specs::vec::group_vec_axioms;

            assert(decreases_to!(self => self.children));
            assert(decreases_to!(self.children => self.children@));
        }
        WidgetView {
            id: self.id@,
            size: self.size,
            data: self.widget_data,
            children: views_of(self.children@),
            state: self.state,
            spacing: self.spacing,
            theme: opt_view(self.theme),
        }
    }
}

/// The trees of a list of widgets.
pub open spec fn views_of<F>(s: Seq<Widget<F>>) -> Seq<WidgetView<F>>
    decreases s,
{
    if s.len() == 0 {
        Seq::empty()
    } else {
        views_of(s.subrange(0, s.len() - 1)).push(s[s.len() - 1].view())
    }
}

impl<F> UiManagerWindow<F> {
    /// The window as a value.
    pub open spec fn view(&self) -> WindowView<F> {
        WindowView {
            position: self.position,
            size: self.size,
            widgets: views_of(self.widgets@),
            transparent: self.transparent,
            show_title_bar: self.show_title_bar,
            show_close_button: self.show_close_button,
            show_on_top: self.show_on_top,
            theme: opt_view(self.theme),
        }
    }
}

/// The tree at each place of a list of widgets is the tree of the widget
/// there.
pub proof fn lemma_views_of<F>(s: Seq<Widget<F>>)
    ensures
        views_of(s).len() == s.len(),
        forall|i: int| 0 <= i < s.len() ==> #[trigger] views_of(s)[i] == s[i].view(),
    decreases s.len(),
{
    if s.len() > 0 {
        let t = s.subrange(0, s.len() - 1);
        lemma_views_of(t);
        assert forall|i: int| 0 <= i < s.len() implies #[trigger] views_of(s)[i] == s[i].view() by {
            if i < s.len() - 1 {
                assert(t[i] == s[i]);
            }
        }
    }
}

/// The index of the first widget of `s` with id `id`.
pub open spec fn first_with_id<F>(s: Seq<WidgetView<F>>, id: Seq<char>) -> Option<int> {
    if exists|i: int| 0 <= i < s.len() && #[trigger] s[i].id == id {
        Some(
            choose|i: int|
                0 <= i < s.len() && #[trigger] s[i].id == id && forall|j: int|
                    0 <= j < i ==> s[j].id != id,
        )
    } else {
        None
    }
}

/// The index of the last widget of `s` with id `id`.
pub open spec fn last_with_id<F>(s: Seq<WidgetView<F>>, id: Seq<char>) -> Option<int> {
    if exists|i: int| 0 <= i < s.len() && #[trigger] s[i].id == id {
        Some(
            choose|i: int|
                0 <= i < s.len() && #[trigger] s[i].id == id && forall|j: int|
                    i < j < s.len() ==> s[j].id != id,
        )
    } else {
        None
    }
}

/// The state of the first widget with id `id` met going through the trees
/// of `s` in order, each widget before the widgets inside it.
pub open spec fn find_state<F>(s: Seq<WidgetView<F>>, id: Seq<char>) -> Option<WidgetState>
    decreases s,
{
    if s.len() == 0 {
        None
    } else if s[0].id == id {
        Some(s[0].state)
    } else {
        proof {
            assert(decreases_to!(s => s[0]));
        }
        match find_state(s[0].children, id) {
            Some(st) => Some(st),
            None => find_state(s.subrange(1, s.len() as int), id),
        }
    }
}

/// The state of the first widget with id `widget_id` met going through the
/// trees of `widgets` in order; see [find_state].
fn find_widget_state<F>(widgets: &Vec<Widget<F>>, widget_id: &String) -> (r: Option<WidgetState>)
    ensures
        r == find_state(views_of(widgets@), widget_id@),
    decreases widgets,
{
    let ghost s = views_of(widgets@);
    proof {
        lemma_views_of(widgets@);
        assert(s.subrange(0, s.len() as int) =~= s);
    }
    let mut i: usize = 0;
    while i < widgets.len()
        invariant
            i <= widgets@.len(),
            s == views_of(widgets@),
            s.len() == widgets@.len(),
            forall|k: int| 0 <= k < widgets@.len() ==> #[trigger] s[k] == widgets@[k].view(),
            find_state(s, widget_id@) == find_state(s.subrange(i as int, s.len() as int), widget_id@),
        decreases widgets@.len() - i,
    {
        let w = &widgets[i];
        let ghost t = s.subrange(i as int, s.len() as int);
        proof {
            assert(t[0] == w.view());
            assert(t.subrange(1, t.len() as int) =~= s.subrange(i + 1, s.len() as int));
        }
        if w.id == *widget_id {
            return Some(w.state);
        }
        proof {
            broadcast use vstd::std_specs::vec::group_vec_axioms;

            assert(decreases_to!(widgets => widgets[i as int]));
            assert(decreases_to!(widgets[i as int] => widgets[i as int].children));
        }
        match find_widget_state(&w.children, widget_id) {
            Some(state) => {
                return Some(state);
            },
            None => {},
        }
        i = i + 1;
    }
    None
}

/// The view of an optional string slice.
pub open spec fn opt_view_str(s: Option<&str>) -> Option<Seq<char>> {
    match s {
        Some(t) => Some(t@),
        None => None,
    }
}

/// What a widget's text is: the text of a button, label or text field, or
/// a checkbox's label.
pub open spec fn widget_text<F>(data: WidgetData<F>) -> Option<Seq<char>> {
    match data {
        WidgetData::Button(t) => Some(t@),
        WidgetData::Label(t, _) => Some(t@),
        WidgetData::SinglelineTextEdit(t) => Some(t@),
        WidgetData::MultilineTextEdit(t) => Some(t@),
        WidgetData::Checkbox(_, t) => Some(t@),
        _ => None,
    }
}

/// What a widget's number is: a slider's value or a progress bar's.
pub open spec fn widget_number<F>(data: WidgetData<F>) -> Option<NumericValue<F>> {
    match data {
        WidgetData::IntSlider(v, _, _) => Some(NumericValue::Int(v)),
        WidgetData::FloatSlider(v, _, _) => Some(NumericValue::Float(v)),
        WidgetData::ProgressBar(v) => Some(NumericValue::Float(v)),
        _ => None,
    }
}

/// What a widget's truth value is: whether a checkbox is checked.
pub open spec fn widget_bool<F>(data: WidgetData<F>) -> Option<bool> {
    match data {
        WidgetData::Checkbox(b, _) => Some(b),
        _ => None,
    }
}

/// A window with no widgets, shown with its title bar and close button.
pub open spec fn new_window_view<F>(transparent: bool) -> WindowView<F> {
    WindowView {
        position: None,
        size: None,
        widgets: Seq::empty(),
        transparent,
        show_title_bar: true,
        show_close_button: true,
        show_on_top: false,
        theme: None,
    }
}

/// The index of the first widget of `widgets` with id `widget_id`.
fn first_index<F>(widgets: &Vec<Widget<F>>, widget_id: &String) -> (r: Option<usize>)
    ensures
        match r {
            Some(i) => i < widgets@.len() && first_with_id(views_of(widgets@), widget_id@) == Some(
                i as int,
            ),
            None => first_with_id(views_of(widgets@), widget_id@) is None,
        },
{
    let ghost s = views_of(widgets@);
    proof {
        lemma_views_of(widgets@);
    }
    let mut i: usize = 0;
    while i < widgets.len()
        invariant
            i <= widgets@.len(),
            s == views_of(widgets@),
            s.len() == widgets@.len(),
            forall|k: int| 0 <= k < widgets@.len() ==> #[trigger] s[k] == widgets@[k].view(),
            forall|j: int| 0 <= j < i ==> s[j].id != widget_id@,
        decreases widgets@.len() - i,
    {
        if widgets[i].id == *widget_id {
            proof {
                assert(s[i as int].id == widget_id@);
                let c = choose|c: int|
                    0 <= c < s.len() && #[trigger] s[c].id == widget_id@ && forall|j: int|
                        0 <= j < c ==> s[j].id != widget_id@;
                assert(c == i) by {
                    if c < i {
                    } else if c > i {
                        assert(s[i as int].id != widget_id@);
                    }
                }
            }
            return Some(i);
        }
        i = i + 1;
    }
    None
}

/// The index of the last widget of `widgets` with id `widget_id`.
fn last_index<F>(widgets: &Vec<Widget<F>>, widget_id: &String) -> (r: Option<usize>)
    ensures
        match r {
            Some(i) => i < widgets@.len() && last_with_id(views_of(widgets@), widget_id@) == Some(
                i as int,
            ),
            None => last_with_id(views_of(widgets@), widget_id@) is None,
        },
{
    let ghost s = views_of(widgets@);
    proof {
        lemma_views_of(widgets@);
    }
    let mut found: Option<usize> = None;
    let mut i: usize = 0;
    while i < widgets.len()
        invariant
            i <= widgets@.len(),
            s == views_of(widgets@),
            s.len() == widgets@.len(),
            forall|k: int| 0 <= k < widgets@.len() ==> #[trigger] s[k] == widgets@[k].view(),
            match found {
                Some(f) => f < i && s[f as int].id == widget_id@ && forall|j: int|
                    f < j < i ==> s[j].id != widget_id@,
                None => forall|j: int| 0 <= j < i ==> s[j].id != widget_id@,
            },
        decreases widgets@.len() - i,
    {
        if widgets[i].id == *widget_id {
            found = Some(i);
        }
        i = i + 1;
    }
    proof {
        if let Some(f) = found {
            let c = choose|c: int|
                0 <= c < s.len() && #[trigger] s[c].id == widget_id@ && forall|j: int|
                    c < j < s.len() ==> s[j].id != widget_id@;
            assert(c == f) by {
                if c < f {
                    assert(s[f as int].id == widget_id@);
                } else if c > f {
                }
            }
        }
    }
    found
}

/// Removing the first widget with id `target` below `w`: among `w`'s own
/// widgets first, then below each of them in order; and whether one was
/// removed.
pub open spec fn removed_below<F>(target: Seq<char>, w: WidgetView<F>) -> (WidgetView<F>, bool)
    decreases w,
{
    match first_with_id(w.children, target) {
        Some(j) => (WidgetView { children: w.children.remove(j), ..w }, true),
        None => {
            let (cs, found) = removed_among(target, w.children);
            if found {
                (WidgetView { children: cs, ..w }, true)
            } else {
                (w, false)
            }
        },
    }
}

/// Removing the first widget with id `target` below the widgets of `s`, in
/// order; and whether one was removed.
pub open spec fn removed_among<F>(target: Seq<char>, s: Seq<WidgetView<F>>) -> (
    Seq<WidgetView<F>>,
    bool,
)
    decreases s,
{
    if s.len() == 0 {
        (s, false)
    } else {
        let (c, found) = removed_below(target, s[0]);
        if found {
            (s.update(0, c), true)
        } else {
            let (rest, found_rest) = removed_among(target, s.subrange(1, s.len() as int));
            if found_rest {
                (seq![s[0]] + rest, true)
            } else {
                (s, false)
            }
        }
    }
}

/// `w` with every widget with id `id`, `w` itself included, changed by
/// `set`, except below a widget so changed.
pub open spec fn changed_tree<F>(
    w: WidgetView<F>,
    id: Seq<char>,
    set: spec_fn(WidgetView<F>) -> WidgetView<F>,
) -> WidgetView<F>
    decreases w,
{
    if w.id == id {
        set(w)
    } else {
        WidgetView { children: changed_trees(w.children, id, set), ..w }
    }
}

/// [changed_tree] applied to each widget of `s`.
pub open spec fn changed_trees<F>(
    s: Seq<WidgetView<F>>,
    id: Seq<char>,
    set: spec_fn(WidgetView<F>) -> WidgetView<F>,
) -> Seq<WidgetView<F>>
    decreases s,
{
    if s.len() == 0 {
        s
    } else {
        seq![changed_tree(s[0], id, set)] + changed_trees(s.subrange(1, s.len() as int), id, set)
    }
}

/// A window's widgets changed by `set` as a setting of the widget with id
/// `id` is changed: each one in order is changed as by [changed_tree], up
/// to and including the first that has the id itself; and whether one had
/// it.
pub open spec fn changed_top<F>(
    s: Seq<WidgetView<F>>,
    id: Seq<char>,
    set: spec_fn(WidgetView<F>) -> WidgetView<F>,
) -> (Seq<WidgetView<F>>, bool)
    decreases s.len(),
{
    if s.len() == 0 {
        (s, false)
    } else if s[0].id == id {
        (s.update(0, set(s[0])), true)
    } else {
        let (rest, found) = changed_top(s.subrange(1, s.len() as int), id, set);
        (seq![changed_tree(s[0], id, set)] + rest, found)
    }
}

/// A widget with its theme replaced.
pub open spec fn with_theme<F>(theme: Option<Seq<char>>) -> spec_fn(WidgetView<F>) -> WidgetView<F> {
    |w: WidgetView<F>| WidgetView { theme: theme, ..w }
}

/// A widget with its spacing replaced.
pub open spec fn with_spacing<F>(spacing: F) -> spec_fn(WidgetView<F>) -> WidgetView<F> {
    |w: WidgetView<F>| WidgetView { spacing: spacing, ..w }
}

/// Whether some widget of `s` has id `id`.
pub open spec fn has_id<F>(s: Seq<WidgetView<F>>, id: Seq<char>) -> bool {
    exists|k: int| 0 <= k < s.len() && #[trigger] s[k].id == id
}

/// Adding `new`, whose id is `new_id`, below `w`, as the last child of the
/// first widget with id `target` met below `w` (see [added_among]); and
/// whether it was added.
pub open spec fn added_below<F>(
    target: Seq<char>,
    w: WidgetView<F>,
    new: WidgetView<F>,
    new_id: Seq<char>,
) -> (WidgetView<F>, bool)
    decreases w,
{
    let (cs, found) = added_among(target, w.children, new, new_id);
    if found {
        (WidgetView { children: cs, ..w }, true)
    } else {
        (w, false)
    }
}

/// Adding `new` below the widgets of `s`: the widgets are taken in order; the
/// first with id `target` gets `new` as its last child, unless one of its
/// children has id `new_id` already, which ends the search with nothing
/// added; a widget without the id has the search go on below it first.
pub open spec fn added_among<F>(
    target: Seq<char>,
    s: Seq<WidgetView<F>>,
    new: WidgetView<F>,
    new_id: Seq<char>,
) -> (Seq<WidgetView<F>>, bool)
    decreases s,
{
    if s.len() == 0 {
        (s, false)
    } else if s[0].id == target {
        if has_id(s[0].children, new_id) {
            (s, false)
        } else {
            (s.update(0, WidgetView { children: s[0].children.push(new), ..s[0] }), true)
        }
    } else {
        let (c, found) = added_below(target, s[0], new, new_id);
        if found {
            (s.update(0, c), true)
        } else {
            let (rest, found_rest) = added_among(target, s.subrange(1, s.len() as int), new, new_id);
            if found_rest {
                (seq![s[0]] + rest, true)
            } else {
                (s, false)
            }
        }
    }
}

/// A window's widgets after adding `new` under the parent with id `parent`:
/// the widgets are taken in order; the first with id `parent` gets `new` as
/// its last child, unless `new` has a child with id `new_id`, and nothing
/// after it is touched; each widget before it gets `new` added below it as
/// by [added_below].
pub open spec fn added_top<F>(
    parent: Seq<char>,
    s: Seq<WidgetView<F>>,
    new: WidgetView<F>,
    new_id: Seq<char>,
) -> Seq<WidgetView<F>>
    decreases s.len(),
{
    if s.len() == 0 {
        s
    } else if s[0].id == parent {
        if has_id(new.children, new_id) {
            s
        } else {
            s.update(0, WidgetView { children: s[0].children.push(new), ..s[0] })
        }
    } else {
        seq![added_below(parent, s[0], new, new_id).0] + added_top(
            parent,
            s.subrange(1, s.len() as int),
            new,
            new_id,
        )
    }
}

impl<F: Copy> WidgetData<F> {
    /// A copy of the data.
    pub fn duplicate(&self) -> (r: WidgetData<F>)
        ensures
            r == *self,
    {
        match self {
            WidgetData::Button(t) => WidgetData::Button(t.clone()),
            WidgetData::Label(t, size) => WidgetData::Label(t.clone(), *size),
            WidgetData::Horizontal => WidgetData::Horizontal,
            WidgetData::Vertical => WidgetData::Vertical,
            WidgetData::SinglelineTextEdit(t) => WidgetData::SinglelineTextEdit(t.clone()),
            WidgetData::MultilineTextEdit(t) => WidgetData::MultilineTextEdit(t.clone()),
            WidgetData::Checkbox(b, t) => WidgetData::Checkbox(*b, t.clone()),
            WidgetData::FloatSlider(v, lo, hi) => WidgetData::FloatSlider(*v, *lo, *hi),
            WidgetData::IntSlider(v, lo, hi) => WidgetData::IntSlider(*v, *lo, *hi),
            WidgetData::ProgressBar(v) => WidgetData::ProgressBar(*v),
            WidgetData::Image(t) => WidgetData::Image(t.clone()),
        }
    }
}

fn duplicate_theme(theme: &Option<String>) -> (r: Option<String>)
    ensures
        r == *theme,
{
    match theme {
        Some(t) => Some(t.clone()),
        None => None,
    }
}

impl<F: Copy> Widget<F> {
    /// A copy of the widget tree.
    pub fn duplicate(&self) -> (r: Widget<F>)
        ensures
            r.view() == self.view(),
        decreases self,
    {
        let mut children: Vec<Widget<F>> = Vec::new();
        let mut i: usize = 0;
        proof {
            lemma_views_of(self.children@);
        }
        while i < self.children.len()
            invariant
                i <= self.children@.len(),
                children@.len() == i,
                views_of(self.children@).len() == self.children@.len(),
                forall|k: int| 0 <= k < self.children@.len() ==> #[trigger] views_of(self.children@)[k] == self.children@[k].view(),
                forall|k: int| 0 <= k < i ==> #[trigger] children@[k].view() == self.children@[k].view(),
            decreases self.children@.len() - i,
        {
            proof {
                broadcast use vstd::std_specs::vec::group_vec_axioms;

                assert(decreases_to!(self => self.children));
                assert(decreases_to!(self.children => self.children[i as int]));
            }
            let c = self.children[i].duplicate();
            children.push(c);
            i = i + 1;
        }
        let r = Widget {
            id: self.id.clone(),
            size: self.size,
            widget_data: self.widget_data.duplicate(),
            children,
            state: self.state,
            spacing: self.spacing,
            theme: duplicate_theme(&self.theme),
        };
        proof {
            lemma_views_of(r.children@);
            assert(views_of(r.children@) =~= views_of(self.children@));
        }
        r
    }
}

/// Removes the first widget with id `target` below `current`: see
/// [removed_below].
fn remove_child<F: Copy>(target: &String, current: &mut Widget<F>) -> (r: bool)
    ensures
        (final(current).view(), r) == removed_below(target@, old(current).view()),
    decreases old(current).view(),
{
    let ghost v = current.view();
    proof {
        lemma_views_of(current.children@);
    }
    match first_index(&current.children, target) {
        Some(j) => {
            let ghost before = current.children@;
            current.children.remove(j);
            proof {
                lemma_views_of(current.children@);
                assert(views_of(current.children@) =~= views_of(before).remove(j as int));
                assert(current.view() == WidgetView { children: v.children.remove(j as int), ..v });
            }
            true
        },
        None => {
            let ghost vs = v.children;
            let ghost n = vs.len() as int;
            let mut i: usize = 0;
            proof {
                assert(vs.subrange(0, n) =~= vs);
                assert(vs.subrange(0, 0) + vs.subrange(0, n) =~= vs);
            }
            while i < current.children.len()
                invariant
                    i <= current.children@.len(),
                    n == vs.len(),
                    vs == v.children,
                    current.children@.len() == n,
                    current.id == old(current).id,
                    current.size == old(current).size,
                    current.widget_data == old(current).widget_data,
                    current.state == old(current).state,
                    current.spacing == old(current).spacing,
                    current.theme == old(current).theme,
                    v == old(current).view(),
                    first_with_id(vs, target@) is None,
                    forall|k: int| 0 <= k < n ==> #[trigger] current.children@[k].view() == vs[k],
                    removed_among(target@, vs) == ({
                        let (rest, found) = removed_among(target@, vs.subrange(i as int, n));
                        (vs.subrange(0, i as int) + rest, found)
                    }),
                decreases n - i,
            {
                let ghost before = current.children@;
                let ghost t = vs.subrange(i as int, n);
                proof {
                    assert(t[0] == vs[i as int]);
                    assert(t.subrange(1, t.len() as int) =~= vs.subrange(i + 1, n));
                    assert(vs[i as int] == v.children[i as int]);
                }
                let found = remove_child(target, &mut current.children[i]);
                if found {
                    proof {
                        lemma_views_of(current.children@);
                        lemma_views_of(before);
                        let c = removed_below(target@, vs[i as int]).0;
                        assert(views_of(current.children@) =~= vs.update(i as int, c));
                        assert(vs.subrange(0, i as int) + t.update(0, c) =~= vs.update(i as int, c));
                    }
                    return true;
                }
                proof {
                    let rest = removed_among(target@, vs.subrange(i + 1, n));
                    assert(vs.subrange(0, i as int) + (seq![vs[i as int]] + rest.0) =~= vs.subrange(
                        0,
                        i + 1,
                    ) + rest.0);
                }
                i = i + 1;
            }
            proof {
                lemma_views_of(current.children@);
                assert(views_of(current.children@) =~= vs);
                assert(vs.subrange(0, n) =~= vs);
            }
            false
        },
    }
}

/// [changed_trees] changes each widget on its own.
pub proof fn lemma_changed_trees<F>(
    s: Seq<WidgetView<F>>,
    id: Seq<char>,
    set: spec_fn(WidgetView<F>) -> WidgetView<F>,
)
    ensures
        changed_trees(s, id, set).len() == s.len(),
        forall|k: int|
            0 <= k < s.len() ==> #[trigger] changed_trees(s, id, set)[k] == changed_tree(s[k], id, set),
    decreases s.len(),
{
    if s.len() > 0 {
        let t = s.subrange(1, s.len() as int);
        lemma_changed_trees(t, id, set);
        assert forall|k: int| 0 <= k < s.len() implies #[trigger] changed_trees(s, id, set)[k]
            == changed_tree(s[k], id, set) by {
            if k > 0 {
                assert(t[k - 1] == s[k]);
            }
        }
    }
}

/// Sets the theme of every widget with id `widget_id` in the tree of
/// `current`, the root included, but not below a widget so set; true
/// where the root has the id.
fn set_child_widget_theme<F: Copy>(current: &mut Widget<F>, widget_id: &String, theme: &Option<String>) -> (r: bool)
    ensures
        final(current).view() == changed_tree(old(current).view(), widget_id@, with_theme(opt_view(*theme))),
        r == (old(current).view().id == widget_id@),
    decreases old(current).view(),
{
    let ghost v = current.view();
    if current.id == *widget_id {
        current.theme = duplicate_theme(theme);
        proof {
            lemma_views_of(current.children@);
            assert(current.view() == (with_theme(opt_view(*theme)))(v));
        }
        return true;
    }
    let ghost vs = v.children;
    let ghost n = vs.len() as int;
    proof {
        lemma_views_of(current.children@);
        lemma_changed_trees(vs, widget_id@, with_theme(opt_view(*theme)));
    }
    let mut i: usize = 0;
    while i < current.children.len()
        invariant
            i <= current.children@.len(),
            n == vs.len(),
            vs == v.children,
            current.children@.len() == n,
            current.id == old(current).id,
            current.size == old(current).size,
            current.widget_data == old(current).widget_data,
            current.state == old(current).state,
            current.spacing == old(current).spacing,
            current.theme == old(current).theme,
            v == old(current).view(),
            v.id != widget_id@,
            changed_trees(vs, widget_id@, with_theme(opt_view(*theme))).len() == n,
            forall|k: int|
                0 <= k < n ==> #[trigger] changed_trees(vs, widget_id@, with_theme(opt_view(*theme)))[k]
                    == changed_tree(vs[k], widget_id@, with_theme(opt_view(*theme))),
            forall|k: int| 0 <= k < i ==> #[trigger] current.children@[k].view() == changed_tree(
                vs[k],
                widget_id@,
                with_theme(opt_view(*theme)),
            ),
            forall|k: int| i <= k < n ==> #[trigger] current.children@[k].view() == vs[k],
        decreases n - i,
    {
        proof {
            assert(vs[i as int] == v.children[i as int]);
        }
        set_child_widget_theme(&mut current.children[i], widget_id, theme);
        i = i + 1;
    }
    proof {
        lemma_views_of(current.children@);
        assert(views_of(current.children@) =~= changed_trees(vs, widget_id@, with_theme(opt_view(*theme))));
    }
    false
}

/// Sets the spacing of every widget with id `widget_id` in the tree of
/// `current`, the root included, but not below a widget so set; true
/// where the root has the id.
fn set_child_widget_spacing<F: Copy>(current: &mut Widget<F>, widget_id: &String, spacing: F) -> (r: bool)
    ensures
        final(current).view() == changed_tree(old(current).view(), widget_id@, with_spacing(spacing)),
        r == (old(current).view().id == widget_id@),
    decreases old(current).view(),
{
    let ghost v = current.view();
    if current.id == *widget_id {
        current.spacing = spacing;
        proof {
            lemma_views_of(current.children@);
            assert(current.view() == (with_spacing(spacing))(v));
        }
        return true;
    }
    let ghost vs = v.children;
    let ghost n = vs.len() as int;
    proof {
        lemma_views_of(current.children@);
        lemma_changed_trees(vs, widget_id@, with_spacing(spacing));
    }
    let mut i: usize = 0;
    while i < current.children.len()
        invariant
            i <= current.children@.len(),
            n == vs.len(),
            vs == v.children,
            current.children@.len() == n,
            current.id == old(current).id,
            current.size == old(current).size,
            current.widget_data == old(current).widget_data,
            current.state == old(current).state,
            current.spacing == old(current).spacing,
            current.theme == old(current).theme,
            v == old(current).view(),
            v.id != widget_id@,
            changed_trees(vs, widget_id@, with_spacing(spacing)).len() == n,
            forall|k: int|
                0 <= k < n ==> #[trigger] changed_trees(vs, widget_id@, with_spacing(spacing))[k]
                    == changed_tree(vs[k], widget_id@, with_spacing(spacing)),
            forall|k: int| 0 <= k < i ==> #[trigger] current.children@[k].view() == changed_tree(
                vs[k],
                widget_id@,
                with_spacing(spacing),
            ),
            forall|k: int| i <= k < n ==> #[trigger] current.children@[k].view() == vs[k],
        decreases n - i,
    {
        proof {
            assert(vs[i as int] == v.children[i as int]);
        }
        set_child_widget_spacing(&mut current.children[i], widget_id, spacing);
        i = i + 1;
    }
    proof {
        lemma_views_of(current.children@);
        assert(views_of(current.children@) =~= changed_trees(vs, widget_id@, with_spacing(spacing)));
    }
    false
}

/// Whether a widget of `widgets` has id `widget_id`.
fn any_with_id<F>(widgets: &Vec<Widget<F>>, widget_id: &String) -> (r: bool)
    ensures
        r == has_id(views_of(widgets@), widget_id@),
{
    let found = first_index(widgets, widget_id);
    proof {
        lemma_views_of(widgets@);
        if has_id(views_of(widgets@), widget_id@) {
            let k = choose|k: int| 0 <= k < views_of(widgets@).len() && #[trigger] views_of(widgets@)[k].id == widget_id@;
            assert(views_of(widgets@)[k].id == widget_id@);
        }
    }
    found.is_some()
}

/// Adds a copy of `to_add`, whose id is `to_add_id`, below `current`: see
/// [added_below].
fn add_child<F: Copy>(
    target: &String,
    current: &mut Widget<F>,
    to_add: &Widget<F>,
    to_add_id: &String,
) -> (r: bool)
    ensures
        (final(current).view(), r) == added_below(
            target@,
            old(current).view(),
            to_add.view(),
            to_add_id@,
        ),
    decreases old(current).view(),
{
    let ghost v = current.view();
    let ghost vs = v.children;
    let ghost n = vs.len() as int;
    let ghost nv = to_add.view();
    proof {
        lemma_views_of(current.children@);
        assert(vs.subrange(0, n) =~= vs);
        assert(vs.subrange(0, 0) + vs.subrange(0, n) =~= vs);
    }
    let mut i: usize = 0;
    while i < current.children.len()
        invariant
            i <= current.children@.len(),
            n == vs.len(),
            vs == v.children,
            nv == to_add.view(),
            current.children@.len() == n,
            current.id == old(current).id,
            current.size == old(current).size,
            current.widget_data == old(current).widget_data,
            current.state == old(current).state,
            current.spacing == old(current).spacing,
            current.theme == old(current).theme,
            v == old(current).view(),
            forall|k: int| 0 <= k < n ==> #[trigger] current.children@[k].view() == vs[k],
            added_among(target@, vs, nv, to_add_id@) == ({
                let (rest, found) = added_among(target@, vs.subrange(i as int, n), nv, to_add_id@);
                (vs.subrange(0, i as int) + rest, found)
            }),
        decreases n - i,
    {
        let ghost before = current.children@;
        let ghost t = vs.subrange(i as int, n);
        proof {
            assert(t[0] == vs[i as int]);
            assert(t.subrange(1, t.len() as int) =~= vs.subrange(i + 1, n));
            assert(vs[i as int] == v.children[i as int]);
            lemma_views_of(current.children@[i as int].children@);
        }
        if current.children[i].id == *target {
            if any_with_id(&current.children[i].children, to_add_id) {
                proof {
                    lemma_views_of(current.children@);
                    assert(views_of(current.children@) =~= vs);
                    assert(vs.subrange(0, i as int) + t =~= vs);
                }
                return false;
            }
            let copy = to_add.duplicate();
            let ghost old_child = current.children@[i as int];
            let ghost old_cc = old_child.children@;
            proof {
                lemma_views_of(old_cc);
                assert(old_child.view() == vs[i as int]);
                assert(views_of(old_cc) == vs[i as int].children);
            }
            let child = &mut current.children[i];
            child.children.push(copy);
            proof {
                let c = WidgetView { children: vs[i as int].children.push(nv), ..vs[i as int] };
                let new_child = current.children@[i as int];
                assert(new_child.children@ == old_cc.push(copy));
                assert(new_child.id == old_child.id);
                lemma_views_of(new_child.children@);
                assert(views_of(new_child.children@) =~= views_of(old_cc).push(nv));
                assert(views_of(current.children@[i as int].children@) =~= vs[i as int].children.push(nv));
                assert(current.children@[i as int].view() == c);
                lemma_views_of(current.children@);
                assert(views_of(current.children@) =~= vs.update(i as int, c));
                assert(vs.subrange(0, i as int) + t.update(0, c) =~= vs.update(i as int, c));
            }
            return true;
        }
        let found = add_child(target, &mut current.children[i], to_add, to_add_id);
        if found {
            proof {
                lemma_views_of(current.children@);
                let c = added_below(target@, vs[i as int], nv, to_add_id@).0;
                assert(views_of(current.children@) =~= vs.update(i as int, c));
                assert(vs.subrange(0, i as int) + t.update(0, c) =~= vs.update(i as int, c));
            }
            return true;
        }
        proof {
            let rest = added_among(target@, vs.subrange(i + 1, n), nv, to_add_id@);
            assert(vs.subrange(0, i as int) + (seq![vs[i as int]] + rest.0) =~= vs.subrange(0, i + 1)
                + rest.0);
        }
        i = i + 1;
    }
    proof {
        lemma_views_of(current.children@);
        assert(views_of(current.children@) =~= vs);
        assert(vs.subrange(0, n) =~= vs);
    }
    false
}

/// Removes the first widget with id `target` below the widgets of
/// `widgets`: see [removed_among].
fn remove_among<F: Copy>(target: &String, widgets: &mut Vec<Widget<F>>) -> (r: bool)
    ensures
        (views_of(final(widgets)@), r) == removed_among(target@, views_of(old(widgets)@)),
{
    let ghost vs = views_of(widgets@);
    let ghost n = vs.len() as int;
    proof {
        lemma_views_of(widgets@);
        assert(vs.subrange(0, n) =~= vs);
        assert(vs.subrange(0, 0) + vs.subrange(0, n) =~= vs);
    }
    let mut i: usize = 0;
    while i < widgets.len()
        invariant
            i <= widgets@.len(),
            n == vs.len(),
            widgets@.len() == n,
            vs == views_of(old(widgets)@),
            forall|k: int| 0 <= k < n ==> #[trigger] widgets@[k].view() == vs[k],
            removed_among(target@, vs) == ({
                let (rest, found) = removed_among(target@, vs.subrange(i as int, n));
                (vs.subrange(0, i as int) + rest, found)
            }),
        decreases n - i,
    {
        let ghost t = vs.subrange(i as int, n);
        proof {
            assert(t[0] == vs[i as int]);
            assert(t.subrange(1, t.len() as int) =~= vs.subrange(i + 1, n));
        }
        let found = remove_child(target, &mut widgets[i]);
        if found {
            proof {
                lemma_views_of(widgets@);
                let c = removed_below(target@, vs[i as int]).0;
                assert(views_of(widgets@) =~= vs.update(i as int, c));
                assert(vs.subrange(0, i as int) + t.update(0, c) =~= vs.update(i as int, c));
            }
            return true;
        }
        proof {
            let rest = removed_among(target@, vs.subrange(i + 1, n));
            assert(vs.subrange(0, i as int) + (seq![vs[i as int]] + rest.0) =~= vs.subrange(0, i + 1)
                + rest.0);
        }
        i = i + 1;
    }
    proof {
        lemma_views_of(widgets@);
        assert(views_of(widgets@) =~= vs);
        assert(vs.subrange(0, n) =~= vs);
    }
    false
}

/// Sets the theme of the widgets with id `widget_id` in a window's
/// widgets: see [changed_top].
fn theme_top<F: Copy>(widgets: &mut Vec<Widget<F>>, widget_id: &String, theme: &Option<String>) -> (r: bool)
    ensures
        (views_of(final(widgets)@), r) == changed_top(views_of(old(widgets)@), widget_id@, with_theme(opt_view(*theme))),
{
    let ghost vs = views_of(widgets@);
    let ghost n = vs.len() as int;
    proof {
        lemma_views_of(widgets@);
        assert(vs.subrange(0, n) =~= vs);
    }
    let mut i: usize = 0;
    while i < widgets.len()
        invariant
            i <= widgets@.len(),
            n == vs.len(),
            widgets@.len() == n,
            vs == views_of(old(widgets)@),
            forall|k: int| i <= k < n ==> #[trigger] widgets@[k].view() == vs[k],
            changed_top(vs, widget_id@, with_theme(opt_view(*theme))) == ({
                let (rest, found) = changed_top(vs.subrange(i as int, n), widget_id@, with_theme(opt_view(*theme)));
                (views_of(widgets@).subrange(0, i as int) + rest, found)
            }),
        decreases n - i,
    {
        let ghost t = vs.subrange(i as int, n);
        let ghost before = widgets@;
        proof {
            assert(t[0] == vs[i as int]);
            assert(t.subrange(1, t.len() as int) =~= vs.subrange(i + 1, n));
            lemma_views_of(before);
        }
        let hit = set_child_widget_theme(&mut widgets[i], widget_id, theme);
        proof {
            lemma_views_of(widgets@);
            assert(views_of(widgets@).subrange(0, i as int) =~= views_of(before).subrange(0, i as int));
        }
        if hit {
            proof {
                let c = (with_theme(opt_view(*theme)))(vs[i as int]);
                assert(views_of(widgets@) =~= views_of(before).subrange(0, i as int) + t.update(0, c));
            }
            return true;
        }
        proof {
            let rest = changed_top(vs.subrange(i + 1, n), widget_id@, with_theme(opt_view(*theme)));
            assert(views_of(widgets@).subrange(0, i + 1) =~= views_of(before).subrange(0, i as int) + seq![
                changed_tree(vs[i as int], widget_id@, with_theme(opt_view(*theme))),
            ]);
            assert(views_of(before).subrange(0, i as int) + (seq![
                changed_tree(vs[i as int], widget_id@, with_theme(opt_view(*theme))),
            ] + rest.0) =~= views_of(widgets@).subrange(0, i + 1) + rest.0);
        }
        i = i + 1;
    }
    proof {
        lemma_views_of(widgets@);
        assert(views_of(widgets@).subrange(0, n) =~= views_of(widgets@));
        assert(views_of(widgets@).subrange(0, n) + vs.subrange(n, n) =~= views_of(widgets@));
    }
    false
}

/// Sets the spacing of the widgets with id `widget_id` in a window's
/// widgets: see [changed_top].
fn spacing_top<F: Copy>(widgets: &mut Vec<Widget<F>>, widget_id: &String, spacing: F) -> (r: bool)
    ensures
        (views_of(final(widgets)@), r) == changed_top(views_of(old(widgets)@), widget_id@, with_spacing(spacing)),
{
    let ghost vs = views_of(widgets@);
    let ghost n = vs.len() as int;
    proof {
        lemma_views_of(widgets@);
        assert(vs.subrange(0, n) =~= vs);
    }
    let mut i: usize = 0;
    while i < widgets.len()
        invariant
            i <= widgets@.len(),
            n == vs.len(),
            widgets@.len() == n,
            vs == views_of(old(widgets)@),
            forall|k: int| i <= k < n ==> #[trigger] widgets@[k].view() == vs[k],
            changed_top(vs, widget_id@, with_spacing(spacing)) == ({
                let (rest, found) = changed_top(vs.subrange(i as int, n), widget_id@, with_spacing(spacing));
                (views_of(widgets@).subrange(0, i as int) + rest, found)
            }),
        decreases n - i,
    {
        let ghost t = vs.subrange(i as int, n);
        let ghost before = widgets@;
        proof {
            assert(t[0] == vs[i as int]);
            assert(t.subrange(1, t.len() as int) =~= vs.subrange(i + 1, n));
            lemma_views_of(before);
        }
        let hit = set_child_widget_spacing(&mut widgets[i], widget_id, spacing);
        proof {
            lemma_views_of(widgets@);
            assert(views_of(widgets@).subrange(0, i as int) =~= views_of(before).subrange(0, i as int));
        }
        if hit {
            proof {
                let c = (with_spacing(spacing))(vs[i as int]);
                assert(views_of(widgets@) =~= views_of(before).subrange(0, i as int) + t.update(0, c));
            }
            return true;
        }
        proof {
            let rest = changed_top(vs.subrange(i + 1, n), widget_id@, with_spacing(spacing));
            assert(views_of(widgets@).subrange(0, i + 1) =~= views_of(before).subrange(0, i as int) + seq![
                changed_tree(vs[i as int], widget_id@, with_spacing(spacing)),
            ]);
            assert(views_of(before).subrange(0, i as int) + (seq![
                changed_tree(vs[i as int], widget_id@, with_spacing(spacing)),
            ] + rest.0) =~= views_of(widgets@).subrange(0, i + 1) + rest.0);
        }
        i = i + 1;
    }
    proof {
        lemma_views_of(widgets@);
        assert(views_of(widgets@).subrange(0, n) =~= views_of(widgets@));
        assert(views_of(widgets@).subrange(0, n) + vs.subrange(n, n) =~= views_of(widgets@));
    }
    false
}

/// Adds copies of `to_add`, whose id is `to_add_id`, to a window's widgets
/// under the parent with id `parent`: see [added_top].
fn add_top<F: Copy>(widgets: &mut Vec<Widget<F>>, parent: &String, to_add: &Widget<F>, to_add_id: &String)
    ensures
        views_of(final(widgets)@) == added_top(parent@, views_of(old(widgets)@), to_add.view(), to_add_id@),
{
    let ghost vs = views_of(widgets@);
    let ghost n = vs.len() as int;
    let ghost nv = to_add.view();
    proof {
        lemma_views_of(widgets@);
        assert(vs.subrange(0, n) =~= vs);
        lemma_views_of(to_add.children@);
    }
    let mut i: usize = 0;
    while i < widgets.len()
        invariant
            i <= widgets@.len(),
            n == vs.len(),
            widgets@.len() == n,
            vs == views_of(old(widgets)@),
            nv == to_add.view(),
            forall|k: int| i <= k < n ==> #[trigger] widgets@[k].view() == vs[k],
            added_top(parent@, vs, nv, to_add_id@) == views_of(widgets@).subrange(0, i as int)
                + added_top(parent@, vs.subrange(i as int, n), nv, to_add_id@),
        decreases n - i,
    {
        let ghost t = vs.subrange(i as int, n);
        let ghost before = widgets@;
        proof {
            assert(t[0] == vs[i as int]);
            assert(t.subrange(1, t.len() as int) =~= vs.subrange(i + 1, n));
            lemma_views_of(before);
            lemma_views_of(before[i as int].children@);
        }
        if widgets[i].id == *parent {
            if any_with_id(&to_add.children, to_add_id) {
                proof {
                    assert(t[0].id == parent@);
                    assert(has_id(nv.children, to_add_id@));
                    assert(added_top(parent@, t, nv, to_add_id@) == t);
                    assert(views_of(before).subrange(0, i as int) + t =~= views_of(before));
                }
                return;
            }
            let copy = to_add.duplicate();
            let ghost old_cc = before[i as int].children@;
            proof {
                assert(before[i as int].view() == vs[i as int]);
                assert(views_of(old_cc) == vs[i as int].children);
            }
            let child = &mut widgets[i];
            child.children.push(copy);
            proof {
                let c = WidgetView { children: vs[i as int].children.push(nv), ..vs[i as int] };
                let new_child = widgets@[i as int];
                assert(new_child.children@ == old_cc.push(copy));
                lemma_views_of(new_child.children@);
                assert(views_of(new_child.children@) =~= views_of(old_cc).push(nv));
                assert(new_child.view() == c);
                lemma_views_of(widgets@);
                assert(views_of(widgets@) =~= views_of(before).subrange(0, i as int) + t.update(0, c));
            }
            return;
        }
        add_child(parent, &mut widgets[i], to_add, to_add_id);
        proof {
            lemma_views_of(widgets@);
            let rest = added_top(parent@, vs.subrange(i + 1, n), nv, to_add_id@);
            assert(views_of(widgets@).subrange(0, i + 1) =~= views_of(before).subrange(0, i as int) + seq![
                added_below(parent@, vs[i as int], nv, to_add_id@).0,
            ]);
            assert(views_of(before).subrange(0, i as int) + (seq![
                added_below(parent@, vs[i as int], nv, to_add_id@).0,
            ] + rest) =~= views_of(widgets@).subrange(0, i + 1) + rest);
        }
        i = i + 1;
    }
    proof {
        lemma_views_of(widgets@);
        assert(views_of(widgets@).subrange(0, n) =~= views_of(widgets@));
        assert(views_of(widgets@).subrange(0, n) + vs.subrange(n, n) =~= views_of(widgets@));
    }
}

impl<F: Copy> UiManager<F> {
    /// The windows, by id.
    pub closed spec fn windows(&self) -> Map<Seq<char>, WindowView<F>> {
        self.windows@.map_values(|w: UiManagerWindow<F>| w.view())
    }

    /// The images waiting to become textures, oldest first.
    pub closed spec fn pending_images(&self) -> Seq<ImageToLoad> {
        self.images_to_load@
    }

    /// The manager's well-formedness.
    pub closed spec fn wf(&self) -> bool {
        self.windows.wf()
    }

    /// No windows.
    pub fn new() -> (r: Self)
        ensures
            r.wf(),
            r.windows() == Map::<Seq<char>, WindowView<F>>::empty(),
            r.pending_images().len() == 0,
    {
        let r = UiManager { windows: StrMap::new(), images_to_load: Vec::new() };
        assert(r.windows() =~= Map::<Seq<char>, WindowView<F>>::empty());
        r
    }

    /// The window with id `window_id`.
    pub fn window(&self, window_id: &str) -> (r: Option<&UiManagerWindow<F>>)
        requires
            self.wf(),
        ensures
            match r {
                Some(w) => self.windows().contains_key(window_id@) && w.view() == self.windows()[window_id@],
                None => !self.windows().contains_key(window_id@),
            },
    {
        self.windows.get(window_id)
    }

    /// Opens a window with no widgets; refused where the id is taken.
    pub fn new_window(&mut self, id: &str, transparent: bool) -> (r: Result<(), UiError>)
        requires
            old(self).wf(),
        ensures
            final(self).wf(),
            final(self).pending_images() == old(self).pending_images(),
            old(self).windows().contains_key(id@) ==> r == Err::<(), UiError>(UiError::WindowExists)
                && final(self).windows() == old(self).windows(),
            !old(self).windows().contains_key(id@) ==> r is Ok && final(self).windows()
                == old(self).windows().insert(id@, new_window_view(transparent)),
    {
        if self.windows.contains_key(id) {
            return Err(UiError::WindowExists);
        }
        let window = UiManagerWindow {
            position: None,
            size: None,
            widgets: Vec::new(),
            transparent,
            show_title_bar: true,
            show_close_button: true,
            show_on_top: false,
            theme: None,
        };
        proof {
            lemma_views_of(window.widgets@);
            assert(window.view().widgets =~= Seq::<WidgetView<F>>::empty());
        }
        let ghost before = self.windows@;
        self.windows.insert(id.to_string(), window);
        assert(self.windows() =~= old(self).windows().insert(id@, new_window_view(transparent)));
        Ok(())
    }

    /// Closes the window with id `id`, if there is one.
    pub fn remove_window(&mut self, id: &str)
        requires
            old(self).wf(),
        ensures
            final(self).wf(),
            final(self).pending_images() == old(self).pending_images(),
            final(self).windows() == old(self).windows().remove(id@),
    {
        self.windows.remove(id);
        assert(self.windows() =~= old(self).windows().remove(id@));
    }

    /// Keeps the window above the others, or stops doing so. Refused where there is no window with id `window_id`.
    pub fn set_window_on_top(&mut self, window_id: &str, show_on_top: bool) -> (r: Result<(), UiError>)
        requires
            old(self).wf(),
        ensures
            final(self).wf(),
            final(self).pending_images() == old(self).pending_images(),
            !old(self).windows().contains_key(window_id@) ==> r == Err::<(), UiError>(
                UiError::WindowNotFound,
            ) && final(self).windows() == old(self).windows(),
            old(self).windows().contains_key(window_id@) ==> r is Ok && final(self).windows()
                == old(self).windows().insert(
                window_id@,
                WindowView { show_on_top: show_on_top, ..old(self).windows()[window_id@] },
            ),
    {
        match self.windows.get_mut(window_id) {
            Some(window) => {
                window.show_on_top = show_on_top;
                assert(self.windows() =~= old(self).windows().insert(
                    window_id@,
                    WindowView { show_on_top: show_on_top, ..old(self).windows()[window_id@] },
                ));
                Ok(())
            },
            None => {
                assert(self.windows() =~= old(self).windows());
                Err(UiError::WindowNotFound)
            },
        }
    }

    /// Shows or hides the window's title bar. Refused where there is no window with id `window_id`.
    pub fn show_title_bar(&mut self, window_id: &str, show: bool) -> (r: Result<(), UiError>)
        requires
            old(self).wf(),
        ensures
            final(self).wf(),
            final(self).pending_images() == old(self).pending_images(),
            !old(self).windows().contains_key(window_id@) ==> r == Err::<(), UiError>(
                UiError::WindowNotFound,
            ) && final(self).windows() == old(self).windows(),
            old(self).windows().contains_key(window_id@) ==> r is Ok && final(self).windows()
                == old(self).windows().insert(
                window_id@,
                WindowView { show_title_bar: show, ..old(self).windows()[window_id@] },
            ),
    {
        match self.windows.get_mut(window_id) {
            Some(window) => {
                window.show_title_bar = show;
                assert(self.windows() =~= old(self).windows().insert(
                    window_id@,
                    WindowView { show_title_bar: show, ..old(self).windows()[window_id@] },
                ));
                Ok(())
            },
            None => {
                assert(self.windows() =~= old(self).windows());
                Err(UiError::WindowNotFound)
            },
        }
    }

    /// Shows or hides the window's close button. Refused where there is no window with id `window_id`.
    pub fn show_close_button(&mut self, window_id: &str, show: bool) -> (r: Result<(), UiError>)
        requires
            old(self).wf(),
        ensures
            final(self).wf(),
            final(self).pending_images() == old(self).pending_images(),
            !old(self).windows().contains_key(window_id@) ==> r == Err::<(), UiError>(
                UiError::WindowNotFound,
            ) && final(self).windows() == old(self).windows(),
            old(self).windows().contains_key(window_id@) ==> r is Ok && final(self).windows()
                == old(self).windows().insert(
                window_id@,
                WindowView { show_close_button: show, ..old(self).windows()[window_id@] },
            ),
    {
        match self.windows.get_mut(window_id) {
            Some(window) => {
                window.show_close_button = show;
                assert(self.windows() =~= old(self).windows().insert(
                    window_id@,
                    WindowView { show_close_button: show, ..old(self).windows()[window_id@] },
                ));
                Ok(())
            },
            None => {
                assert(self.windows() =~= old(self).windows());
                Err(UiError::WindowNotFound)
            },
        }
    }

    /// Pins the window at a position, or lets it move. Refused where there is no window with id `window_id`.
    pub fn set_window_position(&mut self, window_id: &str, position: Option<(F, F)>) -> (r: Result<(), UiError>)
        requires
            old(self).wf(),
        ensures
            final(self).wf(),
            final(self).pending_images() == old(self).pending_images(),
            !old(self).windows().contains_key(window_id@) ==> r == Err::<(), UiError>(
                UiError::WindowNotFound,
            ) && final(self).windows() == old(self).windows(),
            old(self).windows().contains_key(window_id@) ==> r is Ok && final(self).windows()
                == old(self).windows().insert(
                window_id@,
                WindowView { position: position, ..old(self).windows()[window_id@] },
            ),
    {
        match self.windows.get_mut(window_id) {
            Some(window) => {
                window.position = position;
                assert(self.windows() =~= old(self).windows().insert(
                    window_id@,
                    WindowView { position: position, ..old(self).windows()[window_id@] },
                ));
                Ok(())
            },
            None => {
                assert(self.windows() =~= old(self).windows());
                Err(UiError::WindowNotFound)
            },
        }
    }

    /// What the last frame reported of the first widget with id `widget_id`
    /// in the window, the window's widgets searched in order, each before
    /// the widgets inside it.
    pub fn get_widget_state(&self, window_id: &str, widget_id: &str) -> (r: Result<WidgetState, UiError>)
        requires
            self.wf(),
        ensures
            !self.windows().contains_key(window_id@) ==> r == Err::<WidgetState, UiError>(
                UiError::WindowNotFound,
            ),
            self.windows().contains_key(window_id@) ==> match find_state(
                self.windows()[window_id@].widgets,
                widget_id@,
            ) {
                Some(st) => r == Ok::<WidgetState, UiError>(st),
                None => r == Err::<WidgetState, UiError>(UiError::WidgetNotFound),
            },
    {
        match self.windows.get(window_id) {
            Some(window) => {
                assert(self.windows()[window_id@] == window.view());
                let target = widget_id.to_string();
                match find_widget_state(&window.widgets, &target) {
                    Some(state) => Ok(state),
                    None => Err(UiError::WidgetNotFound),
                }
            },
            None => Err(UiError::WindowNotFound),
        }
    }

    /// The first widget with id `widget_id` among the window's own widgets.
    fn top_widget(&self, window_id: &str, widget_id: &str) -> (r: Result<&Widget<F>, UiError>)
        requires
            self.wf(),
        ensures
            !self.windows().contains_key(window_id@) ==> r matches Err(UiError::WindowNotFound),
            self.windows().contains_key(window_id@) ==> match first_with_id(
                self.windows()[window_id@].widgets,
                widget_id@,
            ) {
                Some(i) => r matches Ok(w) && w.view() == self.windows()[window_id@].widgets[i],
                None => r matches Err(UiError::WidgetNotFound),
            },
    {
        match self.windows.get(window_id) {
            Some(window) => {
                assert(self.windows()[window_id@] == window.view());
                let target = widget_id.to_string();
                match first_index(&window.widgets, &target) {
                    Some(i) => {
                        proof {
                            lemma_views_of(window.widgets@);
                        }
                        Ok(&window.widgets[i])
                    },
                    None => Err(UiError::WidgetNotFound),
                }
            },
            None => Err(UiError::WindowNotFound),
        }
    }

    /// The text of the first widget with id `widget_id` among the window's
    /// own widgets: see [widget_text].
    pub fn get_widget_text(&self, window_id: &str, widget_id: &str) -> (r: Result<String, UiError>)
        requires
            self.wf(),
        ensures
            !self.windows().contains_key(window_id@) ==> r matches Err(UiError::WindowNotFound),
            self.windows().contains_key(window_id@) ==> match first_with_id(
                self.windows()[window_id@].widgets,
                widget_id@,
            ) {
                Some(i) => match widget_text(self.windows()[window_id@].widgets[i].data) {
                    Some(t) => r matches Ok(text) && text@ == t,
                    None => r matches Err(UiError::NoText),
                },
                None => r matches Err(UiError::WidgetNotFound),
            },
    {
        let widget = self.top_widget(window_id, widget_id)?;
        match &widget.widget_data {
            WidgetData::Button(contents) => Ok(contents.clone()),
            WidgetData::Label(contents, _) => Ok(contents.clone()),
            WidgetData::SinglelineTextEdit(contents) => Ok(contents.clone()),
            WidgetData::MultilineTextEdit(contents) => Ok(contents.clone()),
            WidgetData::Checkbox(_, label) => Ok(label.clone()),
            _ => Err(UiError::NoText),
        }
    }

    /// The number of the first widget with id `widget_id` among the window's
    /// own widgets: see [widget_number].
    pub fn get_widget_numeric_value(&self, window_id: &str, widget_id: &str) -> (r: Result<
        NumericValue<F>,
        UiError,
    >)
        requires
            self.wf(),
        ensures
            !self.windows().contains_key(window_id@) ==> r matches Err(UiError::WindowNotFound),
            self.windows().contains_key(window_id@) ==> match first_with_id(
                self.windows()[window_id@].widgets,
                widget_id@,
            ) {
                Some(i) => match widget_number(self.windows()[window_id@].widgets[i].data) {
                    Some(n) => r == Ok::<NumericValue<F>, UiError>(n),
                    None => r matches Err(UiError::NoNumber),
                },
                None => r matches Err(UiError::WidgetNotFound),
            },
    {
        let widget = self.top_widget(window_id, widget_id)?;
        match &widget.widget_data {
            WidgetData::IntSlider(value, _, _) => Ok(NumericValue::Int(*value)),
            WidgetData::FloatSlider(value, _, _) => Ok(NumericValue::Float(*value)),
            WidgetData::ProgressBar(value) => Ok(NumericValue::Float(*value)),
            _ => Err(UiError::NoNumber),
        }
    }

    /// Whether the first widget with id `widget_id` among the window's own
    /// widgets is a checked checkbox: see [widget_bool].
    pub fn get_widget_bool_value(&self, window_id: &str, widget_id: &str) -> (r: Result<bool, UiError>)
        requires
            self.wf(),
        ensures
            !self.windows().contains_key(window_id@) ==> r matches Err(UiError::WindowNotFound),
            self.windows().contains_key(window_id@) ==> match first_with_id(
                self.windows()[window_id@].widgets,
                widget_id@,
            ) {
                Some(i) => match widget_bool(self.windows()[window_id@].widgets[i].data) {
                    Some(b) => r == Ok::<bool, UiError>(b),
                    None => r matches Err(UiError::NoBool),
                },
                None => r matches Err(UiError::WidgetNotFound),
            },
    {
        let widget = self.top_widget(window_id, widget_id)?;
        match &widget.widget_data {
            WidgetData::Checkbox(checked, _) => Ok(*checked),
            _ => Err(UiError::NoBool),
        }
    }

    /// Whether the widget found as by [UiManager::get_widget_state] was clicked with the left button
    /// in the last frame; false where there is no such widget.
    pub fn is_widget_left_clicked(&self, window_id: &str, widget_id: &str) -> (r: bool)
        requires
            self.wf(),
        ensures
            r == (self.windows().contains_key(window_id@) && (find_state(
                self.windows()[window_id@].widgets,
                widget_id@,
            ) matches Some(st) && st.left_clicked)),
    {
        match self.get_widget_state(window_id, widget_id) {
            Ok(state) => state.left_clicked,
            Err(_) => false,
        }
    }

    /// Whether the widget found as by [UiManager::get_widget_state] was clicked with the right button
    /// in the last frame; false where there is no such widget.
    pub fn is_widget_right_clicked(&self, window_id: &str, widget_id: &str) -> (r: bool)
        requires
            self.wf(),
        ensures
            r == (self.windows().contains_key(window_id@) && (find_state(
                self.windows()[window_id@].widgets,
                widget_id@,
            ) matches Some(st) && st.right_clicked)),
    {
        match self.get_widget_state(window_id, widget_id) {
            Ok(state) => state.right_clicked,
            Err(_) => false,
        }
    }

    /// Whether the widget found as by [UiManager::get_widget_state] was double-clicked
    /// in the last frame; false where there is no such widget.
    pub fn is_widget_double_clicked(&self, window_id: &str, widget_id: &str) -> (r: bool)
        requires
            self.wf(),
        ensures
            r == (self.windows().contains_key(window_id@) && (find_state(
                self.windows()[window_id@].widgets,
                widget_id@,
            ) matches Some(st) && st.double_clicked)),
    {
        match self.get_widget_state(window_id, widget_id) {
            Ok(state) => state.double_clicked,
            Err(_) => false,
        }
    }

    /// Whether the widget found as by [UiManager::get_widget_state] was hovered
    /// in the last frame; false where there is no such widget.
    pub fn is_widget_hovered(&self, window_id: &str, widget_id: &str) -> (r: bool)
        requires
            self.wf(),
        ensures
            r == (self.windows().contains_key(window_id@) && (find_state(
                self.windows()[window_id@].widgets,
                widget_id@,
            ) matches Some(st) && st.hovered)),
    {
        match self.get_widget_state(window_id, widget_id) {
            Ok(state) => state.hovered,
            Err(_) => false,
        }
    }

    /// Whether the widget found as by [UiManager::get_widget_state] was dragged
    /// in the last frame; false where there is no such widget.
    pub fn is_widget_dragged(&self, window_id: &str, widget_id: &str) -> (r: bool)
        requires
            self.wf(),
        ensures
            r == (self.windows().contains_key(window_id@) && (find_state(
                self.windows()[window_id@].widgets,
                widget_id@,
            ) matches Some(st) && st.dragged)),
    {
        match self.get_widget_state(window_id, widget_id) {
            Ok(state) => state.dragged,
            Err(_) => false,
        }
    }

    /// Whether the widget found as by [UiManager::get_widget_state] was changed
    /// in the last frame; false where there is no such widget.
    pub fn is_widget_changed(&self, window_id: &str, widget_id: &str) -> (r: bool)
        requires
            self.wf(),
        ensures
            r == (self.windows().contains_key(window_id@) && (find_state(
                self.windows()[window_id@].widgets,
                widget_id@,
            ) matches Some(st) && st.changed)),
    {
        match self.get_widget_state(window_id, widget_id) {
            Ok(state) => state.changed,
            Err(_) => false,
        }
    }

    /// Removes a widget from the window: the last of the window's own
    /// widgets with id `widget_id`, or else the first such widget below
    /// them (see [removed_among]); refused where there is none.
    pub fn remove_widget(&mut self, window_id: &str, widget_id: &str) -> (r: Result<(), UiError>)
        requires
            old(self).wf(),
        ensures
            final(self).wf(),
            final(self).pending_images() == old(self).pending_images(),
            !old(self).windows().contains_key(window_id@) ==> r == Err::<(), UiError>(
                UiError::WindowNotFound,
            ) && final(self).windows() == old(self).windows(),
            old(self).windows().contains_key(window_id@) ==> ({
                let w = old(self).windows()[window_id@];
                match last_with_id(w.widgets, widget_id@) {
                    Some(i) => r is Ok && final(self).windows() == old(self).windows().insert(
                        window_id@,
                        WindowView { widgets: w.widgets.remove(i), ..w },
                    ),
                    None => {
                        let (ws, found) = removed_among(widget_id@, w.widgets);
                        if found {
                            r is Ok && final(self).windows() == old(self).windows().insert(
                                window_id@,
                                WindowView { widgets: ws, ..w },
                            )
                        } else {
                            r == Err::<(), UiError>(UiError::WidgetNotFound) && final(self).windows()
                                == old(self).windows()
                        }
                    },
                }
            }),
    {
        let target = widget_id.to_string();
        match self.windows.get_mut(window_id) {
            Some(window) => {
                let ghost w = window.view();
                let ghost before = window.widgets@;
                proof {
                    lemma_views_of(before);
                }
                match last_index(&window.widgets, &target) {
                    Some(i) => {
                        window.widgets.remove(i);
                        proof {
                            lemma_views_of(window.widgets@);
                            assert(views_of(window.widgets@) =~= views_of(before).remove(i as int));
                            assert(self.windows() =~= old(self).windows().insert(
                                window_id@,
                                WindowView { widgets: w.widgets.remove(i as int), ..w },
                            ));
                        }
                        Ok(())
                    },
                    None => {
                        let found = remove_among(&target, &mut window.widgets);
                        if found {
                            proof {
                                let ws = removed_among(widget_id@, w.widgets).0;
                                assert(self.windows() =~= old(self).windows().insert(
                                    window_id@,
                                    WindowView { widgets: ws, ..w },
                                ));
                            }
                            Ok(())
                        } else {
                            proof {
                                assert(window.view() == w);
                                assert(self.windows() =~= old(self).windows());
                            }
                            Err(UiError::WidgetNotFound)
                        }
                    },
                }
            },
            None => {
                assert(self.windows() =~= old(self).windows());
                Err(UiError::WindowNotFound)
            },
        }
    }

    /// Sets the theme of the widgets with id `widget_id` in the window as
    /// [changed_top] says; refused where none of the window's own widgets has
    /// the id, though widgets below them may have been changed.
    pub fn set_widget_theme(&mut self, window_id: &str, widget_id: &str, theme: Option<&str>) -> (r: Result<(), UiError>)
        requires
            old(self).wf(),
        ensures
            final(self).wf(),
            final(self).pending_images() == old(self).pending_images(),
            !old(self).windows().contains_key(window_id@) ==> r == Err::<(), UiError>(
                UiError::WindowNotFound,
            ) && final(self).windows() == old(self).windows(),
            old(self).windows().contains_key(window_id@) ==> ({
                let w = old(self).windows()[window_id@];
                let (ws, found) = changed_top(w.widgets, widget_id@, with_theme(opt_view_str(theme)));
                &&& final(self).windows() == old(self).windows().insert(
                    window_id@,
                    WindowView { widgets: ws, ..w },
                )
                &&& found ==> r is Ok
                &&& !found ==> r == Err::<(), UiError>(UiError::WidgetNotFound)
            }),
    {
        let target = widget_id.to_string();
        let theme_string: Option<String> = match theme {
            Some(t) => Some(t.to_string()),
            None => None,
        };
        match self.windows.get_mut(window_id) {
            Some(window) => {
                let ghost w = window.view();
                let found = theme_top(&mut window.widgets, &target, &theme_string);
                proof {
                    let ws = changed_top(w.widgets, widget_id@, with_theme(opt_view_str(theme))).0;
                    assert(self.windows() =~= old(self).windows().insert(
                        window_id@,
                        WindowView { widgets: ws, ..w },
                    ));
                }
                if found {
                    Ok(())
                } else {
                    Err(UiError::WidgetNotFound)
                }
            },
            None => {
                assert(self.windows() =~= old(self).windows());
                Err(UiError::WindowNotFound)
            },
        }
    }

    /// Sets the spacing of the widgets with id `widget_id` in the window as
    /// [changed_top] says; refused where none of the window's own widgets has
    /// the id, though widgets below them may have been changed.
    pub fn set_widget_spacing(&mut self, window_id: &str, widget_id: &str, spacing: F) -> (r: Result<(), UiError>)
        requires
            old(self).wf(),
        ensures
            final(self).wf(),
            final(self).pending_images() == old(self).pending_images(),
            !old(self).windows().contains_key(window_id@) ==> r == Err::<(), UiError>(
                UiError::WindowNotFound,
            ) && final(self).windows() == old(self).windows(),
            old(self).windows().contains_key(window_id@) ==> ({
                let w = old(self).windows()[window_id@];
                let (ws, found) = changed_top(w.widgets, widget_id@, with_spacing(spacing));
                &&& final(self).windows() == old(self).windows().insert(
                    window_id@,
                    WindowView { widgets: ws, ..w },
                )
                &&& found ==> r is Ok
                &&& !found ==> r == Err::<(), UiError>(UiError::WidgetNotFound)
            }),
    {
        let target = widget_id.to_string();
        match self.windows.get_mut(window_id) {
            Some(window) => {
                let ghost w = window.view();
                let found = spacing_top(&mut window.widgets, &target, spacing);
                proof {
                    let ws = changed_top(w.widgets, widget_id@, with_spacing(spacing)).0;
                    assert(self.windows() =~= old(self).windows().insert(
                        window_id@,
                        WindowView { widgets: ws, ..w },
                    ));
                }
                if found {
                    Ok(())
                } else {
                    Err(UiError::WidgetNotFound)
                }
            },
            None => {
                assert(self.windows() =~= old(self).windows());
                Err(UiError::WindowNotFound)
            },
        }
    }

    /// Adds `widget`, whose id is `widget_id`, to the window: without a
    /// parent, as the window's last widget, refused where one of the
    /// window's own widgets has the id; with a parent, as [added_top] says.
    pub fn add_widget(&mut self, window_id: &str, widget_id: &str, widget: Widget<F>, parent: Option<&str>) -> (r: Result<(), UiError>)
        requires
            old(self).wf(),
        ensures
            final(self).wf(),
            final(self).pending_images() == old(self).pending_images(),
            !old(self).windows().contains_key(window_id@) ==> r == Err::<(), UiError>(
                UiError::WindowNotFound,
            ) && final(self).windows() == old(self).windows(),
            old(self).windows().contains_key(window_id@) ==> ({
                let w = old(self).windows()[window_id@];
                match parent {
                    Some(p) => r is Ok && final(self).windows() == old(self).windows().insert(
                        window_id@,
                        WindowView { widgets: added_top(p@, w.widgets, widget.view(), widget_id@), ..w },
                    ),
                    None => if has_id(w.widgets, widget_id@) {
                        r == Err::<(), UiError>(UiError::WidgetExists) && final(self).windows()
                            == old(self).windows()
                    } else {
                        r is Ok && final(self).windows() == old(self).windows().insert(
                            window_id@,
                            WindowView { widgets: w.widgets.push(widget.view()), ..w },
                        )
                    },
                }
            }),
    {
        let new_id = widget_id.to_string();
        match self.windows.get_mut(window_id) {
            Some(window) => {
                let ghost w = window.view();
                let ghost before = window.widgets@;
                match parent {
                    Some(p) => {
                        let parent_id = p.to_string();
                        add_top(&mut window.widgets, &parent_id, &widget, &new_id);
                        proof {
                            assert(self.windows() =~= old(self).windows().insert(
                                window_id@,
                                WindowView { widgets: added_top(p@, w.widgets, widget.view(), widget_id@), ..w },
                            ));
                        }
                        Ok(())
                    },
                    None => {
                        if any_with_id(&window.widgets, &new_id) {
                            assert(self.windows() =~= old(self).windows());
                            return Err(UiError::WidgetExists);
                        }
                        let ghost nv = widget.view();
                        window.widgets.push(widget);
                        proof {
                            lemma_views_of(before);
                            lemma_views_of(window.widgets@);
                            assert(views_of(window.widgets@) =~= views_of(before).push(nv));
                            assert(self.windows() =~= old(self).windows().insert(
                                window_id@,
                                WindowView { widgets: w.widgets.push(nv), ..w },
                            ));
                        }
                        Ok(())
                    },
                }
            },
            None => {
                assert(self.windows() =~= old(self).windows());
                Err(UiError::WindowNotFound)
            },
        }
    }

    /// The window with id `window_id`, to be changed in place (as drawing a
    /// frame does, which records each widget's state).
    pub fn window_mut(&mut self, window_id: &str) -> (r: Option<&mut UiManagerWindow<F>>)
        requires
            old(self).wf(),
        ensures
            final(self).wf(),
            match r {
                Some(w) => {
                    &&& old(self).windows().contains_key(window_id@)
                    &&& w.view() == old(self).windows()[window_id@]
                    &&& final(self).windows() == old(self).windows().insert(window_id@, final(w).view())
                },
                None => !old(self).windows().contains_key(window_id@) && final(self).windows()
                    == old(self).windows(),
            },
            final(self).pending_images() == old(self).pending_images(),
    {
        let r = self.windows.get_mut(window_id);
        r
    }

    /// The ids of the windows, each once.
    pub fn window_ids(&self) -> (r: Vec<String>)
        requires
            self.wf(),
        ensures
            r@.len() == self.windows().dom().len(),
            forall|k: Seq<char>|
                self.windows().contains_key(k) <==> exists|i: int| 0 <= i < r@.len() && #[trigger] r@[i]@ == k,
    {
        let n = self.windows.len();
        let mut ids: Vec<String> = Vec::new();
        let mut i: usize = 0;
        while i < n
            invariant
                self.wf(),
                n == self.windows.entries().len(),
                n == self.windows@.dom().len(),
                i <= n,
                ids@.len() == i,
                forall|j: int| 0 <= j < i ==> #[trigger] ids@[j] == self.windows.entries()[j].0,
            decreases n - i,
        {
            let (id, _) = self.windows.entry_at(i);
            ids.push(id.clone());
            i = i + 1;
        }
        proof {
            assert(self.windows().dom() =~= self.windows@.dom());
            assert forall|k: Seq<char>|
                self.windows().contains_key(k) implies exists|i: int| 0 <= i < ids@.len() && #[trigger] ids@[i]@ == k by {
                self.windows.lemma_key_at(k);
                let j = choose|j: int| 0 <= j < self.windows.entries().len() && (#[trigger] self.windows.entries()[j]).0@ == k;
                assert(ids@[j]@ == k);
            }
            assert forall|k: Seq<char>|
                (exists|i: int| 0 <= i < ids@.len() && #[trigger] ids@[i]@ == k) implies self.windows().contains_key(k) by {
                let i = choose|i: int| 0 <= i < ids@.len() && #[trigger] ids@[i]@ == k;
                self.windows.lemma_entry_in_map(i);
            }
        }
        ids
    }

    /// Queues an image to become a texture before the next frame is drawn.
    pub fn queue_image(&mut self, image: ImageToLoad)
        ensures
            final(self).pending_images() == old(self).pending_images().push(image),
            final(self).windows() == old(self).windows(),
            old(self).wf() ==> final(self).wf(),
    {
        self.images_to_load.push(image);
    }

    /// Hands out the queued images, oldest first, and empties the queue.
    pub fn take_images_to_load(&mut self) -> (r: Vec<ImageToLoad>)
        ensures
            r@ == old(self).pending_images(),
            final(self).pending_images().len() == 0,
            final(self).windows() == old(self).windows(),
            old(self).wf() ==> final(self).wf(),
    {
        let mut taken: Vec<ImageToLoad> = Vec::new();
        std::mem::swap(&mut taken, &mut self.images_to_load);
        taken
    }
}

/// A widget added to a window without a parent is the window's last widget
/// with its id, so removing that id right after takes it out again and
/// leaves the window's widgets as they were.
pub proof fn lemma_add_then_remove<F>(widgets: Seq<WidgetView<F>>, new: WidgetView<F>)
    ensures
        last_with_id(widgets.push(new), new.id) == Some(widgets.len() as int),
        widgets.push(new).remove(widgets.len() as int) == widgets,
{
    let s = widgets.push(new);
    let n = widgets.len() as int;
    assert(s[n].id == new.id);
    let c = choose|c: int|
        0 <= c < s.len() && #[trigger] s[c].id == new.id && forall|j: int|
            c < j < s.len() ==> s[j].id != new.id;
    assert(c == n) by {
        if c < n {
            assert(s[n].id == new.id);
        }
    }
    assert(s.remove(n) =~= widgets);

}

/// A widget's text is what a button, a label, a text field of either kind
/// or a checkbox's label holds; the other kinds of widget hold none.
pub proof fn lemma_widget_text_kinds<F>(t: String, b: bool, x: F, y: F, z: F, n: i32, m: i32, k: i32)
    ensures
        widget_text(WidgetData::<F>::Button(t)) == Some(t@),
        widget_text(WidgetData::<F>::Label(t, x)) == Some(t@),
        widget_text(WidgetData::<F>::SinglelineTextEdit(t)) == Some(t@),
        widget_text(WidgetData::<F>::MultilineTextEdit(t)) == Some(t@),
        widget_text(WidgetData::<F>::Checkbox(b, t)) == Some(t@),
        widget_text(WidgetData::<F>::Horizontal) is None,
        widget_text(WidgetData::<F>::Vertical) is None,
        widget_text(WidgetData::<F>::FloatSlider(x, y, z)) is None,
        widget_text(WidgetData::<F>::IntSlider(n, m, k)) is None,
        widget_text(WidgetData::<F>::ProgressBar(x)) is None,
        widget_text(WidgetData::<F>::Image(t)) is None,
{
}

/// The first of `s` with id `id` is the one before which no widget has it.
proof fn lemma_first_with_id_at<F>(s: Seq<WidgetView<F>>, id: Seq<char>, j: int)
    requires
        0 <= j < s.len(),
        s[j].id == id,
        forall|k: int| 0 <= k < j ==> s[k].id != id,
    ensures
        first_with_id(s, id) == Some(j),
{
    let i = choose|i: int|
        0 <= i < s.len() && #[trigger] s[i].id == id && forall|q: int| 0 <= q < i ==> s[q].id != id;
    assert(s[j].id == id);
    if i < j {
        assert(s[i].id != id);
    }
    if j < i {
        assert(s[j].id != id);
    }
}

/// Removing a widget that is a child of `w` takes out that one child and
/// nothing else: the children before it stay where they were, each one
/// after it moves up by one place, and `w` itself is otherwise unchanged.
pub proof fn lemma_remove_child_takes_one<F>(target: Seq<char>, w: WidgetView<F>, j: int)
    requires
        0 <= j < w.children.len(),
        w.children[j].id == target,
        forall|k: int| 0 <= k < j ==> w.children[k].id != target,
    ensures
        ({
            let (r, found) = removed_below(target, w);
            &&& found
            &&& r.id == w.id
            &&& r.data == w.data
            &&& r.theme == w.theme
            &&& r.children.len() == w.children.len() - 1
            &&& forall|k: int| 0 <= k < j ==> r.children[k] == w.children[k]
            &&& forall|k: int| j <= k < r.children.len() ==> r.children[k] == w.children[k + 1]
        }),
{
    lemma_first_with_id_at(w.children, target, j);
}

/// Adding a widget under a parent among a window's own widgets makes it
/// that parent's last child: the parent keeps its earlier children in
/// their places, the widgets after the parent are untouched, and the
/// window keeps its number of widgets.
pub proof fn lemma_add_under_top_parent_appends<F>(
    parent: Seq<char>,
    s: Seq<WidgetView<F>>,
    new: WidgetView<F>,
    new_id: Seq<char>,
    i: int,
)
    requires
        0 <= i < s.len(),
        s[i].id == parent,
        forall|k: int| 0 <= k < i ==> s[k].id != parent,
        !has_id(new.children, new_id),
    ensures
        ({
            let r = added_top(parent, s, new, new_id);
            &&& r.len() == s.len()
            &&& r[i].id == s[i].id
            &&& r[i].data == s[i].data
            &&& r[i].children.len() == s[i].children.len() + 1
            &&& r[i].children[s[i].children.len() as int] == new
            &&& forall|k: int| 0 <= k < s[i].children.len() ==> r[i].children[k] == s[i].children[k]
            &&& forall|k: int| i < k < s.len() ==> r[k] == s[k]
        }),
    decreases i,
{
    if i > 0 {
        let t = s.subrange(1, s.len() as int);
        assert forall|k: int| 0 <= k < i - 1 implies t[k].id != parent by {
            assert(t[k] == s[k + 1]);
        }
        lemma_add_under_top_parent_appends(parent, t, new, new_id, i - 1);
        let r = added_top(parent, s, new, new_id);
        let rt = added_top(parent, t, new, new_id);
        assert(s[0].id != parent);
        assert(r == seq![added_below(parent, s[0], new, new_id).0] + rt);
        assert(r[i] == rt[i - 1]);
        assert forall|k: int| i < k < s.len() implies r[k] == s[k] by {
            assert(r[k] == rt[k - 1]);
            assert(t[k - 1] == s[k]);
        }
    }
}

/// Setting the theme of a widget among a window's own widgets gives that
/// widget exactly the theme asked for, a cleared one (`None`) too, and
/// leaves its id, data and children as they were.
pub proof fn lemma_set_theme_sets_it<F>(
    s: Seq<WidgetView<F>>,
    id: Seq<char>,
    theme: Option<Seq<char>>,
    i: int,
)
    requires
        0 <= i < s.len(),
        s[i].id == id,
        forall|k: int| 0 <= k < i ==> s[k].id != id,
    ensures
        ({
            let (r, found) = changed_top(s, id, with_theme(theme));
            &&& found
            &&& r.len() == s.len()
            &&& r[i].theme == theme
            &&& r[i].id == s[i].id
            &&& r[i].data == s[i].data
            &&& r[i].children == s[i].children
        }),
    decreases i,
{
    if i > 0 {
        let t = s.subrange(1, s.len() as int);
        assert forall|k: int| 0 <= k < i - 1 implies t[k].id != id by {
            assert(t[k] == s[k + 1]);
        }
        lemma_set_theme_sets_it(t, id, theme, i - 1);
        let (r, found) = changed_top(s, id, with_theme(theme));
        let (rt, ft) = changed_top(t, id, with_theme(theme));
        assert(s[0].id != id);
        assert(r == seq![changed_tree(s[0], id, with_theme(theme))] + rt);
        assert(r[i] == rt[i - 1]);
        assert(t[i - 1] == s[i]);
    }
}

/// A widget given a theme has that theme, whatever it had, and keeps
/// everything else.
pub proof fn lemma_with_theme<F>(theme: Option<Seq<char>>, w: WidgetView<F>)
    ensures
        with_theme(theme)(w).theme == theme,
        with_theme(theme)(w).id == w.id,
        with_theme(theme)(w).data == w.data,
        with_theme(theme)(w).children == w.children,
        with_theme(theme)(w).spacing == w.spacing,
        with_theme(theme)(w).state == w.state,
{
}

/// Removing a widget from below a list of widgets removes none of the
/// widgets of the list itself: the list keeps its length and each place
/// its widget's id.
pub proof fn lemma_removed_among_keeps_level<F>(target: Seq<char>, s: Seq<WidgetView<F>>)
    ensures
        removed_among(target, s).0.len() == s.len(),
        forall|k: int| 0 <= k < s.len() ==> #[trigger] removed_among(target, s).0[k].id == s[k].id,
    decreases s.len(),
{
    if s.len() > 0 {
        let t = s.subrange(1, s.len() as int);
        lemma_removed_among_keeps_level(target, t);
        let (c, found) = removed_below(target, s[0]);
        if !found {
            let (rest, found_rest) = removed_among(target, t);
            if found_rest {
                let r = seq![s[0]] + rest;
                assert forall|k: int| 0 < k < s.len() implies r[k].id == s[k].id by {
                    assert(r[k] == rest[k - 1]);
                    assert(t[k - 1] == s[k]);
                }
            }
        }
    }
}

/// Setting the theme of the widgets with an id below a widget gives the
/// widget itself the theme where it has the id, and leaves its own theme
/// otherwise; its id and data never change.
pub proof fn lemma_changed_tree_theme<F>(w: WidgetView<F>, id: Seq<char>, theme: Option<Seq<char>>)
    ensures
        changed_tree(w, id, with_theme(theme)).theme == (if w.id == id {
            theme
        } else {
            w.theme
        }),
        changed_tree(w, id, with_theme(theme)).id == w.id,
        changed_tree(w, id, with_theme(theme)).data == w.data,
{
}

/// Adding a widget below a list whose first widget is the parent makes the
/// new widget that parent's last child, the earlier children staying in
/// their places, unless the parent has a child with the new id already.
pub proof fn lemma_add_under_nested_parent_appends<F>(
    target: Seq<char>,
    s: Seq<WidgetView<F>>,
    new: WidgetView<F>,
    new_id: Seq<char>,
)
    requires
        s.len() > 0,
        s[0].id == target,
    ensures
        ({
            let (r, found) = added_among(target, s, new, new_id);
            &&& found == !has_id(s[0].children, new_id)
            &&& r.len() == s.len()
            &&& found ==> {
                &&& r[0].id == s[0].id
                &&& r[0].children.len() == s[0].children.len() + 1
                &&& r[0].children[s[0].children.len() as int] == new
                &&& forall|k: int| 0 <= k < s[0].children.len() ==> r[0].children[k] == s[0].children[k]
                &&& forall|k: int| 0 < k < s.len() ==> r[k] == s[k]
            }
            &&& !found ==> r == s
        }),
{
}

/// A widget given a spacing has that spacing, whatever it had, and keeps
/// everything else.
pub proof fn lemma_with_spacing<F>(spacing: F, w: WidgetView<F>)
    ensures
        with_spacing(spacing)(w).spacing == spacing,
        with_spacing(spacing)(w).id == w.id,
        with_spacing(spacing)(w).data == w.data,
        with_spacing(spacing)(w).children == w.children,
        with_spacing(spacing)(w).theme == w.theme,
        with_spacing(spacing)(w).state == w.state,
{
}

/// A widget's number is a slider's value or a progress bar's, and its
/// truth value is whether a checkbox is checked; the other kinds of widget
/// hold neither.
pub proof fn lemma_widget_value_kinds<F>(t: String, b: bool, x: F, y: F, z: F, n: i32, m: i32, k: i32)
    ensures
        widget_number(WidgetData::<F>::IntSlider(n, m, k)) == Some(NumericValue::<F>::Int(n)),
        widget_number(WidgetData::<F>::FloatSlider(x, y, z)) == Some(NumericValue::<F>::Float(x)),
        widget_number(WidgetData::<F>::ProgressBar(x)) == Some(NumericValue::<F>::Float(x)),
        widget_number(WidgetData::<F>::Checkbox(b, t)) is None,
        widget_number(WidgetData::<F>::Label(t, x)) is None,
        widget_bool(WidgetData::<F>::Checkbox(b, t)) == Some(b),
        widget_bool(WidgetData::<F>::Button(t)) is None,
        widget_bool(WidgetData::<F>::IntSlider(n, m, k)) is None,
{
}

} // verus!
