//! Save bookkeeping: which global values a save holds, the current save,
//! and values that are kept aside to be saved lazily.
//!
//! The files themselves are read and written by the caller; this module
//! decides what is read and what is written.

use vstd::prelude::*;
use crate::string_map::StrMap;

verus! {

broadcast use {
    vstd::seq_lib::group_filter_ensures,
    vstd::string::to_string_from_display_ensures_for_str,
};

/// The state of the saves: `V` is the type of a saved value.
pub struct SavesManager<V> {
    save_system_values: Vec<String>,
    current_save_name: Option<String>,
    lazy_values_to_save: StrMap<Vec<V>>,
}

/// What saving the game writes: the registered values that the globals
/// hold, in registration order, and those that they lack.
pub struct SavePlan {
    /// The save that is written.
    pub save_name: String,
    /// The names of the values to write, in registration order; they make
    /// the save's list of values.
    pub values_to_save: Vec<String>,
    /// Registered names that the globals lack.
    pub missing_values: Vec<String>,
    /// The text of the save's list of values, to be written as the file
    /// `save_values.json`.
    pub values_list_json: String,
}

/// The names that the JSON text `json` lists, as `serde_json` reads a list
/// of strings from it; `None` where it holds no such list.
pub uninterp spec fn value_names_of(json: Seq<char>) -> Option<Seq<Seq<char>>>;

/// The JSON text that `serde_json` writes, pretty-printed, for the list of
/// strings `names`.
pub uninterp spec fn value_names_json(names: Seq<Seq<char>>) -> Seq<char>;

/// Reads a save's list of value names from its JSON text, through
/// `serde_json::from_str::<Vec<String>>`. The names are those that
/// [value_names_of] gives the text; `None` exactly where that is `None`.
#[verifier::external_body]
fn parse_value_names(json: &str) -> (r: Option<Vec<String>>)
    ensures
        r is None <==> value_names_of(json@) is None,
        r matches Some(v) ==> value_names_of(json@) == Some(string_views(v@)),
{
    serde_json::from_str::<Vec<String>>(json).ok()
}

/// Writes a list of value names as pretty-printed JSON, through
/// `serde_json::to_string_pretty`. Writing a list of strings does not fail,
/// and reading the text back gives the same names.
#[verifier::external_body]
fn value_names_to_json(names: &Vec<String>) -> (r: String)
    ensures
        r@ == value_names_json(string_views(names@)),
        value_names_of(r@) == Some(string_views(names@)),
{
    serde_json::to_string_pretty(names).unwrap_or_default()
}

/// Whether `x` differs from `name`.
pub open spec fn other_name(name: Seq<char>) -> spec_fn(Seq<char>) -> bool {
    |x: Seq<char>| x != name
}

/// The registered names that `globals` holds.
pub open spec fn present_names<V>(names: Seq<Seq<char>>, globals: Map<Seq<char>, V>) -> Seq<
    Seq<char>,
> {
    names.filter(|n: Seq<char>| globals.contains_key(n))
}

/// The registered names that `globals` lacks.
pub open spec fn missing_names<V>(names: Seq<Seq<char>>, globals: Map<Seq<char>, V>) -> Seq<
    Seq<char>,
> {
    names.filter(|n: Seq<char>| !globals.contains_key(n))
}

/// The views of a list of strings.
pub open spec fn string_views(v: Seq<String>) -> Seq<Seq<char>> {
    v.map_values(|s: String| s@)
}

/// Whether reading the value `name` of the save `save_name` with `load`
/// can give `v`.
pub open spec fn value_read<V, L: Fn(&str, &str) -> Option<Vec<V>>>(
    save_name: Seq<char>,
    load: L,
    name: Seq<char>,
    v: Option<Vec<V>>,
) -> bool {
    exists|s: &str, n: &str| s@ == save_name && n@ == name && #[trigger] call_ensures(load, (s, n), v)
}

/// Whether `m` holds what reading the values `names` of a save gives: each
/// name that it holds is listed and holds a value that reading it can give,
/// and a listed name is left out only where reading it can fail.
pub open spec fn values_read<V, L: Fn(&str, &str) -> Option<Vec<V>>>(
    save_name: Seq<char>,
    load: L,
    names: Seq<Seq<char>>,
    m: Map<Seq<char>, Vec<V>>,
) -> bool {
    &&& forall|k: Seq<char>|
        #[trigger] m.contains_key(k) ==> names.contains(k) && value_read(
            save_name,
            load,
            k,
            Some(m[k]),
        )
    &&& forall|i: int|
        0 <= i < names.len() && !m.contains_key(#[trigger] names[i]) ==> value_read(
            save_name,
            load,
            names[i],
            None,
        )
}

/// Whether `m` is what opening the save `save_name` can read: `None` where
/// the text of its list of value names cannot be read, or is not a JSON
/// list of strings; otherwise the values read by name (see
/// [values_read]).
pub open spec fn read_save<V, N: FnOnce(&str) -> Option<String>, L: Fn(&str, &str) -> Option<Vec<V>>>(
    save_name: Seq<char>,
    load_names: N,
    load_value: L,
    m: Option<Map<Seq<char>, Vec<V>>>,
) -> bool {
    exists|s: &str, text: Option<String>|
        {
            &&& s@ == save_name
            &&& #[trigger] call_ensures(load_names, (s,), text)
            &&& match text {
                None => m is None,
                Some(t) => match value_names_of(t@) {
                    None => m is None,
                    Some(ns) => m matches Some(mm) && values_read(save_name, load_value, ns, mm),
                },
            }
        }
}

impl<V> SavesManager<V> {
    /// The names of the global values that a save holds, in registration
    /// order.
    pub closed spec fn registered(&self) -> Seq<Seq<char>> {
        string_views(self.save_system_values@)
    }

    /// The name of the current save, if there is one.
    pub closed spec fn current_save(&self) -> Option<Seq<char>> {
        match self.current_save_name {
            Some(s) => Some(s@),
            None => None,
        }
    }

    /// The values kept aside to be saved.
    pub closed spec fn lazy_values(&self) -> Map<Seq<char>, Vec<V>> {
        self.lazy_values_to_save@
    }

    /// The manager's well-formedness: no name is registered twice.
    pub closed spec fn wf(&self) -> bool {
        &&& self.lazy_values_to_save.wf()
        &&& self.registered().no_duplicates()
    }

    /// A manager with nothing registered and no current save.
    pub fn new() -> (r: Self)
        ensures
            r.wf(),
            r.registered() == Seq::<Seq<char>>::empty(),
            r.current_save() is None,
            r.lazy_values() == Map::<Seq<char>, Vec<V>>::empty(),
    {
        let r = SavesManager {
            save_system_values: Vec::new(),
            current_save_name: None,
            lazy_values_to_save: StrMap::new(),
        };
        assert(r.registered() =~= Seq::<Seq<char>>::empty());
        r
    }

    /// The name of the current save, if there is one.
    pub fn current_save_name(&self) -> (r: Option<&str>)
        ensures
            match r {
                Some(s) => self.current_save() == Some(s@),
                None => self.current_save() is None,
            },
    {
        match &self.current_save_name {
            Some(s) => Some(s.as_str()),
            None => None,
        }
    }

    fn is_registered(&self, name: &String) -> (r: bool)
        ensures
            r == self.registered().contains(name@),
    {
        let mut i: usize = 0;
        while i < self.save_system_values.len()
            invariant
                i <= self.save_system_values@.len(),
                forall|j: int| 0 <= j < i ==> self.save_system_values@[j]@ != name@,
            decreases self.save_system_values@.len() - i,
        {
            if self.save_system_values[i] == *name {
                assert(self.registered()[i as int] == name@);
                return true;
            }
            i = i + 1;
        }
        proof {
            if self.registered().contains(name@) {
                let j = choose|j: int| 0 <= j < self.registered().len() && self.registered()[j] == name@;
                assert(self.save_system_values@[j]@ != name@);
            }
        }
        false
    }

    /// No name is registered twice.
    pub proof fn lemma_registered_distinct(&self)
        requires
            self.wf(),
        ensures
            self.registered().no_duplicates(),
    {
    }

    /// Registers a global value to be saved; a registered name stays as it
    /// is.
    pub fn register_save_value(&mut self, system_value_name: &str)
        requires
            old(self).wf(),
        ensures
            final(self).wf(),
            final(self).registered() == with_registered(old(self).registered(), system_value_name@),
            final(self).registered().no_duplicates(),
            final(self).current_save() == old(self).current_save(),
            final(self).lazy_values() == old(self).lazy_values(),
    {
        let name = system_value_name.to_string();
        if !self.is_registered(&name) {
            let ghost before = self.save_system_values@;
            self.save_system_values.push(name);
            proof {
                assert(string_views(self.save_system_values@) =~= string_views(before).push(
                    system_value_name@,
                ));
                let s = string_views(self.save_system_values@);
                assert forall|i: int, j: int| 0 <= i < s.len() && 0 <= j < s.len() && i != j implies s[i]
                    != s[j] by {
                    if i < s.len() - 1 && j < s.len() - 1 {
                        assert(s[i] == string_views(before)[i]);
                        assert(s[j] == string_views(before)[j]);
                    } else if i == s.len() - 1 {
                        assert(string_views(before)[j] == s[j]);
                    } else {
                        assert(string_views(before)[i] == s[i]);
                    }
                }
            }
        }
    }

    /// Stops saving a global value.
    pub fn unregister_save_value(&mut self, system_value_name: &str)
        requires
            old(self).wf(),
        ensures
            final(self).wf(),
            final(self).registered() == old(self).registered().filter(
                other_name(system_value_name@),
            ),
            final(self).registered().no_duplicates(),
            final(self).current_save() == old(self).current_save(),
            final(self).lazy_values() == old(self).lazy_values(),
    {
        let name = system_value_name.to_string();
        let ghost pred = other_name(system_value_name@);
        let ghost old_names = self.registered();
        let mut kept: Vec<String> = Vec::new();
        let mut i: usize = 0;
        while i < self.save_system_values.len()
            invariant
                i <= self.save_system_values@.len(),
                name@ == system_value_name@,
                pred == other_name(system_value_name@),
                old_names == string_views(self.save_system_values@),
                string_views(kept@) == old_names.take(i as int).filter(pred),
            decreases self.save_system_values@.len() - i,
        {
            proof {
                reveal_with_fuel(Seq::<_>::filter, 1);
                assert(old_names.take(i + 1).drop_last() =~= old_names.take(i as int));
                assert(old_names.take(i + 1).last() == self.save_system_values@[i as int]@);
            }
            if self.save_system_values[i] != name {
                let ghost before = kept@;
                kept.push(self.save_system_values[i].clone());
                assert(string_views(kept@) =~= string_views(before).push(
                    self.save_system_values@[i as int]@,
                ));
            }
            i = i + 1;
        }
        assert(old_names.take(old_names.len() as int) =~= old_names);
        self.save_system_values = kept;
        proof {
            let s = self.registered();
            assert forall|a: int, b: int| 0 <= a < s.len() && 0 <= b < s.len() && a != b implies s[a]
                != s[b] by {
                lemma_filter_no_duplicates(old_names, pred);
            }
        }
    }

    /// Keeps a value aside under `key`, to be written with the next save.
    pub fn save_lazy_value(&mut self, key: &str, value: Vec<V>)
        requires
            old(self).wf(),
        ensures
            final(self).wf(),
            final(self).lazy_values() == old(self).lazy_values().insert(key@, value),
            final(self).registered() == old(self).registered(),
            final(self).current_save() == old(self).current_save(),
    {
        self.lazy_values_to_save.insert(key.to_string(), value);
    }

    /// A value kept aside under `value_name`; where there is none, the
    /// value is read from the current save with `load`, which is given the
    /// save's name and the value's name. Without a current save there is
    /// no value.
    pub fn load_lazy_value<F: Fn(&str, &str) -> Option<Vec<V>>>(
        &self,
        value_name: &str,
        load: F,
    ) -> (r: Option<Vec<V>>) where V: Clone
        requires
            self.wf(),
            forall|s: &str, n: &str| call_requires(load, (s, n)),
        ensures
            self.lazy_values().contains_key(value_name@) ==> (r matches Some(v) && v@.len()
                == self.lazy_values()[value_name@]@.len() && forall|i: int|
                0 <= i < v@.len() ==> cloned::<V>(self.lazy_values()[value_name@]@[i], v@[i])),
            self.lazy_values().contains_key(value_name@) && (forall|a: V, b: V|
                #[trigger] cloned::<V>(a, b) ==> a == b) ==> (r matches Some(v) && v@
                == self.lazy_values()[value_name@]@),
            !self.lazy_values().contains_key(value_name@) && self.current_save() is None ==> r
                is None,
            !self.lazy_values().contains_key(value_name@) && self.current_save() is Some
                ==> value_read(self.current_save().unwrap(), load, value_name@, r),
    {
        match self.lazy_values_to_save.get(value_name) {
            Some(value) => {
                let copy = value.clone();
                proof {
                    if forall|a: V, b: V| #[trigger] cloned::<V>(a, b) ==> a == b {
                        assert forall|i: int| 0 <= i < copy@.len() implies copy@[i] == value@[i] by {
                            assert(cloned::<V>(value@[i], copy@[i]));
                        }
                        assert(copy@ =~= value@);
                    }
                }
                Some(copy)
            },
            None => match &self.current_save_name {
                Some(current_save_name) => load(current_save_name.as_str(), value_name),
                None => None,
            },
        }
    }

    /// Opens the save `save_name`, which becomes the current save even where
    /// reading it fails. `load_names` reads the text of the save's list of
    /// value names; where it fails, or the text is no JSON list of strings,
    /// so does the load. `load_value` reads one value; the
    /// values that it reads are given back by name, and those that it fails
    /// to read are left out.
    pub fn load_save<N: FnOnce(&str) -> Option<String>, L: Fn(&str, &str) -> Option<Vec<V>>>(
        &mut self,
        save_name: &str,
        load_names: N,
        load_value: L,
    ) -> (r: Result<StrMap<Vec<V>>, ()>)
        requires
            old(self).wf(),
            forall|s: &str| call_requires(load_names, (s,)),
            forall|s: &str, n: &str| call_requires(load_value, (s, n)),
        ensures
            final(self).wf(),
            final(self).current_save() == Some(save_name@),
            final(self).registered() == old(self).registered(),
            final(self).lazy_values() == old(self).lazy_values(),
            exists|m: Option<Map<Seq<char>, Vec<V>>>|
                #[trigger] read_save(save_name@, load_names, load_value, m) && match m {
                    None => r is Err,
                    Some(mm) => r matches Ok(values) && values.wf() && values@ == mm,
                },
    {
        let text = load_names(save_name);
        let ghost g_text = text;
        self.current_save_name = Some(save_name.to_string());
        let parsed = match &text {
            Some(t) => parse_value_names(t.as_str()),
            None => None,
        };
        match parsed {
            None => {
                assert(read_save(save_name@, load_names, load_value, None)) by {
                    assert(call_ensures(load_names, (save_name,), g_text));
                }
                Err(())
            },
            Some(names) => {
                let mut global_values: StrMap<Vec<V>> = StrMap::new();
                let mut i: usize = 0;
                while i < names.len()
                    invariant
                        i <= names@.len(),
                        global_values.wf(),
                        values_read(
                            save_name@,
                            load_value,
                            string_views(names@).take(i as int),
                            global_values@,
                        ),
                        forall|s: &str, n: &str| call_requires(load_value, (s, n)),
                    decreases names@.len() - i,
                {
                    let ghost pre = string_views(names@).take(i as int);
                    let ghost post = string_views(names@).take(i + 1);
                    let ghost old_gv = global_values@;
                    let value_name = names[i].as_str();
                    let loaded = load_value(save_name, value_name);
                    proof {
                        assert(post =~= pre.push(names@[i as int]@));
                        assert(value_name@ == names@[i as int]@);
                        assert(value_read(save_name@, load_value, value_name@, loaded));
                    }
                    match loaded {
                        Some(value) => {
                            global_values.insert(names[i].clone(), value);
                            proof {
                                let k0 = names@[i as int]@;
                                assert forall|k: Seq<char>| #[trigger] global_values@.contains_key(k)
                                    implies post.contains(k) && value_read(
                                    save_name@,
                                    load_value,
                                    k,
                                    Some(global_values@[k]),
                                ) by {
                                    if k == k0 {
                                        assert(post[i as int] == k);
                                    } else {
                                        assert(old_gv.contains_key(k));
                                        let j = choose|j: int| 0 <= j < pre.len() && pre[j] == k;
                                        assert(post[j] == k);
                                    }
                                }
                                assert forall|j: int|
                                    0 <= j < post.len() && !global_values@.contains_key(
                                        #[trigger] post[j],
                                    ) implies value_read(save_name@, load_value, post[j], None) by {
                                    assert(j < pre.len());
                                    assert(pre[j] == post[j]);
                                }
                            }
                        },
                        None => {
                            proof {
                                assert forall|k: Seq<char>| #[trigger] global_values@.contains_key(k)
                                    implies post.contains(k) by {
                                    let j = choose|j: int| 0 <= j < pre.len() && pre[j] == k;
                                    assert(post[j] == k);
                                }
                                assert forall|j: int|
                                    0 <= j < post.len() && !global_values@.contains_key(
                                        #[trigger] post[j],
                                    ) implies value_read(save_name@, load_value, post[j], None) by {
                                    if j < pre.len() {
                                        assert(pre[j] == post[j]);
                                    }
                                }
                            }
                        },
                    }
                    i = i + 1;
                }
                proof {
                    assert(string_views(names@).take(names@.len() as int) =~= string_views(names@));
                    let m = Some(global_values@);
                    assert(read_save(save_name@, load_names, load_value, m)) by {
                        assert(call_ensures(load_names, (save_name,), g_text));
                    }
                }
                Ok(global_values)
            },
        }
    }

    /// What saving the game with the globals `global_values` writes, besides
    /// every value kept aside (see [SavesManager::lazy_values_map]); `None`
    /// where there is no current save.
    pub fn save_game(&self, global_values: &StrMap<Vec<V>>) -> (r: Option<SavePlan>)
        requires
            self.wf(),
            global_values.wf(),
        ensures
            match r {
                None => self.current_save() is None,
                Some(plan) => {
                    &&& self.current_save() == Some(plan.save_name@)
                    &&& string_views(plan.values_to_save@) == present_names(
                        self.registered(),
                        global_values@,
                    )
                    &&& string_views(plan.missing_values@) == missing_names(
                        self.registered(),
                        global_values@,
                    )
                    &&& plan.values_list_json@ == value_names_json(
                        present_names(self.registered(), global_values@),
                    )
                    &&& value_names_of(plan.values_list_json@) == Some(
                        present_names(self.registered(), global_values@),
                    )
                },
            },
    {
        match &self.current_save_name {
            Some(s) => Some(self.plan_save(s.clone(), global_values)),
            None => None,
        }
    }

    /// Makes `save_name` the current save and gives what saving the game
    /// with the globals `global_values` writes there. The caller creates the
    /// save's directory first.
    pub fn new_save(&mut self, save_name: &str, global_values: &StrMap<Vec<V>>) -> (r: SavePlan)
        requires
            old(self).wf(),
            global_values.wf(),
        ensures
            final(self).wf(),
            final(self).current_save() == Some(save_name@),
            final(self).registered() == old(self).registered(),
            final(self).lazy_values() == old(self).lazy_values(),
            r.save_name@ == save_name@,
            string_views(r.values_to_save@) == present_names(old(self).registered(), global_values@),
            r.values_list_json@ == value_names_json(present_names(old(self).registered(), global_values@)),
            value_names_of(r.values_list_json@) == Some(present_names(old(self).registered(), global_values@)),
            string_views(r.missing_values@) == missing_names(old(self).registered(), global_values@),
    {
        self.current_save_name = Some(save_name.to_string());
        self.plan_save(save_name.to_string(), global_values)
    }

    /// The values kept aside to be saved.
    pub fn lazy_values_map(&self) -> (r: &StrMap<Vec<V>>)
        requires
            self.wf(),
        ensures
            r.wf(),
            r@ == self.lazy_values(),
    {
        &self.lazy_values_to_save
    }

    fn plan_save(&self, save_name: String, global_values: &StrMap<Vec<V>>) -> (plan: SavePlan)
        requires
            self.wf(),
            global_values.wf(),
        ensures
            plan.save_name == save_name,
            string_views(plan.values_to_save@) == present_names(self.registered(), global_values@),
            plan.values_list_json@ == value_names_json(present_names(self.registered(), global_values@)),
            value_names_of(plan.values_list_json@) == Some(present_names(self.registered(), global_values@)),
            string_views(plan.missing_values@) == missing_names(self.registered(), global_values@),
    {
        let ghost names = self.registered();
        let ghost present = |n: Seq<char>| global_values@.contains_key(n);
        let ghost absent = |n: Seq<char>| !global_values@.contains_key(n);
        let mut values_to_save: Vec<String> = Vec::new();
        let mut missing_values: Vec<String> = Vec::new();
        let mut i: usize = 0;
        while i < self.save_system_values.len()
            invariant
                i <= self.save_system_values@.len(),
                global_values.wf(),
                names == string_views(self.save_system_values@),
                present == (|n: Seq<char>| global_values@.contains_key(n)),
                absent == (|n: Seq<char>| !global_values@.contains_key(n)),
                string_views(values_to_save@) == names.take(i as int).filter(present),
                string_views(missing_values@) == names.take(i as int).filter(absent),
            decreases self.save_system_values@.len() - i,
        {
            proof {
                reveal_with_fuel(Seq::<_>::filter, 1);
                assert(names.take(i + 1).drop_last() =~= names.take(i as int));
                assert(names.take(i + 1).last() == self.save_system_values@[i as int]@);
            }
            let name = &self.save_system_values[i];
            if global_values.contains_key(name.as_str()) {
                let ghost before = values_to_save@;
                values_to_save.push(name.clone());
                assert(string_views(values_to_save@) =~= string_views(before).push(name@));
            } else {
                let ghost before = missing_values@;
                missing_values.push(name.clone());
                assert(string_views(missing_values@) =~= string_views(before).push(name@));
            }
            i = i + 1;
        }
        assert(names.take(names.len() as int) =~= names);
        let values_list_json = value_names_to_json(&values_to_save);
        SavePlan { save_name, values_to_save, missing_values, values_list_json }
    }
}

/// Filtering keeps a list free of duplicates.
pub proof fn lemma_filter_no_duplicates<A>(s: Seq<A>, pred: spec_fn(A) -> bool)
    requires
        s.no_duplicates(),
    ensures
        s.filter(pred).no_duplicates(),
    decreases s.len(),
{
    if s.len() > 0 {
        let t = s.drop_last();
        let x = s.last();
        assert(t.push(x) =~= s);
        assert(t.no_duplicates());
        lemma_filter_no_duplicates(t, pred);
        t.lemma_filter_push(x, pred);
        if pred(x) {
            let f = t.filter(pred);
            assert(!t.contains(x));
            if f.contains(x) {
                t.lemma_filter_contains_rev(pred, x);
            }
            let g = f.push(x);
            assert forall|a: int, b: int| 0 <= a < g.len() && 0 <= b < g.len() && a != b implies g[a]
                != g[b] by {
                if a == g.len() - 1 {
                    assert(f[b] == g[b]);
                } else if b == g.len() - 1 {
                    assert(f[a] == g[a]);
                } else {
                    assert(f[a] == g[a] && f[b] == g[b]);
                }
            }
        }
    }
}

/// The registered names after registering `name`.
pub open spec fn with_registered(names: Seq<Seq<char>>, name: Seq<char>) -> Seq<Seq<char>> {
    if names.contains(name) {
        names
    } else {
        names.push(name)
    }
}

/// Registering a name twice registers it once, and a registered name is
/// in the list.
pub proof fn lemma_register_idempotent(names: Seq<Seq<char>>, name: Seq<char>)
    ensures
        with_registered(with_registered(names, name), name) == with_registered(names, name),
        with_registered(names, name).contains(name),
{
    if !names.contains(name) {
        assert(names.push(name)[names.len() as int] == name);
    }
}

/// A name that was unregistered is no longer registered, and the other
/// registered names stay.
pub proof fn lemma_unregister_removes(names: Seq<Seq<char>>, name: Seq<char>, other: Seq<char>)
    ensures
        !names.filter(other_name(name)).contains(name),
        other != name ==> (names.filter(other_name(name)).contains(other) <==> names.contains(other)),
{
    let f = names.filter(other_name(name));
    if f.contains(name) {
        let k = choose|k: int| 0 <= k < f.len() && f[k] == name;
        assert(other_name(name)(f[k]));
    }
    if other != name && f.contains(other) {
        names.lemma_filter_contains_rev(other_name(name), other);
    }
    if other != name && names.contains(other) {
        let k = choose|k: int| 0 <= k < names.len() && names[k] == other;
        assert(other_name(name)(names[k]));
    }
}

/// Saving splits the registered names: each goes to the values written
/// where the globals hold it, and to the missing values where they do not.
pub proof fn lemma_save_plan_partition<V>(
    names: Seq<Seq<char>>,
    globals: Map<Seq<char>, V>,
    name: Seq<char>,
)
    ensures
        present_names(names, globals).contains(name) <==> names.contains(name) && globals.contains_key(
            name,
        ),
        missing_names(names, globals).contains(name) <==> names.contains(name)
            && !globals.contains_key(name),
{
    let p = |n: Seq<char>| globals.contains_key(n);
    let q = |n: Seq<char>| !globals.contains_key(n);
    if present_names(names, globals).contains(name) {
        names.lemma_filter_contains_rev(p, name);
        let k = choose|k: int| 0 <= k < names.filter(p).len() && names.filter(p)[k] == name;
        assert(p(names.filter(p)[k]));
    }
    if missing_names(names, globals).contains(name) {
        names.lemma_filter_contains_rev(q, name);
        let k = choose|k: int| 0 <= k < names.filter(q).len() && names.filter(q)[k] == name;
        assert(q(names.filter(q)[k]));
    }
    if names.contains(name) {
        let k = choose|k: int| 0 <= k < names.len() && names[k] == name;
        assert(names[k] == name);
    }
}

/// Loading a save gives back what saving wrote: where reading the save's
/// list of names gives a text that lists the registered names the globals
/// held (as [SavesManager::save_game]'s list does), and reading each of
/// those values gives the global value, the values loaded are exactly the
/// registered values that the globals held.
pub proof fn lemma_save_then_load<V, N: FnOnce(&str) -> Option<String>, L: Fn(&str, &str) -> Option<Vec<V>>>(
    save_name: Seq<char>,
    registered: Seq<Seq<char>>,
    globals: Map<Seq<char>, Vec<V>>,
    load_names: N,
    load_value: L,
    m: Option<Map<Seq<char>, Vec<V>>>,
)
    requires
        forall|s: &str, t: Option<String>|
            s@ == save_name && #[trigger] call_ensures(load_names, (s,), t) ==> (t matches Some(x)
                && value_names_of(x@) == Some(present_names(registered, globals))),
        forall|s: &str, n: &str, v: Option<Vec<V>>|
            s@ == save_name && #[trigger] call_ensures(load_value, (s, n), v) && present_names(
                registered,
                globals,
            ).contains(n@) ==> v == Some(globals[n@]),
        read_save(save_name, load_names, load_value, m),
    ensures
        m is Some,
        m matches Some(mm) ==> forall|k: Seq<char>|
            #[trigger] mm.contains_key(k) <==> registered.contains(k) && globals.contains_key(k),
        m matches Some(mm) ==> forall|k: Seq<char>|
            #[trigger] mm.contains_key(k) ==> mm[k] == globals[k],
{
    let present = present_names(registered, globals);
    let (s, text) = choose|s: &str, text: Option<String>|
        {
            &&& s@ == save_name
            &&& #[trigger] call_ensures(load_names, (s,), text)
            &&& match text {
                None => m is None,
                Some(t) => match value_names_of(t@) {
                    None => m is None,
                    Some(ns) => m matches Some(mm) && values_read(save_name, load_value, ns, mm),
                },
            }
        };
    let mm = m.unwrap();
    assert(values_read(save_name, load_value, present, mm));
    assert forall|k: Seq<char>| #[trigger] mm.contains_key(k) implies mm[k] == globals[k] && registered.contains(k)
        && globals.contains_key(k) by {
        assert(present.contains(k));
        lemma_save_plan_partition(registered, globals, k);
        assert(value_read(save_name, load_value, k, Some(mm[k])));
        let (s2, n) = choose|s2: &str, n: &str|
            s2@ == save_name && n@ == k && #[trigger] call_ensures(load_value, (s2, n), Some(mm[k]));
        assert(call_ensures(load_value, (s2, n), Some(mm[k])));
    }
    assert forall|k: Seq<char>| registered.contains(k) && globals.contains_key(k) implies #[trigger] mm.contains_key(k) by {
        lemma_save_plan_partition(registered, globals, k);
        let i = choose|i: int| 0 <= i < present.len() && present[i] == k;
        if !mm.contains_key(k) {
            assert(!mm.contains_key(present[i]));
            assert(value_read(save_name, load_value, present[i], None));
            let (s2, n) = choose|s2: &str, n: &str|
                s2@ == save_name && n@ == present[i] && #[trigger] call_ensures(load_value, (s2, n), None);
            assert(call_ensures(load_value, (s2, n), None::<Vec<V>>));
            assert(present.contains(n@));
        }
    }
}

} // verus!
