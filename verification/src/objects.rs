//! Object identifiers, and the registry that finds an object's name,
//! system and groups by its identifier.

use vstd::prelude::*;
use std::collections::HashMap;

verus! {

broadcast use {
    vstd::std_specs::hash::group_hash_axioms,
    vstd::string::to_string_from_display_ensures_for_str,
};

/// The name of a group that an object belongs to.
#[derive(Debug)]
pub struct ObjectGroup(pub String);

impl ObjectGroup {
    /// The group's name.
    pub fn as_raw(&self) -> (r: &str)
        ensures
            r@ == self.0@,
    {
        self.0.as_str()
    }
}

impl From<String> for ObjectGroup {
    /// The group named `value`.
    fn from(value: String) -> (r: Self) {
        ObjectGroup(value)
    }
}

impl vstd::std_specs::convert::FromSpecImpl<String> for ObjectGroup {
    open spec fn obeys_from_spec() -> bool {
        true
    }

    open spec fn from_spec(v: String) -> Self {
        ObjectGroup(v)
    }
}

impl From<ObjectGroup> for String {
    /// The group's name.
    fn from(value: ObjectGroup) -> (r: Self) {
        value.0
    }
}

impl vstd::std_specs::convert::FromSpecImpl<ObjectGroup> for String {
    open spec fn obeys_from_spec() -> bool {
        true
    }

    open spec fn from_spec(v: ObjectGroup) -> Self {
        v.0
    }
}

/// The names of a list of groups.
pub open spec fn group_names(groups: Seq<ObjectGroup>) -> Seq<Seq<char>> {
    groups.map_values(|g: ObjectGroup| g.0@)
}

/// Whether `g` is not the group `name`.
pub open spec fn other_group(name: Seq<char>) -> spec_fn(Seq<char>) -> bool {
    |g: Seq<char>| g != name
}

/// Copies of a list of groups.
fn copy_groups(groups: &Vec<ObjectGroup>) -> (r: Vec<ObjectGroup>)
    ensures
        group_names(r@) == group_names(groups@),
{
    let mut r: Vec<ObjectGroup> = Vec::new();
    let mut i: usize = 0;
    while i < groups.len()
        invariant
            i <= groups@.len(),
            group_names(r@) == group_names(groups@.take(i as int)),
        decreases groups@.len() - i,
    {
        let ghost before = r@;
        let name = groups[i].0.clone();
        r.push(ObjectGroup(name));
        proof {
            assert(r@ == before.push(ObjectGroup(name)));
            assert(groups@.take(i + 1) =~= groups@.take(i as int).push(groups@[i as int]));
            assert(group_names(r@) =~= group_names(before).push(groups@[i as int].0@));
            assert(group_names(groups@.take(i + 1)) =~= group_names(groups@.take(i as int)).push(
                groups@[i as int].0@,
            ));
        }
        i = i + 1;
    }
    assert(groups@.take(groups@.len() as int) =~= groups@);
    r
}

/// Puts an object in the group `group_name`, after the groups it is in.
pub fn add_to_group(groups: &mut Vec<ObjectGroup>, group_name: &str)
    ensures
        group_names(final(groups)@) == group_names(old(groups)@).push(group_name@),
{
    groups.push(ObjectGroup(group_name.to_string()));
    proof {
        assert(group_names(groups@) =~= group_names(old(groups)@).push(group_name@));
    }
}

/// Takes an object out of the group `group_name`: every entry of the group
/// goes, the others keep their order.
pub fn remove_from_group(groups: &mut Vec<ObjectGroup>, group_name: &str)
    ensures
        group_names(final(groups)@) == group_names(old(groups)@).filter(other_group(group_name@)),
{
    let ghost names = group_names(groups@);
    let ghost pred = other_group(group_name@);
    let target = group_name.to_string();
    let mut kept: Vec<ObjectGroup> = Vec::new();
    let mut i: usize = 0;
    while i < groups.len()
        invariant
            i <= groups@.len(),
            target@ == group_name@,
            names == group_names(groups@),
            pred == other_group(group_name@),
            group_names(kept@) == names.take(i as int).filter(pred),
        decreases groups@.len() - i,
    {
        proof {
            assert(names.take(i + 1).drop_last() =~= names.take(i as int));
            names.take(i as int).lemma_filter_push(names[i as int], pred);
            assert(names.take(i + 1) =~= names.take(i as int).push(names[i as int]));
        }
        if groups[i].0 != target {
            let ghost before = kept@;
            let name = groups[i].0.clone();
            kept.push(ObjectGroup(name));
            assert(kept@ == before.push(ObjectGroup(name)));
            assert(names[i as int] == groups@[i as int].0@);
            assert(group_names(kept@) =~= group_names(before).push(names[i as int]));
        } else {
            assert(names[i as int] == groups@[i as int].0@);
        }
        i = i + 1;
    }
    assert(names.take(names.len() as int) =~= names);
    *groups = kept;
}

/// The identifiers handed to objects, and the name, system and groups
/// registered for each.
pub struct ObjectRegistry {
    last_object_id: u128,
    names: HashMap<u128, String>,
    systems: HashMap<u128, String>,
    groups: HashMap<u128, Vec<ObjectGroup>>,
}

impl ObjectRegistry {
    /// The last identifier handed out; 0 before the first.
    pub closed spec fn last_id(&self) -> u128 {
        self.last_object_id
    }

    /// The registered names, by identifier.
    pub closed spec fn names(&self) -> Map<u128, Seq<char>> {
        self.names@.map_values(|s: String| s@)
    }

    /// The registered systems, by identifier.
    pub closed spec fn systems(&self) -> Map<u128, Seq<char>> {
        self.systems@.map_values(|s: String| s@)
    }

    /// The registered groups, by identifier.
    pub closed spec fn groups(&self) -> Map<u128, Seq<Seq<char>>> {
        self.groups@.map_values(|g: Vec<ObjectGroup>| group_names(g@))
    }

    /// Nothing handed out, nothing registered.
    pub fn new() -> (r: Self)
        ensures
            r.last_id() == 0,
            r.names() == Map::<u128, Seq<char>>::empty(),
            r.systems() == Map::<u128, Seq<char>>::empty(),
            r.groups() == Map::<u128, Seq<Seq<char>>>::empty(),
    {
        let r = ObjectRegistry {
            last_object_id: 0,
            names: HashMap::new(),
            systems: HashMap::new(),
            groups: HashMap::new(),
        };
        assert(r.names() =~= Map::<u128, Seq<char>>::empty());
        assert(r.systems() =~= Map::<u128, Seq<char>>::empty());
        assert(r.groups() =~= Map::<u128, Seq<Seq<char>>>::empty());
        r
    }

    /// A new identifier: one more than the last.
    pub fn gen_object_id(&mut self) -> (r: u128)
        requires
            old(self).last_id() < u128::MAX,
        ensures
            r == old(self).last_id() + 1,
            final(self).last_id() == r,
            final(self).names() == old(self).names(),
            final(self).systems() == old(self).systems(),
            final(self).groups() == old(self).groups(),
    {
        self.last_object_id = self.last_object_id + 1;
        self.last_object_id
    }

    /// Registers the name of the object `id`, replacing the one registered.
    pub fn register_object_id_name(&mut self, id: u128, name: &str)
        ensures
            final(self).names() == old(self).names().insert(id, name@),
            final(self).last_id() == old(self).last_id(),
            final(self).systems() == old(self).systems(),
            final(self).groups() == old(self).groups(),
    {
        self.names.insert(id, name.to_string());
        proof {
                assert(self.names() =~= old(self).names().insert(id, name@));
        }
    }

    /// Registers the system of the object `id`, replacing the one
    /// registered.
    pub fn register_object_id_system(&mut self, id: u128, system: &str)
        ensures
            final(self).systems() == old(self).systems().insert(id, system@),
            final(self).last_id() == old(self).last_id(),
            final(self).names() == old(self).names(),
            final(self).groups() == old(self).groups(),
    {
        self.systems.insert(id, system.to_string());
        proof {
                assert(self.systems() =~= old(self).systems().insert(id, system@));
        }
    }

    /// Registers a copy of the groups of the object `id`, replacing the ones
    /// registered.
    pub fn register_object_id_groups(&mut self, id: u128, groups: &Vec<ObjectGroup>)
        ensures
            final(self).groups() == old(self).groups().insert(id, group_names(groups@)),
            final(self).last_id() == old(self).last_id(),
            final(self).names() == old(self).names(),
            final(self).systems() == old(self).systems(),
    {
        let copy = copy_groups(groups);
        self.groups.insert(id, copy);
        assert(self.groups() =~= old(self).groups().insert(id, group_names(groups@)));
    }

    /// A copy of the groups registered for the object `id`.
    pub fn get_object_groups_with_id(&self, id: u128) -> (r: Option<Vec<ObjectGroup>>)
        ensures
            match r {
                Some(g) => self.groups().contains_key(id) && group_names(g@) == self.groups()[id],
                None => !self.groups().contains_key(id),
            },
    {
        match self.groups.get(&id) {
            Some(g) => Some(copy_groups(g)),
            None => None,
        }
    }

    /// A copy of the name registered for the object `id`.
    pub fn get_object_name_with_id(&self, id: u128) -> (r: Option<String>)
        ensures
            match r {
                Some(n) => self.names().contains_key(id) && n@ == self.names()[id],
                None => !self.names().contains_key(id),
            },
    {
        match self.names.get(&id) {
            Some(n) => Some(n.clone()),
            None => None,
        }
    }

    /// Puts the object `id` in the group `group_name` and registers its
    /// groups.
    pub fn add_to_group(&mut self, id: u128, groups: &mut Vec<ObjectGroup>, group_name: &str)
        ensures
            group_names(final(groups)@) == group_names(old(groups)@).push(group_name@),
            final(self).groups() == old(self).groups().insert(id, group_names(final(groups)@)),
            final(self).last_id() == old(self).last_id(),
            final(self).names() == old(self).names(),
            final(self).systems() == old(self).systems(),
    {
        add_to_group(groups, group_name);
        self.register_object_id_groups(id, groups);
    }

    /// Takes the object `id` out of the group `group_name` and registers its
    /// groups.
    pub fn remove_from_group(&mut self, id: u128, groups: &mut Vec<ObjectGroup>, group_name: &str)
        ensures
            group_names(final(groups)@) == group_names(old(groups)@).filter(
                other_group(group_name@),
            ),
            final(self).groups() == old(self).groups().insert(id, group_names(final(groups)@)),
            final(self).last_id() == old(self).last_id(),
            final(self).names() == old(self).names(),
            final(self).systems() == old(self).systems(),
    {
        remove_from_group(groups, group_name);
        self.register_object_id_groups(id, groups);
    }

    /// Whether the groups registered for the object `id` hold the group
    /// `group_name`; false where none are registered.
    pub fn is_object_in_group(&self, id: u128, group_name: &str) -> (r: bool)
        ensures
            r == (self.groups().contains_key(id) && self.groups()[id].contains(group_name@)),
    {
        match self.groups.get(&id) {
            Some(groups) => {
                assert(self.groups().contains_key(id));
                assert(self.groups()[id] == group_names(groups@));
                let target = group_name.to_string();
                let mut i: usize = 0;
                while i < groups.len()
                    invariant
                        i <= groups@.len(),
                        target@ == group_name@,
                        self.groups().contains_key(id),
                        self.groups()[id] == group_names(groups@),
                        forall|j: int| 0 <= j < i ==> groups@[j].0@ != group_name@,
                    decreases groups@.len() - i,
                {
                    if groups[i].0 == target {
                        assert(group_names(groups@)[i as int] == group_name@);
                        assert(group_names(groups@).contains(group_name@));
                        return true;
                    }
                    i = i + 1;
                }
                proof {
                    if group_names(groups@).contains(group_name@) {
                        let j = choose|j: int| 0 <= j < group_names(groups@).len() && group_names(groups@)[j] == group_name@;
                        assert(groups@[j].0@ == group_name@);
                    }
                }
                false
            },
            None => {
                assert(!self.groups().contains_key(id));
                false
            },
        }
    }

    /// Whether one of the objects `ids` is in the group `group_name`, as a
    /// trigger asks of the objects it touches.
    pub fn any_object_in_group(&self, ids: &Vec<u128>, group_name: &str) -> (r: bool)
        ensures
            r == exists|k: int|
                0 <= k < ids@.len() && self.groups().contains_key(#[trigger] ids@[k])
                    && self.groups()[ids@[k]].contains(group_name@),
    {
        let mut i: usize = 0;
        while i < ids.len()
            invariant
                i <= ids@.len(),
                forall|k: int|
                    0 <= k < i ==> !(self.groups().contains_key(#[trigger] ids@[k])
                        && self.groups()[ids@[k]].contains(group_name@)),
            decreases ids@.len() - i,
        {
            if self.is_object_in_group(ids[i], group_name) {
                return true;
            }
            i = i + 1;
        }
        false
    }
}

/// Taking an object out of a group right after putting it in leaves it in
/// none of that group's entries, and in the other groups as before.
pub proof fn lemma_group_add_then_remove(names: Seq<Seq<char>>, name: Seq<char>)
    ensures
        names.push(name).filter(other_group(name)) == names.filter(other_group(name)),
{
    names.lemma_filter_push(name, other_group(name));
}

} // verus!
