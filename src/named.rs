//! The named collection: a bijection between ids and names, and an element
//! for each id.

use bimap::BiHashMap;
use std::collections::HashMap;
use vstd::prelude::*;
use vstd::string::*;

verus! {

broadcast use vstd::std_specs::hash::group_hash_axioms;

#[verifier::external_type_specification]
#[verifier::external_body]
#[verifier::reject_recursive_types(L)]
#[verifier::reject_recursive_types(R)]
#[verifier::reject_recursive_types(LS)]
#[verifier::reject_recursive_types(RS)]
pub struct ExBiHashMap<L, R, LS, RS>(BiHashMap<L, R, LS, RS>);

/// The id-name pairs that a bimap of names holds.
pub uninterp spec fn name_pairs(m: BiHashMap<usize, String>) -> Map<usize, Seq<char>>;

/// No two ids share a name.
pub open spec fn names_unique(m: Map<usize, Seq<char>>) -> bool {
    forall|a: usize, b: usize|
        #![trigger m[a], m[b]]
        m.contains_key(a) && m.contains_key(b) && m[a] == m[b] ==> a == b
}

/// `m` after binding `name` to `id`: every pair that held `id` or `name`
/// before is dropped, then the pair is added.
pub open spec fn rebind(m: Map<usize, Seq<char>>, id: usize, name: Seq<char>) -> Map<
    usize,
    Seq<char>,
> {
    m.restrict(m.dom().filter(|k: usize| k != id && m[k] != name)).insert(id, name)
}

/// The id that `name` is bound to in `m`, if any.
pub open spec fn id_of(m: Map<usize, Seq<char>>, name: Seq<char>) -> Option<usize> {
    if exists|k: usize| m.contains_key(k) && m[k] == name {
        Some(choose|k: usize| m.contains_key(k) && m[k] == name)
    } else {
        None
    }
}

/// Relies on bimap's `BiHashMap::new`: a new bimap holds no pair.
#[verifier::external_body]
fn names_new() -> (r: BiHashMap<usize, String>)
    ensures
        name_pairs(r).dom() == Set::<usize>::empty(),
{
    BiHashMap::new()
}

/// Relies on bimap's `BiHashMap::insert`: it removes the pair that holds the
/// left value and the pair that holds the right value, then adds the new pair.
#[verifier::external_body]
fn names_insert(m: &mut BiHashMap<usize, String>, id: usize, name: &str)
    ensures
        name_pairs(*final(m)) == rebind(name_pairs(*old(m)), id, name@),
{
    let _ = m.insert(id, name.to_string());
}

/// Relies on bimap's `BiHashMap::get_by_left`: the name bound to `id`.
#[verifier::external_body]
fn names_get_by_left<'a>(m: &'a BiHashMap<usize, String>, id: usize) -> (r: Option<&'a str>)
    ensures
        match r {
            Some(s) => name_pairs(*m).contains_key(id) && name_pairs(*m)[id] == s@,
            None => !name_pairs(*m).contains_key(id),
        },
{
    m.get_by_left(&id).map(|s| s.as_str())
}

/// Relies on bimap's `BiHashMap::get_by_right`: the id bound to `name`.
#[verifier::external_body]
fn names_get_by_right(m: &BiHashMap<usize, String>, name: &str) -> (r: Option<usize>)
    ensures
        match r {
            Some(id) => name_pairs(*m).contains_key(id) && name_pairs(*m)[id] == name@,
            None => forall|k: usize|
                name_pairs(*m).contains_key(k) ==> #[trigger] name_pairs(*m)[k] != name@,
        },
{
    m.get_by_right(name).copied()
}

/// Relies on bimap's `BiHashMap::remove_by_left`: drops the pair that holds
/// `id` and hands back its name.
#[verifier::external_body]
fn names_remove_by_left(m: &mut BiHashMap<usize, String>, id: usize) -> (r: Option<String>)
    ensures
        name_pairs(*final(m)) == name_pairs(*old(m)).remove(id),
        match r {
            Some(s) => name_pairs(*old(m)).contains_key(id) && name_pairs(*old(m))[id] == s@,
            None => !name_pairs(*old(m)).contains_key(id),
        },
{
    m.remove_by_left(&id).map(|pair| pair.1)
}

/// Relies on bimap's `BiHashMap::clear`: no pair is left.
#[verifier::external_body]
fn names_clear(m: &mut BiHashMap<usize, String>)
    ensures
        name_pairs(*final(m)).dom() == Set::<usize>::empty(),
{
    m.clear()
}

/// Relies on bimap's `Clone` for `BiHashMap`: the copy holds the same pairs.
#[verifier::external_body]
fn names_clone(m: &BiHashMap<usize, String>) -> (r: BiHashMap<usize, String>)
    ensures
        name_pairs(r) == name_pairs(*m),
{
    m.clone()
}

/// Relies on bimap's `BiHashMap::left_values`: each id of the bimap, once.
#[verifier::external_body]
fn names_ids(m: &BiHashMap<usize, String>) -> (r: Vec<usize>)
    ensures
        r@.no_duplicates(),
        forall|k: usize| name_pairs(*m).contains_key(k) <==> r@.contains(k),
{
    m.left_values().copied().collect()
}

/// A collection of elements, each under an id and a name; ids and names are
/// in one-to-one correspondence.
pub struct BaseContainer<T> {
    elements_list_: HashMap<usize, T>,
    element_names_: BiHashMap<usize, String>,
}

impl<T> BaseContainer<T> {
    /// The element under each id.
    pub closed spec fn elems(&self) -> Map<usize, T> {
        self.elements_list_@
    }

    /// The name of each id.
    pub closed spec fn names(&self) -> Map<usize, Seq<char>> {
        name_pairs(self.element_names_)
    }

    /// Every element has exactly one name and every name one element.
    pub open spec fn wf(&self) -> bool {
        &&& self.elems().dom() == self.names().dom()
        &&& names_unique(self.names())
    }

    pub fn new() -> (r: Self)
        ensures
            r.wf(),
            r.elems() == Map::<usize, T>::empty(),
            r.names() == Map::<usize, Seq<char>>::empty(),
    {
        BaseContainer { elements_list_: HashMap::new(), element_names_: names_new() }
    }

    pub fn get(&self, id: usize) -> (r: Option<&T>)
        ensures
            match r {
                Some(e) => self.elems().contains_key(id) && self.elems()[id] == *e,
                None => !self.elems().contains_key(id),
            },
    {
        self.elements_list_.get(&id)
    }

    pub fn contains(&self, id: usize) -> (r: bool)
        ensures
            r == self.elems().contains_key(id),
    {
        self.elements_list_.contains_key(&id)
    }

    pub fn contains_name(&self, name: &str) -> (r: bool)
        requires
            self.wf(),
        ensures
            r == (id_of(self.names(), name@) is Some),
    {
        names_get_by_right(&self.element_names_, name).is_some()
    }

    /// Every name of `names` is bound.
    pub fn contains_names(&self, names: &Vec<String>) -> (r: bool)
        requires
            self.wf(),
        ensures
            r == forall|i: int| 0 <= i < names@.len() ==> id_of(self.names(), #[trigger] names@[i]@) is Some,
    {
        let mut i: usize = 0;
        while i < names.len()
            invariant
                self.wf(),
                0 <= i <= names@.len(),
                forall|j: int| 0 <= j < i ==> id_of(self.names(), #[trigger] names@[j]@) is Some,
            decreases names@.len() - i,
        {
            if !self.contains_name(names[i].as_str()) {
                return false;
            }
            i += 1;
        }
        true
    }

    pub fn get_id(&self, name: &str) -> (r: Option<usize>)
        requires
            self.wf(),
        ensures
            r == id_of(self.names(), name@),
    {
        let r = names_get_by_right(&self.element_names_, name);
        proof {
            if let Some(id) = r {
                let k = choose|k: usize| self.names().contains_key(k) && self.names()[k] == name@;
                assert(self.names()[k] == self.names()[id]);
            }
        }
        r
    }

    pub fn get_name(&self, id: usize) -> (r: Option<&str>)
        ensures
            match r {
                Some(s) => self.names().contains_key(id) && self.names()[id] == s@,
                None => !self.names().contains_key(id),
            },
    {
        names_get_by_left(&self.element_names_, id)
    }

    pub fn len(&self) -> (r: usize)
        ensures
            r == self.elems().len(),
    {
        self.elements_list_.len()
    }

    /// Each id of the collection, once.
    pub fn ids(&self) -> (r: Vec<usize>)
        requires
            self.wf(),
        ensures
            r@.no_duplicates(),
            forall|k: usize| self.elems().contains_key(k) <==> r@.contains(k),
    {
        names_ids(&self.element_names_)
    }

    /// Stores `element` under `id` and binds `name` to `id`. An id that held
    /// `name` before loses its element and its name.
    pub fn insert(&mut self, id: usize, element: T, name: &str) -> (r: Option<T>)
        requires
            old(self).wf(),
        ensures
            final(self).wf(),
            final(self).names() == rebind(old(self).names(), id, name@),
            final(self).elems() == old(self).elems().restrict(
                final(self).names().dom(),
            ).insert(id, element),
            match r {
                Some(e) => old(self).elems().contains_key(id) && e == old(self).elems()[id],
                None => !old(self).elems().contains_key(id),
            },
    {
        let ghost names0 = self.names();
        let previous = names_get_by_right(&self.element_names_, name);
        let output = self.elements_list_.insert(id, element);
        if let Some(other) = previous {
            if other != id {
                self.elements_list_.remove(&other);
            }
        }
        names_insert(&mut self.element_names_, id, name);
        proof {
            let n = self.names();
            assert forall|a: usize, b: usize|
                n.contains_key(a) && n.contains_key(b) && n[a] == n[b] implies a == b by {
                if a != id && b != id {
                    assert(names0[a] == names0[b]);
                }
            }
            if let Some(other) = previous {
                assert(names0[other] == name@);
            }
            assert(self.elems().dom() =~= n.dom());
            assert(self.elems() =~= old(self).elems().restrict(n.dom()).insert(id, element));
        }
        output
    }

    /// Stores `element` under `id` only where no id holds `name` yet.
    pub fn insert_no_overwrite(&mut self, id: usize, element: T, name: &str) -> (r: bool)
        requires
            old(self).wf(),
        ensures
            final(self).wf(),
            r == (id_of(old(self).names(), name@) is None),
            r ==> final(self).names() == rebind(old(self).names(), id, name@)
                && final(self).elems() == old(self).elems().restrict(
                final(self).names().dom(),
            ).insert(id, element),
            !r ==> *final(self) == *old(self),
    {
        if !self.contains_name(name) {
            self.insert(id, element, name);
            true
        } else {
            false
        }
    }

    /// Takes the element under `id` out, with its name.
    pub fn remove(&mut self, id: usize) -> (r: Option<(T, String)>)
        requires
            old(self).wf(),
        ensures
            final(self).wf(),
            final(self).elems() == old(self).elems().remove(id),
            final(self).names() == old(self).names().remove(id),
            match r {
                Some((e, s)) => old(self).elems().contains_key(id) && e == old(self).elems()[id]
                    && s@ == old(self).names()[id],
                None => !old(self).elems().contains_key(id),
            },
    {
        let elem = self.elements_list_.remove(&id);
        let name = names_remove_by_left(&mut self.element_names_, id);
        proof {
            assert(self.elems().dom() =~= self.names().dom());
            let n = self.names();
            assert forall|a: usize, b: usize|
                n.contains_key(a) && n.contains_key(b) && n[a] == n[b] implies a == b by {
                assert(old(self).names()[a] == old(self).names()[b]);
            }
        }
        match (elem, name) {
            (Some(e), Some(s)) => Some((e, s)),
            _ => None,
        }
    }

    /// Drops the element that `name` is bound to, and hands back its id.
    pub fn remove_by_name(&mut self, name: &str) -> (r: Option<usize>)
        requires
            old(self).wf(),
        ensures
            final(self).wf(),
            r == id_of(old(self).names(), name@),
            match r {
                Some(id) => final(self).elems() == old(self).elems().remove(id)
                    && final(self).names() == old(self).names().remove(id),
                None => *final(self) == *old(self),
            },
    {
        let id = self.get_id(name);
        match id {
            Some(i) => {
                self.remove(i);
                Some(i)
            },
            None => None,
        }
    }

    /// Takes the element under `id` out and leaves its name bound, so that
    /// `put` can store a changed element in its place.
    pub fn take(&mut self, id: usize) -> (r: Option<T>)
        ensures
            final(self).elems() == old(self).elems().remove(id),
            final(self).names() == old(self).names(),
            match r {
                Some(e) => old(self).elems().contains_key(id) && e == old(self).elems()[id],
                None => !old(self).elems().contains_key(id),
            },
    {
        self.elements_list_.remove(&id)
    }

    /// Stores `element` under `id`, keeping the names as they are.
    pub fn put(&mut self, id: usize, element: T)
        ensures
            final(self).elems() == old(self).elems().insert(id, element),
            final(self).names() == old(self).names(),
    {
        self.elements_list_.insert(id, element);
    }

    pub fn clear(&mut self)
        ensures
            final(self).wf(),
            final(self).elems() == Map::<usize, T>::empty(),
            final(self).names() == Map::<usize, Seq<char>>::empty(),
    {
        self.elements_list_.clear();
        names_clear(&mut self.element_names_);
    }
}

impl<T: Clone> BaseContainer<T> {
    /// A copy of the collection, for a pass that runs while this one changes.
    pub fn duplicate(&self) -> (r: Self)
        ensures
            r.elems() == self.elems(),
            r.names() == self.names(),
    {
        BaseContainer {
            elements_list_: self.elements_list_.clone(),
            element_names_: names_clone(&self.element_names_),
        }
    }
}

} // verus!
