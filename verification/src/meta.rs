//! Per-entity metadata: which component types are attached, and for each
//! indexed field the encoded value last written to the index.
//!
//! The metadata row is the single source of truth for which index rows
//! exist for an entity: every index write records the new encoded value
//! here, and every index deletion uses the previously recorded value.
//! Both levels are association lists with unique keys, which keeps the
//! write order of entries observable and deterministic.

use vstd::prelude::*;

verus! {

/// The index bookkeeping of one component type on one entity: for each
/// indexed field name, the encoded value last written to the index, or the
/// empty string if the field was never indexed.
pub struct ComponentArchetype {
    pub index_keys: Vec<(String, String)>,
}

/// The views of a list of string pairs.
pub open spec fn pair_views(v: Seq<(String, String)>) -> Seq<(Seq<char>, Seq<char>)> {
    v.map_values(|p: (String, String)| (p.0@, p.1@))
}

/// The views of a list of strings.
pub open spec fn str_views(v: Seq<String>) -> Seq<Seq<char>> {
    v.map_values(|s: String| s@)
}

/// The view of an archetype: field name to last encoded value, in entry
/// order.
pub open spec fn arch_view(a: &ComponentArchetype) -> Seq<(Seq<char>, Seq<char>)> {
    pair_views(a.index_keys@)
}

/// First value bound to `k` in an association list, if any.
pub open spec fn assoc_find<V>(s: Seq<(Seq<char>, V)>, k: Seq<char>) -> Option<V>
    decreases s.len(),
{
    if s.len() == 0 {
        Option::None
    } else if s[0].0 == k {
        Option::Some(s[0].1)
    } else {
        assoc_find(s.drop_first(), k)
    }
}

/// Whether the keys of an association list are distinct.
pub open spec fn distinct_assoc_keys<V>(s: Seq<(Seq<char>, V)>) -> bool {
    forall|i: int, j: int| 0 <= i < j < s.len() ==> s[i].0 != s[j].0
}

/// The bound value is the one at any index holding the key.
pub proof fn lemma_assoc_find_at<V>(s: Seq<(Seq<char>, V)>, k: Seq<char>, i: int)
    requires
        distinct_assoc_keys(s),
        0 <= i < s.len(),
        s[i].0 == k,
    ensures
        assoc_find(s, k) == Option::Some(s[i].1),
    decreases s.len(),
{
    if i > 0 {
        assert(s[0].0 != k);
        assert(forall|x: int, y: int|
            0 <= x < y < s.drop_first().len() ==> s.drop_first()[x].0 != s.drop_first()[y].0);
        lemma_assoc_find_at(s.drop_first(), k, i - 1);
    }
}

/// The association list with the first entry bound to `k` removed.
pub open spec fn assoc_remove<V>(s: Seq<(Seq<char>, V)>, k: Seq<char>) -> Seq<(Seq<char>, V)>
    decreases s.len(),
{
    if s.len() == 0 {
        s
    } else if s[0].0 == k {
        s.drop_first()
    } else {
        seq![s[0]] + assoc_remove(s.drop_first(), k)
    }
}

/// Removing a bound key removes exactly the entry at its index.
pub proof fn lemma_assoc_remove_at<V>(s: Seq<(Seq<char>, V)>, k: Seq<char>, i: int)
    requires
        distinct_assoc_keys(s),
        0 <= i < s.len(),
        s[i].0 == k,
    ensures
        assoc_remove(s, k) == s.remove(i),
    decreases s.len(),
{
    if i == 0 {
        assert(assoc_remove(s, k) =~= s.remove(0));
    } else {
        assert(s[0].0 != k);
        assert(forall|x: int, y: int|
            0 <= x < y < s.drop_first().len() ==> s.drop_first()[x].0 != s.drop_first()[y].0);
        lemma_assoc_remove_at(s.drop_first(), k, i - 1);
        assert(seq![s[0]] + s.drop_first().remove(i - 1) =~= s.remove(i));
    }
}

/// A bound value comes from some entry with that key.
pub proof fn lemma_assoc_find_in<V>(s: Seq<(Seq<char>, V)>, k: Seq<char>)
    ensures
        assoc_find(s, k) matches Option::Some(v) ==> exists|i: int|
            0 <= i < s.len() && #[trigger] s[i] == (k, v),
    decreases s.len(),
{
    if s.len() > 0 {
        if s[0].0 == k {
            assert(s[0] == (k, s[0].1));
        } else {
            lemma_assoc_find_in(s.drop_first(), k);
            if assoc_find(s, k) is Some {
                let v = assoc_find(s, k).unwrap();
                let i = choose|i: int|
                    0 <= i < s.drop_first().len() && #[trigger] s.drop_first()[i] == (k, v);
                assert(s[i + 1] == (k, v));
            }
        }
    }
}

/// A key at no index is not bound.
pub proof fn lemma_assoc_find_absent<V>(s: Seq<(Seq<char>, V)>, k: Seq<char>)
    requires
        forall|i: int| 0 <= i < s.len() ==> s[i].0 != k,
    ensures
        assoc_find(s, k) is None,
    decreases s.len(),
{
    if s.len() > 0 {
        lemma_assoc_find_absent(s.drop_first(), k);
    }
}

impl ComponentArchetype {
    /// Field names are unique.
    pub open spec fn wf(&self) -> bool {
        distinct_assoc_keys(arch_view(self))
    }

    /// An archetype with every given field name bound to the empty string:
    /// the state of a component type none of whose fields has been indexed
    /// yet.
    pub fn new_default(field_names: &Vec<String>) -> (r: ComponentArchetype)
        ensures
            arch_view(&r).len() == field_names@.len(),
            forall|i: int|
                0 <= i < field_names@.len() ==> #[trigger] arch_view(&r)[i] == (
                field_names@[i]@,
                ""@,
            ),
    {
        let mut index_keys: Vec<(String, String)> = Vec::new();
        let mut i: usize = 0;
        proof {
            reveal_strlit("");
        }
        while i < field_names.len()
            invariant
                i <= field_names@.len(),
                index_keys@.len() == i,
                forall|j: int|
                    0 <= j < i ==> (#[trigger] index_keys@[j].0@, index_keys@[j].1@) == (
                    field_names@[j]@,
                    ""@,
                ),
            decreases field_names@.len() - i,
        {
            let name = field_names[i].clone();
            index_keys.push((name, String::new()));
            proof {
                reveal_strlit("");
                assert(""@ =~= Seq::<char>::empty());
            }
            i = i + 1;
        }
        let r = ComponentArchetype { index_keys };
        proof {
            assert(forall|i: int|
                0 <= i < field_names@.len() ==> #[trigger] arch_view(&r)[i] == (
                field_names@[i]@,
                ""@,
                ));
        }
        r
    }

    /// Copy the archetype.
    pub fn clone(&self) -> (r: ComponentArchetype)
        ensures
            arch_view(&r) == arch_view(self),
    {
        let mut index_keys: Vec<(String, String)> = Vec::new();
        let mut i: usize = 0;
        while i < self.index_keys.len()
            invariant
                i <= self.index_keys@.len(),
                index_keys@.len() == i,
                forall|j: int|
                    0 <= j < i ==> (#[trigger] index_keys@[j].0@, index_keys@[j].1@) == (
                    self.index_keys@[j].0@,
                    self.index_keys@[j].1@,
                ),
            decreases self.index_keys@.len() - i,
        {
            let name = self.index_keys[i].0.clone();
            let value = self.index_keys[i].1.clone();
            index_keys.push((name, value));
            i = i + 1;
        }
        let r = ComponentArchetype { index_keys };
        proof {
            assert(arch_view(&r) =~= arch_view(self));
        }
        r
    }
}

/// The metadata record of one entity: the archetype of every component
/// type that has been attached, keyed by type path.
pub struct EntityMetadata {
    pub component_archetypes: Vec<(String, ComponentArchetype)>,
}

/// The view of a metadata record: type path to archetype view, in entry
/// order.
pub open spec fn meta_view(m: &EntityMetadata) -> Seq<(Seq<char>, Seq<(Seq<char>, Seq<char>)>)> {
    m.component_archetypes@.map_values(|p: (String, ComponentArchetype)| (p.0@, arch_view(&p.1)))
}

impl EntityMetadata {
    /// Type paths are unique, and every archetype is well formed.
    pub open spec fn wf(&self) -> bool {
        &&& distinct_assoc_keys(meta_view(self))
        &&& forall|i: int|
            0 <= i < self.component_archetypes@.len() ==> (
            #[trigger] self.component_archetypes@[i].1).wf()
    }

    /// A record with no component types.
    pub fn new_empty() -> (r: EntityMetadata)
        ensures
            meta_view(&r) == Seq::<(Seq<char>, Seq<(Seq<char>, Seq<char>)>)>::empty(),
            r.wf(),
    {
        let r = EntityMetadata { component_archetypes: Vec::new() };
        proof {
            assert(meta_view(&r) =~= Seq::<(Seq<char>, Seq<(Seq<char>, Seq<char>)>)>::empty());
        }
        r
    }

    /// The position of a type path's entry, if present.
    pub fn find(&self, type_path: &str) -> (r: Option<usize>)
        ensures
            match r {
                Option::Some(i) => i < self.component_archetypes@.len() && meta_view(self)[
                    i as int
                ].0 == type_path@,
                Option::None => forall|i: int|
                    0 <= i < meta_view(self).len() ==> meta_view(self)[i].0 != type_path@,
            },
    {
        let mut i: usize = 0;
        while i < self.component_archetypes.len()
            invariant
                i <= self.component_archetypes@.len(),
                forall|j: int| 0 <= j < i ==> meta_view(self)[j].0 != type_path@,
            decreases self.component_archetypes@.len() - i,
        {
            if crate::order::str_compare(self.component_archetypes[i].0.as_str(), type_path) == 0 {
                return Option::Some(i);
            }
            i = i + 1;
        }
        Option::None
    }

    /// Copy the record.
    pub fn clone(&self) -> (r: EntityMetadata)
        ensures
            meta_view(&r) == meta_view(self),
    {
        let mut component_archetypes: Vec<(String, ComponentArchetype)> = Vec::new();
        let mut i: usize = 0;
        while i < self.component_archetypes.len()
            invariant
                i <= self.component_archetypes@.len(),
                component_archetypes@.len() == i,
                forall|j: int|
                    0 <= j < i ==> (#[trigger] component_archetypes@[j].0@, arch_view(
                        &component_archetypes@[j].1,
                    )) == (self.component_archetypes@[j].0@, arch_view(
                        &self.component_archetypes@[j].1,
                    )),
            decreases self.component_archetypes@.len() - i,
        {
            let path = self.component_archetypes[i].0.clone();
            let arch = self.component_archetypes[i].1.clone();
            component_archetypes.push((path, arch));
            i = i + 1;
        }
        let r = EntityMetadata { component_archetypes };
        proof {
            assert(meta_view(&r) =~= meta_view(self));
        }
        r
    }
}

} // verus!
