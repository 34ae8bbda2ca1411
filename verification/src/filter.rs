//! Queries over a component type's secondary index.
//!
//! A filter names an indexed field and a bound: equality with one encoded
//! value, or a range of encoded values.  The matching index rows form one
//! contiguous key range, so every query is a range scan; each row's value
//! holds the entity id text that the index write recorded.

use vstd::prelude::*;

use vstd::utf8::{decode_utf8, encode_utf8, valid_utf8};

use crate::Error;
use crate::component::KvComponent;
use crate::handler::EntityHandler;
use crate::keys::{EntityID, raw_strip, spec_component_data_key, spec_component_index_key};
use crate::list::EntityListHandler;
use crate::store::{KvStore, Value, ValueModel, batch_lookup, row_views};

verus! {

/// The bound of a filter: one encoded value, or a half-open range of
/// encoded values.
pub enum BoundCondition {
    Value(String),
    Range(String, String),
}

/// A field predicate over one component type's index.
pub struct Filter<T> {
    pub field_name: String,
    pub bound_condition: BoundCondition,
    pub marker: core::marker::PhantomData<T>,
}

/// Relies on `String::from_utf8` of std: it succeeds exactly on valid
/// UTF-8, and returns the characters the bytes encode, as vstd's UTF-8
/// specification defines them.
#[verifier::external_body]
fn bytes_to_string(v: &Vec<u8>) -> (r: Option<String>)
    ensures
        r is Some <==> valid_utf8(v@),
        r matches Option::Some(s) ==> s@ == decode_utf8(v@) && encode_utf8(s@) == v@,
{
    String::from_utf8(v.clone()).ok()
}

/// The recorded entity ids of a scanned index range, in key order: each
/// row's value decoded as text, with the id prefix stripped; `None` when
/// a row's value is not valid text.
pub open spec fn ids_of_rows(rows: Seq<(Seq<char>, ValueModel)>) -> Option<Seq<Seq<char>>>
    decreases rows.len(),
{
    if rows.len() == 0 {
        Option::Some(Seq::empty())
    } else {
        match (ids_of_rows(rows.drop_last()), rows.last().1) {
            (Option::Some(ps), ValueModel::Bytes(b)) => if valid_utf8(b) {
                Option::Some(ps.push(raw_strip(decode_utf8(b))))
            } else {
                Option::None
            },
            _ => Option::None,
        }
    }
}

/// One bad row value fails the whole id read.
proof fn lemma_ids_fail(rows: Seq<(Seq<char>, ValueModel)>, i: int)
    requires
        0 <= i < rows.len(),
        !(rows[i].1 matches ValueModel::Bytes(b) && valid_utf8(b)),
    ensures
        ids_of_rows(rows) is None,
    decreases rows.len(),
{
    if i < rows.len() - 1 {
        assert(rows.drop_last()[i] == rows[i]);
        lemma_ids_fail(rows.drop_last(), i);
    }
}

/// The payload row keys of a list of recorded ids.
pub open spec fn data_keys_of(tp: Seq<char>, ids: Seq<Seq<char>>) -> Seq<Seq<char>> {
    ids.map_values(|i: Seq<char>| spec_component_data_key(tp, "e-"@ + i))
}

/// The inner ids of a list of entity values.
pub open spec fn id_views(v: Seq<EntityID>) -> Seq<Seq<char>> {
    v.map_values(|e: EntityID| e.raw_inner())
}

impl<T: KvComponent> Filter<T> {
    /// A filter on one indexed field of `T`.
    pub fn new(field_name: String, bound_condition: BoundCondition) -> (r: Filter<T>)
        ensures
            r.field_name == field_name,
            r.bound_condition == bound_condition,
    {
        Filter { field_name, bound_condition, marker: core::marker::PhantomData }
    }

    /// The low encoded-value bound.
    pub open spec fn lo(&self) -> Seq<char> {
        match self.bound_condition {
            BoundCondition::Value(ref v) => v@,
            BoundCondition::Range(ref a, ref b) => a@,
        }
    }

    /// The high encoded-value bound.
    pub open spec fn hi(&self) -> Seq<char> {
        match self.bound_condition {
            BoundCondition::Value(ref v) => v@,
            BoundCondition::Range(ref a, ref b) => b@,
        }
    }

    /// The first key of the matching index range.
    pub open spec fn start_key(&self) -> Seq<char> {
        spec_component_index_key(T::spec_type_path(), self.field_name@, self.lo(), ""@)
    }

    /// The bound past the matching index range.
    pub open spec fn end_key(&self) -> Seq<char> {
        spec_component_index_key(T::spec_type_path(), self.field_name@, self.hi(), "~"@)
    }

    /// The matching index rows of a store, in key order.
    pub open spec fn matching_rows(&self, store: &KvStore) -> Seq<(Seq<char>, ValueModel)> {
        store.range_rows(self.start_key(), self.end_key())
    }

    fn bounds(&self) -> (r: (&String, &String))
        ensures
            r.0@ == self.lo(),
            r.1@ == self.hi(),
    {
        match &self.bound_condition {
            BoundCondition::Value(v) => (v, v),
            BoundCondition::Range(a, b) => (a, b),
        }
    }

    /// The entities whose index rows match the filter, in index order:
    /// one per matching row, read from the row's recorded id text.
    pub fn query_entity_ids(&self, store: &KvStore) -> (r: Result<Vec<EntityID>, Error>)
        requires
            store.wf(),
        ensures
            match r {
                Result::Ok(v) => ids_of_rows(self.matching_rows(store)) == Option::Some(
                    id_views(v@),
                ) && forall|i: int| 0 <= i < v@.len() ==> (#[trigger] v@[i]) is Entity,
                Result::Err(Error::InvalidEntityId) => ids_of_rows(self.matching_rows(store))
                    is None,
                Result::Err(_) => false,
            },
    {
        let (lo, hi) = self.bounds();
        let tp = T::type_path();
        let start = crate::keys::component_index_path(
            &tp,
            self.field_name.as_str(),
            lo.as_str(),
            &EntityID::Empty,
        );
        let end = crate::keys::component_index_path(
            &tp,
            self.field_name.as_str(),
            hi.as_str(),
            &EntityID::Max,
        );
        let rows = store.scan_all(start.as_str(), end.as_str());
        let ghost rv = row_views(rows@);
        let mut out: Vec<EntityID> = Vec::new();
        let mut i: usize = 0;
        proof {
            assert(rv.take(0int) =~= Seq::<(Seq<char>, ValueModel)>::empty());
            assert(id_views(out@) =~= Seq::<Seq<char>>::empty());
        }
        while i < rows.len()
            invariant
                i <= rows@.len(),
                rv == row_views(rows@),
                rv == self.matching_rows(store),
                ids_of_rows(rv.take(i as int)) == Option::Some(id_views(out@)),
                forall|j: int| 0 <= j < out@.len() ==> (#[trigger] out@[j]) is Entity,
            decreases rows@.len() - i,
        {
            proof {
                assert(rv.take(i + 1).drop_last() =~= rv.take(i as int));
                assert(rv.take(i + 1).last() == rv[i as int]);
                assert(rv[i as int] == (rows@[i as int].0@, rows@[i as int].1@));
            }
            match &rows[i].1 {
                Value::Bytes(b) => match bytes_to_string(b) {
                    Option::Some(text) => {
                        let ghost prev = id_views(out@);
                        let ghost textv = text@;
                        let ent = EntityID::new_raw(text);
                        out.push(ent);
                        proof {
                            assert(ent.raw_inner() == raw_strip(textv));
                            assert(id_views(out@) =~= prev.push(raw_strip(textv)));
                            assert(ids_of_rows(rv.take(i + 1)) == Option::Some(id_views(out@)));
                        }
                    },
                    Option::None => {
                        proof {
                            lemma_ids_fail(rv, i as int);
                        }
                        return Result::Err(Error::InvalidEntityId);
                    },
                },
                Value::Meta(_) => {
                    proof {
                        lemma_ids_fail(rv, i as int);
                    }
                    return Result::Err(Error::InvalidEntityId);
                },
            }
            i = i + 1;
        }
        proof {
            assert(rv.take(rows@.len() as int) =~= rv);
        }
        Result::Ok(out)
    }

    /// The number of matching index rows.
    pub fn count(&self, store: &KvStore) -> (r: Result<u64, Error>)
        requires
            store.wf(),
        ensures
            match r {
                Result::Ok(n) => ids_of_rows(self.matching_rows(store)) is Some && n
                    == self.matching_rows(store).len(),
                Result::Err(Error::InvalidEntityId) => ids_of_rows(self.matching_rows(store))
                    is None,
                Result::Err(_) => false,
            },
    {
        let ids = match self.query_entity_ids(store) {
            Result::Ok(v) => v,
            Result::Err(e) => {
                return Result::Err(e);
            },
        };
        proof {
            lemma_ids_len(self.matching_rows(store));
        }
        Result::Ok(ids.len() as u64)
    }

    /// A handle on the first matching entity; `NotFound` when no index
    /// row matches.
    pub fn entity(&self, store: &KvStore) -> (r: Result<EntityHandler, Error>)
        requires
            store.wf(),
        ensures
            ({
                let rows = self.matching_rows(store);
                match r {
                    Result::Ok(h) => rows.len() > 0 && (rows[0].1 matches ValueModel::Bytes(b)
                        && valid_utf8(b) && h.entity_id is Entity && h.entity_id.raw_inner()
                        == raw_strip(decode_utf8(b))),
                    Result::Err(Error::NotFound) => rows.len() == 0,
                    Result::Err(Error::InvalidEntityId) => rows.len() > 0 && !(rows[0].1 matches
                        ValueModel::Bytes(b) && valid_utf8(b)),
                    Result::Err(_) => false,
                }
            }),
    {
        let (lo, hi) = self.bounds();
        let tp = T::type_path();
        let start = crate::keys::component_index_path(
            &tp,
            self.field_name.as_str(),
            lo.as_str(),
            &EntityID::Empty,
        );
        let end = crate::keys::component_index_path(
            &tp,
            self.field_name.as_str(),
            hi.as_str(),
            &EntityID::Max,
        );
        let page = store.scan(start.as_str(), end.as_str(), 1);
        let ghost rows = self.matching_rows(store);
        if page.len() == 0 {
            proof {
                if rows.len() > 0 {
                    assert(row_views(page@).len() == 1);
                }
            }
            return Result::Err(Error::NotFound);
        }
        proof {
            assert(row_views(page@)[0] == (page@[0].0@, page@[0].1@));
            assert(row_views(page@)[0] == rows[0]);
        }
        match &page[0].1 {
            Value::Bytes(b) => match bytes_to_string(b) {
                Option::Some(text) => {
                    let ent = EntityID::new_raw(text);
                    Result::Ok(EntityHandler::new(ent))
                },
                Option::None => Result::Err(Error::InvalidEntityId),
            },
            Value::Meta(_) => Result::Err(Error::InvalidEntityId),
        }
    }

    /// The first matching entity's stored component value.
    pub fn single(&self, store: &KvStore) -> (r: Result<T, Error>)
        requires
            store.wf(),
        ensures
            ({
                let rows = self.matching_rows(store);
                let c = store.contents();
                match r {
                    Result::Ok(t) => rows.len() > 0 && (rows[0].1 matches ValueModel::Bytes(idb)
                        && valid_utf8(idb) && {
                        let dk = spec_component_data_key(
                            T::spec_type_path(),
                            "e-"@ + raw_strip(decode_utf8(idb)),
                        );
                        c.contains_key(dk) && (c[dk] matches ValueModel::Bytes(pb)
                            && t.spec_encode() == pb)
                    }),
                    Result::Err(Error::NotFound) => rows.len() == 0 || (rows[0].1 matches
                        ValueModel::Bytes(idb) && valid_utf8(idb) && !c.contains_key(
                        spec_component_data_key(
                            T::spec_type_path(),
                            "e-"@ + raw_strip(decode_utf8(idb)),
                        ),
                    )),
                    Result::Err(Error::InvalidEntityId) => rows.len() > 0 && !(rows[0].1 matches
                        ValueModel::Bytes(b) && valid_utf8(b)),
                    Result::Err(Error::DeserializationError) => rows.len() > 0 && (rows[0].1
                        matches ValueModel::Bytes(idb) && valid_utf8(idb) && {
                        let dk = spec_component_data_key(
                            T::spec_type_path(),
                            "e-"@ + raw_strip(decode_utf8(idb)),
                        );
                        c.contains_key(dk) && !(c[dk] matches ValueModel::Bytes(pb) && exists|t: T|
                            t.spec_encode() == pb)
                    }),
                    Result::Err(_) => false,
                }
            }),
    {
        let handler = match self.entity(store) {
            Result::Ok(h) => h,
            Result::Err(e) => {
                return Result::Err(e);
            },
        };
        let tp = T::type_path();
        let dk = crate::keys::component_data_path(&tp, &handler.entity_id);
        match store.get(dk.as_str()) {
            Option::None => Result::Err(Error::NotFound),
            Option::Some(v) => match v {
                Value::Bytes(b) => match T::decode(b.as_slice()) {
                    Option::Some(t) => Result::Ok(t),
                    Option::None => Result::Err(Error::DeserializationError),
                },
                Value::Meta(_) => Result::Err(Error::DeserializationError),
            },
        }
    }

    /// Every matching entity's stored component value, in index order.
    pub fn all(&self, store: &KvStore) -> (r: Result<Vec<T>, Error>)
        requires
            store.wf(),
        ensures
            ({
                let c = store.contents();
                match r {
                    Result::Ok(vs) => (ids_of_rows(self.matching_rows(store)) matches Option::Some(
                        ids,
                    ) && {
                        let found = batch_lookup(c, data_keys_of(T::spec_type_path(), ids));
                        vs@.len() == found.len() && forall|i: int|
                            0 <= i < found.len() ==> ((#[trigger] found[i]).1 matches
                                ValueModel::Bytes(b) && vs@[i].spec_encode() == b)
                    }),
                    Result::Err(Error::InvalidEntityId) => ids_of_rows(self.matching_rows(store))
                        is None,
                    Result::Err(Error::DeserializationError) => (ids_of_rows(
                        self.matching_rows(store),
                    ) matches Option::Some(ids) && {
                        let found = batch_lookup(c, data_keys_of(T::spec_type_path(), ids));
                        exists|i: int|
                            0 <= i < found.len() && !((#[trigger] found[i]).1 matches
                                ValueModel::Bytes(b) && exists|t: T| t.spec_encode() == b)
                    }),
                    Result::Err(_) => false,
                }
            }),
    {
        let list = match self.list(store) {
            Result::Ok(l) => l,
            Result::Err(e) => {
                return Result::Err(e);
            },
        };
        let ghost ids = id_views(list.entity_ids@);
        proof {
            assert forall|i: int|
                0 <= i < list.entity_ids@.len() implies crate::list::entity_data_keys(
                T::spec_type_path(),
                list.entity_ids@,
            )[i] == data_keys_of(T::spec_type_path(), ids)[i] by {
                assert(list.entity_ids@[i] is Entity);
                assert(list.entity_ids@[i].text() == "e-"@ + list.entity_ids@[i].raw_inner());
            }
            assert(crate::list::entity_data_keys(T::spec_type_path(), list.entity_ids@)
                =~= data_keys_of(T::spec_type_path(), ids));
        }
        list.get::<T>(store)
    }

    /// A handle on every matching entity, for batched operations.
    pub fn list(&self, store: &KvStore) -> (r: Result<EntityListHandler, Error>)
        requires
            store.wf(),
        ensures
            match r {
                Result::Ok(l) => ids_of_rows(self.matching_rows(store)) == Option::Some(
                    id_views(l.entity_ids@),
                ) && forall|i: int|
                    0 <= i < l.entity_ids@.len() ==> (#[trigger] l.entity_ids@[i]) is Entity,
                Result::Err(Error::InvalidEntityId) => ids_of_rows(self.matching_rows(store))
                    is None,
                Result::Err(_) => false,
            },
    {
        let ids = match self.query_entity_ids(store) {
            Result::Ok(v) => v,
            Result::Err(e) => {
                return Result::Err(e);
            },
        };
        Result::Ok(EntityListHandler::new(ids))
    }
}

/// A successful id read yields one id per row.
proof fn lemma_ids_len(rows: Seq<(Seq<char>, ValueModel)>)
    ensures
        ids_of_rows(rows) matches Option::Some(ids) ==> ids.len() == rows.len(),
    decreases rows.len(),
{
    if rows.len() > 0 {
        lemma_ids_len(rows.drop_last());
    }
}

} // verus!
