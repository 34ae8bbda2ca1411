//! Typed directed edges between entities.
//!
//! One edge from `a` to `b` is three rows written atomically: a marker on
//! each side and one payload row under the canonical `a`/`b` order.

use vstd::prelude::*;

use crate::Error;
use crate::component::KvRelation;
use crate::keys::{
    EntityID, RelationDirection, nth_segment, raw_strip, relation_data_path, relation_edge_path,
    spec_nth_segment, spec_relation_data_key, spec_relation_edge_key,
};
use crate::store::{KvStore, Value, ValueModel, row_views};

verus! {

/// The contents after linking `a` to `b` with a payload: the two marker
/// rows and the payload row are present, everything else as before.
pub open spec fn spec_link(
    c: Map<Seq<char>, ValueModel>,
    tp: Seq<char>,
    a: Seq<char>,
    b: Seq<char>,
    payload: Seq<u8>,
) -> Map<Seq<char>, ValueModel> {
    c.insert(spec_relation_edge_key(tp, a, b, RelationDirection::In), ValueModel::Bytes(Seq::empty()))
        .insert(
        spec_relation_edge_key(tp, b, a, RelationDirection::Out),
        ValueModel::Bytes(Seq::empty()),
    ).insert(spec_relation_data_key(tp, a, b), ValueModel::Bytes(payload))
}

/// The contents after unlinking `a` from `b`: the three rows of the edge
/// are gone, everything else as before.
pub open spec fn spec_unlink(
    c: Map<Seq<char>, ValueModel>,
    tp: Seq<char>,
    a: Seq<char>,
    b: Seq<char>,
) -> Map<Seq<char>, ValueModel> {
    c.remove(spec_relation_edge_key(tp, a, b, RelationDirection::In)).remove(
        spec_relation_edge_key(tp, b, a, RelationDirection::Out),
    ).remove(spec_relation_data_key(tp, a, b))
}

impl crate::handler::EntityHandler {
    /// Link this entity to another with a typed payload: write the edge
    /// triad in one transaction.
    pub fn link<T: KvRelation>(&self, store: &mut KvStore, other: &EntityID, value: &T)
        requires
            old(store).wf(),
            self.entity_id.wf(),
            other.wf(),
        ensures
            final(store).wf(),
            final(store).contents() == spec_link(
                old(store).contents(),
                T::spec_type_path(),
                self.entity_id.text(),
                other.text(),
                value.spec_encode(),
            ),
    {
        let tp = T::type_path();
        let marker_in = relation_edge_path(&tp, &self.entity_id, other, RelationDirection::In);
        let marker_out = relation_edge_path(&tp, other, &self.entity_id, RelationDirection::Out);
        let data = relation_data_path(&tp, &self.entity_id, other);
        store.put(marker_in, Value::Bytes(Vec::new()));
        store.put(marker_out, Value::Bytes(Vec::new()));
        store.put(data, Value::Bytes(value.encode()));
    }

    /// Unlink this entity from another: remove the edge triad in one
    /// transaction.
    pub fn unlink<T: KvRelation>(&self, store: &mut KvStore, other: &EntityID)
        requires
            old(store).wf(),
            self.entity_id.wf(),
            other.wf(),
        ensures
            final(store).wf(),
            final(store).contents() == spec_unlink(
                old(store).contents(),
                T::spec_type_path(),
                self.entity_id.text(),
                other.text(),
            ),
    {
        let tp = T::type_path();
        let marker_in = relation_edge_path(&tp, &self.entity_id, other, RelationDirection::In);
        let marker_out = relation_edge_path(&tp, other, &self.entity_id, RelationDirection::Out);
        let data = relation_data_path(&tp, &self.entity_id, other);
        store.delete(marker_in.as_str());
        store.delete(marker_out.as_str());
        store.delete(data.as_str());
    }
}

/// Parse one edge marker key: the direction tag at segment four, the
/// other entity's id at segment five.
pub open spec fn parse_edge_marker(k: Seq<char>) -> Option<(RelationDirection, Seq<char>)> {
    match (spec_nth_segment(k, 4), spec_nth_segment(k, 5)) {
        (Option::Some(d), Option::Some(o)) => if d == "in"@ {
            Option::Some((RelationDirection::In, raw_strip(o)))
        } else if d == "out"@ {
            Option::Some((RelationDirection::Out, raw_strip(o)))
        } else {
            Option::None
        },
        _ => Option::None,
    }
}

/// Parse every scanned marker row, in order; any malformed key fails the
/// whole enumeration.
pub open spec fn parse_edge_markers(rows: Seq<(Seq<char>, ValueModel)>) -> Option<
    Seq<(RelationDirection, Seq<char>)>,
>
    decreases rows.len(),
{
    if rows.len() == 0 {
        Option::Some(Seq::empty())
    } else {
        match (parse_edge_markers(rows.drop_last()), parse_edge_marker(rows.last().0)) {
            (Option::Some(ps), Option::Some(p)) => Option::Some(ps.push(p)),
            _ => Option::None,
        }
    }
}

/// One malformed row fails the whole parse.
proof fn lemma_parse_markers_fail(rows: Seq<(Seq<char>, ValueModel)>, i: int)
    requires
        0 <= i < rows.len(),
        parse_edge_marker(rows[i].0) is None,
    ensures
        parse_edge_markers(rows) is None,
    decreases rows.len(),
{
    if i < rows.len() - 1 {
        assert(rows.drop_last()[i] == rows[i]);
        lemma_parse_markers_fail(rows.drop_last(), i);
    }
}

/// The direction tag and other entity of each enumerated edge, as views.
pub open spec fn edge_entity_views(v: Seq<(EntityID, RelationDirection)>) -> Seq<
    (RelationDirection, Seq<char>),
> {
    v.map_values(|p: (EntityID, RelationDirection)| (p.1, p.0.raw_inner()))
}

/// The data row key of an enumerated edge: with an `In` tag this entity
/// owns the first slot, with `Out` the other entity does.
pub open spec fn edge_data_key(
    tp: Seq<char>,
    id: Seq<char>,
    p: (RelationDirection, Seq<char>),
) -> Seq<char> {
    if p.0 == RelationDirection::In {
        spec_relation_data_key(tp, id, "e-"@ + p.1)
    } else {
        spec_relation_data_key(tp, "e-"@ + p.1, id)
    }
}

/// The deletions that retire one enumerated edge: both marker rows and
/// the data row.
pub open spec fn edge_del_muts(
    tp: Seq<char>,
    id: Seq<char>,
    p: (RelationDirection, Seq<char>),
) -> Seq<crate::store::MutationModel> {
    seq![
        crate::store::MutationModel {
            op: crate::store::MutOp::Del,
            key: spec_relation_edge_key(tp, id, "e-"@ + p.1, p.0),
            value: ValueModel::Bytes(Seq::empty()),
        },
        crate::store::MutationModel {
            op: crate::store::MutOp::Del,
            key: spec_relation_edge_key(tp, "e-"@ + p.1, id, p.0.spec_reverse()),
            value: ValueModel::Bytes(Seq::empty()),
        },
        crate::store::MutationModel {
            op: crate::store::MutOp::Del,
            key: edge_data_key(tp, id, p),
            value: ValueModel::Bytes(Seq::empty()),
        },
    ]
}

/// The deletions of a whole enumeration, in order.
pub open spec fn edges_del_muts(
    tp: Seq<char>,
    id: Seq<char>,
    ps: Seq<(RelationDirection, Seq<char>)>,
) -> Seq<crate::store::MutationModel>
    decreases ps.len(),
{
    if ps.len() == 0 {
        Seq::empty()
    } else {
        edges_del_muts(tp, id, ps.drop_last()) + edge_del_muts(tp, id, ps.last())
    }
}

impl crate::handler::EntityHandler {
    /// Enumerate this entity's edge markers of one type in the requested
    /// direction (or both): one pair per marker row, in key order.
    pub fn edges_entity<T: KvRelation>(
        &self,
        store: &KvStore,
        direction: RelationDirection,
    ) -> (r: Result<Vec<(EntityID, RelationDirection)>, Error>)
        requires
            store.wf(),
        ensures
            ({
                let rows = store.range_rows(
                    spec_relation_edge_key(
                        T::spec_type_path(),
                        self.entity_id.text(),
                        ""@,
                        direction,
                    ),
                    spec_relation_edge_key(
                        T::spec_type_path(),
                        self.entity_id.text(),
                        "~"@,
                        direction,
                    ),
                );
                match r {
                    Result::Ok(v) => parse_edge_markers(rows) == Option::Some(
                        edge_entity_views(v@),
                    ) && forall|i: int| 0 <= i < v@.len() ==> (#[trigger] v@[i]).0 is Entity,
                    Result::Err(Error::NotFound) => parse_edge_markers(rows) is None,
                    Result::Err(_) => false,
                }
            }),
    {
        let tp = T::type_path();
        let start = relation_edge_path(&tp, &self.entity_id, &EntityID::Empty, direction);
        let end = relation_edge_path(&tp, &self.entity_id, &EntityID::Max, direction);
        let rows = store.scan_all(start.as_str(), end.as_str());
        let ghost rv = row_views(rows@);
        let mut out: Vec<(EntityID, RelationDirection)> = Vec::new();
        let mut i: usize = 0;
        proof {
            assert(rv.take(0int) =~= Seq::<(Seq<char>, ValueModel)>::empty());
            assert(edge_entity_views(out@) =~= Seq::<(RelationDirection, Seq<char>)>::empty());
        }
        while i < rows.len()
            invariant
                i <= rows@.len(),
                rv == row_views(rows@),
                rv == store.range_rows(
                    spec_relation_edge_key(
                        T::spec_type_path(),
                        self.entity_id.text(),
                        ""@,
                        direction,
                    ),
                    spec_relation_edge_key(
                        T::spec_type_path(),
                        self.entity_id.text(),
                        "~"@,
                        direction,
                    ),
                ),
                parse_edge_markers(rv.take(i as int)) == Option::Some(edge_entity_views(out@)),
                forall|j: int| 0 <= j < out@.len() ==> (#[trigger] out@[j]).0 is Entity,
            decreases rows@.len() - i,
        {
            proof {
                assert(rv.take(i + 1).drop_last() =~= rv.take(i as int));
                assert(rv.take(i + 1).last() == rv[i as int]);
                assert(rv[i as int] == (rows@[i as int].0@, rows@[i as int].1@));
            }
            let key = rows[i].0.as_str();
            let dseg = match nth_segment(key, 4) {
                Option::Some(d) => d,
                Option::None => {
                    proof {
                        lemma_parse_markers_fail(rv, i as int);
                    }
                    return Result::Err(Error::NotFound);
                },
            };
            let oseg = match nth_segment(key, 5) {
                Option::Some(o) => o,
                Option::None => {
                    proof {
                        lemma_parse_markers_fail(rv, i as int);
                    }
                    return Result::Err(Error::NotFound);
                },
            };
            let dir = if crate::order::str_compare(dseg.as_str(), "in") == 0 {
                RelationDirection::In
            } else if crate::order::str_compare(dseg.as_str(), "out") == 0 {
                RelationDirection::Out
            } else {
                proof {
                    lemma_parse_markers_fail(rv, i as int);
                }
                return Result::Err(Error::NotFound);
            };
            let ghost prev = edge_entity_views(out@);
            let ghost osegv = oseg@;
            let ent = EntityID::new_raw(oseg);
            out.push((ent, dir));
            proof {
                assert(ent.raw_inner() == crate::keys::raw_strip(osegv));
                assert(parse_edge_marker(rv[i as int].0) == Option::Some(
                    (dir, crate::keys::raw_strip(osegv)),
                ));
                assert(edge_entity_views(out@) =~= prev.push((dir, crate::keys::raw_strip(osegv))));
                assert(parse_edge_markers(rv.take(i + 1)) == Option::Some(
                    edge_entity_views(out@),
                ));
            }
            i = i + 1;
        }
        proof {
            assert(rv.take(rows@.len() as int) =~= rv);
        }
        Result::Ok(out)
    }

    /// Enumerate this entity's edges of one type with their payloads: one
    /// triple per marker row, the payload decoded from the edge's data
    /// row.
    pub fn edges<T: KvRelation>(
        &self,
        store: &KvStore,
        direction: RelationDirection,
    ) -> (r: Result<Vec<(EntityID, RelationDirection, T)>, Error>)
        requires
            store.wf(),
        ensures
            ({
                let c = store.contents();
                let tp = T::spec_type_path();
                let id = self.entity_id.text();
                let rows = store.range_rows(
                    spec_relation_edge_key(tp, id, ""@, direction),
                    spec_relation_edge_key(tp, id, "~"@, direction),
                );
                match r {
                    Result::Ok(v) => (parse_edge_markers(rows) matches Option::Some(ps)
                        && v@.len() == ps.len() && forall|i: int|
                        0 <= i < ps.len() ==> (#[trigger] v@[i]).1 == ps[i].0 && v@[i].0.raw_inner()
                            == ps[i].1 && c.contains_key(edge_data_key(tp, id, ps[i])) && (c[
                            edge_data_key(tp, id, ps[i])
                        ] matches ValueModel::Bytes(b) && v@[i].2.spec_encode() == b)),
                    Result::Err(Error::NotFound) => parse_edge_markers(rows) is None || (
                    parse_edge_markers(rows) matches Option::Some(ps) && exists|i: int|
                        0 <= i < ps.len() && !c.contains_key(
                            #[trigger] edge_data_key(tp, id, ps[i]),
                        )),
                    Result::Err(Error::DeserializationError) => parse_edge_markers(rows) matches
                        Option::Some(ps) && exists|i: int|
                        0 <= i < ps.len() && c.contains_key(
                            #[trigger] edge_data_key(tp, id, ps[i]),
                        ) && !(c[edge_data_key(tp, id, ps[i])] matches ValueModel::Bytes(b)
                            && exists|t: T| t.spec_encode() == b),
                    Result::Err(_) => false,
                }
            }),
    {
        let pairs = match self.edges_entity::<T>(store, direction) {
            Result::Ok(p) => p,
            Result::Err(e) => {
                return Result::Err(e);
            },
        };
        let ghost tpv = T::spec_type_path();
        let ghost idv = self.entity_id.text();
        let ghost ps = edge_entity_views(pairs@);
        let tp = T::type_path();
        let mut out: Vec<(EntityID, RelationDirection, T)> = Vec::new();
        let mut i: usize = 0;
        while i < pairs.len()
            invariant
                i <= pairs@.len(),
                store.wf(),
                ps == edge_entity_views(pairs@),
                ps.len() == pairs@.len(),
                parse_edge_markers(
                    store.range_rows(
                        spec_relation_edge_key(tpv, idv, ""@, direction),
                        spec_relation_edge_key(tpv, idv, "~"@, direction),
                    ),
                ) == Option::Some(ps),
                forall|j: int| 0 <= j < pairs@.len() ==> (#[trigger] pairs@[j]).0 is Entity,
                tpv == T::spec_type_path(),
                tpv == tp@,
                idv == self.entity_id.text(),
                out@.len() == i,
                forall|j: int|
                    0 <= j < i ==> (#[trigger] out@[j]).1 == ps[j].0 && out@[j].0.raw_inner()
                        == ps[j].1 && store.contents().contains_key(edge_data_key(tpv, idv, ps[j]))
                        && (store.contents()[edge_data_key(tpv, idv, ps[j])] matches
                    ValueModel::Bytes(b) && out@[j].2.spec_encode() == b),
            decreases pairs@.len() - i,
        {
            proof {
                assert(ps[i as int] == (pairs@[i as int].1, pairs@[i as int].0.raw_inner()));
            }
            let other = pairs[i].0.clone();
            let dir = pairs[i].1;
            let dk = match dir {
                RelationDirection::In => relation_data_path(&tp, &self.entity_id, &other),
                _ => relation_data_path(&tp, &other, &self.entity_id),
            };
            proof {
                assert(other.text() == "e-"@ + ps[i as int].1);
                assert(dk@ == edge_data_key(tpv, idv, ps[i as int]));
            }
            match store.get(dk.as_str()) {
                Option::None => {
                    proof {
                        assert(!store.contents().contains_key(edge_data_key(tpv, idv, ps[
                            i as int
                        ])));
                    }
                    return Result::Err(Error::NotFound);
                },
                Option::Some(v) => match v {
                    Value::Bytes(b) => match T::decode(b.as_slice()) {
                        Option::Some(value) => {
                            out.push((other, dir, value));
                        },
                        Option::None => {
                            proof {
                                assert(store.contents().contains_key(edge_data_key(tpv, idv, ps[
                                    i as int
                                ])));
                                assert(!(store.contents()[edge_data_key(tpv, idv, ps[i as int])]
                                    matches ValueModel::Bytes(bb) && exists|t: T|
                                    t.spec_encode() == bb));
                            }
                            return Result::Err(Error::DeserializationError);
                        },
                    },
                    Value::Meta(_) => {
                        proof {
                            assert(store.contents().contains_key(edge_data_key(tpv, idv, ps[
                                i as int
                            ])));
                            assert(!(store.contents()[edge_data_key(tpv, idv, ps[i as int])]
                                matches ValueModel::Bytes(bb) && exists|t: T|
                                t.spec_encode() == bb));
                        }
                        return Result::Err(Error::DeserializationError);
                    },
                },
            }
            i = i + 1;
        }
        Result::Ok(out)
    }

    /// Remove every edge of one type incident to this entity: for each
    /// marker row in both directions, delete it, its mirrored marker, and
    /// the edge's data row, in one transaction.
    pub fn delete_edges<T: KvRelation>(&self, store: &mut KvStore) -> (r: Result<(), Error>)
        requires
            old(store).wf(),
        ensures
            final(store).wf(),
            r is Err ==> *final(store) == *old(store),
            ({
                let tp = T::spec_type_path();
                let id = self.entity_id.text();
                let rows = old(store).range_rows(
                    spec_relation_edge_key(tp, id, ""@, RelationDirection::Both),
                    spec_relation_edge_key(tp, id, "~"@, RelationDirection::Both),
                );
                match r {
                    Result::Ok(_) => (parse_edge_markers(rows) matches Option::Some(ps)
                        && final(store).contents() == crate::store::apply_muts(
                        old(store).contents(),
                        edges_del_muts(tp, id, ps),
                    )),
                    Result::Err(Error::NotFound) => parse_edge_markers(rows) is None,
                    Result::Err(_) => false,
                }
            }),
    {
        let pairs = match self.edges_entity::<T>(store, RelationDirection::Both) {
            Result::Ok(p) => p,
            Result::Err(e) => {
                return Result::Err(e);
            },
        };
        let ghost tpv = T::spec_type_path();
        let ghost idv = self.entity_id.text();
        let ghost ps = edge_entity_views(pairs@);
        let tp = T::type_path();
        let mut mutations: Vec<crate::store::Mutation> = Vec::new();
        let mut i: usize = 0;
        proof {
            assert(ps.take(0int) =~= Seq::<(RelationDirection, Seq<char>)>::empty());
            assert(crate::store::mut_views(mutations@) =~= Seq::<
                crate::store::MutationModel,
            >::empty());
        }
        while i < pairs.len()
            invariant
                i <= pairs@.len(),
                ps == edge_entity_views(pairs@),
                ps.len() == pairs@.len(),
                forall|j: int| 0 <= j < pairs@.len() ==> (#[trigger] pairs@[j]).0 is Entity,
                tpv == tp@,
                idv == self.entity_id.text(),
                crate::store::mut_views(mutations@) == edges_del_muts(tpv, idv, ps.take(i as int)),
            decreases pairs@.len() - i,
        {
            proof {
                assert(ps.take(i + 1).drop_last() =~= ps.take(i as int));
                assert(ps.take(i + 1).last() == ps[i as int]);
                assert(ps[i as int] == (pairs@[i as int].1, pairs@[i as int].0.raw_inner()));
            }
            let other = pairs[i].0.clone();
            let dir = pairs[i].1;
            proof {
                assert(other.text() == "e-"@ + ps[i as int].1);
            }
            let m1 = relation_edge_path(&tp, &self.entity_id, &other, dir);
            let m2 = relation_edge_path(&tp, &other, &self.entity_id, dir.reverse());
            let dk = match dir {
                RelationDirection::In => relation_data_path(&tp, &self.entity_id, &other),
                _ => relation_data_path(&tp, &other, &self.entity_id),
            };
            mutations.push(crate::store::Mutation::del(m1));
            mutations.push(crate::store::Mutation::del(m2));
            mutations.push(crate::store::Mutation::del(dk));
            proof {
                assert(crate::store::mut_views(mutations@) =~= edges_del_muts(
                    tpv,
                    idv,
                    ps.take(i + 1),
                ));
            }
            i = i + 1;
        }
        proof {
            assert(ps.take(pairs@.len() as int) =~= ps);
        }
        store.apply(&mutations);
        Result::Ok(())
    }
}

/// Linking and then unlinking the same pair restores the key set and every
/// value, as long as none of the edge's three rows existed before the
/// link.
pub proof fn lemma_link_unlink_inverse(
    c: Map<Seq<char>, ValueModel>,
    tp: Seq<char>,
    a: Seq<char>,
    b: Seq<char>,
    payload: Seq<u8>,
)
    requires
        !c.contains_key(spec_relation_edge_key(tp, a, b, RelationDirection::In)),
        !c.contains_key(spec_relation_edge_key(tp, b, a, RelationDirection::Out)),
        !c.contains_key(spec_relation_data_key(tp, a, b)),
    ensures
        spec_unlink(spec_link(c, tp, a, b, payload), tp, a, b) == c,
{
    assert(spec_unlink(spec_link(c, tp, a, b, payload), tp, a, b) =~= c);
}

} // verus!
