//! Batched operations over a list of entities.
//!
//! A list handler carries entity ids, usually the result of a query; its
//! operations read with one batch get, or fold the per-entity attach
//! protocol over every entity into one transaction.  All reads that feed
//! the batch come from the store as it stood when the batch began.

use vstd::prelude::*;

use crate::Error;
use crate::component::{ComponentBundle, KvComponent, PartsModel, parts_views};
use crate::handler::{
    EntityHandler, arch_before, attach_one_muts, entity_delete_muts, meta_after_attach,
    meta_model_of, meta_row_ok, parse_full_markers, stored_meta_wf,
};
use crate::keys::spec_relation_edge_prefix;
use crate::keys::{EntityID, spec_component_data_key, spec_entity_metadata_key};
use crate::meta::{meta_view, str_views};
use crate::store::{
    KvStore, Mutation, MutationModel, Value, ValueModel, apply_muts, batch_lookup, mut_views,
};

verus! {

/// The payload row keys of a list of entities for one component type.
pub open spec fn entity_data_keys(tp: Seq<char>, ids: Seq<EntityID>) -> Seq<Seq<char>> {
    ids.map_values(|e: EntityID| spec_component_data_key(tp, e.text()))
}

/// A handle on a list of entities.
pub struct EntityListHandler {
    pub entity_ids: Vec<EntityID>,
}

impl EntityListHandler {
    /// A handle on the given entities.
    pub fn new(entity_ids: Vec<EntityID>) -> (r: EntityListHandler)
        ensures
            r.entity_ids == entity_ids,
    {
        EntityListHandler { entity_ids }
    }

    /// Every listed entity's stored value of one component type, in list
    /// order, skipping entities without the payload row.
    pub fn get<T: KvComponent>(&self, store: &KvStore) -> (r: Result<Vec<T>, Error>)
        requires
            store.wf(),
        ensures
            ({
                let c = store.contents();
                let found = batch_lookup(
                    c,
                    entity_data_keys(T::spec_type_path(), self.entity_ids@),
                );
                match r {
                    Result::Ok(vs) => vs@.len() == found.len() && forall|i: int|
                        0 <= i < found.len() ==> ((#[trigger] found[i]).1 matches
                            ValueModel::Bytes(b) && vs@[i].spec_encode() == b),
                    Result::Err(Error::DeserializationError) => exists|i: int|
                        0 <= i < found.len() && !((#[trigger] found[i]).1 matches
                            ValueModel::Bytes(b) && exists|t: T| t.spec_encode() == b),
                    Result::Err(_) => false,
                }
            }),
    {
        let tp = T::type_path();
        let mut keys: Vec<String> = Vec::new();
        let mut i: usize = 0;
        proof {
            assert(str_views(keys@) =~= entity_data_keys(T::spec_type_path(), self.entity_ids@).take(
                0int,
            ));
        }
        while i < self.entity_ids.len()
            invariant
                i <= self.entity_ids@.len(),
                tp@ == T::spec_type_path(),
                keys@.len() == i,
                str_views(keys@) == entity_data_keys(T::spec_type_path(), self.entity_ids@).take(
                    i as int,
                ),
            decreases self.entity_ids@.len() - i,
        {
            let k = crate::keys::component_data_path(&tp, &self.entity_ids[i]);
            keys.push(k);
            proof {
                assert(entity_data_keys(T::spec_type_path(), self.entity_ids@)[i as int]
                    == spec_component_data_key(T::spec_type_path(), self.entity_ids@[
                    i as int
                ].text()));
                assert(str_views(keys@) =~= entity_data_keys(
                    T::spec_type_path(),
                    self.entity_ids@,
                ).take(i + 1));
            }
            i = i + 1;
        }
        proof {
            assert(entity_data_keys(T::spec_type_path(), self.entity_ids@).take(
                self.entity_ids@.len() as int,
            ) =~= entity_data_keys(T::spec_type_path(), self.entity_ids@));
        }
        let rows = store.batch_get(&keys);
        let ghost found = batch_lookup(
            store.contents(),
            entity_data_keys(T::spec_type_path(), self.entity_ids@),
        );
        let mut out: Vec<T> = Vec::new();
        let mut j: usize = 0;
        while j < rows.len()
            invariant
                j <= rows@.len(),
                store.wf(),
                found == crate::store::row_views(rows@),
                found == batch_lookup(
                    store.contents(),
                    entity_data_keys(T::spec_type_path(), self.entity_ids@),
                ),
                out@.len() == j,
                forall|x: int|
                    0 <= x < j ==> ((#[trigger] found[x]).1 matches ValueModel::Bytes(b)
                        && out@[x].spec_encode() == b),
            decreases rows@.len() - j,
        {
            proof {
                assert(found[j as int] == (rows@[j as int].0@, rows@[j as int].1@));
            }
            match &rows[j].1 {
                Value::Bytes(b) => match T::decode(b.as_slice()) {
                    Option::Some(t) => {
                        out.push(t);
                    },
                    Option::None => {
                        proof {
                            assert(!((#[trigger] found[j as int]).1 matches ValueModel::Bytes(bb)
                                && exists|t: T| t.spec_encode() == bb));
                        }
                        return Result::Err(Error::DeserializationError);
                    },
                },
                Value::Meta(_) => {
                    proof {
                        assert(!((#[trigger] found[j as int]).1 matches ValueModel::Bytes(bb)
                            && exists|t: T| t.spec_encode() == bb));
                    }
                    return Result::Err(Error::DeserializationError);
                },
            }
            j = j + 1;
        }
        Result::Ok(out)
    }
}

/// The metadata record after a bundle's components attach in order.
pub open spec fn meta_fold(m: Seq<(Seq<char>, Seq<(Seq<char>, Seq<char>)>)>, parts: Seq<PartsModel>) -> Seq<
    (Seq<char>, Seq<(Seq<char>, Seq<char>)>),
>
    decreases parts.len(),
{
    if parts.len() == 0 {
        m
    } else {
        meta_after_attach(
            meta_fold(m, parts.drop_last()),
            parts.last().type_path,
            parts.last().names,
            parts.last().fields,
        )
    }
}

/// The mutations of one entity's whole attach, metadata write excluded.
pub open spec fn attach_txn_muts(
    id: Seq<char>,
    m: Seq<(Seq<char>, Seq<(Seq<char>, Seq<char>)>)>,
    parts: Seq<PartsModel>,
) -> Seq<MutationModel>
    decreases parts.len(),
{
    if parts.len() == 0 {
        Seq::empty()
    } else {
        attach_txn_muts(id, m, parts.drop_last()) + attach_one_muts(
            parts.last().type_path,
            id,
            arch_before(
                meta_fold(m, parts.drop_last()),
                parts.last().type_path,
                parts.last().names,
            ),
            parts.last().fields,
            parts.last().payload,
        )
    }
}

/// The mutations of one entity's attach in a batched list attach, with
/// the metadata read from the batch's starting contents.
pub open spec fn entity_attach_muts(
    c0: Map<Seq<char>, ValueModel>,
    id: Seq<char>,
    parts: Seq<PartsModel>,
) -> Seq<MutationModel> {
    attach_txn_muts(id, meta_model_of(c0, id), parts) + seq![
        MutationModel {
            op: crate::store::MutOp::Put,
            key: spec_entity_metadata_key(id),
            value: ValueModel::Meta(meta_fold(meta_model_of(c0, id), parts)),
        },
    ]
}

/// The mutations of a whole list attach, entity by entity.
pub open spec fn list_attach_muts(
    c0: Map<Seq<char>, ValueModel>,
    ids: Seq<EntityID>,
    parts: Seq<PartsModel>,
) -> Seq<MutationModel>
    decreases ids.len(),
{
    if ids.len() == 0 {
        Seq::empty()
    } else {
        list_attach_muts(c0, ids.drop_last(), parts) + entity_attach_muts(
            c0,
            ids.last().text(),
            parts,
        )
    }
}

impl EntityListHandler {
    /// Attach a bundle to every listed entity in one transaction: the
    /// per-component attach step runs for every entity and component,
    /// each entity's metadata read from the store as the batch began, and
    /// every mutation lands at once.  Fails, writing nothing, when any
    /// listed entity's metadata row does not hold a metadata record.
    pub fn attach<B: ComponentBundle>(&self, store: &mut KvStore, bundle: B) -> (r: Result<
        (),
        Error,
    >)
        requires
            old(store).wf(),
            forall|k: int|
                0 <= k < self.entity_ids@.len() ==> stored_meta_wf(
                    old(store).contents(),
                    (#[trigger] self.entity_ids@[k]).text(),
                ),
        ensures
            final(store).wf(),
            r is Err ==> *final(store) == *old(store),
            r is Ok <==> forall|k: int|
                0 <= k < self.entity_ids@.len() ==> meta_row_ok(
                    old(store).contents(),
                    (#[trigger] self.entity_ids@[k]).text(),
                ),
            r is Ok ==> final(store).contents() == apply_muts(
                old(store).contents(),
                list_attach_muts(old(store).contents(), self.entity_ids@, bundle.spec_parts()),
            ),
    {
        let ghost c0 = old(store).contents();
        let ghost pv = bundle.spec_parts();
        let ghost ids = self.entity_ids@;
        let parts = bundle.into_parts();
        let mut mutations: Vec<Mutation> = Vec::new();
        let mut k: usize = 0;
        proof {
            assert(ids.take(0int) =~= Seq::<EntityID>::empty());
            assert(mut_views(mutations@) =~= Seq::<MutationModel>::empty());
        }
        while k < self.entity_ids.len()
            invariant
                k <= self.entity_ids@.len(),
                ids == self.entity_ids@,
                *store == *old(store),
                old(store).wf(),
                c0 == old(store).contents(),
                pv == bundle.spec_parts(),
                parts_views(parts@) == pv,
                forall|i: int| 0 <= i < pv.len() ==> (#[trigger] pv[i]).wf(),
                forall|x: int|
                    0 <= x < ids.len() ==> stored_meta_wf(c0, (#[trigger] ids[x]).text()),
                forall|x: int| 0 <= x < k ==> meta_row_ok(c0, (#[trigger] ids[x]).text()),
                mut_views(mutations@) == list_attach_muts(c0, ids.take(k as int), pv),
            decreases self.entity_ids@.len() - k,
        {
            proof {
                assert(ids.take(k + 1).drop_last() =~= ids.take(k as int));
                assert(ids.take(k + 1).last() == ids[k as int]);
            }
            let handler = EntityHandler::new(self.entity_ids[k].clone());
            let ghost idv = handler.entity_id.text();
            let meta_key = crate::keys::entity_metadata_path(&handler.entity_id);
            let mut metadata = match store.get(meta_key.as_str()) {
                Option::Some(v) => match v {
                    Value::Meta(m) => {
                        let copy = m.clone();
                        proof {
                            assert(meta_view(&copy) == meta_model_of(c0, idv));
                            crate::handler::lemma_meta_wf_from_view(&copy);
                        }
                        copy
                    },
                    Value::Bytes(_) => {
                        return Result::Err(Error::DeserializationError);
                    },
                },
                Option::None => {
                    proof {
                        assert(!c0.contains_key(crate::keys::spec_entity_metadata_key(idv)));
                    }
                    crate::meta::EntityMetadata::new_empty()
                },
            };
            let ghost m0 = meta_view(&metadata);
            proof {
                assert(m0 == meta_model_of(c0, idv));
            }
            let ghost base = mut_views(mutations@);
            let mut i: usize = 0;
            proof {
                assert(pv.take(0int) =~= Seq::<PartsModel>::empty());
                assert(base + attach_txn_muts(idv, m0, pv.take(0int)) =~= base);
            }
            while i < parts.len()
                invariant
                    i <= parts@.len(),
                    parts_views(parts@) == pv,
                    forall|x: int| 0 <= x < pv.len() ==> (#[trigger] pv[x]).wf(),
                    idv == handler.entity_id.text(),
                    metadata.wf(),
                    meta_view(&metadata) == meta_fold(m0, pv.take(i as int)),
                    mut_views(mutations@) == base + attach_txn_muts(idv, m0, pv.take(i as int)),
                decreases parts@.len() - i,
            {
                let ghost muts_pre = mut_views(mutations@);
                let ghost meta_pre = meta_view(&metadata);
                proof {
                    assert(parts@[i as int]@ == pv[i as int]);
                    assert(pv.take(i + 1).drop_last() =~= pv.take(i as int));
                    assert(pv.take(i + 1).last() == pv[i as int]);
                }
                handler.attach_component_in_txn(&mut mutations, &mut metadata, &parts[i]);
                proof {
                    assert(mut_views(mutations@) =~= base + attach_txn_muts(
                        idv,
                        m0,
                        pv.take(i + 1),
                    ));
                }
                i = i + 1;
            }
            proof {
                assert(pv.take(parts@.len() as int) =~= pv);
            }
            let ghost mv_final = meta_view(&metadata);
            let ghost muts_loop2 = mut_views(mutations@);
            proof {
                assert(meta_key@ == crate::keys::spec_entity_metadata_key(idv));
                assert(m0 == meta_model_of(c0, idv));
                assert(mv_final == meta_fold(m0, pv));
            }
            mutations.push(Mutation::put(meta_key, Value::Meta(metadata)));
            proof {
                assert(mut_views(mutations@) =~= muts_loop2 + seq![
                    MutationModel {
                        op: crate::store::MutOp::Put,
                        key: crate::keys::spec_entity_metadata_key(idv),
                        value: ValueModel::Meta(meta_fold(meta_model_of(c0, idv), pv)),
                    },
                ]);
                assert(mut_views(mutations@) =~= base + entity_attach_muts(c0, idv, pv));
                assert(mut_views(mutations@) =~= list_attach_muts(c0, ids.take(k + 1), pv));
            }
            k = k + 1;
        }
        proof {
            assert(ids.take(ids.len() as int) =~= ids);
        }
        store.apply(&mutations);
        Result::Ok(())
    }
}

/// The whole mutation batch of a list delete, entity by entity, every
/// read taken from the store as the batch began.
pub open spec fn list_delete_muts(st: KvStore, ids: Seq<EntityID>) -> Seq<MutationModel>
    decreases ids.len(),
{
    if ids.len() == 0 {
        Seq::empty()
    } else {
        list_delete_muts(st, ids.drop_last()) + entity_delete_muts(st, ids.last().text())
    }
}

/// Whether one entity's delete can proceed: its metadata row holds a
/// record and its edge marker keys parse.
pub open spec fn deletable(st: KvStore, id: Seq<char>) -> bool {
    &&& st.contents().contains_key(crate::keys::spec_entity_metadata_key(id))
    &&& st.contents()[crate::keys::spec_entity_metadata_key(id)] is Meta
    &&& parse_full_markers(
        st.range_rows(
            spec_relation_edge_prefix(id, Seq::empty()),
            spec_relation_edge_prefix(id, "~"@),
        ),
    ) is Some
}

impl EntityListHandler {
    /// Delete every listed entity in one transaction: the full per-entity
    /// delete batch accumulates for every entity, every read taken from
    /// the store as the batch began, and every mutation lands at once.
    /// Fails, writing nothing, when any listed entity cannot be deleted.
    pub fn delete(&self, store: &mut KvStore) -> (r: Result<(), Error>)
        requires
            old(store).wf(),
            forall|k: int|
                0 <= k < self.entity_ids@.len() ==> stored_meta_wf(
                    old(store).contents(),
                    (#[trigger] self.entity_ids@[k]).text(),
                ),
            forall|k: int| 0 <= k < self.entity_ids@.len() ==> (#[trigger] self.entity_ids@[k]).wf(),
        ensures
            final(store).wf(),
            r is Err ==> *final(store) == *old(store),
            r is Ok <==> forall|k: int|
                0 <= k < self.entity_ids@.len() ==> deletable(
                    *old(store),
                    (#[trigger] self.entity_ids@[k]).text(),
                ),
            r is Ok ==> final(store).contents() == apply_muts(
                old(store).contents(),
                list_delete_muts(*old(store), self.entity_ids@),
            ),
    {
        let ghost ids = self.entity_ids@;
        let mut mutations: Vec<Mutation> = Vec::new();
        let mut k: usize = 0;
        proof {
            assert(ids.take(0int) =~= Seq::<EntityID>::empty());
            assert(mut_views(mutations@) =~= Seq::<MutationModel>::empty());
        }
        while k < self.entity_ids.len()
            invariant
                k <= self.entity_ids@.len(),
                ids == self.entity_ids@,
                *store == *old(store),
                old(store).wf(),
                forall|x: int|
                    0 <= x < ids.len() ==> stored_meta_wf(
                        old(store).contents(),
                        (#[trigger] ids[x]).text(),
                    ),
                forall|x: int| 0 <= x < ids.len() ==> (#[trigger] ids[x]).wf(),
                forall|x: int| 0 <= x < k ==> deletable(*old(store), (#[trigger] ids[x]).text()),
                mut_views(mutations@) == list_delete_muts(*old(store), ids.take(k as int)),
            decreases self.entity_ids@.len() - k,
        {
            proof {
                assert(ids.take(k + 1).drop_last() =~= ids.take(k as int));
                assert(ids.take(k + 1).last() == ids[k as int]);
            }
            let handler = EntityHandler::new(self.entity_ids[k].clone());
            match handler.delete_in_txn(store, &mut mutations) {
                Result::Err(e) => {
                    return Result::Err(e);
                },
                Result::Ok(_) => {},
            }
            proof {
                assert(mut_views(mutations@) =~= list_delete_muts(*old(store), ids.take(k + 1)));
            }
            k = k + 1;
        }
        proof {
            assert(ids.take(ids.len() as int) =~= ids);
        }
        store.apply(&mutations);
        Result::Ok(())
    }
}

} // verus!
