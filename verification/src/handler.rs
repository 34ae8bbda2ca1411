//! Operations on a single entity: read, attach, detach, delete, metadata.
//!
//! Every operation compiles into a batch of mutations applied atomically
//! to the store.  The central routine is the per-component attach step: it
//! retires the index row recorded for each field in the entity's
//! archetype, writes the index row for the fresh encoded value, records
//! that value back into the archetype, and rewrites the payload row.

use vstd::prelude::*;

use vstd::string::StrSliceExecFns;
use vstd::utf8::encode_utf8;

use crate::Error;
use crate::component::{ComponentBundle, ComponentParts, KvComponent, PartsModel, parts_views};
use crate::keys::{
    EntityID, RelationDirection, TypePath, component_data_path, component_index_path,
    entity_metadata_path, nth_segment, raw_strip, relation_data_path, relation_edge_no_type_path,
    relation_edge_path, spec_component_data_key, spec_component_index_key,
    spec_entity_metadata_key, spec_nth_segment, spec_relation_data_key, spec_relation_edge_key,
    spec_relation_edge_prefix,
};
use crate::meta::{
    ComponentArchetype, EntityMetadata, arch_view, assoc_find, distinct_assoc_keys,
    lemma_assoc_find_absent, lemma_assoc_find_at, lemma_assoc_remove_at, meta_view, pair_views,
};
use crate::store::{
    KvStore, MutOp, Mutation, MutationModel, Value, ValueModel, apply_muts, mut_views, row_views,
};

verus! {

/// The view type of one archetype: field name to last encoded value.
pub type ArchModel = Seq<(Seq<char>, Seq<char>)>;

/// The view type of an entity's metadata: type path to archetype.
pub type MetaModel = Seq<(Seq<char>, Seq<(Seq<char>, Seq<char>)>)>;

/// Unique type paths, and unique field names in every archetype.
pub open spec fn meta_model_wf(m: MetaModel) -> bool {
    &&& distinct_assoc_keys(m)
    &&& forall|i: int| 0 <= i < m.len() ==> distinct_assoc_keys((#[trigger] m[i]).1)
}

/// An archetype in which every field is recorded as never indexed.
pub open spec fn default_arch(names: Seq<Seq<char>>) -> ArchModel {
    names.map_values(|n: Seq<char>| (n, Seq::<char>::empty()))
}

/// The archetype an attach starts from: the recorded one, or the default
/// built from the component's field names.
pub open spec fn arch_before(m: MetaModel, tp: Seq<char>, names: Seq<Seq<char>>) -> ArchModel {
    match assoc_find(m, tp) {
        Option::Some(a) => a,
        Option::None => default_arch(names),
    }
}

/// One archetype entry after an attach: if the component carries the
/// field, the recorded value becomes the fresh encoded value.
pub open spec fn upd_entry(p: (Seq<char>, Seq<char>), fresh: ArchModel) -> (Seq<char>, Seq<char>) {
    match assoc_find(fresh, p.0) {
        Option::Some(v) => (p.0, v),
        Option::None => p,
    }
}

/// An archetype after an attach.
pub open spec fn upd_keys(keys: ArchModel, fresh: ArchModel) -> ArchModel {
    keys.map_values(|p: (Seq<char>, Seq<char>)| upd_entry(p, fresh))
}

/// The metadata record after one component's attach: the component's
/// archetype entry is updated in place, or appended if the type is new.
pub open spec fn meta_after_attach(
    m: MetaModel,
    tp: Seq<char>,
    names: Seq<Seq<char>>,
    fresh: ArchModel,
) -> MetaModel {
    if assoc_find(m, tp) is Some {
        m.map_values(
            |e: (Seq<char>, Seq<(Seq<char>, Seq<char>)>)|
                if e.0 == tp {
                    (e.0, upd_keys(e.1, fresh))
                } else {
                    e
                },
        )
    } else {
        m.push((tp, upd_keys(default_arch(names), fresh)))
    }
}

/// The index mutations one archetype entry contributes: a deletion of the
/// recorded row if one exists, then a write of the fresh row if the
/// component carries the field.
pub open spec fn one_field_muts(
    tp: Seq<char>,
    id: Seq<char>,
    p: (Seq<char>, Seq<char>),
    fresh: ArchModel,
) -> Seq<MutationModel> {
    (if p.1.len() > 0 {
        seq![
            MutationModel {
                op: MutOp::Del,
                key: spec_component_index_key(tp, p.0, p.1, id),
                value: ValueModel::Bytes(Seq::empty()),
            },
        ]
    } else {
        Seq::empty()
    }) + (match assoc_find(fresh, p.0) {
        Option::Some(v) => seq![
            MutationModel {
                op: MutOp::Put,
                key: spec_component_index_key(tp, p.0, v, id),
                value: ValueModel::Bytes(encode_utf8(id)),
            },
        ],
        Option::None => Seq::empty(),
    })
}

/// The index mutations of a whole archetype, in entry order.
pub open spec fn field_muts(
    tp: Seq<char>,
    id: Seq<char>,
    keys: ArchModel,
    fresh: ArchModel,
) -> Seq<MutationModel>
    decreases keys.len(),
{
    if keys.len() == 0 {
        Seq::empty()
    } else {
        field_muts(tp, id, keys.drop_last(), fresh) + one_field_muts(tp, id, keys.last(), fresh)
    }
}

/// All mutations of one component's attach: index maintenance, then the
/// payload write.
pub open spec fn attach_one_muts(
    tp: Seq<char>,
    id: Seq<char>,
    arch0: ArchModel,
    fresh: ArchModel,
    payload: Seq<u8>,
) -> Seq<MutationModel> {
    field_muts(tp, id, arch0, fresh) + seq![
        MutationModel {
            op: MutOp::Put,
            key: spec_component_data_key(tp, id),
            value: ValueModel::Bytes(payload),
        },
    ]
}

/// The deletions a detach issues: one per recorded non-empty index value.
pub open spec fn detach_index_muts(tp: Seq<char>, id: Seq<char>, keys: ArchModel) -> Seq<
    MutationModel,
>
    decreases keys.len(),
{
    if keys.len() == 0 {
        Seq::empty()
    } else {
        detach_index_muts(tp, id, keys.drop_last()) + (if keys.last().1.len() > 0 {
            seq![
                MutationModel {
                    op: MutOp::Del,
                    key: spec_component_index_key(tp, keys.last().0, keys.last().1, id),
                    value: ValueModel::Bytes(Seq::empty()),
                },
            ]
        } else {
            Seq::empty()
        })
    }
}

/// Contents after detaching a component type with indexed fields: its
/// recorded index rows gone, its archetype entry removed from the
/// metadata record, its payload row gone.
pub open spec fn spec_detach(c: Map<Seq<char>, ValueModel>, tp: Seq<char>, id: Seq<char>) -> Map<
    Seq<char>,
    ValueModel,
> {
    let m = meta_model_of(c, id);
    let arch = assoc_find(m, tp).unwrap();
    apply_muts(c, detach_index_muts(tp, id, arch)).insert(
        spec_entity_metadata_key(id),
        ValueModel::Meta(crate::meta::assoc_remove(m, tp)),
    ).remove(spec_component_data_key(tp, id))
}

/// Whether the metadata row of an entity, if present, holds a metadata
/// record rather than foreign bytes.
pub open spec fn meta_row_ok(c: Map<Seq<char>, ValueModel>, id: Seq<char>) -> bool {
    c.contains_key(spec_entity_metadata_key(id)) ==> c[spec_entity_metadata_key(id)] is Meta
}

/// The metadata record of an entity as stored: the row's record, or the
/// empty record if the row is absent.
pub open spec fn meta_model_of(c: Map<Seq<char>, ValueModel>, id: Seq<char>) -> MetaModel {
    if c.contains_key(spec_entity_metadata_key(id)) && c[spec_entity_metadata_key(id)] is Meta {
        c[spec_entity_metadata_key(id)]->Meta_0
    } else {
        Seq::empty()
    }
}

/// Contents and metadata after one component's attach.
pub open spec fn attach_one_map(
    c: Map<Seq<char>, ValueModel>,
    id: Seq<char>,
    m: MetaModel,
    part: PartsModel,
) -> (Map<Seq<char>, ValueModel>, MetaModel) {
    let arch0 = arch_before(m, part.type_path, part.names);
    (
        apply_muts(c, attach_one_muts(part.type_path, id, arch0, part.fields, part.payload)),
        meta_after_attach(m, part.type_path, part.names, part.fields),
    )
}

/// Contents and metadata after a bundle's components attach in order.
pub open spec fn attach_fold(
    c: Map<Seq<char>, ValueModel>,
    id: Seq<char>,
    m: MetaModel,
    parts: Seq<PartsModel>,
) -> (Map<Seq<char>, ValueModel>, MetaModel)
    decreases parts.len(),
{
    if parts.len() == 0 {
        (c, m)
    } else {
        let folded = attach_fold(c, id, m, parts.drop_last());
        attach_one_map(folded.0, id, folded.1, parts.last())
    }
}

/// Contents after a whole attach transaction: every component's mutations,
/// then the rewritten metadata row.
pub open spec fn spec_attach(
    c: Map<Seq<char>, ValueModel>,
    id: Seq<char>,
    parts: Seq<PartsModel>,
) -> Map<Seq<char>, ValueModel> {
    let folded = attach_fold(c, id, meta_model_of(c, id), parts);
    folded.0.insert(spec_entity_metadata_key(id), ValueModel::Meta(folded.1))
}

/// Updating an archetype keeps its length and its field names.
pub proof fn lemma_upd_keys_props(keys: ArchModel, fresh: ArchModel)
    ensures
        upd_keys(keys, fresh).len() == keys.len(),
        forall|i: int| 0 <= i < keys.len() ==> (#[trigger] upd_keys(keys, fresh)[i]).0 == keys[i].0,
        forall|i: int|
            0 <= i < keys.len() ==> #[trigger] upd_keys(keys, fresh)[i] == upd_entry(
                keys[i],
                fresh,
            ),
{
}

/// The default archetype binds each name to the empty value, in order.
pub proof fn lemma_default_arch_props(names: Seq<Seq<char>>)
    ensures
        default_arch(names).len() == names.len(),
        forall|i: int|
            0 <= i < names.len() ==> #[trigger] default_arch(names)[i] == (
                names[i],
                Seq::<char>::empty(),
            ),
{
}

/// Parse one edge marker key of this entity's prefix: the type path at
/// segment three, the direction tag at four, the other id at five.
pub open spec fn parse_full_marker(k: Seq<char>) -> Option<
    (Seq<char>, RelationDirection, Seq<char>),
> {
    match (spec_nth_segment(k, 3), spec_nth_segment(k, 4), spec_nth_segment(k, 5)) {
        (Option::Some(t), Option::Some(d), Option::Some(o)) => if d == "in"@ {
            Option::Some((t, RelationDirection::In, raw_strip(o)))
        } else if d == "out"@ {
            Option::Some((t, RelationDirection::Out, raw_strip(o)))
        } else {
            Option::None
        },
        _ => Option::None,
    }
}

/// Parse every marker row under an entity's edge prefix, in order.
pub open spec fn parse_full_markers(rows: Seq<(Seq<char>, ValueModel)>) -> Option<
    Seq<(Seq<char>, RelationDirection, Seq<char>)>,
>
    decreases rows.len(),
{
    if rows.len() == 0 {
        Option::Some(Seq::empty())
    } else {
        match (parse_full_markers(rows.drop_last()), parse_full_marker(rows.last().0)) {
            (Option::Some(ps), Option::Some(p)) => Option::Some(ps.push(p)),
            _ => Option::None,
        }
    }
}

/// One malformed row fails the whole parse.
proof fn lemma_parse_full_fail(rows: Seq<(Seq<char>, ValueModel)>, i: int)
    requires
        0 <= i < rows.len(),
        parse_full_marker(rows[i].0) is None,
    ensures
        parse_full_markers(rows) is None,
    decreases rows.len(),
{
    if i < rows.len() - 1 {
        assert(rows.drop_last()[i] == rows[i]);
        lemma_parse_full_fail(rows.drop_last(), i);
    }
}

/// The deletions that retire one discovered edge during cascade delete:
/// the entity's own marker, the mirrored marker, and the data row.
pub open spec fn cascade_one_muts(
    id: Seq<char>,
    t: (Seq<char>, RelationDirection, Seq<char>),
) -> Seq<MutationModel> {
    seq![
        MutationModel {
            op: MutOp::Del,
            key: spec_relation_edge_key(t.0, id, "e-"@ + t.2, t.1),
            value: ValueModel::Bytes(Seq::empty()),
        },
        MutationModel {
            op: MutOp::Del,
            key: spec_relation_edge_key(t.0, "e-"@ + t.2, id, t.1.spec_reverse()),
            value: ValueModel::Bytes(Seq::empty()),
        },
        MutationModel {
            op: MutOp::Del,
            key: if t.1 == RelationDirection::In {
                spec_relation_data_key(t.0, id, "e-"@ + t.2)
            } else {
                spec_relation_data_key(t.0, "e-"@ + t.2, id)
            },
            value: ValueModel::Bytes(Seq::empty()),
        },
    ]
}

/// The deletions for every discovered edge.
pub open spec fn cascade_edge_muts(
    id: Seq<char>,
    ts: Seq<(Seq<char>, RelationDirection, Seq<char>)>,
) -> Seq<MutationModel>
    decreases ts.len(),
{
    if ts.len() == 0 {
        Seq::empty()
    } else {
        cascade_edge_muts(id, ts.drop_last()) + cascade_one_muts(id, ts.last())
    }
}

/// The deletions of every recorded index row of one archetype, using the
/// recorded values.
pub open spec fn arch_del_muts(tp: Seq<char>, id: Seq<char>, keys: ArchModel) -> Seq<MutationModel>
    decreases keys.len(),
{
    if keys.len() == 0 {
        Seq::empty()
    } else {
        arch_del_muts(tp, id, keys.drop_last()) + seq![
            MutationModel {
                op: MutOp::Del,
                key: spec_component_index_key(tp, keys.last().0, keys.last().1, id),
                value: ValueModel::Bytes(Seq::empty()),
            },
        ]
    }
}

/// The deletions driven by the metadata record: per component type, its
/// recorded index rows and its payload row.
pub open spec fn meta_del_muts(id: Seq<char>, m: MetaModel) -> Seq<MutationModel>
    decreases m.len(),
{
    if m.len() == 0 {
        Seq::empty()
    } else {
        meta_del_muts(id, m.drop_last()) + arch_del_muts(m.last().0, id, m.last().1) + seq![
            MutationModel {
                op: MutOp::Del,
                key: spec_component_data_key(m.last().0, id),
                value: ValueModel::Bytes(Seq::empty()),
            },
        ]
    }
}

/// The whole mutation batch of one entity's delete: the rows its
/// metadata record names, its incident edges' rows, and the metadata row.
pub open spec fn entity_delete_muts(st: KvStore, id: Seq<char>) -> Seq<MutationModel> {
    meta_del_muts(id, meta_model_of(st.contents(), id)) + cascade_edge_muts(
        id,
        parse_full_markers(
            st.range_rows(
                spec_relation_edge_prefix(id, Seq::empty()),
                spec_relation_edge_prefix(id, "~"@),
            ),
        ).unwrap(),
    ) + seq![
        MutationModel {
            op: MutOp::Del,
            key: spec_entity_metadata_key(id),
            value: ValueModel::Bytes(Seq::empty()),
        },
    ]
}

/// Contents after deleting an entity: every row the metadata record
/// names, every incident edge's three rows, and the metadata row itself.
pub open spec fn spec_delete(
    c: Map<Seq<char>, ValueModel>,
    id: Seq<char>,
    ts: Seq<(Seq<char>, RelationDirection, Seq<char>)>,
) -> Map<Seq<char>, ValueModel> {
    apply_muts(c, meta_del_muts(id, meta_model_of(c, id)) + cascade_edge_muts(id, ts)).remove(
        spec_entity_metadata_key(id),
    )
}

/// In one archetype's index maintenance, the last mutation touching the
/// retired row of one field is its deletion: the fresh values written for
/// any field differ from that row's value segment.
proof fn lemma_field_muts_last_write(
    tp: Seq<char>,
    id: Seq<char>,
    keys: ArchModel,
    fresh: ArchModel,
    j: int,
    k: Seq<char>,
)
    requires
        distinct_assoc_keys(keys),
        !tp.contains('/'),
        !id.contains('/'),
        crate::component::no_slash_values(keys),
        crate::component::no_slash_values(fresh),
        0 <= j < keys.len(),
        k == spec_component_index_key(tp, keys[j].0, keys[j].1, id),
        keys[j].1.len() > 0,
        match assoc_find(fresh, keys[j].0) {
            Option::Some(v) => v != keys[j].1,
            Option::None => true,
        },
    ensures
        crate::store::last_write(field_muts(tp, id, keys, fresh), k) == Option::Some(
            MutationModel {
                op: MutOp::Del,
                key: k,
                value: ValueModel::Bytes(Seq::empty()),
            },
        ),
    decreases keys.len(),
{
    let fm = field_muts(tp, id, keys, fresh);
    let last = keys.last();
    assert(last == keys[keys.len() - 1]);
    assert(!last.0.contains('/') && !last.1.contains('/'));
    assert(!keys[j].0.contains('/') && !keys[j].1.contains('/'));
    crate::meta::lemma_assoc_find_in(fresh, last.0);
    if assoc_find(fresh, last.0) is Some {
        let fv = assoc_find(fresh, last.0).unwrap();
        let fi = choose|i: int| 0 <= i < fresh.len() && #[trigger] fresh[i] == (last.0, fv);
        assert(!fv.contains('/'));
    }
    let one = one_field_muts(tp, id, last, fresh);
    crate::store::lemma_last_write_concat(
        field_muts(tp, id, keys.drop_last(), fresh),
        one,
        k,
    );
    let delpart: Seq<MutationModel> = if last.1.len() > 0 {
        seq![
            MutationModel {
                op: MutOp::Del,
                key: spec_component_index_key(tp, last.0, last.1, id),
                value: ValueModel::Bytes(Seq::empty()),
            },
        ]
    } else {
        Seq::empty()
    };
    let putpart: Seq<MutationModel> = match assoc_find(fresh, last.0) {
        Option::Some(v) => seq![
            MutationModel {
                op: MutOp::Put,
                key: spec_component_index_key(tp, last.0, v, id),
                value: ValueModel::Bytes(encode_utf8(id)),
            },
        ],
        Option::None => Seq::empty(),
    };
    assert(one == delpart + putpart);
    crate::store::lemma_last_write_concat(delpart, putpart, k);
    assert(putpart.len() <= 1 && delpart.len() <= 1);
    if putpart.len() == 1 {
        assert(putpart.drop_last() =~= Seq::<MutationModel>::empty());
    }
    if delpart.len() == 1 {
        assert(delpart.drop_last() =~= Seq::<MutationModel>::empty());
    }
    if j == keys.len() - 1 {
        // The entry under scrutiny is the last one: its deletion is the
        // last touch, since the fresh write (if any) goes to another key.
        assert(last == keys[j]);
        match assoc_find(fresh, last.0) {
            Option::Some(v) => {
                assert(!v.contains('/'));
                crate::keys::lemma_index_key_injective(
                    tp,
                    last.0,
                    v,
                    id,
                    tp,
                    keys[j].0,
                    keys[j].1,
                    id,
                );
                assert(v != keys[j].1);
                assert(putpart[0].key == spec_component_index_key(tp, last.0, v, id));
                assert(putpart[0].key != k);
                assert(putpart.drop_last() =~= Seq::<MutationModel>::empty());
                assert(crate::store::last_write(Seq::<MutationModel>::empty(), k) is None);
                assert(crate::store::last_write(putpart, k) is None);
            },
            Option::None => {
                assert(putpart.len() == 0);
            },
        }
        assert(delpart.len() == 1 && delpart[0].key == k);
        assert(crate::store::last_write(delpart, k) == Option::Some(delpart[0]));
    } else {
        // A later entry: both its mutations target another field's keys.
        assert(last.0 != keys[j].0);
        if last.1.len() > 0 {
            crate::keys::lemma_index_key_injective(
                tp,
                last.0,
                last.1,
                id,
                tp,
                keys[j].0,
                keys[j].1,
                id,
            );
            assert(delpart[0].key != k);
            assert(delpart.drop_last() =~= Seq::<MutationModel>::empty());
        }
        assert(crate::store::last_write(Seq::<MutationModel>::empty(), k) is None);
        assert(crate::store::last_write(delpart, k) is None);
        match assoc_find(fresh, last.0) {
            Option::Some(v) => {
                assert(!v.contains('/'));
                crate::keys::lemma_index_key_injective(
                    tp,
                    last.0,
                    v,
                    id,
                    tp,
                    keys[j].0,
                    keys[j].1,
                    id,
                );
                assert(putpart[0].key != k);
                assert(putpart.drop_last() =~= Seq::<MutationModel>::empty());
                assert(crate::store::last_write(putpart, k) is None);
            },
            Option::None => {
                assert(putpart.len() == 0);
            },
        }
        assert(keys.drop_last()[j] == keys[j]);
        assert(crate::component::no_slash_values(keys.drop_last())) by {
            assert(forall|x: int|
                0 <= x < keys.len() - 1 ==> #[trigger] keys.drop_last()[x] == keys[x]);
        }
        lemma_field_muts_last_write(tp, id, keys.drop_last(), fresh, j, k);
    }
}

/// Law: re-attach refresh.  Attaching a component and then attaching
/// another value of the same type leaves no index row for a field value
/// the first attach wrote and the second replaced.  Stated for an entity
/// that had no archetype of the type before, with a non-empty first
/// encoding; an empty encoding is recorded as never indexed, so its stale
/// row would survive.
#[verifier::rlimit(100)]
pub proof fn lemma_reattach_refresh(
    c: Map<Seq<char>, ValueModel>,
    id: Seq<char>,
    p1: PartsModel,
    p2: PartsModel,
    j: int,
)
    requires
        p1.wf(),
        p2.wf(),
        p1.type_path == p2.type_path,
        p1.names == p2.names,
        meta_model_wf(meta_model_of(c, id)),
        assoc_find(meta_model_of(c, id), p1.type_path) is None,
        0 <= j < p1.names.len(),
        p1.fields[j].1.len() > 0,
        p1.fields[j].1 != p2.fields[j].1,
        !id.contains('/'),
    ensures
        !spec_attach(spec_attach(c, id, seq![p1]), id, seq![p2]).contains_key(
            spec_component_index_key(p1.type_path, p1.names[j], p1.fields[j].1, id),
        ),
{
    let tp = p1.type_path;
    let names = p1.names;
    let m0 = meta_model_of(c, id);
    let k = spec_component_index_key(tp, names[j], p1.fields[j].1, id);
    assert(seq![p1].drop_last() =~= Seq::<PartsModel>::empty());
    assert(seq![p2].drop_last() =~= Seq::<PartsModel>::empty());
    reveal_with_fuel(attach_fold, 3);
    let arch0 = arch_before(m0, tp, names);
    let m1 = meta_after_attach(m0, tp, names, p1.fields);
    let c1 = spec_attach(c, id, seq![p1]);
    assert(m1 == m0.push((tp, upd_keys(default_arch(names), p1.fields))));
    assert(c1 == apply_muts(
        c,
        attach_one_muts(tp, id, arch0, p1.fields, p1.payload),
    ).insert(spec_entity_metadata_key(id), ValueModel::Meta(m1)));
    assert(meta_model_of(c1, id) == m1);
    // The archetype the second attach starts from records the first
    // attach's fresh values.
    let arch1 = upd_keys(default_arch(names), p1.fields);
    assert(distinct_assoc_keys(m1)) by {
        assert(forall|x: int| 0 <= x < m0.len() ==> #[trigger] m1[x] == m0[x]);
        assert(m1[m0.len() as int].0 == tp);
        assert forall|x: int, y: int| 0 <= x < y < m1.len() implies m1[x].0 != m1[y].0 by {
            if y < m0.len() {
            } else {
                if m0[x].0 == tp {
                    lemma_assoc_find_at(m0, tp, x);
                }
            }
        }
    }
    lemma_assoc_find_at(m1, tp, m0.len() as int);
    assert(arch_before(m1, tp, names) == arch1);
    lemma_upd_keys_props(default_arch(names), p1.fields);
    lemma_default_arch_props(names);
    assert(arch1[j] == upd_entry((names[j], Seq::<char>::empty()), p1.fields));
    lemma_assoc_find_at(p1.fields, names[j], j);
    assert(arch1[j] == (names[j], p1.fields[j].1));
    lemma_assoc_find_at(p2.fields, names[j], j);
    // The second attach's batch last touches the stale row with its
    // deletion, and the final metadata write is at another keyspace.
    let muts2 = attach_one_muts(tp, id, arch1, p2.fields, p2.payload);
    let paypart = seq![
        MutationModel {
            op: MutOp::Put,
            key: spec_component_data_key(tp, id),
            value: ValueModel::Bytes(p2.payload),
        },
    ];
    assert(distinct_assoc_keys(arch1)) by {
        assert(forall|x: int| 0 <= x < names.len() ==> (#[trigger] arch1[x]).0 == names[x]);
    }
    assert(crate::component::no_slash_values(arch1)) by {
        assert(forall|x: int|
            0 <= x < names.len() ==> #[trigger] arch1[x] == upd_entry(
                (names[x], Seq::<char>::empty()),
                p1.fields,
            ));
        assert forall|x: int|
            0 <= x < arch1.len() implies !(#[trigger] arch1[x]).0.contains('/') && !arch1[
            x
        ].1.contains('/') by {
            assert(p1.fields[x].0 == names[x]);
            lemma_assoc_find_at(p1.fields, names[x], x);
            assert(arch1[x] == (names[x], p1.fields[x].1));
        }
    }
    lemma_field_muts_last_write(tp, id, arch1, p2.fields, j, k);
    crate::store::lemma_last_write_concat(field_muts(tp, id, arch1, p2.fields), paypart, k);
    crate::keys::lemma_keyspaces_disjoint(
        tp,
        names[j],
        p1.fields[j].1,
        id,
        tp,
        names[j],
        p1.fields[j].1,
        id,
        id,
        id,
        RelationDirection::In,
    );
    assert(paypart[0].key != k);
    assert(paypart.drop_last() =~= Seq::<MutationModel>::empty());
    assert(crate::store::last_write(Seq::<MutationModel>::empty(), k) is None);
    assert(crate::store::last_write(paypart, k) is None);
    crate::store::lemma_apply_muts_key(c1, muts2, k);
    assert(!apply_muts(c1, muts2).contains_key(k));
    assert(spec_attach(c1, id, seq![p2]) == apply_muts(c1, muts2).insert(
        spec_entity_metadata_key(id),
        ValueModel::Meta(meta_after_attach(m1, tp, names, p2.fields)),
    ));
    assert(spec_entity_metadata_key(id) != k);
}

/// The first encoded value bound to a field name in a component's fields.
fn find_field(fields: &Vec<(String, String)>, name: &str) -> (r: Option<String>)
    requires
        distinct_assoc_keys(pair_views(fields@)),
    ensures
        match r {
            Option::Some(v) => assoc_find(pair_views(fields@), name@) == Option::Some(v@),
            Option::None => assoc_find(pair_views(fields@), name@) is None,
        },
{
    let mut i: usize = 0;
    while i < fields.len()
        invariant
            i <= fields@.len(),
            distinct_assoc_keys(pair_views(fields@)),
            forall|j: int| 0 <= j < i ==> #[trigger] pair_views(fields@)[j].0 != name@,
        decreases fields@.len() - i,
    {
        if crate::order::str_compare(fields[i].0.as_str(), name) == 0 {
            proof {
                lemma_assoc_find_at(pair_views(fields@), name@, i as int);
            }
            return Option::Some(fields[i].1.clone());
        }
        i = i + 1;
    }
    proof {
        lemma_assoc_find_absent(pair_views(fields@), name@);
    }
    Option::None
}

/// A handle on one entity.
pub struct EntityHandler {
    pub entity_id: EntityID,
}

impl EntityHandler {
    /// A handle on the given entity.
    pub fn new(entity_id: EntityID) -> (r: EntityHandler)
        ensures
            r.entity_id == entity_id,
    {
        EntityHandler { entity_id }
    }

    /// The entity this handle addresses.
    pub fn entity_id(&self) -> (r: &EntityID)
        ensures
            r == &self.entity_id,
    {
        &self.entity_id
    }

    /// The attach step of one component inside a transaction: retire
    /// recorded index rows, write fresh ones, record the fresh values in
    /// the metadata archetype, and rewrite the payload row.  The mutations
    /// are appended to the transaction's batch; the metadata write itself
    /// is the caller's final step.
    pub fn attach_component_in_txn(
        &self,
        mutations: &mut Vec<Mutation>,
        metadata: &mut EntityMetadata,
        parts: &ComponentParts,
    )
        requires
            old(metadata).wf(),
            parts@.wf(),
        ensures
            final(metadata).wf(),
            meta_view(final(metadata)) == meta_after_attach(
                meta_view(old(metadata)),
                parts@.type_path,
                parts@.names,
                parts@.fields,
            ),
            mut_views(final(mutations)@) == mut_views(old(mutations)@) + attach_one_muts(
                parts@.type_path,
                self.entity_id.text(),
                arch_before(meta_view(old(metadata)), parts@.type_path, parts@.names),
                parts@.fields,
                parts@.payload,
            ),
    {
        let ghost meta0 = meta_view(old(metadata));
        let ghost arch0 = arch_before(meta_view(old(metadata)), parts@.type_path, parts@.names);
        let ghost fresh = parts@.fields;
        let ghost id = self.entity_id.text();
        let ghost tp = parts@.type_path;
        let (idx, found) = match metadata.find(parts.type_path.0.as_str()) {
            Option::Some(i) => (i, true),
            Option::None => {
                let fresh_arch = ComponentArchetype::new_default(&parts.names);
                let path = parts.type_path.clone();
                metadata.component_archetypes.push((path.0, fresh_arch));
                (metadata.component_archetypes.len() - 1, false)
            },
        };
        proof {
            if found {
                lemma_assoc_find_at(meta0, tp, idx as int);
                assert(meta_view(metadata) == meta0);
                assert(arch0 == meta0[idx as int].1);
            } else {
                lemma_assoc_find_absent(meta0, tp);
                lemma_default_arch_props(parts@.names);
                reveal_strlit("");
                assert(""@ =~= Seq::<char>::empty());
                assert(meta_view(metadata)[idx as int].1 =~= arch0);
                assert(meta_view(metadata) =~= meta0.push((tp, arch0)));
            }
            assert(meta_view(metadata)[idx as int].1 == arch_view(
                &metadata.component_archetypes@[idx as int].1,
            ));
            assert(meta_view(metadata)[idx as int].0 == metadata.component_archetypes@[
                idx as int
            ].0@);
        }
        let ghost meta_entries1 = metadata.component_archetypes@;
        let entry = metadata.component_archetypes.remove(idx);
        let path_string = entry.0;
        let mut arch = entry.1;
        proof {
            assert(arch_view(&arch) == arch0);
            assert(path_string@ == if found {
                meta0[idx as int].0
            } else {
                tp
            });
            if found {
                assert(path_string@ == tp);
            }
        }
        let id_text = self.entity_id.id_text();
        let id_value = Value::Bytes(id_text.as_str().as_bytes_vec());
        let mut i: usize = 0;
        while i < arch.index_keys.len()
            invariant
                i <= arch.index_keys@.len(),
                arch.index_keys@.len() == arch0.len(),
                distinct_assoc_keys(fresh),
                id_value@ == ValueModel::Bytes(encode_utf8(id)),
                forall|j: int| i <= j < arch0.len() ==> #[trigger] arch_view(&arch)[j] == arch0[j],
                forall|j: int|
                    0 <= j < i ==> #[trigger] arch_view(&arch)[j] == upd_entry(arch0[j], fresh),
                mut_views(mutations@) == mut_views(old(mutations)@) + field_muts(
                    tp,
                    id,
                    arch0.take(i as int),
                    fresh,
                ),
                parts@.wf(),
                fresh == parts@.fields,
                tp == parts@.type_path,
                id == self.entity_id.text(),
            decreases arch.index_keys@.len() - i,
        {
            proof {
                assert(arch0.take(i as int) =~= arch0.take(i + 1).drop_last());
                assert(arch0.take(i + 1).last() == arch0[i as int]);
                assert(arch_view(&arch)[i as int] == (arch.index_keys@[i as int].0@,
                arch.index_keys@[i as int].1@));
            }
            let ghost muts_before = mut_views(mutations@);
            let ghost pre_view = arch_view(&arch);
            let field = arch.index_keys[i].0.clone();
            let prev = arch.index_keys[i].1.clone();
            proof {
                assert((field@, prev@) == arch0[i as int]);
            }
            if !prev.as_str().is_empty() {
                let key = component_index_path(
                    &parts.type_path,
                    field.as_str(),
                    prev.as_str(),
                    &self.entity_id,
                );
                mutations.push(Mutation::del(key));
            }
            match find_field(&parts.fields, field.as_str()) {
                Option::Some(v) => {
                    let key = component_index_path(
                        &parts.type_path,
                        field.as_str(),
                        v.as_str(),
                        &self.entity_id,
                    );
                    mutations.push(Mutation::put(key, id_value.clone()));
                    let ghost vv = v@;
                    let name_again = arch.index_keys[i].0.clone();
                    let ghost arch_pre = arch.index_keys@;
                    arch.index_keys.remove(i);
                    arch.index_keys.insert(i, (name_again, v));
                    proof {
                        assert(arch.index_keys@.len() == arch_pre.len());
                        assert(forall|j: int|
                            0 <= j < arch_pre.len() && j != i ==> #[trigger] arch.index_keys@[j]
                                == arch_pre[j]);
                        assert((arch.index_keys@[i as int].0@, arch.index_keys@[i as int].1@) == (
                        arch0[i as int].0, vv));
                        assert forall|j: int|
                            0 <= j < arch0.len() && j != i implies #[trigger] arch_view(&arch)[j]
                            == pre_view[j] by {
                            assert(arch_view(&arch)[j] == (arch.index_keys@[j].0@,
                            arch.index_keys@[j].1@));
                            assert(pre_view[j] == (arch_pre[j].0@, arch_pre[j].1@));
                        }
                        assert(arch_view(&arch)[i as int] == upd_entry(arch0[i as int], fresh));
                    }
                },
                Option::None => {
                    proof {
                        assert(upd_entry(arch0[i as int], fresh) == arch0[i as int]);
                    }
                },
            }
            proof {
                assert(mut_views(mutations@) =~= muts_before + one_field_muts(
                    tp,
                    id,
                    arch0[i as int],
                    fresh,
                ));
                assert(mut_views(mutations@) =~= mut_views(old(mutations)@) + field_muts(
                    tp,
                    id,
                    arch0.take(i + 1),
                    fresh,
                ));
                assert(forall|j: int|
                    i + 1 <= j < arch0.len() ==> #[trigger] arch_view(&arch)[j] == arch0[j]);
                assert(forall|j: int|
                    0 <= j < i + 1 ==> #[trigger] arch_view(&arch)[j] == upd_entry(
                        arch0[j],
                        fresh,
                    ));
            }
            i = i + 1;
        }
        proof {
            lemma_upd_keys_props(arch0, fresh);
            assert(arch_view(&arch) =~= upd_keys(arch0, fresh));
        }
        metadata.component_archetypes.insert(idx, (path_string, arch));
        let ghost muts_after_loop = mut_views(mutations@);
        let payload_key = component_data_path(&parts.type_path, &self.entity_id);
        mutations.push(Mutation::put(payload_key, Value::Bytes(copy_bytes(&parts.payload))));
        proof {
            assert(arch0.take(arch0.len() as int) =~= arch0);
            assert(muts_after_loop == mut_views(old(mutations)@) + field_muts(tp, id, arch0, fresh));
            assert(mut_views(mutations@) =~= muts_after_loop + seq![
                MutationModel {
                    op: MutOp::Put,
                    key: spec_component_data_key(tp, id),
                    value: ValueModel::Bytes(parts@.payload),
                },
            ]);
            assert(mut_views(mutations@) =~= mut_views(old(mutations)@) + attach_one_muts(
                tp,
                id,
                arch0,
                fresh,
                parts@.payload,
            ));
            let mv = meta_view(metadata);
            let expected = meta_after_attach(meta0, tp, parts@.names, fresh);
            lemma_upd_keys_props(arch0, fresh);
            assert(metadata.component_archetypes@ =~= meta_entries1.remove(i
                as int - i as int + idx as int).insert(idx as int, (path_string, arch)));
            assert(mv.len() == meta_entries1.len());
            assert(forall|j: int|
                0 <= j < mv.len() && j != idx ==> #[trigger] mv[j] == (meta_entries1[j].0@,
                arch_view(&meta_entries1[j].1)));
            assert(mv[idx as int] == (path_string@, arch_view(&arch)));
            if found {
                assert(mv =~= expected) by {
                    assert forall|j: int| 0 <= j < mv.len() implies mv[j] == expected[j] by {
                        if j != idx {
                            assert(meta0[j].0 != tp);
                            assert(expected[j] == meta0[j]);
                            assert(mv[j] == meta0[j]);
                        } else {
                            assert(expected[j] == (tp, upd_keys(meta0[j].1, fresh)));
                        }
                    }
                }
            } else {
                assert(mv =~= expected) by {
                    assert forall|j: int| 0 <= j < mv.len() implies mv[j] == expected[j] by {
                        if j != idx {
                            assert(mv[j] == meta0[j]);
                        }
                    }
                }
            }
            assert(metadata.wf()) by {
                assert forall|x: int, y: int| 0 <= x < y < mv.len() implies mv[x].0 != mv[y].0 by {
                    if found {
                        assert(mv[x].0 == meta0[x].0 && mv[y].0 == meta0[y].0);
                    } else {
                        if y < idx {
                            assert(mv[x].0 == meta0[x].0 && mv[y].0 == meta0[y].0);
                        } else if y == idx {
                            assert(mv[x].0 == meta0[x].0 && mv[y].0 == tp);
                            assert(meta0[x].0 != tp);
                        }
                    }
                }
                assert forall|j: int|
                    0 <= j < metadata.component_archetypes@.len() implies (
                #[trigger] metadata.component_archetypes@[j]).1.wf() by {
                    assert(mv[j].1 == arch_view(&metadata.component_archetypes@[j].1));
                    if j == idx {
                        assert(mv[j].1 == upd_keys(arch0, fresh));
                        assert forall|x: int, y: int|
                            0 <= x < y < arch0.len() implies upd_keys(arch0, fresh)[x].0
                            != upd_keys(arch0, fresh)[y].0 by {
                            assert(upd_keys(arch0, fresh)[x].0 == arch0[x].0);
                            assert(upd_keys(arch0, fresh)[y].0 == arch0[y].0);
                            if found {
                                assert(old(metadata).component_archetypes@[idx as int].1.wf());
                                assert(meta0[idx as int].1 == arch_view(
                                    &old(metadata).component_archetypes@[idx as int].1,
                                ));
                            } else {
                                lemma_default_arch_props(parts@.names);
                                assert(arch0[x].0 == parts@.names[x]);
                                assert(arch0[y].0 == parts@.names[y]);
                            }
                        }
                    } else {
                        if found {
                            assert(mv[j] == meta0[j]);
                            assert(meta0[j].1 == arch_view(
                                &old(metadata).component_archetypes@[j].1,
                            ));
                            assert(old(metadata).component_archetypes@[j].1.wf());
                        } else {
                            assert(mv[j] == meta0[j]);
                            assert(meta0[j].1 == arch_view(
                                &old(metadata).component_archetypes@[j].1,
                            ));
                            assert(old(metadata).component_archetypes@[j].1.wf());
                        }
                    }
                }
            }
        }
    }

    /// Attach a bundle of components: one transaction that runs the
    /// per-component attach step for each component and then rewrites the
    /// entity's metadata row.  Fails only when the stored metadata row does
    /// not hold a metadata record.
    pub fn attach<B: ComponentBundle>(&self, store: &mut KvStore, bundle: B) -> (r: Result<
        (),
        Error,
    >)
        requires
            old(store).wf(),
            stored_meta_wf(old(store).contents(), self.entity_id.text()),
            self.entity_id.wf(),
        ensures
            final(store).wf(),
            r is Ok <==> meta_row_ok(old(store).contents(), self.entity_id.text()),
            r is Ok ==> stored_meta_wf(final(store).contents(), self.entity_id.text()),
            r is Ok ==> final(store).contents() == spec_attach(
                old(store).contents(),
                self.entity_id.text(),
                bundle.spec_parts(),
            ),
            r is Err ==> *final(store) == *old(store) && r == Err::<(), Error>(
                Error::DeserializationError,
            ),
    {
        let ghost c0 = old(store).contents();
        let ghost id = self.entity_id.text();
        let ghost m0 = meta_model_of(old(store).contents(), self.entity_id.text());
        let meta_key = entity_metadata_path(&self.entity_id);
        let mut metadata = match store.get(meta_key.as_str()) {
            Option::Some(v) => match v {
                Value::Meta(m) => {
                    let copy = m.clone();
                    proof {
                        assert(meta_view(&copy) == m0);
                        lemma_meta_wf_from_view(&copy);
                    }
                    copy
                },
                Value::Bytes(_) => {
                    return Result::Err(Error::DeserializationError);
                },
            },
            Option::None => EntityMetadata::new_empty(),
        };
        let ghost pv = bundle.spec_parts();
        let parts = bundle.into_parts();
        let mut mutations: Vec<Mutation> = Vec::new();
        let mut i: usize = 0;
        proof {
            assert(pv.take(0int) =~= Seq::<PartsModel>::empty());
            assert(mut_views(mutations@) =~= Seq::<MutationModel>::empty());
            assert(apply_muts(c0, mut_views(mutations@)) == attach_fold(c0, id, m0, pv.take(0int)).0);
        }
        while i < parts.len()
            invariant
                i <= parts@.len(),
                parts_views(parts@) == pv,
                forall|j: int| 0 <= j < pv.len() ==> (#[trigger] pv[j]).wf(),
                metadata.wf(),
                meta_view(&metadata) == attach_fold(c0, id, m0, pv.take(i as int)).1,
                apply_muts(c0, mut_views(mutations@)) == attach_fold(c0, id, m0, pv.take(i as int)).0,
                id == self.entity_id.text(),
            decreases parts@.len() - i,
        {
            let ghost muts_pre = mut_views(mutations@);
            let ghost meta_pre = meta_view(&metadata);
            proof {
                assert(parts@[i as int]@ == pv[i as int]);
                assert(pv[i as int].wf());
            }
            self.attach_component_in_txn(&mut mutations, &mut metadata, &parts[i]);
            proof {
                assert(pv.take(i + 1).drop_last() =~= pv.take(i as int));
                assert(pv.take(i + 1).last() == pv[i as int]);
                let folded = attach_fold(c0, id, m0, pv.take(i as int));
                let one = attach_one_muts(
                    pv[i as int].type_path,
                    id,
                    arch_before(meta_pre, pv[i as int].type_path, pv[i as int].names),
                    pv[i as int].fields,
                    pv[i as int].payload,
                );
                crate::store::lemma_apply_muts_concat(c0, muts_pre, one);
                assert(apply_muts(c0, mut_views(mutations@)) == apply_muts(
                    apply_muts(c0, muts_pre),
                    one,
                ));
            }
            i = i + 1;
        }
        proof {
            assert(pv.take(parts@.len() as int) =~= pv);
        }
        let ghost muts_loop = mut_views(mutations@);
        let ghost mv_final = meta_view(&metadata);
        proof {
            assert(meta_key@ == spec_entity_metadata_key(id));
            assert(mv_final == attach_fold(c0, id, m0, pv).1);
            lemma_meta_view_wf(&metadata);
        }
        mutations.push(Mutation::put(meta_key, Value::Meta(metadata)));
        store.apply(&mutations);
        proof {
            let folded = attach_fold(c0, id, m0, pv);
            let tailm = MutationModel {
                op: MutOp::Put,
                key: spec_entity_metadata_key(id),
                value: ValueModel::Meta(folded.1),
            };
            assert(mut_views(mutations@).len() == muts_loop.len() + 1);
            assert(forall|j: int|
                0 <= j < muts_loop.len() ==> #[trigger] mut_views(mutations@)[j] == muts_loop[j]);
            assert(mut_views(mutations@)[muts_loop.len() as int].op == MutOp::Put);
            assert(mut_views(mutations@)[muts_loop.len() as int].key == spec_entity_metadata_key(
                id,
            ));
            assert(mut_views(mutations@)[muts_loop.len() as int].value == ValueModel::Meta(
                folded.1,
            ));
            assert(mut_views(mutations@) =~= muts_loop + seq![tailm]);
            crate::store::lemma_apply_muts_concat(c0, muts_loop, seq![tailm]);
            assert(seq![tailm].drop_last() =~= Seq::<MutationModel>::empty());
            assert(apply_muts(c0, muts_loop) == folded.0);
            assert(store.contents() == apply_muts(c0, muts_loop + seq![tailm]));
            assert(apply_muts(c0, muts_loop + seq![tailm]) == apply_muts(
                apply_muts(c0, muts_loop),
                seq![tailm],
            ));
            reveal_with_fuel(apply_muts, 3);
            assert(apply_muts(folded.0, seq![tailm]) == crate::store::apply_one(folded.0, tailm));
            assert(store.contents() == folded.0.insert(
                spec_entity_metadata_key(id),
                ValueModel::Meta(folded.1),
            ));
            assert(meta_model_of(store.contents(), id) == folded.1);
            assert(stored_meta_wf(store.contents(), id));
        }
        Result::Ok(())
    }

    /// Detach a component type: delete its payload row and, when the type
    /// has indexed fields, its recorded index rows and its archetype entry
    /// in the metadata record.  With indexed fields, a missing metadata
    /// record or a record that does not list the type is `NotFound` and
    /// the store is untouched.
    pub fn detach<T: KvComponent>(&self, store: &mut KvStore) -> (r: Result<(), Error>)
        requires
            old(store).wf(),
            stored_meta_wf(old(store).contents(), self.entity_id.text()),
            self.entity_id.wf(),
        ensures
            final(store).wf(),
            r is Err ==> *final(store) == *old(store),
            ({
                let c = old(store).contents();
                let id = self.entity_id.text();
                let tp = T::spec_type_path();
                if T::spec_indexed_field_names().len() == 0 {
                    r is Ok && final(store).contents() == c.remove(spec_component_data_key(tp, id))
                } else if !meta_row_ok(c, id) {
                    r == Err::<(), Error>(Error::DeserializationError)
                } else if !c.contains_key(spec_entity_metadata_key(id)) {
                    r == Err::<(), Error>(Error::NotFound)
                } else if assoc_find(meta_model_of(c, id), tp) is None {
                    r == Err::<(), Error>(Error::NotFound)
                } else {
                    r is Ok && final(store).contents() == spec_detach(c, tp, id)
                }
            }),
    {
        let ghost c0 = old(store).contents();
        let ghost idv = self.entity_id.text();
        let ghost tpv = T::spec_type_path();
        let names = T::indexed_field_names();
        let tp = T::type_path();
        if names.len() == 0 {
            let dk = component_data_path(&tp, &self.entity_id);
            store.delete(dk.as_str());
            return Result::Ok(());
        }
        let meta_key = entity_metadata_path(&self.entity_id);
        let mut metadata = match store.get(meta_key.as_str()) {
            Option::None => {
                return Result::Err(Error::NotFound);
            },
            Option::Some(v) => match v {
                Value::Meta(m) => {
                    let copy = m.clone();
                    proof {
                        assert(meta_view(&copy) == meta_model_of(c0, idv));
                        lemma_meta_wf_from_view(&copy);
                    }
                    copy
                },
                Value::Bytes(_) => {
                    return Result::Err(Error::DeserializationError);
                },
            },
        };
        let ghost m0 = meta_view(&metadata);
        let idx = match metadata.find(tp.0.as_str()) {
            Option::None => {
                proof {
                    lemma_assoc_find_absent(m0, tpv);
                }
                return Result::Err(Error::NotFound);
            },
            Option::Some(i) => i,
        };
        proof {
            lemma_assoc_find_at(m0, tpv, idx as int);
            assert(m0[idx as int].1 == arch_view(&metadata.component_archetypes@[idx as int].1));
        }
        let ghost pre_entries = metadata.component_archetypes@;
        let entry = metadata.component_archetypes.remove(idx);
        let arch = entry.1;
        let ghost archv = arch_view(&arch);
        proof {
            assert(archv == assoc_find(m0, tpv).unwrap());
            lemma_assoc_remove_at(m0, tpv, idx as int);
            assert(forall|j: int|
                0 <= j < meta_view(&metadata).len() ==> #[trigger] meta_view(&metadata)[j] == (
                metadata.component_archetypes@[j].0@, arch_view(
                    &metadata.component_archetypes@[j].1,
                )));
            assert(forall|j: int|
                0 <= j < m0.len() ==> #[trigger] m0[j] == (pre_entries[j].0@, arch_view(
                    &pre_entries[j].1,
                )));
            assert(meta_view(&metadata) =~= m0.remove(idx as int));
        }
        let mut mutations: Vec<Mutation> = Vec::new();
        let mut i: usize = 0;
        proof {
            assert(archv.take(0int) =~= Seq::<(Seq<char>, Seq<char>)>::empty());
        }
        while i < arch.index_keys.len()
            invariant
                i <= arch.index_keys@.len(),
                archv == arch_view(&arch),
                arch.index_keys@.len() == archv.len(),
                idv == self.entity_id.text(),
                tpv == tp@,
                mut_views(mutations@) == detach_index_muts(tpv, idv, archv.take(i as int)),
            decreases arch.index_keys@.len() - i,
        {
            proof {
                assert(archv.take(i + 1).drop_last() =~= archv.take(i as int));
                assert(archv.take(i + 1).last() == archv[i as int]);
                assert(archv[i as int] == (arch.index_keys@[i as int].0@, arch.index_keys@[
                    i as int
                ].1@));
            }
            let field = arch.index_keys[i].0.clone();
            let prev = arch.index_keys[i].1.clone();
            if !prev.as_str().is_empty() {
                let key = component_index_path(&tp, field.as_str(), prev.as_str(), &self.entity_id);
                mutations.push(Mutation::del(key));
            }
            proof {
                assert(mut_views(mutations@) =~= detach_index_muts(tpv, idv, archv.take(i + 1)));
            }
            i = i + 1;
        }
        proof {
            assert(archv.take(archv.len() as int) =~= archv);
        }
        let ghost dmuts = mut_views(mutations@);
        let ghost mv2 = meta_view(&metadata);
        mutations.push(Mutation::put(meta_key, Value::Meta(metadata)));
        let dk = component_data_path(&tp, &self.entity_id);
        mutations.push(Mutation::del(dk));
        store.apply(&mutations);
        proof {
            let metam = MutationModel {
                op: MutOp::Put,
                key: spec_entity_metadata_key(idv),
                value: ValueModel::Meta(mv2),
            };
            let datam = MutationModel {
                op: MutOp::Del,
                key: spec_component_data_key(tpv, idv),
                value: ValueModel::Bytes(Seq::empty()),
            };
            assert(mut_views(mutations@) =~= dmuts + seq![metam, datam]);
            crate::store::lemma_apply_muts_concat(c0, dmuts, seq![metam, datam]);
            reveal_with_fuel(apply_muts, 4);
            assert(seq![metam, datam].drop_last() =~= seq![metam]);
            assert(seq![metam].drop_last() =~= Seq::<MutationModel>::empty());
            assert(store.contents() == apply_muts(c0, dmuts).insert(
                spec_entity_metadata_key(idv),
                ValueModel::Meta(mv2),
            ).remove(spec_component_data_key(tpv, idv)));
            assert(store.contents() == spec_detach(c0, tpv, idv));
        }
        Result::Ok(())
    }

    /// Build one entity's whole delete batch inside a transaction: the
    /// mutations are appended; nothing is applied.  A missing metadata
    /// record is `NotFound` and nothing is appended.
    pub fn delete_in_txn(&self, store: &KvStore, mutations: &mut Vec<Mutation>) -> (r: Result<
        (),
        Error,
    >)
        requires
            store.wf(),
            stored_meta_wf(store.contents(), self.entity_id.text()),
            self.entity_id.wf(),
        ensures
            ({
                let c = store.contents();
                let id = self.entity_id.text();
                let rows = store.range_rows(
                    spec_relation_edge_prefix(id, Seq::empty()),
                    spec_relation_edge_prefix(id, "~"@),
                );
                if !c.contains_key(spec_entity_metadata_key(id)) {
                    r == Err::<(), Error>(Error::NotFound)
                } else if !(c[spec_entity_metadata_key(id)] is Meta) {
                    r == Err::<(), Error>(Error::DeserializationError)
                } else {
                    match parse_full_markers(rows) {
                        Option::Some(ts) => r is Ok && mut_views(final(mutations)@) == mut_views(
                            old(mutations)@,
                        ) + entity_delete_muts(*store, id),
                        Option::None => r == Err::<(), Error>(Error::NotFound),
                    }
                }
            }),
    {
        let ghost c0 = store.contents();
        let ghost base_muts = mut_views(old(mutations)@);
        let ghost idv = self.entity_id.text();
        let meta_key = entity_metadata_path(&self.entity_id);
        let metadata = match store.get(meta_key.as_str()) {
            Option::None => {
                return Result::Err(Error::NotFound);
            },
            Option::Some(v) => match v {
                Value::Meta(m) => m.clone(),
                Value::Bytes(_) => {
                    return Result::Err(Error::DeserializationError);
                },
            },
        };
        let ghost m0 = meta_view(&metadata);
        let mut j: usize = 0;
        proof {
            assert(m0.take(0int) =~= Seq::<(Seq<char>, Seq<(Seq<char>, Seq<char>)>)>::empty());
            assert(mut_views(mutations@) =~= base_muts + meta_del_muts(idv, m0.take(0int)));
        }
        while j < metadata.component_archetypes.len()
            invariant
                j <= metadata.component_archetypes@.len(),
                m0 == meta_view(&metadata),
                m0.len() == metadata.component_archetypes@.len(),
                idv == self.entity_id.text(),
                mut_views(mutations@) == base_muts + meta_del_muts(idv, m0.take(j as int)),
            decreases metadata.component_archetypes@.len() - j,
        {
            proof {
                assert(m0.take(j + 1).drop_last() =~= m0.take(j as int));
                assert(m0.take(j + 1).last() == m0[j as int]);
                assert(m0[j as int] == (metadata.component_archetypes@[j as int].0@, arch_view(
                    &metadata.component_archetypes@[j as int].1,
                )));
            }
            let path = TypePath(metadata.component_archetypes[j].0.clone());
            let ghost archv = m0[j as int].1;
            let ghost base = mut_views(mutations@);
            let mut i: usize = 0;
            proof {
                assert(archv.take(0int) =~= Seq::<(Seq<char>, Seq<char>)>::empty());
                assert(base + arch_del_muts(path@, idv, archv.take(0int)) =~= base);
            }
            while i < metadata.component_archetypes[j].1.index_keys.len()
                invariant
                    j < metadata.component_archetypes@.len(),
                    i <= metadata.component_archetypes@[j as int].1.index_keys@.len(),
                    archv == arch_view(&metadata.component_archetypes@[j as int].1),
                    archv.len() == metadata.component_archetypes@[j as int].1.index_keys@.len(),
                    path@ == metadata.component_archetypes@[j as int].0@,
                    idv == self.entity_id.text(),
                    base == base_muts + meta_del_muts(idv, m0.take(j as int)),
                    mut_views(mutations@) == base + arch_del_muts(
                        path@,
                        idv,
                        archv.take(i as int),
                    ),
                decreases metadata.component_archetypes@[j as int].1.index_keys@.len() - i,
            {
                proof {
                    assert(archv.take(i + 1).drop_last() =~= archv.take(i as int));
                    assert(archv.take(i + 1).last() == archv[i as int]);
                    assert(archv[i as int] == (metadata.component_archetypes@[
                        j as int
                    ].1.index_keys@[i as int].0@, metadata.component_archetypes@[
                        j as int
                    ].1.index_keys@[i as int].1@));
                }
                let field = metadata.component_archetypes[j].1.index_keys[i].0.clone();
                let prev = metadata.component_archetypes[j].1.index_keys[i].1.clone();
                let key = component_index_path(&path, field.as_str(), prev.as_str(), &self.entity_id);
                let ghost muts_before = mut_views(mutations@);
                let ghost pushed = MutationModel {
                    op: MutOp::Del,
                    key: key@,
                    value: ValueModel::Bytes(Seq::empty()),
                };
                mutations.push(Mutation::del(key));
                proof {
                    assert(key@ == spec_component_index_key(
                        path@,
                        archv[i as int].0,
                        archv[i as int].1,
                        idv,
                    ));
                    assert(mut_views(mutations@) =~= muts_before + seq![pushed]);
                    assert(arch_del_muts(path@, idv, archv.take(i + 1)) == arch_del_muts(
                        path@,
                        idv,
                        archv.take(i as int),
                    ) + seq![
                        MutationModel {
                            op: MutOp::Del,
                            key: spec_component_index_key(
                                path@,
                                archv[i as int].0,
                                archv[i as int].1,
                                idv,
                            ),
                            value: ValueModel::Bytes(Seq::empty()),
                        },
                    ]);
                    assert(muts_before + seq![pushed] =~= base + arch_del_muts(
                        path@,
                        idv,
                        archv.take(i + 1),
                    ));
                    assert(mut_views(mutations@) =~= base + arch_del_muts(
                        path@,
                        idv,
                        archv.take(i + 1),
                    ));
                }
                i = i + 1;
            }
            proof {
                assert(archv.take(archv.len() as int) =~= archv);
            }
            let dk = component_data_path(&path, &self.entity_id);
            let ghost muts_mid = mut_views(mutations@);
            mutations.push(Mutation::del(dk));
            proof {
                assert(m0.take(j + 1).drop_last() =~= m0.take(j as int));
                assert(m0.take(j + 1).last() == m0[j as int]);
                assert(muts_mid == base + arch_del_muts(path@, idv, archv));
                assert(mut_views(mutations@) =~= muts_mid + seq![
                    MutationModel {
                        op: MutOp::Del,
                        key: spec_component_data_key(path@, idv),
                        value: ValueModel::Bytes(Seq::empty()),
                    },
                ]);
                assert(mut_views(mutations@) =~= base_muts + meta_del_muts(idv, m0.take(j + 1)));
            }
            j = j + 1;
        }
        proof {
            assert(m0.take(m0.len() as int) =~= m0);
        }
        let ghost mmuts = mut_views(mutations@);
        // Discover incident edges and retire their rows.
        let start = relation_edge_no_type_path(&self.entity_id, &TypePath(String::new()));
        let end = relation_edge_no_type_path(&self.entity_id, &TypePath("~".to_owned()));
        let rows = store.scan_all(start.as_str(), end.as_str());
        let ghost rv = row_views(rows@);
        let mut k: usize = 0;
        proof {
            assert(rv.take(0int) =~= Seq::<(Seq<char>, ValueModel)>::empty());
        }
        while k < rows.len()
            invariant
                k <= rows@.len(),
                rv == row_views(rows@),
                rv == store.range_rows(
                    spec_relation_edge_prefix(self.entity_id.text(), Seq::empty()),
                    spec_relation_edge_prefix(self.entity_id.text(), "~"@),
                ),
                store.wf(),
                idv == self.entity_id.text(),
                store.contents().contains_key(spec_entity_metadata_key(idv)),
                store.contents()[spec_entity_metadata_key(idv)] is Meta,
                mmuts == base_muts + meta_del_muts(idv, meta_model_of(store.contents(), idv)),
                parse_full_markers(rv.take(k as int)) matches Option::Some(ts) && mut_views(
                    mutations@,
                ) == mmuts + cascade_edge_muts(idv, ts),
            decreases rows@.len() - k,
        {
            proof {
                assert(rv.take(k + 1).drop_last() =~= rv.take(k as int));
                assert(rv.take(k + 1).last() == rv[k as int]);
                assert(rv[k as int] == (rows@[k as int].0@, rows@[k as int].1@));
            }
            let key = rows[k].0.as_str();
            let tseg = match nth_segment(key, 3) {
                Option::Some(t) => t,
                Option::None => {
                    proof {
                        lemma_parse_full_fail(rv, k as int);
                    }
                    return Result::Err(Error::NotFound);
                },
            };
            let dseg = match nth_segment(key, 4) {
                Option::Some(d) => d,
                Option::None => {
                    proof {
                        lemma_parse_full_fail(rv, k as int);
                    }
                    return Result::Err(Error::NotFound);
                },
            };
            let oseg = match nth_segment(key, 5) {
                Option::Some(o) => o,
                Option::None => {
                    proof {
                        lemma_parse_full_fail(rv, k as int);
                    }
                    return Result::Err(Error::NotFound);
                },
            };
            let dir = if crate::order::str_compare(dseg.as_str(), "in") == 0 {
                RelationDirection::In
            } else if crate::order::str_compare(dseg.as_str(), "out") == 0 {
                RelationDirection::Out
            } else {
                proof {
                    lemma_parse_full_fail(rv, k as int);
                }
                return Result::Err(Error::NotFound);
            };
            let ghost osegv = oseg@;
            let tpath = TypePath(tseg);
            let other = EntityID::new_raw(oseg);
            proof {
                assert(other.text() == "e-"@ + raw_strip(osegv));
            }
            let m1 = relation_edge_path(&tpath, &self.entity_id, &other, dir);
            let m2 = relation_edge_path(&tpath, &other, &self.entity_id, dir.reverse());
            let dk = match dir {
                RelationDirection::In => relation_data_path(&tpath, &self.entity_id, &other),
                _ => relation_data_path(&tpath, &other, &self.entity_id),
            };
            let ghost muts_b4 = mut_views(mutations@);
            let ghost ts0 = parse_full_markers(rv.take(k as int)).unwrap();
            let ghost p = (tpath@, dir, raw_strip(osegv));
            mutations.push(Mutation::del(m1));
            mutations.push(Mutation::del(m2));
            mutations.push(Mutation::del(dk));
            proof {
                assert(parse_full_marker(rv[k as int].0) == Option::Some(p));
                let ts1 = parse_full_markers(rv.take(k + 1)).unwrap();
                assert(ts1 == ts0.push(p));
                assert(ts1.drop_last() =~= ts0);
                assert(ts1.last() == p);
                assert(cascade_edge_muts(idv, ts1) == cascade_edge_muts(idv, ts0)
                    + cascade_one_muts(idv, p));
                assert(mut_views(mutations@) =~= muts_b4 + cascade_one_muts(idv, p));
                assert(muts_b4 + cascade_one_muts(idv, p) =~= mmuts + cascade_edge_muts(idv, ts1));
                assert(mut_views(mutations@) =~= mmuts + cascade_edge_muts(idv, ts1));
            }
            k = k + 1;
        }
        proof {
            assert(rv.take(rows@.len() as int) =~= rv);
        }
        let ghost all_before_meta = mut_views(mutations@);
        mutations.push(Mutation::del(meta_key));
        proof {
            let ts = parse_full_markers(rv).unwrap();
            let metam = MutationModel {
                op: MutOp::Del,
                key: spec_entity_metadata_key(idv),
                value: ValueModel::Bytes(Seq::empty()),
            };
            assert(mut_views(mutations@) =~= all_before_meta + seq![metam]);
            assert(mut_views(mutations@) =~= base_muts + entity_delete_muts(*store, idv));
        }
        Result::Ok(())
    }

    /// Delete everything the entity owns: every component payload and
    /// recorded index row named by its metadata record, every incident
    /// edge's marker rows and data row, and the metadata row itself.  A
    /// missing metadata record is `NotFound` and the store is untouched.
    pub fn delete(&self, store: &mut KvStore) -> (r: Result<(), Error>)
        requires
            old(store).wf(),
            stored_meta_wf(old(store).contents(), self.entity_id.text()),
            self.entity_id.wf(),
        ensures
            final(store).wf(),
            r is Err ==> *final(store) == *old(store),
            ({
                let c = old(store).contents();
                let id = self.entity_id.text();
                let rows = old(store).range_rows(
                    spec_relation_edge_prefix(id, Seq::empty()),
                    spec_relation_edge_prefix(id, "~"@),
                );
                if !c.contains_key(spec_entity_metadata_key(id)) {
                    r == Err::<(), Error>(Error::NotFound)
                } else if !(c[spec_entity_metadata_key(id)] is Meta) {
                    r == Err::<(), Error>(Error::DeserializationError)
                } else {
                    match parse_full_markers(rows) {
                        Option::Some(ts) => r is Ok && final(store).contents() == spec_delete(
                            c,
                            id,
                            ts,
                        ),
                        Option::None => r == Err::<(), Error>(Error::NotFound),
                    }
                }
            }),
    {
        let ghost c0 = old(store).contents();
        let ghost idv = self.entity_id.text();
        let mut mutations: Vec<Mutation> = Vec::new();
        match self.delete_in_txn(store, &mut mutations) {
            Result::Err(e) => {
                return Result::Err(e);
            },
            Result::Ok(_) => {},
        }
        store.apply(&mutations);
        proof {
            let rows = old(store).range_rows(
                spec_relation_edge_prefix(idv, Seq::empty()),
                spec_relation_edge_prefix(idv, "~"@),
            );
            let ts = parse_full_markers(rows).unwrap();
            let metam = MutationModel {
                op: MutOp::Del,
                key: spec_entity_metadata_key(idv),
                value: ValueModel::Bytes(Seq::empty()),
            };
            assert(mut_views(mutations@) =~= entity_delete_muts(*old(store), idv));
            let core = meta_del_muts(idv, meta_model_of(c0, idv)) + cascade_edge_muts(idv, ts);
            assert(entity_delete_muts(*old(store), idv) =~= core + seq![metam]);
            crate::store::lemma_apply_muts_concat(c0, core, seq![metam]);
            reveal_with_fuel(apply_muts, 3);
            assert(seq![metam].drop_last() =~= Seq::<MutationModel>::empty());
            assert(store.contents() == spec_delete(c0, idv, ts));
        }
        Result::Ok(())
    }

    /// Read a component of the entity: the payload row decoded, `None`
    /// when the row is absent.
    pub fn get<T: KvComponent>(&self, store: &KvStore) -> (r: Result<Option<T>, Error>)
        requires
            store.wf(),
        ensures
            ({
                let c = store.contents();
                let dk = spec_component_data_key(T::spec_type_path(), self.entity_id.text());
                match r {
                    Result::Ok(Option::Some(v)) => c.contains_key(dk) && (c[dk] matches
                        ValueModel::Bytes(b) && v.spec_encode() == b),
                    Result::Ok(Option::None) => !c.contains_key(dk),
                    Result::Err(e) => c.contains_key(dk) && e == Error::DeserializationError && (
                    c[dk] matches ValueModel::Bytes(b) ==> forall|v: T| v.spec_encode() != b),
                }
            }),
    {
        let tp = T::type_path();
        let key = component_data_path(&tp, &self.entity_id);
        match store.get(key.as_str()) {
            Option::None => Result::Ok(Option::None),
            Option::Some(v) => match v {
                Value::Bytes(b) => match T::decode(b.as_slice()) {
                    Option::Some(value) => Result::Ok(Option::Some(value)),
                    Option::None => Result::Err(Error::DeserializationError),
                },
                Value::Meta(_) => Result::Err(Error::DeserializationError),
            },
        }
    }

    /// Read the entity's metadata record; absent is an error.
    pub fn metadata(&self, store: &KvStore) -> (r: Result<EntityMetadata, Error>)
        requires
            store.wf(),
        ensures
            ({
                let c = store.contents();
                let mk = spec_entity_metadata_key(self.entity_id.text());
                match r {
                    Result::Ok(m) => c.contains_key(mk) && c[mk] == ValueModel::Meta(meta_view(&m)),
                    Result::Err(Error::NotFound) => !c.contains_key(mk),
                    Result::Err(Error::DeserializationError) => c.contains_key(mk) && !(c[mk]
                        is Meta),
                    Result::Err(_) => false,
                }
            }),
    {
        let key = entity_metadata_path(&self.entity_id);
        match store.get(key.as_str()) {
            Option::None => Result::Err(Error::NotFound),
            Option::Some(v) => match v {
                Value::Meta(m) => Result::Ok(m.clone()),
                Value::Bytes(_) => Result::Err(Error::DeserializationError),
            },
        }
    }
}

/// The stored metadata record of an entity is well formed: unique type
/// paths, unique field names.  Holds trivially when the row is absent.
pub open spec fn stored_meta_wf(c: Map<Seq<char>, ValueModel>, id: Seq<char>) -> bool {
    meta_model_wf(meta_model_of(c, id))
}

/// A metadata record whose view is well formed is well formed.
pub proof fn lemma_meta_wf_from_view(m: &EntityMetadata)
    requires
        meta_model_wf(meta_view(m)),
    ensures
        m.wf(),
{
    assert forall|j: int| 0 <= j < m.component_archetypes@.len() implies (
    #[trigger] m.component_archetypes@[j]).1.wf() by {
        assert(meta_view(m)[j].1 == arch_view(&m.component_archetypes@[j].1));
        assert(distinct_assoc_keys(meta_view(m)[j].1));
    }
}

/// A well-formed metadata record has a well-formed view.
pub proof fn lemma_meta_view_wf(m: &EntityMetadata)
    requires
        m.wf(),
    ensures
        meta_model_wf(meta_view(m)),
{
    assert forall|j: int| 0 <= j < meta_view(m).len() implies distinct_assoc_keys(
        (#[trigger] meta_view(m)[j]).1,
    ) by {
        assert(meta_view(m)[j].1 == arch_view(&m.component_archetypes@[j].1));
        assert(m.component_archetypes@[j].1.wf());
    }
}

/// A fresh vector with the same bytes./// A fresh vector with the same bytes.
pub fn copy_bytes(b: &Vec<u8>) -> (r: Vec<u8>)
    ensures
        r@ == b@,
{
    let mut copy: Vec<u8> = Vec::new();
    let mut i: usize = 0;
    while i < b.len()
        invariant
            i <= b@.len(),
            copy@ == b@.take(i as int),
        decreases b@.len() - i,
    {
        copy.push(b[i]);
        proof {
            assert(copy@ =~= b@.take(i + 1));
        }
        i = i + 1;
    }
    proof {
        assert(copy@ =~= b@);
    }
    copy
}

} // verus!
