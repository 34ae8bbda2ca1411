//! An entity-component-relation layer over an ordered key-value store.
//!
//! Entities are identified by strings; typed components (records with
//! secondary-indexed fields) attach to entities, and typed relations link
//! pairs of entities.  Every high-level operation is compiled into a batch
//! of ordered-key mutations; this crate verifies that compilation: the key
//! schema, the order-preserving field encodings, the secondary-index
//! maintenance protocol, and the paged range scans.

use vstd::prelude::*;

mod codec;
mod component;
mod handler;
mod filter;
mod iter;
mod list;
mod meta;
mod relation;
mod sample;
mod store;
mod keys;
mod order;

pub use codec::{
    encode_decimal, encode_f32_bits, encode_f64_bits, encode_i128, encode_i16, encode_i32,
    encode_i64, encode_i8, encode_isize, encode_u128, encode_u16, encode_u32, encode_u64,
    encode_u8, encode_usize,
};
pub use component::{ComponentBundle, ComponentParts, KvComponent, KvRelation, parts_of};
pub use filter::{BoundCondition, Filter};
pub use handler::{EntityHandler, lemma_reattach_refresh, spec_attach, spec_delete, spec_detach};
pub use iter::iterate_all;
pub use list::EntityListHandler;
pub use sample::{Link, Tag, TagQuery};
pub use keys::{
    ComponentMeta, EntityID, RelationDirection, TypePath, component_data_path,
    component_index_path, entity_metadata_path, lemma_keyspaces_disjoint, next_key, nth_segment,
    relation_data_path, relation_edge_no_type_path, relation_edge_path,
};
pub use meta::{ComponentArchetype, EntityMetadata};
pub use order::str_compare;
pub use relation::{lemma_link_unlink_inverse, spec_link, spec_unlink};
pub use store::{KvStore, MutOp, Mutation, Value};

verus! {

/// Errors surfaced by the mapping layer.
#[derive(Debug)]
pub enum Error {
    /// A stored value could not be decoded as a component payload.
    DeserializationError,
    /// A stored byte string was not valid UTF-8.
    InvalidUtf8,
    /// A value stored at an index row was not a valid entity id.
    InvalidEntityId,
    /// The requested entity, component or metadata row is absent.
    NotFound,
}

impl Error {
    /// A human-readable description of the error.
    pub fn message(&self) -> (r: &'static str)
        ensures
            r@.len() > 0,
    {
        proof {
            reveal_strlit("deserialization failed");
            reveal_strlit("invalid utf8");
            reveal_strlit("invalid entity id");
            reveal_strlit("not found");
        }
        match self {
            Error::DeserializationError => "deserialization failed",
            Error::InvalidUtf8 => "invalid utf8",
            Error::InvalidEntityId => "invalid entity id",
            Error::NotFound => "not found",
        }
    }
}

} // verus!
