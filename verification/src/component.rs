//! The contract between declared component types and the mapping layer.
//!
//! A declarative layer (a code generator in a deployment, hand-written
//! impls here) equips each component type with a stable type path, the
//! static list of its indexed field names, a per-instance list of the
//! indexed fields with their values already encoded as order-preserving
//! strings, and a byte codec for the payload.  The core consumes only this
//! interface; `ComponentParts` is the extracted, type-erased form a single
//! attach works on, and a `ComponentBundle` is one component or a small
//! tuple of components attached atomically.

use vstd::prelude::*;

use crate::keys::TypePath;
use crate::meta::{pair_views, str_views};

verus! {

/// No sequence in the list contains the key separator.
pub open spec fn no_slash_values(s: Seq<(Seq<char>, Seq<char>)>) -> bool {
    forall|i: int| 0 <= i < s.len() ==> !(#[trigger] s[i]).0.contains('/') && !s[i].1.contains('/')
}

/// A declared component type.
pub trait KvComponent: Sized {
    /// The query helper the declarative layer generates for this type.
    type Query;

    /// The stable type path embedded in keys.
    spec fn spec_type_path() -> Seq<char>;

    /// The indexed fields of a value: field name and encoded value.
    spec fn spec_indexed_fields(&self) -> Seq<(Seq<char>, Seq<char>)>;

    /// The static list of indexed field names.
    spec fn spec_indexed_field_names() -> Seq<Seq<char>>;

    /// The payload bytes of a value.
    spec fn spec_encode(&self) -> Seq<u8>;

    /// The declarative layer's guarantees: the indexed fields follow the
    /// static name list exactly, names are distinct, and no key segment
    /// this type contributes contains the separator.
    proof fn lemma_wf(&self)
        ensures
            self.spec_indexed_fields().len() == Self::spec_indexed_field_names().len(),
            forall|i: int|
                0 <= i < Self::spec_indexed_field_names().len() ==> (
                #[trigger] self.spec_indexed_fields()[i]).0
                    == Self::spec_indexed_field_names()[i],
            forall|i: int, j: int|
                0 <= i < j < Self::spec_indexed_field_names().len()
                    ==> Self::spec_indexed_field_names()[i] != Self::spec_indexed_field_names()[j],
            !Self::spec_type_path().contains('/'),
            no_slash_values(self.spec_indexed_fields()),
    ;

    /// The type path, built executably.
    fn type_path() -> (r: TypePath)
        ensures
            r@ == Self::spec_type_path(),
    ;

    /// The query helper.
    fn query() -> Self::Query;

    /// The indexed fields with their encoded values.
    fn indexed_fields(&self) -> (r: Vec<(String, String)>)
        ensures
            pair_views(r@) == self.spec_indexed_fields(),
    ;

    /// The indexed field names.
    fn indexed_field_names() -> (r: Vec<String>)
        ensures
            str_views(r@) == Self::spec_indexed_field_names(),
    ;

    /// Serialize the payload.
    fn encode(&self) -> (r: Vec<u8>)
        ensures
            r@ == self.spec_encode(),
    ;

    /// Deserialize a payload: any value returned encodes back to the given
    /// bytes, and decoding fails only when no value encodes to them.
    fn decode(bytes: &[u8]) -> (r: Option<Self>)
        ensures
            r matches Option::Some(v) ==> v.spec_encode() == bytes@,
            r is None ==> forall|v: Self| v.spec_encode() != bytes@,
    ;
}

/// A declared relation type: a typed directed edge payload.
pub trait KvRelation: Sized {
    /// The stable type path embedded in keys.
    spec fn spec_type_path() -> Seq<char>;

    /// The payload bytes of a value.
    spec fn spec_encode(&self) -> Seq<u8>;

    /// The type path contains no separator.
    proof fn lemma_wf()
        ensures
            !Self::spec_type_path().contains('/'),
    ;

    /// The type path, built executably.
    fn type_path() -> (r: TypePath)
        ensures
            r@ == Self::spec_type_path(),
    ;

    /// Serialize the payload.
    fn encode(&self) -> (r: Vec<u8>)
        ensures
            r@ == self.spec_encode(),
    ;

    /// Deserialize a payload: any value returned encodes back to the given
    /// bytes, and decoding fails only when no value encodes to them.
    fn decode(bytes: &[u8]) -> (r: Option<Self>)
        ensures
            r matches Option::Some(v) ==> v.spec_encode() == bytes@,
            r is None ==> forall|v: Self| v.spec_encode() != bytes@,
    ;
}

/// One component, type-erased for the attach routine: its type path, its
/// indexed fields with encoded values, the static field name list, and the
/// serialized payload.
pub struct ComponentParts {
    pub type_path: TypePath,
    pub fields: Vec<(String, String)>,
    pub names: Vec<String>,
    pub payload: Vec<u8>,
}

/// The mathematical form of extracted component parts.
pub struct PartsModel {
    pub type_path: Seq<char>,
    pub fields: Seq<(Seq<char>, Seq<char>)>,
    pub names: Seq<Seq<char>>,
    pub payload: Seq<u8>,
}

impl View for ComponentParts {
    type V = PartsModel;

    open spec fn view(&self) -> PartsModel {
        PartsModel {
            type_path: self.type_path@,
            fields: pair_views(self.fields@),
            names: str_views(self.names@),
            payload: self.payload@,
        }
    }
}

impl PartsModel {
    /// The declarative-layer guarantees, carried by the erased form: field
    /// names follow the static list, names are distinct, and no segment
    /// contains the separator.
    pub open spec fn wf(&self) -> bool {
        &&& self.fields.len() == self.names.len()
        &&& forall|i: int| 0 <= i < self.names.len() ==> (#[trigger] self.fields[i]).0
            == self.names[i]
        &&& forall|i: int, j: int| 0 <= i < j < self.names.len() ==> self.names[i] != self.names[j]
        &&& !self.type_path.contains('/')
        &&& no_slash_values(self.fields)
    }
}

/// Extract the type-erased parts of one component value.
pub fn parts_of<T: KvComponent>(value: &T) -> (r: ComponentParts)
    ensures
        r@.type_path == T::spec_type_path(),
        r@.fields == value.spec_indexed_fields(),
        r@.names == T::spec_indexed_field_names(),
        r@.payload == value.spec_encode(),
        r@.wf(),
{
    proof {
        value.lemma_wf();
    }
    ComponentParts {
        type_path: T::type_path(),
        fields: value.indexed_fields(),
        names: T::indexed_field_names(),
        payload: value.encode(),
    }
}

/// The views of a list of erased parts.
pub open spec fn parts_views(v: Seq<ComponentParts>) -> Seq<PartsModel> {
    v.map_values(|p: ComponentParts| p@)
}

/// What a bundle attaches: one component, or a fixed-arity tuple of
/// components written in one transaction.
pub trait ComponentBundle: Sized {
    /// The erased parts of the bundled components, in attach order.
    spec fn spec_parts(&self) -> Seq<PartsModel>;

    /// Extract the erased parts of every bundled component.
    fn into_parts(self) -> (r: Vec<ComponentParts>)
        ensures
            parts_views(r@) == self.spec_parts(),
            forall|i: int| 0 <= i < self.spec_parts().len() ==> (#[trigger] self.spec_parts()[i]).wf(),
    ;
}

impl<T: KvComponent> ComponentBundle for T {
    open spec fn spec_parts(&self) -> Seq<PartsModel> {
        seq![
            PartsModel {
                type_path: T::spec_type_path(),
                fields: self.spec_indexed_fields(),
                names: T::spec_indexed_field_names(),
                payload: self.spec_encode(),
            },
        ]
    }

    fn into_parts(self) -> (r: Vec<ComponentParts>) {
        proof {
            self.lemma_wf();
        }
        let mut r: Vec<ComponentParts> = Vec::new();
        r.push(parts_of(&self));
        proof {
            assert(parts_views(r@) =~= self.spec_parts());
        }
        r
    }
}

impl<T1: KvComponent, T2: KvComponent> ComponentBundle for (T1, T2) {
    open spec fn spec_parts(&self) -> Seq<PartsModel> {
        seq![
            PartsModel {
                type_path: T1::spec_type_path(),
                fields: self.0.spec_indexed_fields(),
                names: T1::spec_indexed_field_names(),
                payload: self.0.spec_encode(),
            },
            PartsModel {
                type_path: T2::spec_type_path(),
                fields: self.1.spec_indexed_fields(),
                names: T2::spec_indexed_field_names(),
                payload: self.1.spec_encode(),
            },
        ]
    }

    fn into_parts(self) -> (r: Vec<ComponentParts>) {
        proof {
            self.0.lemma_wf();
            self.1.lemma_wf();
        }
        let mut r: Vec<ComponentParts> = Vec::new();
        r.push(parts_of(&self.0));
        r.push(parts_of(&self.1));
        proof {
            assert(parts_views(r@) =~= self.spec_parts());
        }
        r
    }
}

impl<T1: KvComponent, T2: KvComponent, T3: KvComponent> ComponentBundle for (T1, T2, T3) {
    open spec fn spec_parts(&self) -> Seq<PartsModel> {
        seq![
            PartsModel {
                type_path: T1::spec_type_path(),
                fields: self.0.spec_indexed_fields(),
                names: T1::spec_indexed_field_names(),
                payload: self.0.spec_encode(),
            },
            PartsModel {
                type_path: T2::spec_type_path(),
                fields: self.1.spec_indexed_fields(),
                names: T2::spec_indexed_field_names(),
                payload: self.1.spec_encode(),
            },
            PartsModel {
                type_path: T3::spec_type_path(),
                fields: self.2.spec_indexed_fields(),
                names: T3::spec_indexed_field_names(),
                payload: self.2.spec_encode(),
            },
        ]
    }

    fn into_parts(self) -> (r: Vec<ComponentParts>) {
        proof {
            self.0.lemma_wf();
            self.1.lemma_wf();
            self.2.lemma_wf();
        }
        let mut r: Vec<ComponentParts> = Vec::new();
        r.push(parts_of(&self.0));
        r.push(parts_of(&self.1));
        r.push(parts_of(&self.2));
        proof {
            assert(parts_views(r@) =~= self.spec_parts());
        }
        r
    }
}

} // verus!
