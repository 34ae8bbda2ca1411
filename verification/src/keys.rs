//! The key schema: entity identifiers and the builders for every key the
//! mapping layer writes.
//!
//! All keys are UTF-8 strings over four disjoint prefixes: component payload
//! rows, component index rows, entity metadata rows, and relation rows
//! (directional markers plus one payload row per edge).  Identifier segments
//! never contain `/`, so a key's segments are recoverable by splitting.

use vstd::prelude::*;

use crate::order::{lex_le, lex_lt, lemma_lex_lt_extension};

verus! {

/// A stable string identifying a component or relation type, embedded
/// verbatim in keys.
pub struct TypePath(pub String);

impl TypePath {
    /// The characters of the path.
    pub open spec fn view(&self) -> Seq<char> {
        self.0@
    }

    /// A type path never contains the key separator.
    pub open spec fn wf(&self) -> bool {
        !self.0@.contains('/')
    }

    pub fn clone(&self) -> (r: TypePath)
        ensures
            r@ == self@,
    {
        TypePath(self.0.clone())
    }
}

/// An entity identifier.  User entities render as `e-{id}`; the singleton
/// resource entity renders as `resource`; `Empty` and `Max` are scan
/// sentinels that bound every identifier from below and above and are never
/// persisted.
pub enum EntityID {
    Resource,
    Entity(String),
    Empty,
    Max,
}

impl EntityID {
    /// The textual form of the identifier, as it appears in keys.
    pub open spec fn text(&self) -> Seq<char> {
        match self {
            EntityID::Resource => "resource"@,
            EntityID::Entity(s) => "e-"@ + s@,
            EntityID::Empty => ""@,
            EntityID::Max => "~"@,
        }
    }

    /// A user-provided entity id must not contain the key separator.
    pub open spec fn wf(&self) -> bool {
        match self {
            EntityID::Entity(s) => !s@.contains('/'),
            _ => true,
        }
    }

    /// Wrap a user-provided id.  The id must not contain `/`; that is a
    /// precondition, not a runtime error.
    pub fn new(entity_id: String) -> (r: EntityID)
        requires
            !entity_id@.contains('/'),
        ensures
            r == EntityID::Entity(entity_id),
            r.wf(),
    {
        EntityID::Entity(entity_id)
    }

    /// The singleton resource entity.
    pub fn resource() -> (r: EntityID)
        ensures
            r == EntityID::Resource,
    {
        EntityID::Resource
    }

    /// Wrap an id read back from a key or an index row: a leading `e-` is
    /// stripped; anything else is taken verbatim.
    pub fn new_raw(entity_id: String) -> (r: EntityID)
        ensures
            r matches EntityID::Entity(s) && s@ == (if entity_id@.len() >= 2 && entity_id@.subrange(
                0,
                2,
            ) == "e-"@ {
                entity_id@.skip(2)
            } else {
                entity_id@
            }),
    {
        let n = entity_id.as_str().unicode_len();
        if n >= 2 {
            let c0 = entity_id.as_str().get_char(0);
            let c1 = entity_id.as_str().get_char(1);
            if c0 == 'e' && c1 == '-' {
                proof {
                    reveal_strlit("e-");
                    assert(entity_id@.subrange(0, 2) =~= "e-"@);
                }
                let rest = entity_id.as_str().substring_char(2, n);
                let s = rest.to_owned();
                proof {
                    assert(s@ =~= entity_id@.skip(2));
                }
                return EntityID::Entity(s);
            }
            proof {
                reveal_strlit("e-");
                if entity_id@.subrange(0, 2) == "e-"@ {
                    assert(entity_id@.subrange(0, 2)[0] == 'e');
                    assert(entity_id@.subrange(0, 2)[1] == '-');
                    assert(false);
                }
            }
            return EntityID::Entity(entity_id);
        }
        proof {
            reveal_strlit("e-");
        }
        EntityID::Entity(entity_id)
    }

    /// The characters a stored id segment denotes once wrapped: the inner
    /// id of a user entity, the full text otherwise.
    pub open spec fn raw_inner(&self) -> Seq<char> {
        match self {
            EntityID::Entity(s) => s@,
            _ => self.text(),
        }
    }

    /// The textual form, built executably.
    pub fn id_text(&self) -> (r: String)
        ensures
            r@ == self.text(),
    {
        match self {
            EntityID::Resource => "resource".to_owned(),
            EntityID::Entity(s) => {
                let mut r = "e-".to_owned();
                r.append(s.as_str());
                r
            },
            EntityID::Empty => {
                proof {
                    reveal_strlit("");
                    assert(""@ =~= Seq::<char>::empty());
                }
                String::new()
            },
            EntityID::Max => "~".to_owned(),
        }
    }

    pub fn clone(&self) -> (r: EntityID)
        ensures
            r == *self,
    {
        match self {
            EntityID::Resource => EntityID::Resource,
            EntityID::Entity(s) => EntityID::Entity(s.clone()),
            EntityID::Empty => EntityID::Empty,
            EntityID::Max => EntityID::Max,
        }
    }

    /// Whether two identifiers denote the same entity: same variant, same
    /// characters.
    pub open spec fn same(&self, other: &EntityID) -> bool {
        match (self, other) {
            (EntityID::Resource, EntityID::Resource) => true,
            (EntityID::Entity(a), EntityID::Entity(b)) => a@ == b@,
            (EntityID::Empty, EntityID::Empty) => true,
            (EntityID::Max, EntityID::Max) => true,
            _ => false,
        }
    }

    /// Decide `same`.
    pub fn same_as(&self, other: &EntityID) -> (r: bool)
        ensures
            r == self.same(other),
    {
        match (self, other) {
            (EntityID::Resource, EntityID::Resource) => true,
            (EntityID::Entity(a), EntityID::Entity(b)) => a.eq(b),
            (EntityID::Empty, EntityID::Empty) => true,
            (EntityID::Max, EntityID::Max) => true,
            _ => false,
        }
    }
}

/// An id segment read back from a key or row: a leading `e-` is dropped.
pub open spec fn raw_strip(s: Seq<char>) -> Seq<char> {
    if s.len() >= 2 && s.subrange(0, 2) == "e-"@ {
        s.skip(2)
    } else {
        s
    }
}

/// The direction tag on an edge marker row: `In` marks the side that owns
/// the edge payload's first id slot, `Out` the other; `Both` selects both
/// sub-ranges in scans.
#[derive(Clone, Copy, PartialEq, Eq, Structural, Debug)]
pub enum RelationDirection {
    Both,
    In,
    Out,
}

impl RelationDirection {
    /// The opposite direction; `Both` is its own opposite.  Used during
    /// cascade delete to address the mirrored marker row.
    pub fn reverse(&self) -> (r: RelationDirection)
        ensures
            r == self.spec_reverse(),
    {
        match self {
            RelationDirection::In => RelationDirection::Out,
            RelationDirection::Out => RelationDirection::In,
            RelationDirection::Both => RelationDirection::Both,
        }
    }

    /// What `reverse` returns.
    pub open spec fn spec_reverse(&self) -> RelationDirection {
        match self {
            RelationDirection::In => RelationDirection::Out,
            RelationDirection::Out => RelationDirection::In,
            RelationDirection::Both => RelationDirection::Both,
        }
    }
}

/// Descriptive record of a declared component type, for the process-wide
/// registry.
pub struct ComponentMeta {
    pub type_path: String,
    pub indexed_field_names: Vec<String>,
}

/// Key of a component payload row: `component/single/{type}/{id}`.
pub open spec fn spec_component_data_key(tp: Seq<char>, id: Seq<char>) -> Seq<char> {
    "component/single/"@ + tp + "/"@ + id
}

/// Key of a component index row:
/// `component/index/{type}/{field}/{value}/{id}`.
pub open spec fn spec_component_index_key(
    tp: Seq<char>,
    field: Seq<char>,
    value: Seq<char>,
    id: Seq<char>,
) -> Seq<char> {
    "component/index/"@ + tp + "/"@ + field + "/"@ + value + "/"@ + id
}

/// Key of an entity metadata row: `entity/metadata/{id}`.
pub open spec fn spec_entity_metadata_key(id: Seq<char>) -> Seq<char> {
    "entity/metadata/"@ + id
}

/// Key of a directional edge marker row:
/// `relation/edge/{a}/{type}/{in|out}/{b}`; with `Both` the direction
/// segment is omitted, which makes a bound that spans both sub-ranges.
pub open spec fn spec_relation_edge_key(
    tp: Seq<char>,
    a: Seq<char>,
    b: Seq<char>,
    direction: RelationDirection,
) -> Seq<char> {
    match direction {
        RelationDirection::In => "relation/edge/"@ + a + "/"@ + tp + "/in/"@ + b,
        RelationDirection::Out => "relation/edge/"@ + a + "/"@ + tp + "/out/"@ + b,
        RelationDirection::Both => "relation/edge/"@ + a + "/"@ + tp + "/"@ + b,
    }
}

/// Key of an edge payload row: `relation/data/{type}/{a}/{b}`.
pub open spec fn spec_relation_data_key(tp: Seq<char>, a: Seq<char>, b: Seq<char>) -> Seq<char> {
    "relation/data/"@ + tp + "/"@ + a + "/"@ + b
}

/// Prefix of every edge marker row of one entity:
/// `relation/edge/{id}/{type}`; with an empty and a `~` type bound it spans
/// all marker rows of the entity.
pub open spec fn spec_relation_edge_prefix(id: Seq<char>, tp: Seq<char>) -> Seq<char> {
    "relation/edge/"@ + id + "/"@ + tp
}

/// Build the payload row key for a component type and entity.
pub fn component_data_path(type_path: &TypePath, entity_id: &EntityID) -> (r: String)
    ensures
        r@ == spec_component_data_key(type_path@, entity_id.text()),
{
    let mut r = "component/single/".to_owned();
    r.append(type_path.0.as_str());
    r.append("/");
    let id = entity_id.id_text();
    r.append(id.as_str());
    r
}

/// Build the index row key for a component type, field, encoded value and
/// entity.
pub fn component_index_path(
    type_path: &TypePath,
    field_name: &str,
    value: &str,
    entity_id: &EntityID,
) -> (r: String)
    ensures
        r@ == spec_component_index_key(type_path@, field_name@, value@, entity_id.text()),
{
    let mut r = "component/index/".to_owned();
    r.append(type_path.0.as_str());
    r.append("/");
    r.append(field_name);
    r.append("/");
    r.append(value);
    r.append("/");
    let id = entity_id.id_text();
    r.append(id.as_str());
    r
}

/// Build the metadata row key for an entity.
pub fn entity_metadata_path(entity_id: &EntityID) -> (r: String)
    ensures
        r@ == spec_entity_metadata_key(entity_id.text()),
{
    let mut r = "entity/metadata/".to_owned();
    let id = entity_id.id_text();
    r.append(id.as_str());
    r
}

/// Build an edge marker row key, or with `Both` a bound spanning both
/// directional sub-ranges of one entity and type.
pub fn relation_edge_path(
    type_path: &TypePath,
    a: &EntityID,
    b: &EntityID,
    direction: RelationDirection,
) -> (r: String)
    ensures
        r@ == spec_relation_edge_key(type_path@, a.text(), b.text(), direction),
{
    let mut r = "relation/edge/".to_owned();
    let a_id = a.id_text();
    r.append(a_id.as_str());
    r.append("/");
    r.append(type_path.0.as_str());
    match direction {
        RelationDirection::In => r.append("/in/"),
        RelationDirection::Out => r.append("/out/"),
        RelationDirection::Both => r.append("/"),
    }
    let b_id = b.id_text();
    r.append(b_id.as_str());
    r
}

/// Build the edge payload row key for an edge from `a` to `b`.
pub fn relation_data_path(type_path: &TypePath, a: &EntityID, b: &EntityID) -> (r: String)
    ensures
        r@ == spec_relation_data_key(type_path@, a.text(), b.text()),
{
    let mut r = "relation/data/".to_owned();
    r.append(type_path.0.as_str());
    r.append("/");
    let a_id = a.id_text();
    r.append(a_id.as_str());
    r.append("/");
    let b_id = b.id_text();
    r.append(b_id.as_str());
    r
}

/// Build the common prefix of all edge marker rows of one entity, bounded
/// by a type path sentinel.
pub fn relation_edge_no_type_path(entity_id: &EntityID, type_path: &TypePath) -> (r: String)
    ensures
        r@ == spec_relation_edge_prefix(entity_id.text(), type_path@),
{
    let mut r = "relation/edge/".to_owned();
    let id = entity_id.id_text();
    r.append(id.as_str());
    r.append("/");
    r.append(type_path.0.as_str());
    r
}

/// Position of the first separator, if any.
pub open spec fn first_slash(s: Seq<char>) -> Option<int>
    decreases s.len(),
{
    if s.len() == 0 {
        Option::None
    } else if s[0] == '/' {
        Option::Some(0)
    } else {
        match first_slash(s.drop_first()) {
            Option::Some(i) => Option::Some(i + 1),
            Option::None => Option::None,
        }
    }
}

/// The first separator is a separator, and nothing before it is.
pub proof fn lemma_first_slash(s: Seq<char>)
    ensures
        match first_slash(s) {
            Option::Some(i) => 0 <= i < s.len() && s[i] == '/' && forall|j: int|
                0 <= j < i ==> s[j] != '/',
            Option::None => !s.contains('/'),
        },
    decreases s.len(),
{
    if s.len() > 0 && s[0] != '/' {
        lemma_first_slash(s.drop_first());
        match first_slash(s.drop_first()) {
            Option::None => {
                assert forall|j: int| 0 <= j < s.len() implies s[j] != '/' by {
                    if j > 0 {
                        assert(s.drop_first()[j - 1] == s[j]);
                        assert(!s.drop_first().contains('/'));
                    }
                }
                assert(!s.contains('/'));
            },
            Option::Some(ip) => {
                assert(s.drop_first()[ip] == s[ip + 1]);
                assert forall|j: int| 0 <= j < ip + 1 implies s[j] != '/' by {
                    if j > 0 {
                        assert(s.drop_first()[j - 1] == s[j]);
                    }
                }
            },
        }
    }
    if s.len() == 0 {
        assert(!s.contains('/'));
    }
}

/// The `n`-th `/`-separated segment of a key, if the key has that many
/// segments.
pub open spec fn spec_nth_segment(s: Seq<char>, n: nat) -> Option<Seq<char>>
    decreases s.len(), n,
{
    match first_slash(s) {
        Option::Some(i) => {
            if n == 0 {
                Option::Some(s.take(i))
            } else if 0 <= i && i + 1 <= s.len() {
                spec_nth_segment(s.skip(i + 1), (n - 1) as nat)
            } else {
                Option::None
            }
        },
        Option::None => {
            if n == 0 {
                Option::Some(s)
            } else {
                Option::None
            }
        },
    }
}

/// A key starting with a separator-free segment and a separator splits
/// there: segment zero is that prefix, and later segments index into the
/// rest.
pub proof fn lemma_nth_segment_step(p: Seq<char>, rest: Seq<char>, n: nat)
    requires
        !p.contains('/'),
    ensures
        spec_nth_segment(p + seq!['/'] + rest, 0) == Option::Some(p),
        n > 0 ==> spec_nth_segment(p + seq!['/'] + rest, n) == spec_nth_segment(
            rest,
            (n - 1) as nat,
        ),
    decreases p.len(),
{
    let s = p + seq!['/'] + rest;
    if p.len() == 0 {
        assert(s[0] == '/');
        assert(first_slash(s) == Option::Some(0int));
        assert(s.take(0) =~= p);
        assert(s.skip(1) =~= rest);
    } else {
        assert(s[0] == p[0]);
        assert(s[0] != '/') by {
            assert(p[0] != '/');
        }
        let s1 = p.drop_first() + seq!['/'] + rest;
        assert(s.drop_first() =~= s1);
        assert(!p.drop_first().contains('/')) by {
            if p.drop_first().contains('/') {
                let j = choose|j: int|
                    0 <= j < p.drop_first().len() && p.drop_first()[j] == '/';
                assert(p[j + 1] == '/');
            }
        }
        lemma_nth_segment_step(p.drop_first(), rest, n);
        assert(first_slash(s1) == Option::Some(p.len() - 1)) by {
            lemma_first_slash(s1);
            assert(s1[p.len() - 1] == '/');
            match first_slash(s1) {
                Option::Some(i) => {
                    if i < p.len() - 1 {
                        assert(s1[i] == p.drop_first()[i]);
                        assert(p.drop_first()[i] != '/') by {
                            assert(!p.drop_first().contains('/'));
                        }
                    }
                },
                Option::None => {
                    assert(s1.contains('/')) by {
                        assert(s1[p.len() - 1] == '/');
                    }
                },
            }
        }
        assert(first_slash(s) == Option::Some(p.len() as int));
        assert(s.take(p.len() as int) =~= p);
        assert(s.skip(p.len() as int + 1) =~= rest);
        if n > 0 {
            assert(s1.skip(p.len() as int) =~= rest);
        }
    }
}

/// Find the position of the first separator, executably.
pub fn find_slash(s: &str) -> (r: Option<usize>)
    ensures
        match r {
            Option::Some(i) => first_slash(s@) == Option::Some(i as int),
            Option::None => first_slash(s@) is None,
        },
{
    let n = s.unicode_len();
    let mut i: usize = 0;
    while i < n
        invariant
            i <= n,
            n == s@.len(),
            forall|j: int| 0 <= j < i ==> s@[j] != '/',
        decreases n - i,
    {
        if s.get_char(i) == '/' {
            proof {
                lemma_first_slash(s@);
                match first_slash(s@) {
                    Option::Some(f) => {
                        if f < i {
                            assert(s@[f] != '/');
                        }
                        if f > i {
                            assert(s@[i as int] != '/');
                        }
                    },
                    Option::None => {
                        assert(!s@.contains('/'));
                        assert(s@[i as int] == '/');
                    },
                }
            }
            return Option::Some(i);
        }
        i = i + 1;
    }
    proof {
        lemma_first_slash(s@);
        match first_slash(s@) {
            Option::Some(f) => {
                assert(s@[f] != '/');
            },
            Option::None => {},
        }
    }
    Option::None
}

/// The `n`-th `/`-separated segment of a key, executably.
pub fn nth_segment(s: &str, n: usize) -> (r: Option<String>)
    ensures
        match r {
            Option::Some(seg) => spec_nth_segment(s@, n as nat) == Option::Some(seg@),
            Option::None => spec_nth_segment(s@, n as nat) is None,
        },
    decreases s@.len(), n,
{
    let len = s.unicode_len();
    match find_slash(s) {
        Option::Some(i) => {
            if n == 0 {
                proof {
                    lemma_first_slash(s@);
                }
                let seg = s.substring_char(0, i);
                proof {
                    assert(seg@ =~= s@.take(i as int));
                }
                Option::Some(seg.to_owned())
            } else {
                proof {
                    lemma_first_slash(s@);
                }
                let rest = s.substring_char(i + 1, len);
                proof {
                    assert(rest@ =~= s@.skip(i + 1));
                }
                nth_segment(rest, n - 1)
            }
        },
        Option::None => {
            if n == 0 {
                Option::Some(s.to_owned())
            } else {
                Option::None
            }
        },
    }
}

/// The four keyspaces are pairwise disjoint: keys built by different
/// builders differ, whatever their segments, because each keyspace's
/// literal prefix differs from every other's at a fixed position.
pub proof fn lemma_keyspaces_disjoint(
    t1: Seq<char>,
    f1: Seq<char>,
    v1: Seq<char>,
    i1: Seq<char>,
    t2: Seq<char>,
    f2: Seq<char>,
    v2: Seq<char>,
    i2: Seq<char>,
    a: Seq<char>,
    b: Seq<char>,
    d: RelationDirection,
)
    ensures
        spec_component_data_key(t1, i1) != spec_component_index_key(t2, f2, v2, i2),
        spec_component_data_key(t1, i1) != spec_entity_metadata_key(i2),
        spec_component_data_key(t1, i1) != spec_relation_edge_key(t2, a, b, d),
        spec_component_data_key(t1, i1) != spec_relation_data_key(t2, a, b),
        spec_component_index_key(t1, f1, v1, i1) != spec_entity_metadata_key(i2),
        spec_component_index_key(t1, f1, v1, i1) != spec_relation_edge_key(t2, a, b, d),
        spec_component_index_key(t1, f1, v1, i1) != spec_relation_data_key(t2, a, b),
        spec_entity_metadata_key(i1) != spec_relation_edge_key(t2, a, b, d),
        spec_entity_metadata_key(i1) != spec_relation_data_key(t2, a, b),
        spec_relation_edge_key(t1, a, b, d) != spec_relation_data_key(t2, i1, i2),
{
    reveal_strlit("component/single/");
    reveal_strlit("component/index/");
    reveal_strlit("entity/metadata/");
    reveal_strlit("relation/edge/");
    reveal_strlit("relation/data/");
    assert(spec_component_data_key(t1, i1)[10] == 's');
    assert(spec_component_data_key(t1, i1)[0] == 'c');
    assert(spec_component_index_key(t2, f2, v2, i2)[10] == 'i');
    assert(spec_component_index_key(t1, f1, v1, i1)[0] == 'c');
    assert(spec_entity_metadata_key(i1)[0] == 'e');
    assert(spec_entity_metadata_key(i2)[0] == 'e');
    assert(spec_relation_data_key(t2, a, b)[0] == 'r');
    assert(spec_relation_data_key(t2, a, b)[9] == 'd');
    assert(spec_relation_data_key(t2, i1, i2)[9] == 'd');
    assert(spec_relation_data_key(t2, i1, i2)[0] == 'r');
    match d {
        RelationDirection::In => {
            assert(spec_relation_edge_key(t2, a, b, d)[0] == 'r');
            assert(spec_relation_edge_key(t2, a, b, d)[9] == 'e');
            assert(spec_relation_edge_key(t1, a, b, d)[9] == 'e');
        },
        RelationDirection::Out => {
            assert(spec_relation_edge_key(t2, a, b, d)[0] == 'r');
            assert(spec_relation_edge_key(t2, a, b, d)[9] == 'e');
            assert(spec_relation_edge_key(t1, a, b, d)[9] == 'e');
        },
        RelationDirection::Both => {
            assert(spec_relation_edge_key(t2, a, b, d)[0] == 'r');
            assert(spec_relation_edge_key(t2, a, b, d)[9] == 'e');
            assert(spec_relation_edge_key(t1, a, b, d)[9] == 'e');
        },
    }
}

/// An index key decomposes into its segments: the builder is injective
/// when no segment contains the separator.
pub proof fn lemma_index_key_segments(tp: Seq<char>, f: Seq<char>, v: Seq<char>, id: Seq<char>)
    requires
        !tp.contains('/'),
        !f.contains('/'),
        !v.contains('/'),
        !id.contains('/'),
    ensures
        spec_nth_segment(spec_component_index_key(tp, f, v, id), 2) == Option::Some(tp),
        spec_nth_segment(spec_component_index_key(tp, f, v, id), 3) == Option::Some(f),
        spec_nth_segment(spec_component_index_key(tp, f, v, id), 4) == Option::Some(v),
        spec_nth_segment(spec_component_index_key(tp, f, v, id), 5) == Option::Some(id),
{
    reveal_strlit("component/index/");
    reveal_strlit("component");
    reveal_strlit("index");
    reveal_strlit("/");
    let key = spec_component_index_key(tp, f, v, id);
    let r4 = v + seq!['/'] + id;
    let r3 = f + seq!['/'] + r4;
    let r2 = tp + seq!['/'] + r3;
    let r1 = "index"@ + seq!['/'] + r2;
    assert(key =~= "component"@ + seq!['/'] + r1);
    assert(!"component"@.contains('/')) by {
        if "component"@.contains('/') {
            let i = choose|i: int| 0 <= i < "component"@.len() && "component"@[i] == '/';
        }
    }
    assert(!"index"@.contains('/')) by {
        if "index"@.contains('/') {
            let i = choose|i: int| 0 <= i < "index"@.len() && "index"@[i] == '/';
        }
    }
    lemma_nth_segment_step("component"@, r1, 2);
    lemma_nth_segment_step("component"@, r1, 3);
    lemma_nth_segment_step("component"@, r1, 4);
    lemma_nth_segment_step("component"@, r1, 5);
    lemma_nth_segment_step("index"@, r2, 1);
    lemma_nth_segment_step("index"@, r2, 2);
    lemma_nth_segment_step("index"@, r2, 3);
    lemma_nth_segment_step("index"@, r2, 4);
    lemma_nth_segment_step(tp, r3, 0);
    lemma_nth_segment_step(tp, r3, 1);
    lemma_nth_segment_step(tp, r3, 2);
    lemma_nth_segment_step(tp, r3, 3);
    lemma_nth_segment_step(f, r4, 0);
    lemma_nth_segment_step(f, r4, 1);
    lemma_nth_segment_step(f, r4, 2);
    lemma_nth_segment_step(v, id, 0);
    lemma_nth_segment_step(v, id, 1);
    lemma_first_slash(id);
    match first_slash(id) {
        Option::Some(i) => {
            assert(id[i] == '/');
            assert(false);
        },
        Option::None => {},
    }
    assert(spec_nth_segment(id, 0) == Option::Some(id));
}

/// Two index keys with separator-free segments are equal only when every
/// segment agrees.
pub proof fn lemma_index_key_injective(
    tp1: Seq<char>,
    f1: Seq<char>,
    v1: Seq<char>,
    i1: Seq<char>,
    tp2: Seq<char>,
    f2: Seq<char>,
    v2: Seq<char>,
    i2: Seq<char>,
)
    requires
        !tp1.contains('/'),
        !f1.contains('/'),
        !v1.contains('/'),
        !i1.contains('/'),
        !tp2.contains('/'),
        !f2.contains('/'),
        !v2.contains('/'),
        !i2.contains('/'),
    ensures
        spec_component_index_key(tp1, f1, v1, i1) == spec_component_index_key(tp2, f2, v2, i2)
            ==> tp1 == tp2 && f1 == f2 && v1 == v2 && i1 == i2,
{
    if spec_component_index_key(tp1, f1, v1, i1) == spec_component_index_key(tp2, f2, v2, i2) {
        lemma_index_key_segments(tp1, f1, v1, i1);
        lemma_index_key_segments(tp2, f2, v2, i2);
    }
}

/// The immediate lexicographic successor of a key: every key strictly after
/// `key` is at or after the result.  A paged scan resumes here to move past
/// the last key it has seen.
pub fn next_key(key: &str) -> (r: String)
    ensures
        lex_lt(key@, r@),
        forall|m: Seq<char>| lex_lt(key@, m) ==> lex_le(r@, m),
{
    let mut r = key.to_owned();
    r.append("\u{0}");
    proof {
        reveal_strlit("\u{0}");
        assert(r@ =~= key@ + seq!['\u{0}']);
        lemma_lex_lt_extension(key@, seq!['\u{0}']);
        assert forall|m: Seq<char>| lex_lt(key@, m) implies lex_le(r@, m) by {
            lemma_min_extension(key@, m);
        }
    }
    r
}

/// No character is below `'\u{0}'`.
proof fn lemma_char_at_least_nul(c: char)
    ensures
        '\u{0}' <= c,
{
}

/// Appending the minimum character gives the least strictly-greater
/// sequence.
proof fn lemma_min_extension(k: Seq<char>, m: Seq<char>)
    requires
        lex_lt(k, m),
    ensures
        lex_le(k + seq!['\u{0}'], m),
    decreases k.len(),
{
    let r = k + seq!['\u{0}'];
    if k.len() == 0 {
        assert(m.len() > 0);
        assert(r.len() == 1);
        assert(r[0] == '\u{0}');
        if m[0] == '\u{0}' {
            assert(r.drop_first() =~= Seq::<char>::empty());
            if m.len() == 1 {
                assert(r =~= m);
            } else {
                assert(lex_lt(r.drop_first(), m.drop_first()));
            }
        } else {
            lemma_char_at_least_nul(m[0]);
            assert(r[0] < m[0]);
        }
    } else {
        assert(m.len() > 0);
        assert(r.len() > 0);
        assert(r[0] == k[0]);
        if k[0] != m[0] {
            assert(k[0] < m[0]);
        } else {
            assert(lex_lt(k.drop_first(), m.drop_first()));
            lemma_min_extension(k.drop_first(), m.drop_first());
            assert(r.drop_first() =~= k.drop_first() + seq!['\u{0}']);
            if r.drop_first() == m.drop_first() {
                crate::order::lemma_eq_from_head_tail(r, m);
            }
        }
    }
}

} // verus!
