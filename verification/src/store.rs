//! An ordered key-value store model: rows sorted by key, addressed by
//! exact key or by half-open range scans, and updated by batches of
//! mutations.
//!
//! This is the engine contract the mapping layer is verified against: an
//! ordered byte-addressable row space with get, range scan, batch get and
//! batched put/delete.  Tests run against it directly; a deployment backs
//! the same mutation batches with a transactional engine.

use vstd::prelude::*;

use crate::meta::{EntityMetadata, meta_view};
use crate::order::{in_range, lex_lt, lemma_lex_lt_trans, lemma_lex_trichotomy};

verus! {

/// A stored value: raw payload bytes, or an entity metadata record.
pub enum Value {
    Bytes(Vec<u8>),
    Meta(EntityMetadata),
}

/// The mathematical form of a stored value.
pub enum ValueModel {
    Bytes(Seq<u8>),
    Meta(Seq<(Seq<char>, Seq<(Seq<char>, Seq<char>)>)>),
}

impl View for Value {
    type V = ValueModel;

    open spec fn view(&self) -> ValueModel {
        match self {
            Value::Bytes(b) => ValueModel::Bytes(b@),
            Value::Meta(m) => ValueModel::Meta(meta_view(m)),
        }
    }
}

impl Value {
    /// Copy the value.
    pub fn clone(&self) -> (r: Value)
        ensures
            r@ == self@,
    {
        match self {
            Value::Bytes(b) => {
                let mut copy: Vec<u8> = Vec::new();
                let mut i: usize = 0;
                while i < b.len()
                    invariant
                        i <= b@.len(),
                        copy@ == b@.take(i as int),
                    decreases b@.len() - i,
                {
                    copy.push(b[i]);
                    proof {
                        assert(copy@ =~= b@.take(i + 1));
                    }
                    i = i + 1;
                }
                proof {
                    assert(copy@ =~= b@);
                }
                Value::Bytes(copy)
            },
            Value::Meta(m) => Value::Meta(m.clone()),
        }
    }
}

/// Whether a mutation writes or removes its key.
#[derive(Clone, Copy, PartialEq, Eq, Structural, Debug)]
pub enum MutOp {
    Put,
    Del,
}

/// One buffered write: a key and either a new value or a deletion.
pub struct Mutation {
    pub op: MutOp,
    pub key: String,
    pub value: Value,
}

/// The mathematical form of a mutation.
pub struct MutationModel {
    pub op: MutOp,
    pub key: Seq<char>,
    pub value: ValueModel,
}

impl View for Mutation {
    type V = MutationModel;

    open spec fn view(&self) -> MutationModel {
        MutationModel { op: self.op, key: self.key@, value: self.value@ }
    }
}

impl Mutation {
    /// A write of `value` at `key`.
    pub fn put(key: String, value: Value) -> (r: Mutation)
        ensures
            r@ == (MutationModel { op: MutOp::Put, key: key@, value: value@ }),
    {
        Mutation { op: MutOp::Put, key, value }
    }

    /// A removal of `key`.
    pub fn del(key: String) -> (r: Mutation)
        ensures
            r@ == (MutationModel {
                op: MutOp::Del,
                key: key@,
                value: ValueModel::Bytes(Seq::empty()),
            }),
    {
        Mutation { op: MutOp::Del, key, value: Value::Bytes(Vec::new()) }
    }
}

/// The views of a list of rows.
pub open spec fn row_views(v: Seq<(String, Value)>) -> Seq<(Seq<char>, ValueModel)> {
    v.map_values(|p: (String, Value)| (p.0@, p.1@))
}

/// The views of a list of mutations.
pub open spec fn mut_views(v: Seq<Mutation>) -> Seq<MutationModel> {
    v.map_values(|mu: Mutation| mu@)
}

/// First value bound to `k` in a row sequence, if any.
pub open spec fn row_find(s: Seq<(Seq<char>, ValueModel)>, k: Seq<char>) -> Option<ValueModel>
    decreases s.len(),
{
    if s.len() == 0 {
        Option::None
    } else if s[0].0 == k {
        Option::Some(s[0].1)
    } else {
        row_find(s.drop_first(), k)
    }
}

/// The bound value is the one at any index holding the key, as long as
/// keys are distinct.
pub proof fn lemma_row_find_at(s: Seq<(Seq<char>, ValueModel)>, k: Seq<char>, i: int)
    requires
        forall|x: int, y: int| 0 <= x < y < s.len() ==> s[x].0 != s[y].0,
        0 <= i < s.len(),
        s[i].0 == k,
    ensures
        row_find(s, k) == Option::Some(s[i].1),
    decreases s.len(),
{
    if i > 0 {
        assert(s[0].0 != k);
        lemma_row_find_at(s.drop_first(), k, i - 1);
    }
}

/// A key at no index is not bound.
pub proof fn lemma_row_find_absent(s: Seq<(Seq<char>, ValueModel)>, k: Seq<char>)
    requires
        forall|i: int| 0 <= i < s.len() ==> s[i].0 != k,
    ensures
        row_find(s, k) is None,
    decreases s.len(),
{
    if s.len() > 0 {
        lemma_row_find_absent(s.drop_first(), k);
    }
}

/// The rows of `s` whose keys fall in `[start, end)`, in their original
/// order.
pub open spec fn range_rows_of(
    s: Seq<(Seq<char>, ValueModel)>,
    start: Seq<char>,
    end: Seq<char>,
) -> Seq<(Seq<char>, ValueModel)>
    decreases s.len(),
{
    if s.len() == 0 {
        Seq::empty()
    } else if in_range(s.last().0, start, end) {
        range_rows_of(s.drop_last(), start, end) + seq![s.last()]
    } else {
        range_rows_of(s.drop_last(), start, end)
    }
}

/// Range selection distributes over concatenation.
pub proof fn lemma_range_rows_concat(
    a: Seq<(Seq<char>, ValueModel)>,
    b: Seq<(Seq<char>, ValueModel)>,
    start: Seq<char>,
    end: Seq<char>,
)
    ensures
        range_rows_of(a + b, start, end) == range_rows_of(a, start, end) + range_rows_of(
            b,
            start,
            end,
        ),
    decreases b.len(),
{
    if b.len() == 0 {
        assert(a + b =~= a);
        assert(range_rows_of(a, start, end) + range_rows_of(b, start, end) =~= range_rows_of(
            a,
            start,
            end,
        ));
    } else {
        lemma_range_rows_concat(a, b.drop_last(), start, end);
        assert((a + b).drop_last() =~= a + b.drop_last());
        assert((a + b).last() == b.last());
        if in_range(b.last().0, start, end) {
            assert(range_rows_of(a, start, end) + (range_rows_of(b.drop_last(), start, end)
                + seq![b.last()]) =~= (range_rows_of(a, start, end) + range_rows_of(
                b.drop_last(),
                start,
                end,
            )) + seq![b.last()]);
        }
    }
}

/// Every selected row comes from the source at its key, and every source
/// row in range is selected.
pub proof fn lemma_range_rows_membership(
    s: Seq<(Seq<char>, ValueModel)>,
    start: Seq<char>,
    end: Seq<char>,
)
    ensures
        forall|i: int|
            0 <= i < range_rows_of(s, start, end).len() ==> in_range(
                #[trigger] range_rows_of(s, start, end)[i].0,
                start,
                end,
            ) && exists|j: int| 0 <= j < s.len() && s[j] == range_rows_of(s, start, end)[i],
        forall|j: int|
            0 <= j < s.len() && in_range(#[trigger] s[j].0, start, end) ==> exists|i: int|
                0 <= i < range_rows_of(s, start, end).len() && range_rows_of(s, start, end)[i]
                    == s[j],
    decreases s.len(),
{
    if s.len() > 0 {
        lemma_range_rows_membership(s.drop_last(), start, end);
        let r = range_rows_of(s, start, end);
        let rp = range_rows_of(s.drop_last(), start, end);
        assert(forall|j: int| 0 <= j < s.len() - 1 ==> s.drop_last()[j] == s[j]);
        assert forall|i: int| 0 <= i < r.len() implies in_range(#[trigger] r[i].0, start, end) && (
        exists|j: int| 0 <= j < s.len() && s[j] == r[i]) by {
            if i < rp.len() {
                assert(r[i] == rp[i]);
                let j = choose|j: int| 0 <= j < s.drop_last().len() && s.drop_last()[j] == rp[i];
                assert(s[j] == r[i]);
            } else {
                assert(r[i] == s.last());
                assert(s[s.len() - 1] == r[i]);
            }
        }
        assert forall|j: int|
            0 <= j < s.len() && in_range(#[trigger] s[j].0, start, end) implies exists|i: int|
            0 <= i < r.len() && r[i] == s[j] by {
            if j < s.len() - 1 {
                let i = choose|i: int| 0 <= i < rp.len() && rp[i] == s.drop_last()[j];
                assert(r[i] == s[j]);
            } else {
                assert(r[r.len() - 1] == s[j]);
            }
        }
    }
}

/// The effect of one mutation on the contents map.
pub open spec fn apply_one(
    m: Map<Seq<char>, ValueModel>,
    mu: MutationModel,
) -> Map<Seq<char>, ValueModel> {
    match mu.op {
        MutOp::Put => m.insert(mu.key, mu.value),
        MutOp::Del => m.remove(mu.key),
    }
}

/// The effect of a batch of mutations, applied in order.
pub open spec fn apply_muts(m: Map<Seq<char>, ValueModel>, muts: Seq<MutationModel>) -> Map<
    Seq<char>,
    ValueModel,
>
    decreases muts.len(),
{
    if muts.len() == 0 {
        m
    } else {
        apply_one(apply_muts(m, muts.drop_last()), muts.last())
    }
}

/// Applying a concatenation applies the parts in order.
pub proof fn lemma_apply_muts_concat(
    m: Map<Seq<char>, ValueModel>,
    a: Seq<MutationModel>,
    b: Seq<MutationModel>,
)
    ensures
        apply_muts(m, a + b) == apply_muts(apply_muts(m, a), b),
    decreases b.len(),
{
    if b.len() == 0 {
        assert(a + b =~= a);
    } else {
        lemma_apply_muts_concat(m, a, b.drop_last());
        assert((a + b).drop_last() =~= a + b.drop_last());
        assert((a + b).last() == b.last());
    }
}

/// The last mutation in a batch that touches a key, if any.
pub open spec fn last_write(muts: Seq<MutationModel>, k: Seq<char>) -> Option<MutationModel>
    decreases muts.len(),
{
    if muts.len() == 0 {
        Option::None
    } else if muts.last().key == k {
        Option::Some(muts.last())
    } else {
        last_write(muts.drop_last(), k)
    }
}

/// What a batch leaves at one key: the last write there decides, and a
/// key no mutation touches keeps its old row.
pub proof fn lemma_apply_muts_key(m: Map<Seq<char>, ValueModel>, muts: Seq<MutationModel>, k: Seq<char>)
    ensures
        match last_write(muts, k) {
            Option::Some(mu) => (mu.op == MutOp::Put ==> apply_muts(m, muts).contains_key(k)
                && apply_muts(m, muts)[k] == mu.value) && (mu.op == MutOp::Del ==> !apply_muts(
                m,
                muts,
            ).contains_key(k)),
            Option::None => apply_muts(m, muts).contains_key(k) == m.contains_key(k) && (
            m.contains_key(k) ==> apply_muts(m, muts)[k] == m[k]),
        },
    decreases muts.len(),
{
    if muts.len() > 0 {
        lemma_apply_muts_key(m, muts.drop_last(), k);
    }
}

/// The last write of a concatenation: the second batch decides where it
/// touches the key, the first otherwise.
pub proof fn lemma_last_write_concat(a: Seq<MutationModel>, b: Seq<MutationModel>, k: Seq<char>)
    ensures
        last_write(a + b, k) == (if last_write(b, k) is Some {
            last_write(b, k)
        } else {
            last_write(a, k)
        }),
    decreases b.len(),
{
    if b.len() == 0 {
        assert(a + b =~= a);
    } else {
        assert((a + b).drop_last() =~= a + b.drop_last());
        assert((a + b).last() == b.last());
        lemma_last_write_concat(a, b.drop_last(), k);
    }
}

/// The rows a batch of lookups finds: for each requested key that is
/// present, the key and its value, in request order.
pub open spec fn batch_lookup(m: Map<Seq<char>, ValueModel>, keys: Seq<Seq<char>>) -> Seq<
    (Seq<char>, ValueModel),
>
    decreases keys.len(),
{
    if keys.len() == 0 {
        Seq::empty()
    } else if m.contains_key(keys.last()) {
        batch_lookup(m, keys.drop_last()) + seq![(keys.last(), m[keys.last()])]
    } else {
        batch_lookup(m, keys.drop_last())
    }
}

/// The ordered row store.
pub struct KvStore {
    entries: Vec<(String, Value)>,
}

impl KvStore {
    /// The stored rows, keys and values in their mathematical form, in
    /// store order.
    pub closed spec fn rows(&self) -> Seq<(Seq<char>, ValueModel)> {
        row_views(self.entries@)
    }

    /// Rows are strictly sorted by key.
    pub open spec fn wf(&self) -> bool {
        forall|i: int, j: int|
            0 <= i < j < self.rows().len() ==> lex_lt(self.rows()[i].0, self.rows()[j].0)
    }

    /// The contents as a map from key to value.
    pub open spec fn contents(&self) -> Map<Seq<char>, ValueModel> {
        Map::new(
            |k: Seq<char>| row_find(self.rows(), k) is Some,
            |k: Seq<char>| row_find(self.rows(), k).unwrap(),
        )
    }

    /// Sorted keys are distinct.
    pub proof fn lemma_distinct(&self)
        requires
            self.wf(),
        ensures
            forall|i: int, j: int|
                0 <= i < j < self.rows().len() ==> self.rows()[i].0 != self.rows()[j].0,
    {
        assert forall|i: int, j: int|
            0 <= i < j < self.rows().len() implies self.rows()[i].0 != self.rows()[j].0 by {
            lemma_lex_trichotomy(self.rows()[i].0, self.rows()[j].0);
        }
    }

    /// Each row is in the contents at its key; each key in the contents
    /// has a row.
    pub proof fn lemma_rows_contents(&self)
        requires
            self.wf(),
        ensures
            forall|i: int|
                0 <= i < self.rows().len() ==> self.contents().contains_key(
                    #[trigger] self.rows()[i].0,
                ) && self.contents()[self.rows()[i].0] == self.rows()[i].1,
            forall|k: Seq<char>|
                self.contents().contains_key(k) ==> exists|i: int|
                    0 <= i < self.rows().len() && #[trigger] self.rows()[i].0 == k,
    {
        self.lemma_distinct();
        assert forall|i: int| 0 <= i < self.rows().len() implies self.contents().contains_key(
            #[trigger] self.rows()[i].0,
        ) && self.contents()[self.rows()[i].0] == self.rows()[i].1 by {
            lemma_row_find_at(self.rows(), self.rows()[i].0, i);
        }
        assert forall|k: Seq<char>| self.contents().contains_key(k) implies exists|i: int|
            0 <= i < self.rows().len() && #[trigger] self.rows()[i].0 == k by {
            if forall|i: int| 0 <= i < self.rows().len() ==> #[trigger] self.rows()[i].0 != k {
                lemma_row_find_absent(self.rows(), k);
            }
        }
    }

    /// An empty store.
    pub fn new() -> (r: KvStore)
        ensures
            r.wf(),
            r.contents() == Map::<Seq<char>, ValueModel>::empty(),
            r.rows() == Seq::<(Seq<char>, ValueModel)>::empty(),
    {
        let r = KvStore { entries: Vec::new() };
        proof {
            assert(r.rows() =~= Seq::<(Seq<char>, ValueModel)>::empty());
            assert(r.contents() =~= Map::<Seq<char>, ValueModel>::empty());
        }
        r
    }

    /// Read the value at a key.
    pub fn get(&self, key: &str) -> (r: Option<&Value>)
        requires
            self.wf(),
        ensures
            match r {
                Option::Some(v) => self.contents().contains_key(key@) && v@ == self.contents()[
                    key@
                ],
                Option::None => !self.contents().contains_key(key@),
            },
    {
        proof {
            self.lemma_rows_contents();
        }
        let mut i: usize = 0;
        while i < self.entries.len()
            invariant
                self.wf(),
                i <= self.rows().len(),
                forall|j: int| 0 <= j < i ==> #[trigger] self.rows()[j].0 != key@,
            decreases self.rows().len() - i,
        {
            if crate::order::str_compare(self.entries[i].0.as_str(), key) == 0 {
                proof {
                    assert(self.rows()[i as int] == (self.entries@[i as int].0@, self.entries@[
                        i as int
                    ].1@));
                    assert(self.rows()[i as int].0 == key@);
                    self.lemma_rows_contents();
                    assert(self.contents()[key@] == self.rows()[i as int].1);
                }
                return Option::Some(&self.entries[i].1);
            }
            i = i + 1;
        }
        proof {
            self.lemma_rows_contents();
            lemma_row_find_absent(self.rows(), key@);
        }
        Option::None
    }

    /// Write a value at a key, inserting or overwriting its row.
    #[verifier::rlimit(100)]
    pub fn put(&mut self, key: String, value: Value)
        requires
            old(self).wf(),
        ensures
            final(self).wf(),
            final(self).contents() == old(self).contents().insert(key@, value@),
    {
        proof {
            old(self).lemma_distinct();
        }
        let ghost old_rows = old(self).rows();
        let mut i: usize = 0;
        while i < self.entries.len() && crate::order::str_compare(
            self.entries[i].0.as_str(),
            key.as_str(),
        ) == -1
            invariant
                *self == *old(self),
                i <= self.rows().len(),
                forall|j: int| 0 <= j < i ==> lex_lt(#[trigger] self.rows()[j].0, key@),
            decreases self.rows().len() - i,
        {
            i = i + 1;
        }
        let ghost k = key@;
        let ghost v = value@;
        let ghost replaced = i < old_rows.len() && old_rows[i as int].0 == k;
        if i < self.entries.len() {
            let same = crate::order::str_compare(self.entries[i].0.as_str(), key.as_str()) == 0;
            if same {
                self.entries.remove(i);
            } else {
                proof {
                    lemma_lex_trichotomy(old_rows[i as int].0, k);
                }
            }
        }
        self.entries.insert(i, (key, value));
        proof {
            let rows = self.rows();
            assert(forall|j: int|
                0 <= j < rows.len() ==> #[trigger] rows[j] == (self.entries@[j].0@, self.entries@[
                    j
                ].1@));
            assert(forall|j: int|
                0 <= j < old_rows.len() ==> #[trigger] old_rows[j] == (old(self).entries@[j].0@, old(
                    self,
                ).entries@[j].1@));
            let rest = if replaced {
                old_rows.remove(i as int)
            } else {
                old_rows
            };
            assert(rows =~= rest.insert(i as int, (k, v)));
            // Sortedness of the result.
            assert forall|x: int, y: int| 0 <= x < y < rows.len() implies lex_lt(
                rows[x].0,
                rows[y].0,
            ) by {
                let xi = if x < i { x } else { x - 1 };
                let yi = if y < i { y } else { y - 1 };
                if x == i {
                    // rows[x] is the new pair; y > i.
                    if replaced {
                        lemma_lex_trichotomy(old_rows[i as int].0, k);
                        if lex_lt(k, old_rows[i as int].0) {
                            lemma_lex_lt_trans(k, old_rows[i as int].0, rest[yi].0);
                        } else {
                            assert(lex_lt(old_rows[i as int].0, rest[yi].0));
                        }
                    } else {
                        if i < old_rows.len() {
                            if yi == i {
                            } else {
                                lemma_lex_lt_trans(k, old_rows[i as int].0, rest[yi].0);
                            }
                        }
                    }
                } else if y == i {
                    // rows[y] is the new pair; x < i.
                    assert(lex_lt(rows[x].0, k));
                } else {
                    assert(rows[x].0 == rest[xi].0 && rows[y].0 == rest[yi].0);
                    if replaced {
                        let xo = if xi < i { xi } else { xi + 1 };
                        let yo = if yi < i { yi } else { yi + 1 };
                        assert(rest[xi] == old_rows[xo] && rest[yi] == old_rows[yo]);
                    }
                }
            }
            self.lemma_distinct();
            self.lemma_rows_contents();
            old(self).lemma_rows_contents();
            assert(self.contents() =~= old(self).contents().insert(k, v)) by {
                assert(rows[i as int] == (k, v));
                assert(self.contents().contains_key(k) && self.contents()[k] == v);
                assert forall|q: Seq<char>|
                    #![trigger self.contents().contains_key(q)]
                    #![trigger old(self).contents().contains_key(q)]
                    q != k implies (self.contents().contains_key(q) <==> old(
                    self,
                ).contents().contains_key(q)) && (self.contents().contains_key(q)
                    ==> self.contents()[q] == old(self).contents()[q]) by {
                    if self.contents().contains_key(q) {
                        let x = choose|x: int| 0 <= x < rows.len() && #[trigger] rows[x].0 == q;
                        let xo = if x < i { x } else {
                            if replaced {
                                x
                            } else {
                                x - 1
                            }
                        };
                        assert(old_rows[xo] == rows[x]);
                        old(self).lemma_rows_contents();
                    }
                    if old(self).contents().contains_key(q) {
                        let x = choose|x: int|
                            0 <= x < old_rows.len() && #[trigger] old_rows[x].0 == q;
                        let xn = if x < i { x } else {
                            if replaced {
                                x
                            } else {
                                x + 1
                            }
                        };
                        assert(rows[xn] == old_rows[x]);
                        self.lemma_rows_contents();
                    }
                }
            }
        }
    }

    /// Remove the row at a key, if present.
    pub fn delete(&mut self, key: &str)
        requires
            old(self).wf(),
        ensures
            final(self).wf(),
            final(self).contents() == old(self).contents().remove(key@),
    {
        let mut i: usize = 0;
        while i < self.entries.len()
            invariant
                *self == *old(self),
                old(self).wf(),
                i <= self.rows().len(),
                forall|j: int| 0 <= j < i ==> #[trigger] self.rows()[j].0 != key@,
            decreases self.rows().len() - i,
        {
            if crate::order::str_compare(self.entries[i].0.as_str(), key) == 0 {
                let ghost pre_rows = self.rows();
                proof {
                    self.lemma_distinct();
                    self.lemma_rows_contents();
                    assert(forall|j: int|
                        0 <= j < pre_rows.len() ==> #[trigger] pre_rows[j] == (self.entries@[j].0@,
                        self.entries@[j].1@));
                }
                self.entries.remove(i);
                proof {
                    let rows = self.rows();
                    assert(forall|j: int|
                        0 <= j < rows.len() ==> #[trigger] rows[j] == (self.entries@[j].0@, self.entries@[
                            j
                        ].1@));
                    assert(rows =~= pre_rows.remove(i as int));
                    assert forall|x: int, y: int| 0 <= x < y < rows.len() implies lex_lt(
                        rows[x].0,
                        rows[y].0,
                    ) by {
                        let xo = if x < i { x } else { x + 1 };
                        let yo = if y < i { y } else { y + 1 };
                        assert(rows[x] == pre_rows[xo] && rows[y] == pre_rows[yo]);
                    }
                    self.lemma_distinct();
                    self.lemma_rows_contents();
                    assert(self.contents() =~= old(self).contents().remove(key@)) by {
                        assert(pre_rows[i as int].0 == key@);
                        assert forall|q: Seq<char>|
                            #![trigger self.contents().contains_key(q)]
                            #![trigger old(self).contents().contains_key(q)]
                            q != key@ implies (self.contents().contains_key(q) <==> old(
                            self,
                        ).contents().contains_key(q)) && (self.contents().contains_key(q)
                            ==> self.contents()[q] == old(self).contents()[q]) by {
                            if self.contents().contains_key(q) {
                                let x = choose|x: int|
                                    0 <= x < rows.len() && #[trigger] rows[x].0 == q;
                                let xo = if x < i { x } else { x + 1 };
                                assert(pre_rows[xo] == rows[x]);
                                lemma_row_find_at(pre_rows, q, xo);
                            }
                            if old(self).contents().contains_key(q) {
                                let x = choose|x: int|
                                    0 <= x < pre_rows.len() && #[trigger] pre_rows[x].0 == q;
                                let xn = if x < i { x } else { x - 1 };
                                assert(x != i);
                                assert(rows[xn] == pre_rows[x]);
                                self.lemma_rows_contents();
                            }
                        }
                        if self.contents().contains_key(key@) {
                            let x = choose|x: int|
                                0 <= x < rows.len() && #[trigger] rows[x].0 == key@;
                            let xo = if x < i { x } else { x + 1 };
                            assert(pre_rows[xo] == rows[x]);
                            assert(xo != i);
                            assert(false);
                        }
                    }
                }
                return ;
            }
            i = i + 1;
        }
        proof {
            lemma_row_find_absent(self.rows(), key@);
            assert(!old(self).contents().contains_key(key@));
            assert(self.contents() =~= old(self).contents().remove(key@));
        }
    }

    /// The rows whose keys fall in `[start, end)`, in key order.
    pub open spec fn range_rows(&self, start: Seq<char>, end: Seq<char>) -> Seq<
        (Seq<char>, ValueModel),
    > {
        range_rows_of(self.rows(), start, end)
    }

    /// Scan the range `[start, end)` in key order, returning at most
    /// `limit` rows.
    pub fn scan(&self, start: &str, end: &str, limit: usize) -> (r: Vec<(String, Value)>)
        requires
            self.wf(),
            limit >= 1,
        ensures
            ({
                let full = self.range_rows(start@, end@);
                let taken = if limit <= full.len() {
                    full.take(limit as int)
                } else {
                    full
                };
                row_views(r@) == taken
            }),
    {
        let mut r: Vec<(String, Value)> = Vec::new();
        let mut i: usize = 0;
        while i < self.entries.len()
            invariant
                self.wf(),
                i <= self.rows().len(),
                limit >= 1,
                r@.len() < limit,
                row_views(r@) == range_rows_of(self.rows().take(i as int), start@, end@),
            decreases self.rows().len() - i,
        {
            let ghost prefix = self.rows().take(i as int);
            let in_lo = crate::order::str_compare(start, self.entries[i].0.as_str()) != 1;
            let in_hi = crate::order::str_compare(self.entries[i].0.as_str(), end) == -1;
            proof {
                assert(self.rows().take(i + 1).drop_last() =~= prefix);
                assert(self.rows().take(i + 1).last() == self.rows()[i as int]);
                assert(self.rows()[i as int] == (self.entries@[i as int].0@, self.entries@[
                    i as int
                ].1@));
                lemma_lex_trichotomy(start@, self.rows()[i as int].0);
            }
            if in_lo && in_hi {
                let k = self.entries[i].0.clone();
                let v = self.entries[i].1.clone();
                r.push((k, v));
                proof {
                    assert(row_views(r@) =~= range_rows_of(self.rows().take(i + 1), start@, end@));
                }
                if r.len() == limit {
                    proof {
                        lemma_break_at_limit(self.rows(), i + 1, start@, end@, limit as int);
                    }
                    return r;
                }
            }
            i = i + 1;
        }
        proof {
            assert(self.rows().take(self.rows().len() as int) =~= self.rows());
            let full = self.range_rows(start@, end@);
            if limit <= full.len() {
                assert(full.take(limit as int) =~= full);
            }
        }
        r
    }

    /// Scan the whole range `[start, end)` in key order, without a page
    /// limit: the full selection of rows.
    pub fn scan_all(&self, start: &str, end: &str) -> (r: Vec<(String, Value)>)
        requires
            self.wf(),
        ensures
            row_views(r@) == self.range_rows(start@, end@),
    {
        let mut r: Vec<(String, Value)> = Vec::new();
        let mut i: usize = 0;
        while i < self.entries.len()
            invariant
                self.wf(),
                i <= self.rows().len(),
                row_views(r@) == range_rows_of(self.rows().take(i as int), start@, end@),
            decreases self.rows().len() - i,
        {
            let ghost prefix = self.rows().take(i as int);
            let in_lo = crate::order::str_compare(start, self.entries[i].0.as_str()) != 1;
            let in_hi = crate::order::str_compare(self.entries[i].0.as_str(), end) == -1;
            proof {
                assert(self.rows().take(i + 1).drop_last() =~= prefix);
                assert(self.rows().take(i + 1).last() == self.rows()[i as int]);
                assert(self.rows()[i as int] == (self.entries@[i as int].0@, self.entries@[
                    i as int
                ].1@));
                lemma_lex_trichotomy(start@, self.rows()[i as int].0);
            }
            if in_lo && in_hi {
                let k = self.entries[i].0.clone();
                let v = self.entries[i].1.clone();
                r.push((k, v));
                proof {
                    assert(row_views(r@) =~= range_rows_of(self.rows().take(i + 1), start@, end@));
                }
            }
            i = i + 1;
        }
        proof {
            assert(self.rows().take(self.rows().len() as int) =~= self.rows());
        }
        r
    }

    /// For each requested key that has a row, that key and its value, in
    /// request order.
    pub fn batch_get(&self, keys: &Vec<String>) -> (r: Vec<(String, Value)>)
        requires
            self.wf(),
        ensures
            row_views(r@) == batch_lookup(self.contents(), crate::meta::str_views(keys@)),
    {
        let ghost key_views = crate::meta::str_views(keys@);
        let mut r: Vec<(String, Value)> = Vec::new();
        let mut i: usize = 0;
        while i < keys.len()
            invariant
                self.wf(),
                i <= keys@.len(),
                key_views == crate::meta::str_views(keys@),
                row_views(r@) == batch_lookup(self.contents(), key_views.take(i as int)),
            decreases keys@.len() - i,
        {
            proof {
                assert(key_views.take(i + 1).drop_last() =~= key_views.take(i as int));
                assert(key_views.take(i + 1).last() == key_views[i as int]);
            }
            match self.get(keys[i].as_str()) {
                Option::Some(v) => {
                    let value = v.clone();
                    let k = keys[i].clone();
                    r.push((k, value));
                    proof {
                        assert(row_views(r@) =~= batch_lookup(self.contents(), key_views.take(i + 1)));
                    }
                },
                Option::None => {},
            }
            i = i + 1;
        }
        proof {
            assert(key_views.take(keys@.len() as int) =~= key_views);
        }
        r
    }

    /// Apply a batch of mutations in order.
    pub fn apply(&mut self, muts: &Vec<Mutation>)
        requires
            old(self).wf(),
        ensures
            final(self).wf(),
            final(self).contents() == apply_muts(old(self).contents(), mut_views(muts@)),
    {
        let ghost mv = mut_views(muts@);
        let mut i: usize = 0;
        while i < muts.len()
            invariant
                self.wf(),
                i <= muts@.len(),
                mv == mut_views(muts@),
                self.contents() == apply_muts(old(self).contents(), mv.take(i as int)),
            decreases muts@.len() - i,
        {
            proof {
                assert(mv.take(i + 1).drop_last() =~= mv.take(i as int));
                assert(mv.take(i + 1).last() == mv[i as int]);
            }
            match muts[i].op {
                MutOp::Put => {
                    let k = muts[i].key.clone();
                    let v = muts[i].value.clone();
                    self.put(k, v);
                },
                MutOp::Del => {
                    self.delete(muts[i].key.as_str());
                },
            }
            i = i + 1;
        }
        proof {
            assert(mv.take(muts@.len() as int) =~= mv);
        }
    }
}

/// If the limit is reached after `i` rows, the collected prefix is the
/// take of the whole selection.
proof fn lemma_break_at_limit(
    s: Seq<(Seq<char>, ValueModel)>,
    i: int,
    start: Seq<char>,
    end: Seq<char>,
    limit: int,
)
    requires
        0 <= i <= s.len(),
        range_rows_of(s.take(i), start, end).len() == limit,
    ensures
        limit <= range_rows_of(s, start, end).len(),
        range_rows_of(s.take(i), start, end) == range_rows_of(s, start, end).take(limit),
{
    assert(s =~= s.take(i) + s.skip(i));
    lemma_range_rows_concat(s.take(i), s.skip(i), start, end);
    assert(range_rows_of(s, start, end).take(limit) =~= range_rows_of(s.take(i), start, end));
}

} // verus!
