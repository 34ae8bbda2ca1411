//! Sample component and relation types: what the declarative layer
//! generates for a declared type, written by hand.
//!
//! `Tag` is a component with one indexed numeric field; `Link` is a
//! relation payload.  Both carry a `u32` and serialize it as four
//! little-endian bytes, and `Tag` indexes it with the order-preserving
//! decimal encoding.

use vstd::prelude::*;

use crate::codec::{encode_u32, lemma_digits_no_slash, spec_encode_u32};
use crate::component::{KvComponent, KvRelation};
use crate::filter::{BoundCondition, Filter};
use crate::keys::TypePath;
use crate::meta::{pair_views, str_views};

verus! {

/// The four little-endian bytes of a `u32`.
pub open spec fn le_bytes(n: u32) -> Seq<u8> {
    seq![
        (n % 256) as u8,
        ((n / 256) % 256) as u8,
        ((n / 65536) % 256) as u8,
        ((n / 16777216) % 256) as u8,
    ]
}

/// The `u32` the four little-endian bytes denote.
pub open spec fn le_value(b: Seq<u8>) -> u32
    recommends
        b.len() == 4,
{
    (b[0] + b[1] * 256 + b[2] * 65536 + b[3] * 16777216) as u32
}

/// A byte is below 256.
proof fn lemma_u8_bound(x: u8)
    ensures
        x < 256,
{
}

/// Reading four little-endian bytes back gives the original word, and
/// writing a read word gives the original bytes.
proof fn lemma_le_round_trip(n: u32, b: Seq<u8>)
    ensures
        le_value(le_bytes(n)) == n,
        b.len() == 4 ==> le_bytes(le_value(b)) == b,
{
    let m = n as int;
    assert(0 <= m < 4294967296 ==> m % 256 + ((m / 256) % 256) * 256 + ((m / 65536) % 256) * 65536
        + ((m / 16777216) % 256) * 16777216 == m) by (nonlinear_arith);
    assert(le_value(le_bytes(n)) == n);
    if b.len() == 4 {
        lemma_u8_bound(b[0]);
        lemma_u8_bound(b[1]);
        lemma_u8_bound(b[2]);
        lemma_u8_bound(b[3]);
        let b0 = b[0] as int;
        let b1 = b[1] as int;
        let b2 = b[2] as int;
        let b3 = b[3] as int;
        let v = b0 + b1 * 256 + b2 * 65536 + b3 * 16777216;
        let q1 = b1 + b2 * 256 + b3 * 65536;
        let q2 = b2 + b3 * 256;
        vstd::arithmetic::div_mod::lemma_fundamental_div_mod_converse(v, 256, q1, b0);
        vstd::arithmetic::div_mod::lemma_fundamental_div_mod_converse(q1, 256, q2, b1);
        vstd::arithmetic::div_mod::lemma_fundamental_div_mod_converse(q2, 256, b3, b2);
        vstd::arithmetic::div_mod::lemma_fundamental_div_mod_converse(b3, 256, 0, b3);
        vstd::arithmetic::div_mod::lemma_div_denominator(v, 256, 256);
        vstd::arithmetic::div_mod::lemma_div_denominator(v, 65536, 256);
        assert(v / 65536 == q2);
        assert(v / 16777216 == b3);
        assert((v / 256) % 256 == b1);
        assert((v / 65536) % 256 == b2);
        assert((v / 16777216) % 256 == b3);
        assert(0 <= v < 4294967296);
        assert(le_bytes(le_value(b)) =~= b);
    }
}

/// Write a `u32` as four little-endian bytes.
fn u32_to_le(n: u32) -> (r: Vec<u8>)
    ensures
        r@ == le_bytes(n),
{
    let mut r: Vec<u8> = Vec::new();
    r.push((n % 256) as u8);
    r.push(((n / 256) % 256) as u8);
    r.push(((n / 65536) % 256) as u8);
    r.push(((n / 16777216) % 256) as u8);
    proof {
        assert(r@ =~= le_bytes(n));
    }
    r
}

/// Read four little-endian bytes as a `u32`.
fn le_to_u32(b: &[u8]) -> (r: u32)
    requires
        b@.len() == 4,
    ensures
        r == le_value(b@),
{
    let r = (b[0] as u32) + (b[1] as u32) * 256 + (b[2] as u32) * 65536 + (b[3] as u32) * 16777216;
    proof {
        assert(r == le_value(b@));
    }
    r
}

/// A sample component: one indexed numeric field.
pub struct Tag {
    pub value: u32,
}

/// The generated query helper of `Tag`.
pub struct TagQuery {}

impl TagQuery {
    /// A filter matching tags with exactly this value.
    pub fn value(&self, v: u32) -> (r: Filter<Tag>)
        ensures
            r.field_name@ == "value"@,
            r.bound_condition matches BoundCondition::Value(s) && s@ == spec_encode_u32(v),
    {
        Filter::<Tag>::new("value".to_owned(), BoundCondition::Value(encode_u32(v)))
    }

    /// A filter matching tags whose encoded value lies in `[lo, hi)`.
    pub fn value_range(&self, lo: u32, hi: u32) -> (r: Filter<Tag>)
        ensures
            r.field_name@ == "value"@,
            r.bound_condition matches BoundCondition::Range(a, b) && a@ == spec_encode_u32(lo)
                && b@ == spec_encode_u32(hi),
    {
        Filter::<Tag>::new(
            "value".to_owned(),
            BoundCondition::Range(encode_u32(lo), encode_u32(hi)),
        )
    }
}

impl KvComponent for Tag {
    type Query = TagQuery;

    open spec fn spec_type_path() -> Seq<char> {
        "sample::Tag"@
    }

    open spec fn spec_indexed_fields(&self) -> Seq<(Seq<char>, Seq<char>)> {
        seq![("value"@, spec_encode_u32(self.value))]
    }

    open spec fn spec_indexed_field_names() -> Seq<Seq<char>> {
        seq!["value"@]
    }

    open spec fn spec_encode(&self) -> Seq<u8> {
        le_bytes(self.value)
    }

    proof fn lemma_wf(&self) {
        reveal_strlit("sample::Tag");
        reveal_strlit("value");
        lemma_digits_no_slash(self.value as nat, 10);
        assert(!"sample::Tag"@.contains('/')) by {
            if "sample::Tag"@.contains('/') {
                let i = choose|i: int|
                    0 <= i < "sample::Tag"@.len() && "sample::Tag"@[i] == '/';
            }
        }
        assert(!"value"@.contains('/')) by {
            if "value"@.contains('/') {
                let i = choose|i: int| 0 <= i < "value"@.len() && "value"@[i] == '/';
            }
        }
    }

    fn type_path() -> (r: TypePath) {
        TypePath("sample::Tag".to_owned())
    }

    fn query() -> TagQuery {
        TagQuery {  }
    }

    fn indexed_fields(&self) -> (r: Vec<(String, String)>) {
        let mut r: Vec<(String, String)> = Vec::new();
        r.push(("value".to_owned(), encode_u32(self.value)));
        proof {
            assert(pair_views(r@) =~= self.spec_indexed_fields());
        }
        r
    }

    fn indexed_field_names() -> (r: Vec<String>) {
        let mut r: Vec<String> = Vec::new();
        r.push("value".to_owned());
        proof {
            assert(str_views(r@) =~= Self::spec_indexed_field_names());
        }
        r
    }

    fn encode(&self) -> (r: Vec<u8>) {
        u32_to_le(self.value)
    }

    fn decode(bytes: &[u8]) -> (r: Option<Tag>) {
        if bytes.len() == 4 {
            let value = le_to_u32(bytes);
            proof {
                lemma_le_round_trip(value, bytes@);
            }
            Option::Some(Tag { value })
        } else {
            proof {
                assert forall|v: Tag| v.spec_encode() != bytes@ by {
                    assert(v.spec_encode().len() == 4);
                }
            }
            Option::None
        }
    }
}

/// A sample relation payload.
pub struct Link {
    pub weight: u32,
}

impl KvRelation for Link {
    open spec fn spec_type_path() -> Seq<char> {
        "sample::Link"@
    }

    open spec fn spec_encode(&self) -> Seq<u8> {
        le_bytes(self.weight)
    }

    proof fn lemma_wf() {
        reveal_strlit("sample::Link");
        assert(!"sample::Link"@.contains('/')) by {
            if "sample::Link"@.contains('/') {
                let i = choose|i: int|
                    0 <= i < "sample::Link"@.len() && "sample::Link"@[i] == '/';
            }
        }
    }

    fn type_path() -> (r: TypePath) {
        TypePath("sample::Link".to_owned())
    }

    fn encode(&self) -> (r: Vec<u8>) {
        u32_to_le(self.weight)
    }

    fn decode(bytes: &[u8]) -> (r: Option<Link>) {
        if bytes.len() == 4 {
            let weight = le_to_u32(bytes);
            proof {
                lemma_le_round_trip(weight, bytes@);
            }
            Option::Some(Link { weight })
        } else {
            proof {
                assert forall|v: Link| v.spec_encode() != bytes@ by {
                    assert(v.spec_encode().len() == 4);
                }
            }
            Option::None
        }
    }
}

} // verus!
