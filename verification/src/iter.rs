//! Iteration over every stored value of one component type.
//!
//! The payload rows of a type form the contiguous range
//! `component/single/{type}/` to `component/single/{type}/~`; iteration
//! scans it in key order, recovers each entity id from the key's id
//! segment, and decodes each payload.  Rows whose id segment does not
//! carry the `e-` prefix are skipped, as a defence against foreign rows.

use vstd::prelude::*;

use crate::Error;
use crate::component::KvComponent;
use crate::keys::{EntityID, component_data_path, nth_segment, spec_component_data_key,
    spec_nth_segment};
use crate::store::{KvStore, Value, ValueModel, row_views};

verus! {

/// Parse one payload row for iteration: the id segment, stripped of its
/// `e-` prefix, with the row's value; `None` for a row the iteration
/// skips, the outer `None` for a key without an id segment.
pub open spec fn iter_row(k: Seq<char>, v: ValueModel) -> Option<Option<(Seq<char>, ValueModel)>> {
    match spec_nth_segment(k, 3) {
        Option::Some(seg) => if seg.len() >= 2 && seg.subrange(0, 2) == "e-"@ {
            Option::Some(Option::Some((seg.skip(2), v)))
        } else {
            Option::Some(Option::None)
        },
        Option::None => Option::None,
    }
}

/// The id/value pairs of a scanned payload range, in key order, skipping
/// rows without the entity prefix; `None` when a key has no id segment.
pub open spec fn iter_rows(rows: Seq<(Seq<char>, ValueModel)>) -> Option<
    Seq<(Seq<char>, ValueModel)>,
>
    decreases rows.len(),
{
    if rows.len() == 0 {
        Option::Some(Seq::empty())
    } else {
        match (iter_rows(rows.drop_last()), iter_row(rows.last().0, rows.last().1)) {
            (Option::Some(ps), Option::Some(Option::Some(p))) => Option::Some(ps.push(p)),
            (Option::Some(ps), Option::Some(Option::None)) => Option::Some(ps),
            _ => Option::None,
        }
    }
}

/// One malformed row fails the whole iteration.
proof fn lemma_iter_rows_fail(rows: Seq<(Seq<char>, ValueModel)>, i: int)
    requires
        0 <= i < rows.len(),
        iter_row(rows[i].0, rows[i].1) is None,
    ensures
        iter_rows(rows) is None,
    decreases rows.len(),
{
    if i < rows.len() - 1 {
        assert(rows.drop_last()[i] == rows[i]);
        lemma_iter_rows_fail(rows.drop_last(), i);
    }
}

/// Every stored value of one component type, with its entity, in key
/// order of the payload rows.
pub fn iterate_all<T: KvComponent>(store: &KvStore) -> (r: Result<Vec<(EntityID, T)>, Error>)
    requires
        store.wf(),
    ensures
        ({
            let rows = store.range_rows(
                spec_component_data_key(T::spec_type_path(), ""@),
                spec_component_data_key(T::spec_type_path(), "~"@),
            );
            match r {
                Result::Ok(v) => (iter_rows(rows) matches Option::Some(ps) && v@.len() == ps.len()
                    && forall|i: int|
                    0 <= i < ps.len() ==> (#[trigger] v@[i]).0 is Entity && v@[i].0.raw_inner()
                        == ps[i].0 && (ps[i].1 matches ValueModel::Bytes(b) && v@[i].1.spec_encode()
                        == b)),
                Result::Err(Error::NotFound) => iter_rows(rows) is None,
                Result::Err(Error::DeserializationError) => iter_rows(rows) is None || (iter_rows(
                    rows,
                ) matches Option::Some(ps) && exists|i: int|
                    0 <= i < ps.len() && !((#[trigger] ps[i]).1 matches ValueModel::Bytes(b)
                        && exists|t: T| t.spec_encode() == b)),
                Result::Err(_) => false,
            }
        }),
{
    let tp = T::type_path();
    let start = component_data_path(&tp, &EntityID::Empty);
    let end = component_data_path(&tp, &EntityID::Max);
    let rows = store.scan_all(start.as_str(), end.as_str());
    let ghost rv = row_views(rows@);
    let mut out: Vec<(EntityID, T)> = Vec::new();
    let mut i: usize = 0;
    proof {
        assert(rv.take(0int) =~= Seq::<(Seq<char>, ValueModel)>::empty());
    }
    while i < rows.len()
        invariant
            i <= rows@.len(),
            rv == row_views(rows@),
            rv == store.range_rows(
                spec_component_data_key(T::spec_type_path(), ""@),
                spec_component_data_key(T::spec_type_path(), "~"@),
            ),
            iter_rows(rv.take(i as int)) matches Option::Some(ps) && out@.len() == ps.len() && (
            forall|j: int|
                0 <= j < ps.len() ==> (#[trigger] out@[j]).0 is Entity && out@[j].0.raw_inner()
                    == ps[j].0 && (ps[j].1 matches ValueModel::Bytes(b) && out@[j].1.spec_encode()
                    == b)),
        decreases rows@.len() - i,
    {
        proof {
            assert(rv.take(i + 1).drop_last() =~= rv.take(i as int));
            assert(rv.take(i + 1).last() == rv[i as int]);
            assert(rv[i as int] == (rows@[i as int].0@, rows@[i as int].1@));
        }
        let key = rows[i].0.as_str();
        let seg = match nth_segment(key, 3) {
            Option::Some(s) => s,
            Option::None => {
                proof {
                    lemma_iter_rows_fail(rv, i as int);
                }
                return Result::Err(Error::NotFound);
            },
        };
        let n = seg.as_str().unicode_len();
        let has_prefix = if n >= 2 {
            seg.as_str().get_char(0) == 'e' && seg.as_str().get_char(1) == '-'
        } else {
            false
        };
        proof {
            reveal_strlit("e-");
            if has_prefix {
                assert(seg@.subrange(0, 2) =~= "e-"@);
            } else {
                if seg@.len() >= 2 && seg@.subrange(0, 2) == "e-"@ {
                    assert(seg@.subrange(0, 2)[0] == 'e');
                    assert(seg@.subrange(0, 2)[1] == '-');
                    assert(false);
                }
            }
        }
        if has_prefix {
            let inner = seg.as_str().substring_char(2, n).to_owned();
            proof {
                assert(inner@ =~= seg@.skip(2));
            }
            match &rows[i].1 {
                Value::Bytes(b) => match T::decode(b.as_slice()) {
                    Option::Some(value) => {
                        let ent = EntityID::Entity(inner);
                        out.push((ent, value));
                    },
                    Option::None => {
                        proof {
                            let ps1 = iter_rows(rv.take(i + 1)).unwrap();
                            assert(ps1.last() == (seg@.skip(2), rv[i as int].1));
                            assert(!(ps1[ps1.len() - 1].1 matches ValueModel::Bytes(bb) && exists|
                                t: T,
                            | t.spec_encode() == bb));
                            lemma_iter_prefix_some(rv, i + 1);
                            if iter_rows(rv) is Some {
                                let whole = iter_rows(rv).unwrap();
                                assert(whole[ps1.len() - 1] == ps1[ps1.len() - 1]);
                                assert(!(whole[ps1.len() - 1].1 matches ValueModel::Bytes(bb)
                                    && exists|t: T| t.spec_encode() == bb));
                            }
                        }
                        return Result::Err(Error::DeserializationError);
                    },
                },
                Value::Meta(_) => {
                    proof {
                        let ps1 = iter_rows(rv.take(i + 1)).unwrap();
                        assert(ps1.last() == (seg@.skip(2), rv[i as int].1));
                        assert(!(ps1[ps1.len() - 1].1 matches ValueModel::Bytes(bb) && exists|t: T|
                            t.spec_encode() == bb));
                        lemma_iter_prefix_some(rv, i + 1);
                        if iter_rows(rv) is Some {
                            let whole = iter_rows(rv).unwrap();
                            assert(whole[ps1.len() - 1] == ps1[ps1.len() - 1]);
                            assert(!(whole[ps1.len() - 1].1 matches ValueModel::Bytes(bb) && exists|
                                t: T,
                            | t.spec_encode() == bb));
                        }
                    }
                    return Result::Err(Error::DeserializationError);
                },
            }
        }
        i = i + 1;
    }
    proof {
        assert(rv.take(rows@.len() as int) =~= rv);
    }
    Result::Ok(out)
}

/// A parseable prefix whose pairs include a bad payload extends to either
/// a failing whole parse or a whole parse still carrying that pair.
proof fn lemma_iter_prefix_some(rows: Seq<(Seq<char>, ValueModel)>, n: int)
    requires
        0 <= n <= rows.len(),
        iter_rows(rows.take(n)) is Some,
    ensures
        iter_rows(rows) is Some ==> {
            let pre = iter_rows(rows.take(n)).unwrap();
            let whole = iter_rows(rows).unwrap();
            pre.len() <= whole.len() && forall|i: int| 0 <= i < pre.len() ==> whole[i] == pre[i]
        },
    decreases rows.len() - n,
{
    if n < rows.len() {
        assert(rows.take(n + 1).drop_last() =~= rows.take(n));
        assert(rows.take(n + 1).last() == rows[n]);
        if iter_rows(rows.take(n + 1)) is Some {
            lemma_iter_prefix_some(rows, n + 1);
        } else {
            lemma_iter_fail_from_prefix(rows, n + 1);
        }
    } else {
        assert(rows.take(n) =~= rows);
    }
}

/// A failing prefix fails the whole parse.
proof fn lemma_iter_fail_from_prefix(rows: Seq<(Seq<char>, ValueModel)>, n: int)
    requires
        0 <= n <= rows.len(),
        iter_rows(rows.take(n)) is None,
    ensures
        iter_rows(rows) is None,
    decreases rows.len() - n,
{
    if n < rows.len() {
        assert(rows.take(n + 1).drop_last() =~= rows.take(n));
        lemma_iter_fail_from_prefix(rows, n + 1);
    } else {
        assert(rows.take(n) =~= rows);
    }
}

} // verus!
