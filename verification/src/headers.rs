//! Header maps as association lists: case-normalized keys, later entries for
//! a key replacing earlier ones, pseudo-headers strippable before storage.

use vstd::prelude::*;
use vstd::string::*;

verus! {

/// The value of the first entry whose key equals `name`.
pub open spec fn spec_lookup(hs: Seq<(Seq<char>, Seq<char>)>, name: Seq<char>) -> Option<
    Seq<char>,
>
    decreases hs.len(),
{
    if hs.len() == 0 {
        None
    } else if hs[0].0 == name {
        Some(hs[0].1)
    } else {
        spec_lookup(hs.skip(1), name)
    }
}

/// Fetch the value stored under exactly `name`.
pub fn lookup(headers: &Vec<(String, String)>, name: &str) -> (r: Option<String>)
    ensures
        r.deep_view() == spec_lookup(headers.deep_view(), name@),
{
    let name_string = name.to_owned();
    let ghost dv = headers.deep_view();
    let n = headers.len();
    let mut i: usize = 0;
    proof {
        assert(dv.skip(0) =~= dv);
    }
    while i < n
        invariant
            i <= n,
            n == headers@.len(),
            dv == headers.deep_view(),
            name_string@ == name@,
            spec_lookup(dv, name@) == spec_lookup(dv.skip(i as int), name@),
        decreases n - i,
    {
        proof {
            assert(dv[i as int] == (headers@[i as int].0@, headers@[i as int].1@));
            assert(dv.skip(i as int)[0] == dv[i as int]);
            assert(dv.skip(i as int).skip(1) =~= dv.skip(i + 1));
        }
        if headers[i].0 == name_string {
            let v = headers[i].1.clone();
            return Some(v);
        }
        i = i + 1;
    }
    proof {
        assert(dv.skip(n as int) =~= Seq::<(Seq<char>, Seq<char>)>::empty());
    }
    None
}

/// Replace the first entry keyed `k`, or append one if the key is new.
pub open spec fn spec_upsert(
    hs: Seq<(Seq<char>, Seq<char>)>,
    k: Seq<char>,
    v: Seq<char>,
) -> Seq<(Seq<char>, Seq<char>)>
    decreases hs.len(),
{
    if hs.len() == 0 {
        seq![(k, v)]
    } else if hs[0].0 == k {
        seq![(k, v)] + hs.skip(1)
    } else {
        seq![hs[0]] + spec_upsert(hs.skip(1), k, v)
    }
}

pub(crate) fn upsert(headers: Vec<(String, String)>, key: String, value: String) -> (r: Vec<(String, String)>)
    ensures
        r.deep_view() == spec_upsert(headers.deep_view(), key@, value@),
{
    let ghost dv = headers.deep_view();
    let n = headers.len();
    let mut out: Vec<(String, String)> = Vec::new();
    let mut i: usize = 0;
    let mut found = false;
    proof {
        assert(dv.skip(0) =~= dv);
        assert(out.deep_view() + spec_upsert(dv, key@, value@) =~= spec_upsert(dv, key@, value@));
    }
    while i < n
        invariant
            i <= n,
            n == headers@.len(),
            dv == headers.deep_view(),
            !found ==> spec_upsert(dv, key@, value@) == out.deep_view() + spec_upsert(
                dv.skip(i as int),
                key@,
                value@,
            ),
            found ==> spec_upsert(dv, key@, value@) == out.deep_view() + dv.skip(i as int),
        decreases n - i,
    {
        proof {
            assert(dv[i as int] == (headers@[i as int].0@, headers@[i as int].1@));
            assert(dv.skip(i as int)[0] == dv[i as int]);
            assert(dv.skip(i as int).skip(1) =~= dv.skip(i + 1));
        }
        let ghost out0 = out.deep_view();
        if !found && headers[i].0 == key {
            out.push((key.clone(), value.clone()));
            found = true;
            proof {
                assert(spec_upsert(dv.skip(i as int), key@, value@) == seq![(key@, value@)]
                    + dv.skip(i + 1));
                assert(out.deep_view() =~= out0 + seq![(key@, value@)]);
                assert(out0 + (seq![(key@, value@)] + dv.skip(i + 1)) =~= out.deep_view() + dv.skip(
                    i + 1,
                ));
            }
        } else {
            let entry = (headers[i].0.clone(), headers[i].1.clone());
            out.push(entry);
            proof {
                assert(out.deep_view() =~= out0 + seq![dv[i as int]]);
                if found {
                    assert(dv.skip(i as int) =~= seq![dv[i as int]] + dv.skip(i + 1));
                    assert(out0 + (seq![dv[i as int]] + dv.skip(i + 1)) =~= out.deep_view()
                        + dv.skip(i + 1));
                } else {
                    assert(spec_upsert(dv.skip(i as int), key@, value@) == seq![dv[i as int]]
                        + spec_upsert(dv.skip(i + 1), key@, value@));
                    assert(out0 + (seq![dv[i as int]] + spec_upsert(dv.skip(i + 1), key@, value@))
                        =~= out.deep_view() + spec_upsert(dv.skip(i + 1), key@, value@));
                }
            }
        }
        i = i + 1;
    }
    proof {
        assert(dv.skip(n as int) =~= Seq::<(Seq<char>, Seq<char>)>::empty());
    }
    if !found {
        let ghost out0 = out.deep_view();
        out.push((key, value));
        proof {
            assert(spec_upsert(Seq::<(Seq<char>, Seq<char>)>::empty(), key@, value@) == seq![
                (key@, value@),
            ]);
            assert(out.deep_view() =~= out0 + seq![(key@, value@)]);
        }
        out
    } else {
        proof {
            assert(out.deep_view() + Seq::<(Seq<char>, Seq<char>)>::empty() =~= out.deep_view());
        }
        out
    }
}

/// What lower-casing a header name yields.
pub uninterp spec fn spec_lowercase(s: Seq<char>) -> Seq<char>;

/// Relies on str::to_lowercase: the result depends on the characters alone.
#[verifier::external_body]
fn to_lowercase(s: &str) -> (r: String)
    ensures
        r@ == spec_lowercase(s@),
{
    s.to_lowercase()
}

/// A header list folded into a map: keys lower-cased, a later entry for a key
/// replacing an earlier one, as a hash-map built from the list would have it.
pub open spec fn spec_header_map(list: Seq<(Seq<char>, Seq<char>)>) -> Seq<(Seq<char>, Seq<char>)>
    decreases list.len(),
{
    if list.len() == 0 {
        Seq::<(Seq<char>, Seq<char>)>::empty()
    } else {
        spec_upsert(
            spec_header_map(list.drop_last()),
            spec_lowercase(list.last().0),
            list.last().1,
        )
    }
}

/// Fold a raw header list into the header map of the event record.
pub fn header_list_to_map(list: Vec<(String, String)>) -> (r: Vec<(String, String)>)
    ensures
        r.deep_view() == spec_header_map(list.deep_view()),
{
    let ghost dv = list.deep_view();
    let n = list.len();
    let mut map: Vec<(String, String)> = Vec::new();
    let mut i: usize = 0;
    proof {
        assert(dv.take(0) =~= Seq::<(Seq<char>, Seq<char>)>::empty());
        assert(map.deep_view() =~= Seq::<(Seq<char>, Seq<char>)>::empty());
    }
    while i < n
        invariant
            i <= n,
            n == list@.len(),
            dv == list.deep_view(),
            map.deep_view() == spec_header_map(dv.take(i as int)),
        decreases n - i,
    {
        proof {
            assert(dv[i as int] == (list@[i as int].0@, list@[i as int].1@));
            assert(dv.take(i + 1).drop_last() =~= dv.take(i as int));
            assert(dv.take(i + 1).last() == dv[i as int]);
        }
        let key = to_lowercase(list[i].0.as_str());
        let value = list[i].1.clone();
        map = upsert(map, key, value);
        i = i + 1;
    }
    proof {
        assert(dv.take(n as int) =~= dv);
    }
    map
}

/// Whether an entry names a pseudo-header (a key that begins with a colon).
pub open spec fn spec_is_pseudo(p: (Seq<char>, Seq<char>)) -> bool {
    p.0.len() > 0 && p.0[0] == ':'
}

/// The map with pseudo-headers removed, order otherwise kept.
pub open spec fn spec_strip_pseudo(hs: Seq<(Seq<char>, Seq<char>)>) -> Seq<(Seq<char>, Seq<char>)>
    decreases hs.len(),
{
    if hs.len() == 0 {
        Seq::<(Seq<char>, Seq<char>)>::empty()
    } else {
        let rest = spec_strip_pseudo(hs.drop_last());
        if spec_is_pseudo(hs.last()) {
            rest
        } else {
            rest.push(hs.last())
        }
    }
}

/// Drop the colon-prefixed pseudo-headers before an event record is stored.
pub fn strip_pseudo_headers(headers: Vec<(String, String)>) -> (r: Vec<(String, String)>)
    ensures
        r.deep_view() == spec_strip_pseudo(headers.deep_view()),
{
    let ghost dv = headers.deep_view();
    let n = headers.len();
    let mut out: Vec<(String, String)> = Vec::new();
    let mut i: usize = 0;
    proof {
        assert(dv.take(0) =~= Seq::<(Seq<char>, Seq<char>)>::empty());
        assert(out.deep_view() =~= Seq::<(Seq<char>, Seq<char>)>::empty());
    }
    while i < n
        invariant
            i <= n,
            n == headers@.len(),
            dv == headers.deep_view(),
            out.deep_view() == spec_strip_pseudo(dv.take(i as int)),
        decreases n - i,
    {
        proof {
            assert(dv[i as int] == (headers@[i as int].0@, headers@[i as int].1@));
            assert(dv.take(i + 1).drop_last() =~= dv.take(i as int));
            assert(dv.take(i + 1).last() == dv[i as int]);
        }
        let key = &headers[i].0;
        let is_pseudo = key.as_str().unicode_len() > 0 && key.as_str().get_char(0) == ':';
        if !is_pseudo {
            let ghost out0 = out.deep_view();
            let entry = (headers[i].0.clone(), headers[i].1.clone());
            out.push(entry);
            proof {
                assert(out.deep_view() =~= out0.push(dv[i as int]));
            }
        }
        i = i + 1;
    }
    proof {
        assert(dv.take(n as int) =~= dv);
    }
    out
}

} // verus!
