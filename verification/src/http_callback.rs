//! Correlation of outbound calls with their eventual responses: a table from
//! call token to a one-shot response handler, each handler taken at most once.

use vstd::prelude::*;
use vstd::string::*;
use crate::text::{eq_ignore_ascii_case, spec_eq_ignore_ascii_case};

verus! {

/// What is to be done with an outbound call's response: the three response
/// handlers of the delivery pipeline.
pub enum Handler {
    EventBatch,
    AppConfig,
    GovernanceRules,
}

/// The pending-call table: call token to one-shot handler.
pub struct HttpCallbackManager {
    pub handlers: Vec<(u32, Handler)>,
}

/// The handler of the first entry for `token`, if one is pending.
pub open spec fn spec_find(hs: Seq<(u32, Handler)>, token: u32) -> Option<Handler>
    decreases hs.len(),
{
    if hs.len() == 0 {
        None
    } else if hs[0].0 == token {
        Some(hs[0].1)
    } else {
        spec_find(hs.skip(1), token)
    }
}

/// The table with the first entry for `token` removed.
pub open spec fn spec_remove(hs: Seq<(u32, Handler)>, token: u32) -> Seq<(u32, Handler)>
    decreases hs.len(),
{
    if hs.len() == 0 {
        hs
    } else if hs[0].0 == token {
        hs.skip(1)
    } else {
        seq![hs[0]] + spec_remove(hs.skip(1), token)
    }
}

/// Registering stores the handler under the token, displacing any earlier one.
pub open spec fn spec_register(hs: Seq<(u32, Handler)>, token: u32, h: Handler) -> Seq<
    (u32, Handler),
> {
    spec_remove(hs, token).push((token, h))
}

/// No token appears twice in the table.
pub open spec fn spec_unique_tokens(hs: Seq<(u32, Handler)>) -> bool {
    forall|i: int, j: int| 0 <= i < j < hs.len() ==> (#[trigger] hs[i]).0 != (#[trigger] hs[j]).0
}

proof fn lemma_remove_removes(hs: Seq<(u32, Handler)>, token: u32)
    requires
        spec_unique_tokens(hs),
    ensures
        spec_find(spec_remove(hs, token), token) is None,
    decreases hs.len(),
{
    if hs.len() == 0 {
    } else if hs[0].0 == token {
        assert forall|k: int| 0 <= k < hs.skip(1).len() implies (#[trigger] hs.skip(1)[k]).0
            != token by {
            assert(hs.skip(1)[k] == hs[k + 1]);
        }
        lemma_find_none_when_absent(hs.skip(1), token);
    } else {
        assert(spec_unique_tokens(hs.skip(1))) by {
            assert(forall|i: int, j: int|
                0 <= i < j < hs.skip(1).len() ==> (#[trigger] hs.skip(1)[i]) == hs[i + 1]
                    && (#[trigger] hs.skip(1)[j]) == hs[j + 1]);
        }
        lemma_remove_removes(hs.skip(1), token);
        let rest = spec_remove(hs.skip(1), token);
        assert((seq![hs[0]] + rest).skip(1) =~= rest);
    }
}

proof fn lemma_find_none_when_absent(hs: Seq<(u32, Handler)>, token: u32)
    requires
        forall|k: int| 0 <= k < hs.len() ==> (#[trigger] hs[k]).0 != token,
    ensures
        spec_find(hs, token) is None,
    decreases hs.len(),
{
    if hs.len() > 0 {
        assert(forall|k: int|
            0 <= k < hs.skip(1).len() ==> (#[trigger] hs.skip(1)[k]) == hs[k + 1]);
        lemma_find_none_when_absent(hs.skip(1), token);
    }
}

/// At-most-once invocation: once the handler for a token has been taken, a
/// second take of the same token finds nothing.
pub proof fn lemma_at_most_once(hs: Seq<(u32, Handler)>, token: u32)
    requires
        spec_unique_tokens(hs),
    ensures
        spec_find(spec_remove(hs, token), token) is None,
{
    lemma_remove_removes(hs, token);
}

impl HttpCallbackManager {
    /// An empty pending-call table.
    pub fn new() -> (r: HttpCallbackManager)
        ensures
            r.handlers@ == Seq::<(u32, Handler)>::empty(),
            spec_unique_tokens(r.handlers@),
    {
        HttpCallbackManager { handlers: Vec::new() }
    }

    fn find_index(&self, token_id: u32) -> (r: Option<usize>)
        ensures
            match r {
                Some(idx) => idx < self.handlers@.len() && self.handlers@[idx as int].0 == token_id
                    && (forall|k: int|
                    0 <= k < idx ==> (#[trigger] self.handlers@[k]).0 != token_id),
                None => forall|k: int|
                    0 <= k < self.handlers@.len() ==> (#[trigger] self.handlers@[k]).0 != token_id,
            },
    {
        let n = self.handlers.len();
        let mut i: usize = 0;
        while i < n
            invariant
                i <= n,
                n == self.handlers@.len(),
                forall|k: int| 0 <= k < i ==> (#[trigger] self.handlers@[k]).0 != token_id,
            decreases n - i,
        {
            if self.handlers[i].0 == token_id {
                return Some(i);
            }
            i = i + 1;
        }
        None
    }

    /// Store a one-shot handler for the token the host returned for an
    /// outbound call, displacing any handler already stored under it.
    pub fn register_handler(&mut self, token_id: u32, handler: Handler)
        requires
            spec_unique_tokens(old(self).handlers@),
        ensures
            final(self).handlers@ == spec_register(old(self).handlers@, token_id, handler),
            spec_unique_tokens(final(self).handlers@),
            spec_find(final(self).handlers@, token_id) == Some(handler),
    {
        let ghost hs = self.handlers@;
        match self.find_index(token_id) {
            Some(idx) => {
                self.handlers.remove(idx);
                proof {
                    lemma_remove_at(hs, token_id, idx as int);
                    assert(self.handlers@ =~= hs.subrange(0, idx as int) + hs.subrange(
                        idx + 1,
                        hs.len() as int,
                    ));
                }
            },
            None => {
                proof {
                    lemma_remove_absent(hs, token_id);
                }
            },
        }
        let ghost removed = self.handlers@;
        self.handlers.push((token_id, handler));
        proof {
            assert(self.handlers@ =~= removed.push((token_id, handler)));
            lemma_remove_unique(hs, token_id);
            lemma_find_none_when_absent(removed, token_id);
            assert(spec_unique_tokens(self.handlers@)) by {
                lemma_absent_from_removed(hs, token_id);
            }
            assert(spec_find(self.handlers@, token_id) == Some(handler)) by {
                lemma_find_pushed(removed, token_id, handler);
            }
        }
    }

    /// Take the handler registered for the token, if any: the entry is removed,
    /// so each handler is delivered at most once. An unmatched token yields
    /// nothing and leaves the table unchanged.
    pub fn handle_response(&mut self, token_id: u32) -> (r: Option<Handler>)
        ensures
            r == spec_find(old(self).handlers@, token_id),
            final(self).handlers@ == spec_remove(old(self).handlers@, token_id),
    {
        let ghost hs = self.handlers@;
        match self.find_index(token_id) {
            Some(idx) => {
                let (_, handler) = self.handlers.remove(idx);
                proof {
                    lemma_remove_at(hs, token_id, idx as int);
                    lemma_find_at(hs, token_id, idx as int);
                    assert(self.handlers@ =~= hs.subrange(0, idx as int) + hs.subrange(
                        idx + 1,
                        hs.len() as int,
                    ));
                }
                Some(handler)
            },
            None => {
                proof {
                    lemma_remove_absent(hs, token_id);
                    lemma_find_none_when_absent(hs, token_id);
                }
                None
            },
        }
    }
}

proof fn lemma_remove_at(hs: Seq<(u32, Handler)>, token: u32, idx: int)
    requires
        0 <= idx < hs.len(),
        hs[idx].0 == token,
        forall|k: int| 0 <= k < idx ==> (#[trigger] hs[k]).0 != token,
    ensures
        spec_remove(hs, token) == hs.subrange(0, idx) + hs.subrange(idx + 1, hs.len() as int),
    decreases idx,
{
    if idx == 0 {
        assert(hs.subrange(0, 0) =~= Seq::<(u32, Handler)>::empty());
        assert(hs.subrange(1, hs.len() as int) =~= hs.skip(1));
        assert(hs.subrange(0, 0) + hs.subrange(1, hs.len() as int) =~= hs.skip(1));
    } else {
        assert(forall|k: int|
            0 <= k < idx - 1 ==> (#[trigger] hs.skip(1)[k]) == hs[k + 1]);
        assert(hs.skip(1)[idx - 1] == hs[idx]);
        lemma_remove_at(hs.skip(1), token, idx - 1);
        assert(hs.skip(1).subrange(0, idx - 1) =~= hs.subrange(1, idx));
        assert(hs.skip(1).subrange(idx, hs.skip(1).len() as int) =~= hs.subrange(
            idx + 1,
            hs.len() as int,
        ));
        assert(seq![hs[0]] + (hs.subrange(1, idx) + hs.subrange(idx + 1, hs.len() as int))
            =~= hs.subrange(0, idx) + hs.subrange(idx + 1, hs.len() as int));
    }
}

proof fn lemma_find_at(hs: Seq<(u32, Handler)>, token: u32, idx: int)
    requires
        0 <= idx < hs.len(),
        hs[idx].0 == token,
        forall|k: int| 0 <= k < idx ==> (#[trigger] hs[k]).0 != token,
    ensures
        spec_find(hs, token) == Some(hs[idx].1),
    decreases idx,
{
    if idx > 0 {
        assert(forall|k: int|
            0 <= k < idx - 1 ==> (#[trigger] hs.skip(1)[k]) == hs[k + 1]);
        assert(hs.skip(1)[idx - 1] == hs[idx]);
        lemma_find_at(hs.skip(1), token, idx - 1);
    }
}

proof fn lemma_remove_absent(hs: Seq<(u32, Handler)>, token: u32)
    requires
        forall|k: int| 0 <= k < hs.len() ==> (#[trigger] hs[k]).0 != token,
    ensures
        spec_remove(hs, token) == hs,
    decreases hs.len(),
{
    if hs.len() > 0 {
        assert(forall|k: int|
            0 <= k < hs.skip(1).len() ==> (#[trigger] hs.skip(1)[k]) == hs[k + 1]);
        lemma_remove_absent(hs.skip(1), token);
        assert(seq![hs[0]] + hs.skip(1) =~= hs);
    }
}

/// Every entry of the removed table comes from the original, so a token absent
/// from the original is absent from it.
proof fn lemma_absent_from_removed(hs: Seq<(u32, Handler)>, token: u32)
    ensures
        forall|k: int|
            0 <= k < spec_remove(hs, token).len() ==> (exists|j: int|
                0 <= j < hs.len() && #[trigger] spec_remove(hs, token)[k] == hs[j]),
    decreases hs.len(),
{
    if hs.len() == 0 {
    } else if hs[0].0 == token {
        assert(forall|k: int|
            0 <= k < hs.skip(1).len() ==> (#[trigger] hs.skip(1)[k]) == hs[k + 1]);
    } else {
        lemma_absent_from_removed(hs.skip(1), token);
        let rest = spec_remove(hs.skip(1), token);
        assert(forall|k: int|
            0 <= k < hs.skip(1).len() ==> (#[trigger] hs.skip(1)[k]) == hs[k + 1]);
        assert(forall|k: int|
            1 <= k < (seq![hs[0]] + rest).len() ==> (#[trigger] (seq![hs[0]] + rest)[k]) == rest[k
                - 1]);
    }
}

/// Removal keeps tokens unique.
proof fn lemma_remove_unique(hs: Seq<(u32, Handler)>, token: u32)
    requires
        spec_unique_tokens(hs),
    ensures
        spec_unique_tokens(spec_remove(hs, token)),
        forall|k: int|
            0 <= k < spec_remove(hs, token).len() ==> (#[trigger] spec_remove(hs, token)[k]).0
                != token,
    decreases hs.len(),
{
    if hs.len() == 0 {
    } else {
        assert(spec_unique_tokens(hs.skip(1))) by {
            assert(forall|k: int|
                0 <= k < hs.skip(1).len() ==> (#[trigger] hs.skip(1)[k]) == hs[k + 1]);
        }
        if hs[0].0 == token {
        } else {
            lemma_remove_unique(hs.skip(1), token);
            let rest = spec_remove(hs.skip(1), token);
            lemma_absent_from_removed(hs.skip(1), token);
            assert(forall|k: int|
                1 <= k < (seq![hs[0]] + rest).len() ==> (#[trigger] (seq![hs[0]] + rest)[k])
                    == rest[k - 1]);
            assert forall|i: int, j: int|
                0 <= i < j < (seq![hs[0]] + rest).len() implies (#[trigger] (seq![hs[0]]
                + rest)[i]).0 != (#[trigger] (seq![hs[0]] + rest)[j]).0 by {
                if i == 0 {
                    let e = rest[j - 1];
                    assert(exists|q: int| 0 <= q < hs.skip(1).len() && e == hs.skip(1)[q]);
                    let q = choose|q: int| 0 <= q < hs.skip(1).len() && e == hs.skip(1)[q];
                    assert(hs.skip(1)[q] == hs[q + 1]);
                    assert(hs[0].0 != hs[q + 1].0);
                }
            }
        }
    }
}

proof fn lemma_find_pushed(hs: Seq<(u32, Handler)>, token: u32, h: Handler)
    requires
        forall|k: int| 0 <= k < hs.len() ==> (#[trigger] hs[k]).0 != token,
    ensures
        spec_find(hs.push((token, h)), token) == Some(h),
    decreases hs.len(),
{
    if hs.len() == 0 {
        assert(hs.push((token, h))[0] == (token, h));
    } else {
        assert(forall|k: int|
            0 <= k < hs.skip(1).len() ==> (#[trigger] hs.skip(1)[k]) == hs[k + 1]);
        lemma_find_pushed(hs.skip(1), token, h);
        assert(hs.push((token, h)).skip(1) =~= hs.skip(1).push((token, h)));
        assert(hs.push((token, h))[0] == hs[0]);
    }
}

// ---------------------------------------------------------------------------
// Response header lookup
// ---------------------------------------------------------------------------

/// The value of the first header whose name equals `name` up to ASCII case.
pub open spec fn spec_get_header(
    headers: Seq<(Seq<char>, Seq<char>)>,
    name: Seq<char>,
) -> Option<Seq<char>>
    decreases headers.len(),
{
    if headers.len() == 0 {
        None
    } else if spec_eq_ignore_ascii_case(headers[0].0, name) {
        Some(headers[0].1)
    } else {
        spec_get_header(headers.skip(1), name)
    }
}

/// Fetch a header value by ASCII-case-insensitive name.
pub fn get_header(headers: &Vec<(String, String)>, name: &str) -> (r: Option<String>)
    ensures
        r.deep_view() == spec_get_header(headers.deep_view(), name@),
{
    let ghost dv = headers.deep_view();
    let n = headers.len();
    let mut i: usize = 0;
    proof {
        assert(dv.skip(0) =~= dv);
    }
    while i < n
        invariant
            i <= n,
            n == headers@.len(),
            dv == headers.deep_view(),
            spec_get_header(dv, name@) == spec_get_header(dv.skip(i as int), name@),
        decreases n - i,
    {
        proof {
            assert(dv[i as int] == (headers@[i as int].0@, headers@[i as int].1@));
            assert(dv.skip(i as int)[0] == dv[i as int]);
            assert(dv.skip(i as int).skip(1) =~= dv.skip(i + 1));
        }
        if eq_ignore_ascii_case(headers[i].0.as_str(), name) {
            let v = headers[i].1.clone();
            return Some(v);
        }
        i = i + 1;
    }
    proof {
        assert(dv.skip(n as int) =~= Seq::<(Seq<char>, Seq<char>)>::empty());
    }
    None
}

} // verus!
