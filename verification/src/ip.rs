//! Syntactic validity of IP addresses in their usual textual forms: dotted
//! quads for the four-byte family, colon-separated hex groups (with one `::`
//! abbreviation and an optional trailing dotted quad) for the sixteen-byte one.

use vstd::prelude::*;
use vstd::string::*;
use crate::text::{spec_split, spec_all_digits, spec_dec_val, split_char};

verus! {

// ---------------------------------------------------------------------------
// Dotted-quad form
// ---------------------------------------------------------------------------

/// A decimal octet: one to three digits, no leading zero, value at most 255.
pub open spec fn spec_valid_octet(p: Seq<char>) -> bool {
    &&& 1 <= p.len() <= 3
    &&& spec_all_digits(p)
    &&& (p.len() > 1 ==> p[0] != '0')
    &&& spec_dec_val(p) <= 255
}

/// Four valid octets separated by dots.
pub open spec fn spec_valid_ipv4(s: Seq<char>) -> bool {
    let p = spec_split(s, '.');
    p.len() == 4 && (forall|i: int| 0 <= i < 4 ==> spec_valid_octet(#[trigger] p[i]))
}

proof fn lemma_dec_val_le_999(s: Seq<char>)
    requires
        spec_all_digits(s),
        s.len() <= 3,
    ensures
        s.len() <= 1 ==> spec_dec_val(s) <= 9,
        s.len() <= 2 ==> spec_dec_val(s) <= 99,
        spec_dec_val(s) <= 999,
    decreases s.len(),
{
    if s.len() > 0 {
        assert(spec_all_digits(s.drop_last()));
        lemma_dec_val_le_999(s.drop_last());
        assert(crate::text::spec_is_digit(s.last()));
    }
}

fn valid_octet(p: &String) -> (r: bool)
    ensures
        r == spec_valid_octet(p@),
{
    let s = p.as_str();
    let len: usize = s.unicode_len();
    if len < 1 || len > 3 {
        return false;
    }
    let mut acc: u32 = 0;
    let mut j: usize = 0;
    while j < len
        invariant
            j <= len,
            len as nat == s@.len(),
            len <= 3,
            s@ == p@,
            spec_all_digits(s@.take(j as int)),
            acc as int == spec_dec_val(s@.take(j as int)),
            acc <= 999,
        decreases len - j,
    {
        let c = s.get_char(j);
        let u: u32 = c as u32;
        proof {
            assert(u as int == c as int);
        }
        if u < 48 || u > 57 {
            proof {
                assert(!crate::text::spec_is_digit(s@[j as int]));
            }
            return false;
        }
        proof {
            assert(s@.take(j + 1).drop_last() =~= s@.take(j as int));
            assert(s@.take(j + 1).last() == s@[j as int]);
            assert(spec_all_digits(s@.take(j + 1)));
            lemma_dec_val_le_999(s@.take(j + 1));
        }
        acc = acc * 10 + (u - 48);
        j = j + 1;
    }
    proof {
        assert(s@.take(len as int) =~= s@);
    }
    if len > 1 {
        let c0 = s.get_char(0);
        if c0 == '0' {
            return false;
        }
    }
    acc <= 255
}

pub fn is_valid_ipv4(s: &str) -> (r: bool)
    ensures
        r == spec_valid_ipv4(s@),
{
    let parts = split_char(s, '.');
    if parts.len() != 4 {
        return false;
    }
    let mut i: usize = 0;
    while i < 4
        invariant
            i <= 4,
            parts.deep_view() == spec_split(s@, '.'),
            parts.len() == 4,
            forall|k: int| 0 <= k < i ==> spec_valid_octet(#[trigger] parts.deep_view()[k]),
        decreases 4 - i,
    {
        if !valid_octet(&parts[i]) {
            proof {
                assert(parts.deep_view()[i as int] == parts@[i as int]@);
            }
            return false;
        }
        proof {
            assert(parts.deep_view()[i as int] == parts@[i as int]@);
        }
        i = i + 1;
    }
    true
}

// ---------------------------------------------------------------------------
// Colon-separated form
// ---------------------------------------------------------------------------

pub open spec fn spec_is_hex_digit(c: char) -> bool {
    (48 <= c as int <= 57) || (65 <= c as int <= 70) || (97 <= c as int <= 102)
}

/// A hex group: one to four hexadecimal digits.
pub open spec fn spec_valid_h16(p: Seq<char>) -> bool {
    1 <= p.len() <= 4 && (forall|i: int| 0 <= i < p.len() ==> spec_is_hex_digit(#[trigger] p[i]))
}

pub open spec fn spec_h16_range(parts: Seq<Seq<char>>, from: int, to: int) -> bool {
    forall|i: int| from <= i < to ==> spec_valid_h16(#[trigger] parts[i])
}

/// The groups from `from` to the end: hex groups, except that the final one
/// may instead be a dotted quad standing for the last four bytes.
pub open spec fn spec_tail_groups_ok(parts: Seq<Seq<char>>, from: int) -> bool {
    from < parts.len() ==> {
        &&& spec_h16_range(parts, from, parts.len() - 1)
        &&& (spec_valid_h16(parts.last()) || spec_valid_ipv4(parts.last()))
    }
}

/// How many two-byte groups the tail stands for: a dotted quad counts double.
pub open spec fn spec_tail_weight(parts: Seq<Seq<char>>, from: int) -> int {
    if from < parts.len() {
        (parts.len() - from) + (if spec_valid_ipv4(parts.last()) {
            1int
        } else {
            0int
        })
    } else {
        0
    }
}

/// Validity of the colon-separated form, by the shape of the pieces between
/// colons: a full eight groups (or six and a trailing dotted quad), or exactly
/// one `::` abbreviation — leading, trailing, in the middle, or alone — with
/// the remaining groups accounting for at most seven of the eight slots.
pub open spec fn spec_valid_ipv6(s: Seq<char>) -> bool {
    let p = spec_split(s, ':');
    let n = p.len() as int;
    ||| (n == 8 && spec_h16_range(p, 0, 8))
    ||| (n == 7 && spec_h16_range(p, 0, 6) && spec_valid_ipv4(p[6]))
    ||| (n == 3 && p[0].len() == 0 && p[1].len() == 0 && p[2].len() == 0)
    ||| (n >= 3 && p[0].len() == 0 && p[1].len() == 0 && spec_tail_groups_ok(p, 2)
        && spec_tail_weight(p, 2) <= 7)
    ||| (n >= 3 && p[n - 1].len() == 0 && p[n - 2].len() == 0 && spec_h16_range(p, 0, n - 2)
        && n - 2 <= 7)
    ||| (exists|k: int|
        1 <= k <= n - 2 && #[trigger] p[k].len() == 0 && spec_h16_range(p, 0, k)
            && spec_tail_groups_ok(p, k + 1) && k + spec_tail_weight(p, k + 1) <= 7)
}

fn valid_h16(p: &String) -> (r: bool)
    ensures
        r == spec_valid_h16(p@),
{
    let s = p.as_str();
    let len: usize = s.unicode_len();
    if len < 1 || len > 4 {
        return false;
    }
    let mut j: usize = 0;
    while j < len
        invariant
            j <= len,
            len as nat == s@.len(),
            s@ == p@,
            forall|k: int| 0 <= k < j ==> spec_is_hex_digit(#[trigger] s@[k]),
        decreases len - j,
    {
        let c = s.get_char(j);
        let u: u32 = c as u32;
        proof {
            assert(u as int == c as int);
        }
        if !((48 <= u && u <= 57) || (65 <= u && u <= 70) || (97 <= u && u <= 102)) {
            return false;
        }
        j = j + 1;
    }
    true
}

fn h16_range_ok(parts: &Vec<String>, from: usize, to: usize) -> (r: bool)
    requires
        from <= to <= parts.len(),
    ensures
        r == spec_h16_range(parts.deep_view(), from as int, to as int),
{
    let mut i: usize = from;
    while i < to
        invariant
            from <= i <= to <= parts.len(),
            spec_h16_range(parts.deep_view(), from as int, i as int),
        decreases to - i,
    {
        if !valid_h16(&parts[i]) {
            proof {
                assert(parts.deep_view()[i as int] == parts@[i as int]@);
            }
            return false;
        }
        proof {
            assert(parts.deep_view()[i as int] == parts@[i as int]@);
        }
        i = i + 1;
    }
    true
}

fn tail_groups_ok(parts: &Vec<String>, from: usize) -> (r: bool)
    requires
        from <= parts.len(),
    ensures
        r == spec_tail_groups_ok(parts.deep_view(), from as int),
{
    let n = parts.len();
    if from >= n {
        return true;
    }
    if !h16_range_ok(parts, from, n - 1) {
        return false;
    }
    let last_ok = valid_h16(&parts[n - 1]) || is_valid_ipv4(parts[n - 1].as_str());
    proof {
        assert(parts.deep_view()[n - 1] == parts@[n - 1]@);
        assert(parts.deep_view().last() == parts.deep_view()[n - 1]);
    }
    last_ok
}

fn tail_weight(parts: &Vec<String>, from: usize) -> (r: usize)
    requires
        from < parts.len(),
        parts.len() < 100000,
    ensures
        r as int == spec_tail_weight(parts.deep_view(), from as int),
{
    let n = parts.len();
    let v4 = is_valid_ipv4(parts[n - 1].as_str());
    proof {
        assert(parts.deep_view()[n - 1] == parts@[n - 1]@);
        assert(parts.deep_view().last() == parts.deep_view()[n - 1]);
    }
    if v4 {
        n - from + 1
    } else {
        n - from
    }
}

fn first_empty_index(parts: &Vec<String>) -> (r: Option<usize>)
    ensures
        match r {
            Some(f) => f < parts.len() && parts.deep_view()[f as int].len() == 0 && (forall|i: int|
                0 <= i < f ==> #[trigger] parts.deep_view()[i].len() > 0),
            None => forall|i: int|
                0 <= i < parts.len() ==> #[trigger] parts.deep_view()[i].len() > 0,
        },
{
    let n = parts.len();
    let mut i: usize = 0;
    while i < n
        invariant
            i <= n,
            n == parts.len(),
            forall|k: int| 0 <= k < i ==> #[trigger] parts.deep_view()[k].len() > 0,
        decreases n - i,
    {
        proof {
            assert(parts.deep_view()[i as int] == parts@[i as int]@);
        }
        if parts[i].as_str().unicode_len() == 0 {
            return Some(i);
        }
        i = i + 1;
    }
    None
}

pub fn is_valid_ipv6(s: &str) -> (r: bool)
    ensures
        r == spec_valid_ipv6(s@),
{
    let parts = split_char(s, ':');
    let ghost p = parts.deep_view();
    let n = parts.len();
    proof {
        crate::text::lemma_split_len(s@, ':');
        // A split yields at most one more piece than separators, so it fits comfortably.
        assert(p.len() == n);
    }
    if n > 9 {
        // More pieces than any valid form allows: 8 groups, or an abbreviation
        // whose remaining groups weigh at most 7 (9 pieces when `::` is at an end).
        proof {
            assert(spec_tail_weight(p, 2) > 7);
            assert(!spec_valid_ipv6(s@)) by {
                assert(forall|k: int|
                    1 <= k <= p.len() - 2 && #[trigger] p[k].len() == 0 && spec_h16_range(p, 0, k)
                        && spec_tail_groups_ok(p, k + 1) ==> k + spec_tail_weight(p, k + 1) > 7);
            }
        }
        return false;
    }
    match first_empty_index(&parts) {
        None => {
            if n == 8 {
                h16_range_ok(&parts, 0, 8)
            } else if n == 7 {
                let head = h16_range_ok(&parts, 0, 6);
                let v4 = is_valid_ipv4(parts[6].as_str());
                proof {
                    assert(p[6] == parts@[6]@);
                }
                head && v4
            } else {
                false
            }
        },
        Some(f) => {
            if f == 0 {
                if n == 3 {
                    proof {
                        assert(p[1] == parts@[1]@);
                        assert(p[2] == parts@[2]@);
                    }
                    let e1 = parts[1].as_str().unicode_len() == 0;
                    let e2 = parts[2].as_str().unicode_len() == 0;
                    if e1 && e2 {
                        return true;
                    }
                    if !e1 {
                        return false;
                    }
                    // pieces are "", "", x with x nonempty: the leading-`::` form
                    let t_ok = tail_groups_ok(&parts, 2);
                    let w = tail_weight(&parts, 2);
                    return t_ok && w <= 7;
                }
                if n < 3 {
                    return false;
                }
                proof {
                    assert(p[1] == parts@[1]@);
                }
                if parts[1].as_str().unicode_len() != 0 {
                    return false;
                }
                let t_ok = tail_groups_ok(&parts, 2);
                let w = tail_weight(&parts, 2);
                t_ok && w <= 7
            } else if f == n - 2 {
                proof {
                    assert(p[n - 1] == parts@[n - 1]@);
                }
                if parts[n - 1].as_str().unicode_len() == 0 {
                    // trailing `::`
                    let head = h16_range_ok(&parts, 0, n - 2);
                    head && n - 2 <= 7
                } else {
                    // a lone empty piece between nonempty ones: the middle form
                    let head = h16_range_ok(&parts, 0, f);
                    let t_ok = tail_groups_ok(&parts, f + 1);
                    let w = tail_weight(&parts, f + 1);
                    head && t_ok && f + w <= 7
                }
            } else if f == n - 1 {
                // a single trailing colon
                false
            } else {
                let head = h16_range_ok(&parts, 0, f);
                let t_ok = tail_groups_ok(&parts, f + 1);
                let w = tail_weight(&parts, f + 1);
                head && t_ok && f + w <= 7
            }
        },
    }
}

/// Whether `s` is a syntactically valid IP address in either textual family.
pub open spec fn spec_valid_ip(s: Seq<char>) -> bool {
    spec_valid_ipv4(s) || spec_valid_ipv6(s)
}

pub fn is_valid_ip(s: &str) -> (r: bool)
    ensures
        r == spec_valid_ip(s@),
{
    is_valid_ipv4(s) || is_valid_ipv6(s)
}

} // verus!
