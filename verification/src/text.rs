//! Verified text utilities: splitting, trimming, substring replacement and
//! decimal conversions over `Seq<char>` views of `str` and `String`.

use vstd::prelude::*;
use vstd::string::*;

verus! {

// ---------------------------------------------------------------------------
// Splitting on a separator character
// ---------------------------------------------------------------------------

/// The pieces of `s` between occurrences of `sep`, in order. Always at least
/// one piece; empty pieces mark leading, trailing or adjacent separators.
pub open spec fn spec_split(s: Seq<char>, sep: char) -> Seq<Seq<char>>
    decreases s.len(),
{
    if s.len() == 0 {
        seq![Seq::<char>::empty()]
    } else if s[0] == sep {
        seq![Seq::<char>::empty()] + spec_split(s.skip(1), sep)
    } else {
        let rest = spec_split(s.skip(1), sep);
        seq![seq![s[0]] + rest[0]] + rest.skip(1)
    }
}

pub proof fn lemma_split_len(s: Seq<char>, sep: char)
    ensures
        spec_split(s, sep).len() >= 1,
    decreases s.len(),
{
    if s.len() == 0 {
    } else if s[0] == sep {
    } else {
        lemma_split_len(s.skip(1), sep);
    }
}

/// The loop relation of `split_char`: the pieces already emitted, plus the
/// piece under construction glued onto the split of the unread tail, make up
/// the split of the whole input.
spec fn split_loop_state(
    s: Seq<char>,
    sep: char,
    done: Seq<Seq<char>>,
    cur: Seq<char>,
    i: int,
) -> bool {
    let rest = spec_split(s.subrange(i, s.len() as int), sep);
    spec_split(s, sep) == done + seq![cur + rest[0]] + rest.skip(1)
}

pub fn split_char(s: &str, sep: char) -> (parts: Vec<String>)
    ensures
        parts.deep_view() == spec_split(s@, sep),
{
    let len: usize = s.unicode_len();
    let mut parts: Vec<String> = Vec::new();
    let mut cur: String = String::new();
    let mut i: usize = 0;
    proof {
        assert(s@.subrange(0, s@.len() as int) =~= s@);
        lemma_split_len(s@, sep);
        assert(spec_split(s@, sep) =~= parts.deep_view() + seq![cur@ + spec_split(s@, sep)[0]]
            + spec_split(s@, sep).skip(1));
    }
    while i < len
        invariant
            i <= len,
            len as nat == s@.len(),
            split_loop_state(s@, sep, parts.deep_view(), cur@, i as int),
        decreases len - i,
    {
        let ghost rem = s@.subrange(i as int, s@.len() as int);
        let ghost rem1 = s@.subrange(i + 1, s@.len() as int);
        proof {
            assert(rem.len() > 0);
            assert(rem[0] == s@[i as int]);
            assert(rem.skip(1) =~= rem1);
            lemma_split_len(rem1, sep);
        }
        let c = s.get_char(i);
        if c == sep {
            let ghost old_parts = parts.deep_view();
            let ghost old_cur = cur@;
            let finished = cur;
            cur = String::new();
            parts.push(finished);
            proof {
                let rest = spec_split(rem, sep);
                let rest1 = spec_split(rem1, sep);
                assert(rest == seq![Seq::<char>::empty()] + rest1);
                assert(rest[0] =~= Seq::<char>::empty());
                assert(old_cur + rest[0] =~= old_cur);
                assert(rest.skip(1) =~= rest1);
                assert(parts.deep_view() =~= old_parts + seq![old_cur]);
                assert(rest1 =~= seq![rest1[0]] + rest1.skip(1));
                assert(old_parts + seq![old_cur + rest[0]] + rest.skip(1) =~= parts.deep_view()
                    + seq![cur@ + rest1[0]] + rest1.skip(1));
            }
        } else {
            let ghost old_cur = cur@;
            let piece = s.substring_char(i, i + 1);
            cur.append(piece);
            proof {
                let rest = spec_split(rem, sep);
                let rest1 = spec_split(rem1, sep);
                assert(rest == seq![seq![rem[0]] + rest1[0]] + rest1.skip(1));
                assert(piece@ =~= seq![s@[i as int]]);
                assert(cur@ =~= old_cur + seq![rem[0]]);
                assert(cur@ + rest1[0] =~= old_cur + rest[0]);
                assert(rest.skip(1) =~= rest1.skip(1));
            }
        }
        i = i + 1;
    }
    let ghost old_parts = parts.deep_view();
    let ghost old_cur = cur@;
    parts.push(cur);
    proof {
        let rem = s@.subrange(len as int, s@.len() as int);
        assert(rem =~= Seq::<char>::empty());
        let rest = spec_split(rem, sep);
        assert(rest == seq![Seq::<char>::empty()]);
        assert(old_cur + rest[0] =~= old_cur);
        assert(rest.skip(1) =~= Seq::<Seq<char>>::empty());
        assert(old_parts + seq![old_cur + rest[0]] + rest.skip(1) =~= old_parts + seq![old_cur]);
        assert(parts.deep_view() =~= old_parts + seq![old_cur]);
    }
    parts
}

// ---------------------------------------------------------------------------
// Trimming surrounding whitespace
// ---------------------------------------------------------------------------

/// The whitespace characters stripped by trimming: the ASCII blank set.
pub open spec fn spec_is_space(c: char) -> bool {
    c == ' ' || c == '\t' || c == '\n' || c == '\r' || c == '\u{b}' || c == '\u{c}'
}

pub open spec fn spec_trim_start(s: Seq<char>) -> Seq<char>
    decreases s.len(),
{
    if s.len() > 0 && spec_is_space(s[0]) {
        spec_trim_start(s.skip(1))
    } else {
        s
    }
}

pub open spec fn spec_trim_end(s: Seq<char>) -> Seq<char>
    decreases s.len(),
{
    if s.len() > 0 && spec_is_space(s.last()) {
        spec_trim_end(s.drop_last())
    } else {
        s
    }
}

/// `s` with leading and trailing whitespace removed.
pub open spec fn spec_trim(s: Seq<char>) -> Seq<char> {
    spec_trim_end(spec_trim_start(s))
}

proof fn lemma_trim_start_skip(s: Seq<char>, k: int)
    requires
        0 <= k <= s.len(),
        forall|j: int| 0 <= j < k ==> spec_is_space(s[j]),
    ensures
        spec_trim_start(s) == spec_trim_start(s.skip(k)),
    decreases k,
{
    if k > 0 {
        assert(spec_trim_start(s) == spec_trim_start(s.skip(1)));
        assert(s.skip(1).skip(k - 1) =~= s.skip(k));
        lemma_trim_start_skip(s.skip(1), k - 1);
    } else {
        assert(s.skip(0) =~= s);
    }
}

proof fn lemma_trim_end_take(s: Seq<char>, k: int)
    requires
        0 <= k <= s.len(),
        forall|j: int| k <= j < s.len() ==> spec_is_space(s[j]),
    ensures
        spec_trim_end(s) == spec_trim_end(s.take(k)),
    decreases s.len() - k,
{
    if k < s.len() {
        assert(spec_is_space(s.last()));
        assert(spec_trim_end(s) == spec_trim_end(s.drop_last()));
        assert(s.drop_last() =~= s.take(s.len() - 1));
        assert(s.take(s.len() - 1).take(k) =~= s.take(k));
        lemma_trim_end_take(s.take(s.len() - 1), k);
    } else {
        assert(s.take(k) =~= s);
    }
}

fn is_space(c: char) -> (r: bool)
    ensures
        r == spec_is_space(c),
{
    c == ' ' || c == '\t' || c == '\n' || c == '\r' || c == '\u{b}' || c == '\u{c}'
}

fn space_at(s: &str, i: usize) -> (r: bool)
    requires
        i < s@.len(),
    ensures
        r == spec_is_space(s@[i as int]),
{
    is_space(s.get_char(i))
}

pub fn trim(s: &str) -> (r: String)
    ensures
        r@ == spec_trim(s@),
{
    let len: usize = s.unicode_len();
    let mut start: usize = 0;
    while start < len && space_at(s, start)
        invariant
            start <= len,
            len as nat == s@.len(),
            forall|j: int| 0 <= j < start ==> spec_is_space(s@[j]),
        decreases len - start,
    {
        start = start + 1;
    }
    proof {
        lemma_trim_start_skip(s@, start as int);
        if start < len {
            assert(!spec_is_space(s@.skip(start as int)[0]));
        }
        assert(spec_trim_start(s@) == s@.skip(start as int));
    }
    let ghost t = s@.skip(start as int);
    let mut end: usize = len;
    while end > start && space_at(s, end - 1)
        invariant
            start <= end <= len,
            len as nat == s@.len(),
            t == s@.skip(start as int),
            forall|j: int| end <= j < len ==> spec_is_space(s@[j]),
        decreases end,
    {
        end = end - 1;
    }
    proof {
        assert(forall|j: int| end - start <= j < t.len() ==> spec_is_space(#[trigger] t[j]));
        lemma_trim_end_take(t, end - start);
        if end > start {
            assert(t.take(end - start).last() == s@[end - 1]);
            assert(!spec_is_space(t.take(end - start).last()));
        }
        assert(spec_trim_end(t) == t.take(end - start));
        assert(t.take(end - start) =~= s@.subrange(start as int, end as int));
    }
    let piece = s.substring_char(start, end);
    piece.to_owned()
}

// ---------------------------------------------------------------------------
// Substring replacement
// ---------------------------------------------------------------------------

/// Left-to-right, non-overlapping replacement of `from` by `to` in `s`.
/// An empty pattern never matches: the input comes back unchanged.
pub open spec fn spec_replace(s: Seq<char>, from: Seq<char>, to: Seq<char>) -> Seq<char>
    decreases s.len(),
{
    if from.len() == 0 || s.len() < from.len() {
        s
    } else if s.take(from.len() as int) == from {
        to + spec_replace(s.skip(from.len() as int), from, to)
    } else {
        seq![s[0]] + spec_replace(s.skip(1), from, to)
    }
}

/// Whether `pat` occurs as a contiguous subsequence of `s`.
pub open spec fn spec_occurs(s: Seq<char>, pat: Seq<char>) -> bool {
    exists|k: int|
        0 <= k && k + pat.len() <= s.len() && #[trigger] s.subrange(k, k + pat.len() as int)
            == pat
}

/// A pattern that occurs nowhere leaves the input unchanged.
pub proof fn lemma_replace_absent(s: Seq<char>, pat: Seq<char>, to: Seq<char>)
    requires
        pat.len() > 0,
        !spec_occurs(s, pat),
    ensures
        spec_replace(s, pat, to) == s,
    decreases s.len(),
{
    if s.len() < pat.len() {
    } else if s.take(pat.len() as int) == pat {
        assert(spec_occurs(s, pat)) by {
            assert(s.subrange(0, 0 + pat.len() as int) =~= s.take(pat.len() as int));
        }
    } else {
        assert forall|k: int|
            0 <= k && k + pat.len() <= s.skip(1).len() implies #[trigger] s.skip(1).subrange(
            k,
            k + pat.len() as int,
        ) != pat by {
            assert(s.skip(1).subrange(k, k + pat.len() as int) =~= s.subrange(
                k + 1,
                k + 1 + pat.len() as int,
            ));
            assert(!(s.subrange(k + 1, k + 1 + pat.len() as int) == pat));
        }
        lemma_replace_absent(s.skip(1), pat, to);
        assert(seq![s[0]] + s.skip(1) =~= s);
    }
}

pub fn replace(s: &str, from: &str, to: &str) -> (r: String)
    requires
        from@.len() > 0,
    ensures
        r@ == spec_replace(s@, from@, to@),
{
    let len: usize = s.unicode_len();
    let flen: usize = from.unicode_len();
    let from_string = from.to_owned();
    let mut out = String::new();
    let mut i: usize = 0;
    proof {
        assert(s@.skip(0) =~= s@);
        assert(out@ + spec_replace(s@, from@, to@) =~= spec_replace(s@, from@, to@));
    }
    while flen <= len - i && i < len
        invariant
            i <= len,
            len as nat == s@.len(),
            flen as nat == from@.len(),
            flen >= 1,
            from_string@ == from@,
            spec_replace(s@, from@, to@) == out@ + spec_replace(
                s@.skip(i as int),
                from@,
                to@,
            ),
        decreases len - i,
    {
        let ghost rem = s@.skip(i as int);
        proof {
            assert(rem.len() >= flen);
        }
        let sub = s.substring_char(i, i + flen);
        if sub.to_owned() == from_string {
            let ghost old_out = out@;
            out.append(to);
            proof {
                assert(rem.take(flen as int) =~= s@.subrange(i as int, i + flen));
                assert(rem.take(flen as int) == from@);
                assert(spec_replace(rem, from@, to@) == to@ + spec_replace(
                    rem.skip(flen as int),
                    from@,
                    to@,
                ));
                assert(rem.skip(flen as int) =~= s@.skip(i + flen));
            }
            i = i + flen;
        } else {
            let ghost old_out = out@;
            let piece = s.substring_char(i, i + 1);
            out.append(piece);
            proof {
                assert(rem.take(flen as int) =~= s@.subrange(i as int, i + flen));
                assert(rem.take(flen as int) != from@);
                assert(spec_replace(rem, from@, to@) == seq![rem[0]] + spec_replace(
                    rem.skip(1),
                    from@,
                    to@,
                ));
                assert(piece@ =~= seq![rem[0]]);
                assert(rem.skip(1) =~= s@.skip(i + 1));
            }
            i = i + 1;
        }
    }
    let tail = s.substring_char(i, len);
    out.append(tail);
    proof {
        let rem = s@.skip(i as int);
        assert(rem.len() < flen || rem.len() == 0);
        assert(spec_replace(rem, from@, to@) == rem);
        assert(tail@ =~= rem);
    }
    out
}

// ---------------------------------------------------------------------------
// Decimal digits
// ---------------------------------------------------------------------------

pub open spec fn spec_is_digit(c: char) -> bool {
    48 <= c as int <= 57
}

pub open spec fn spec_digit_val(c: char) -> int {
    c as int - 48
}

pub open spec fn spec_all_digits(s: Seq<char>) -> bool {
    forall|i: int| 0 <= i < s.len() ==> spec_is_digit(#[trigger] s[i])
}

/// The number denoted by a digit string, most significant digit first.
pub open spec fn spec_dec_val(s: Seq<char>) -> int
    decreases s.len(),
{
    if s.len() == 0 {
        0
    } else {
        spec_dec_val(s.drop_last()) * 10 + spec_digit_val(s.last())
    }
}

pub proof fn lemma_dec_val_nonneg(s: Seq<char>)
    requires
        spec_all_digits(s),
    ensures
        spec_dec_val(s) >= 0,
    decreases s.len(),
{
    if s.len() > 0 {
        assert(spec_all_digits(s.drop_last()));
        lemma_dec_val_nonneg(s.drop_last());
    }
}

/// The value of a digit string never drops as digits are appended.
pub proof fn lemma_dec_val_prefix_le(s: Seq<char>, j: int)
    requires
        spec_all_digits(s),
        0 <= j <= s.len(),
    ensures
        spec_dec_val(s.take(j)) <= spec_dec_val(s),
    decreases s.len() - j,
{
    if j < s.len() {
        assert(s.take(j + 1).drop_last() =~= s.take(j));
        assert(s.take(j + 1).last() == s[j]);
        assert(spec_all_digits(s.take(j)));
        lemma_dec_val_nonneg(s.take(j));
        assert(spec_dec_val(s.take(j + 1)) == spec_dec_val(s.take(j)) * 10 + spec_digit_val(
            s[j],
        ));
        lemma_dec_val_prefix_le(s, j + 1);
    } else {
        assert(s.take(j) =~= s);
    }
}

/// The number a string denotes under the rules of a non-negative decimal
/// parse whose failures collapse to zero: an optional leading `+`, then at
/// least one digit, the value fitting the machine word; anything else is zero.
pub open spec fn spec_parse_usize_or_zero(s: Seq<char>) -> int {
    let digits = if s.len() > 0 && s[0] == '+' {
        s.skip(1)
    } else {
        s
    };
    if digits.len() > 0 && spec_all_digits(digits) && spec_dec_val(digits) <= usize::MAX as int {
        spec_dec_val(digits)
    } else {
        0
    }
}

pub fn parse_usize_or_zero(s: &str) -> (r: usize)
    ensures
        r as int == spec_parse_usize_or_zero(s@),
{
    let len: usize = s.unicode_len();
    let mut start: usize = 0;
    if len > 0 {
        let c0 = s.get_char(0);
        if c0 == '+' {
            start = 1;
        }
    }
    let ghost digits = if s@.len() > 0 && s@[0] == '+' {
        s@.skip(1)
    } else {
        s@
    };
    proof {
        assert(digits =~= s@.skip(start as int));
    }
    if start == len {
        return 0;
    }
    let mut acc: usize = 0;
    let mut j: usize = start;
    while j < len
        invariant
            start <= j <= len,
            len as nat == s@.len(),
            start <= 1,
            digits == s@.skip(start as int),
            digits == (if s@.len() > 0 && s@[0] == '+' {
                s@.skip(1)
            } else {
                s@
            }),
            spec_all_digits(digits.take(j - start)),
            acc as int == spec_dec_val(digits.take(j - start)),
        decreases len - j,
    {
        let c = s.get_char(j);
        let u: u32 = c as u32;
        proof {
            assert(u as int == c as int);
        }
        if u < 48 || u > 57 {
            proof {
                assert(digits[j - start] == s@[j as int]);
                assert(!spec_is_digit(digits[j - start]));
                assert(!spec_all_digits(digits));
            }
            return 0;
        }
        let d: usize = (u - 48) as usize;
        proof {
            assert(spec_is_digit(s@[j as int]));
            assert(spec_digit_val(s@[j as int]) == d as int);
        }
        let ghost prev = digits.take(j - start);
        proof {
            assert(digits.take(j - start + 1).drop_last() =~= prev);
            assert(digits.take(j - start + 1).last() == s@[j as int]);
        }
        let next = match acc.checked_mul(10) {
            Some(x) => match x.checked_add(d) {
                Some(y) => y,
                None => {
                    proof {
                        assert(spec_dec_val(digits.take(j - start + 1)) > usize::MAX as int);
                        if spec_all_digits(digits) {
                            lemma_dec_val_prefix_le(digits, j - start + 1);
                        }
                    }
                    return 0;
                },
            },
            None => {
                proof {
                    assert(spec_dec_val(digits.take(j - start + 1)) > usize::MAX as int);
                    if spec_all_digits(digits) {
                        lemma_dec_val_prefix_le(digits, j - start + 1);
                    }
                }
                return 0;
            },
        };
        acc = next;
        j = j + 1;
    }
    proof {
        assert(digits.take(len - start) =~= digits);
    }
    acc
}

/// The canonical decimal rendering of a non-negative number.
pub open spec fn spec_digit(d: int) -> char
    recommends
        0 <= d <= 9,
{
    if d == 0 {
        '0'
    } else if d == 1 {
        '1'
    } else if d == 2 {
        '2'
    } else if d == 3 {
        '3'
    } else if d == 4 {
        '4'
    } else if d == 5 {
        '5'
    } else if d == 6 {
        '6'
    } else if d == 7 {
        '7'
    } else if d == 8 {
        '8'
    } else {
        '9'
    }
}

pub open spec fn spec_dec_digits(n: int) -> Seq<char>
    recommends
        n >= 0,
    decreases n,
{
    if n < 10 {
        seq![spec_digit(n)]
    } else {
        spec_dec_digits(n / 10) + seq![spec_digit(n % 10)]
    }
}

fn digit_str(d: usize) -> (r: String)
    requires
        d < 10,
    ensures
        r@ =~= seq![spec_digit(d as int)],
{
    let table = "0123456789";
    proof {
        reveal_strlit("0123456789");
    }
    let piece = table.substring_char(d, d + 1);
    proof {
        assert(piece@ =~= seq![table@[d as int]]);
        assert(table@[d as int] == spec_digit(d as int));
    }
    piece.to_owned()
}

pub fn usize_to_string(n: usize) -> (r: String)
    ensures
        r@ == spec_dec_digits(n as int),
    decreases n,
{
    if n < 10 {
        digit_str(n)
    } else {
        let prefix = usize_to_string(n / 10);
        let last = digit_str(n % 10);
        let r = prefix.concat(last.as_str());
        r
    }
}

// ---------------------------------------------------------------------------
// ASCII-case-insensitive comparison
// ---------------------------------------------------------------------------

/// The code point of `c` with an ASCII capital letter folded to lower case.
pub open spec fn spec_lower_code(c: char) -> int {
    if 65 <= c as int <= 90 {
        c as int + 32
    } else {
        c as int
    }
}

pub open spec fn spec_eq_ignore_ascii_case(a: Seq<char>, b: Seq<char>) -> bool {
    a.len() == b.len() && (forall|i: int|
        0 <= i < a.len() ==> spec_lower_code(a[i]) == spec_lower_code(#[trigger] b[i]))
}

pub fn eq_ignore_ascii_case(a: &str, b: &str) -> (r: bool)
    ensures
        r == spec_eq_ignore_ascii_case(a@, b@),
{
    let alen: usize = a.unicode_len();
    let blen: usize = b.unicode_len();
    if alen != blen {
        return false;
    }
    let mut i: usize = 0;
    while i < alen
        invariant
            i <= alen,
            alen as nat == a@.len(),
            alen as nat == b@.len(),
            forall|j: int| 0 <= j < i ==> spec_lower_code(a@[j]) == spec_lower_code(#[trigger] b@[j]),
        decreases alen - i,
    {
        let ca: u32 = a.get_char(i) as u32;
        let cb: u32 = b.get_char(i) as u32;
        let la = if 65 <= ca && ca <= 90 {
            ca + 32
        } else {
            ca
        };
        let lb = if 65 <= cb && cb <= 90 {
            cb + 32
        } else {
            cb
        };
        if la != lb {
            return false;
        }
        i = i + 1;
    }
    true
}

} // verus!
