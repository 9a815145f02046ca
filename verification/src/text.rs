//! Character-level scanning primitives over `&str`.
//!
//! The external tools whose output this crate reads emit ASCII-ish,
//! line-oriented text.  Everything here is specified against the `Seq<char>`
//! view of a string slice: each executable routine's contract ties its result
//! to a spec function that states the same operation over sequences.

use vstd::prelude::*;
use vstd::string::StrSliceExecFns;

verus! {

/// The whitespace characters the producing tools emit between fields.
pub open spec fn is_space(c: char) -> bool {
    c == ' ' || c == '\t' || c == '\r' || c == '\n'
}

/// `s` without its leading whitespace.
pub open spec fn trim_front(s: Seq<char>) -> Seq<char>
    decreases s.len(),
{
    if s.len() > 0 && is_space(s[0]) {
        trim_front(s.drop_first())
    } else {
        s
    }
}

/// `s` without its trailing whitespace.
pub open spec fn trim_back(s: Seq<char>) -> Seq<char>
    decreases s.len(),
{
    if s.len() > 0 && is_space(s.last()) {
        trim_back(s.drop_last())
    } else {
        s
    }
}

/// `s` without leading and trailing whitespace.
pub open spec fn trim_spec(s: Seq<char>) -> Seq<char> {
    trim_back(trim_front(s))
}

fn is_space_exec(c: char) -> (b: bool)
    ensures
        b == is_space(c),
{
    c == ' ' || c == '\t' || c == '\r' || c == '\n'
}

/// Trims ASCII whitespace from both ends of `s`.
pub fn trim_of<'a>(s: &'a str) -> (t: &'a str)
    ensures
        t@ == trim_spec(s@),
{
    let n: usize = s.unicode_len();
    let mut a: usize = 0;
    proof {
        assert(s@.skip(0) =~= s@);
    }
    while a < n && is_space_exec(s.get_char(a))
        invariant
            a <= n,
            n == s@.len(),
            trim_front(s@) == trim_front(s@.skip(a as int)),
        decreases n - a,
    {
        proof {
            assert(s@.skip(a as int).drop_first() =~= s@.skip(a as int + 1));
        }
        a = a + 1;
    }
    proof {
        if a < n {
            assert(trim_front(s@) == s@.skip(a as int));
        } else {
            assert(s@.skip(a as int) =~= Seq::<char>::empty());
            assert(trim_front(s@) == s@.skip(a as int));
        }
    }
    let ghost u = s@.skip(a as int);
    let mut b: usize = n;
    proof {
        assert(u.take(n - a) =~= u);
    }
    while b > a && is_space_exec(s.get_char(b - 1))
        invariant
            a <= b <= n,
            n == s@.len(),
            u == s@.skip(a as int),
            trim_back(u) == trim_back(u.take(b - a)),
        decreases b,
    {
        proof {
            assert(u.take(b - a).last() == s@[b - 1]);
            assert(u.take(b - a).drop_last() =~= u.take(b - 1 - a));
        }
        b = b - 1;
    }
    proof {
        if b > a {
            assert(u.take(b - a).last() == s@[b - 1]);
            assert(trim_back(u.take(b - a)) == u.take(b - a));
        } else {
            assert(u.take(b - a) =~= Seq::<char>::empty());
            assert(trim_back(u.take(b - a)) == u.take(b - a));
        }
    }
    let t = s.substring_char(a, b);
    proof {
        assert(t@ =~= u.take(b - a));
    }
    t
}

/// `p` is a prefix of `s`.
pub open spec fn starts_with_spec(s: Seq<char>, p: Seq<char>) -> bool {
    p.len() <= s.len() && (forall|j: int| 0 <= j < p.len() ==> s[j] == p[j])
}

/// Whether `s` begins with `p`.
pub fn starts_with_str(s: &str, p: &str) -> (b: bool)
    ensures
        b == starts_with_spec(s@, p@),
{
    let sl: usize = s.unicode_len();
    let pl: usize = p.unicode_len();
    if pl > sl {
        return false;
    }
    let mut i: usize = 0;
    while i < pl
        invariant
            i <= pl,
            pl == p@.len(),
            sl == s@.len(),
            pl <= sl,
            forall|j: int| 0 <= j < i ==> s@[j] == p@[j],
        decreases pl - i,
    {
        if s.get_char(i) != p.get_char(i) {
            return false;
        }
        i = i + 1;
    }
    true
}

/// `n` occurs in `s` starting at index `k`.
pub open spec fn match_at(s: Seq<char>, n: Seq<char>, k: int) -> bool {
    0 <= k && k + n.len() <= s.len() && (forall|j: int| 0 <= j < n.len() ==> s[k + j] == n[j])
}

/// `n` occurs somewhere in `s`.
pub open spec fn contains_spec(s: Seq<char>, n: Seq<char>) -> bool {
    exists|k: int| match_at(s, n, k)
}

fn match_at_exec(s: &str, n: &str, k: usize) -> (b: bool)
    requires
        k + n@.len() <= s@.len(),
    ensures
        b == match_at(s@, n@, k as int),
{
    let sl: usize = s.unicode_len();
    let nl: usize = n.unicode_len();
    let mut j: usize = 0;
    while j < nl
        invariant
            j <= nl,
            nl == n@.len(),
            sl == s@.len(),
            k + nl <= sl,
            forall|q: int| 0 <= q < j ==> s@[k + q] == n@[q],
        decreases nl - j,
    {
        if s.get_char(k + j) != n.get_char(j) {
            return false;
        }
        j = j + 1;
    }
    true
}

/// Whether `n` occurs as a substring of `s`.
pub fn contains_str(s: &str, n: &str) -> (b: bool)
    ensures
        b == contains_spec(s@, n@),
{
    let sl: usize = s.unicode_len();
    let nl: usize = n.unicode_len();
    if nl > sl {
        proof {
            assert(!contains_spec(s@, n@)) by {
                if contains_spec(s@, n@) {
                    let k = choose|k: int| match_at(s@, n@, k);
                    assert(k + n@.len() <= s@.len());
                }
            }
        }
        return false;
    }
    let mut i: usize = 0;
    while i <= sl - nl
        invariant
            nl <= sl,
            sl == s@.len(),
            nl == n@.len(),
            forall|k: int| 0 <= k < i ==> !match_at(s@, n@, k),
        decreases sl - i,
    {
        if match_at_exec(s, n, i) {
            return true;
        }
        i = i + 1;
    }
    proof {
        assert(!contains_spec(s@, n@)) by {
            if contains_spec(s@, n@) {
                let k = choose|k: int| match_at(s@, n@, k);
                assert(k + n@.len() <= s@.len());
                assert(k < i);
            }
        }
    }
    false
}

/// Whether `s` and `t` hold the same characters.
pub fn str_eq(s: &str, t: &str) -> (b: bool)
    ensures
        b == (s@ == t@),
{
    let sl: usize = s.unicode_len();
    let tl: usize = t.unicode_len();
    if sl != tl {
        return false;
    }
    let b = starts_with_str(s, t);
    proof {
        if b {
            assert(s@ =~= t@);
        } else {
            if s@ == t@ {
                assert(starts_with_spec(s@, t@));
            }
        }
    }
    b
}

/// Index of the first occurrence of `c` in `s`, if any.
pub open spec fn idx_of(s: Seq<char>, c: char) -> Option<int>
    decreases s.len(),
{
    if s.len() == 0 {
        None
    } else if s[0] == c {
        Some(0int)
    } else {
        match idx_of(s.drop_first(), c) {
            Some(i) => Some(i + 1),
            None => None,
        }
    }
}

/// `idx_of` finds exactly the first occurrence.
pub proof fn lemma_idx_of(s: Seq<char>, c: char)
    ensures
        match idx_of(s, c) {
            Some(i) => 0 <= i < s.len() && s[i] == c && (forall|j: int| 0 <= j < i ==> s[j] != c),
            None => forall|j: int| 0 <= j < s.len() ==> s[j] != c,
        },
    decreases s.len(),
{
    if s.len() == 0 {
    } else if s[0] == c {
    } else {
        let t = s.drop_first();
        lemma_idx_of(t, c);
        match idx_of(t, c) {
            Some(i) => {
                assert forall|j: int| 0 <= j < i + 1 implies s[j] != c by {
                    if j > 0 {
                        assert(t[j - 1] != c);
                        assert(s[j] == t[j - 1]);
                    }
                }
            },
            None => {
                assert forall|j: int| 0 <= j < s.len() implies s[j] != c by {
                    if j > 0 {
                        assert(t[j - 1] != c);
                        assert(s[j] == t[j - 1]);
                    }
                }
            },
        }
    }
}

/// A character that occurs nowhere in `s` is never found.
pub proof fn lemma_idx_of_absent(s: Seq<char>, c: char)
    requires
        forall|i: int| 0 <= i < s.len() ==> s[i] != c,
    ensures
        idx_of(s, c) is None,
{
    lemma_idx_of(s, c);
    match idx_of(s, c) {
        Some(i) => {
            assert(s[i] != c);
        },
        None => {},
    }
}

/// Where `c` occurs nowhere in `a`, its first occurrence in `a + <c> + b`
/// is the position right after `a`.
pub proof fn lemma_idx_of_beyond(a: Seq<char>, b: Seq<char>, c: char)
    requires
        forall|i: int| 0 <= i < a.len() ==> a[i] != c,
    ensures
        idx_of(a + seq![c] + b, c) == Some(a.len() as int),
{
    let s = a + seq![c] + b;
    lemma_idx_of(s, c);
    assert(s[a.len() as int] == c);
    match idx_of(s, c) {
        Some(i) => {
            if i < a.len() {
                assert(s[i] == a[i]);
            } else if i > a.len() {
                assert(s[a.len() as int] != c);
            }
        },
        None => {
            assert(s[a.len() as int] != c);
        },
    }
}

/// First index of `c` in `s`.
pub fn find_char(s: &str, c: char) -> (r: Option<usize>)
    ensures
        idx_of(s@, c) == match r {
            Some(i) => Some(i as int),
            None => None::<int>,
        },
        r is Some ==> r->Some_0 < s@.len(),
{
    let n: usize = s.unicode_len();
    let mut i: usize = 0;
    while i < n
        invariant
            i <= n,
            n == s@.len(),
            forall|j: int| 0 <= j < i ==> s@[j] != c,
        decreases n - i,
    {
        if s.get_char(i) == c {
            proof {
                lemma_idx_of(s@, c);
                match idx_of(s@, c) {
                    Some(k) => {
                        assert(!(k < (i as int)));
                        assert(!((i as int) < k));
                    },
                    None => {
                        assert(s@[i as int] != c);
                    },
                }
            }
            return Some(i);
        }
        i = i + 1;
    }
    proof {
        lemma_idx_of(s@, c);
    }
    None
}

/// The pieces of `s` before and after the first occurrence of `c`.
pub open spec fn split_once_spec(s: Seq<char>, c: char) -> Option<(Seq<char>, Seq<char>)> {
    match idx_of(s, c) {
        Some(i) => Some((s.take(i), s.skip(i + 1))),
        None => None,
    }
}

/// Splits `s` at the first occurrence of `c`, which is dropped.
pub fn split_once_str<'a>(s: &'a str, c: char) -> (r: Option<(&'a str, &'a str)>)
    ensures
        match r {
            Some(p) => split_once_spec(s@, c) == Some((p.0@, p.1@)),
            None => split_once_spec(s@, c) is None,
        },
{
    match find_char(s, c) {
        Some(i) => {
            let n: usize = s.unicode_len();
            let a = s.substring_char(0, i);
            let b = s.substring_char(i + 1, n);
            proof {
                assert(a@ =~= s@.take(i as int));
                assert(b@ =~= s@.skip(i as int + 1));
            }
            Some((a, b))
        },
        None => None,
    }
}

/// The text between the first colon of `s` and the second colon or the end:
/// the value part of a `key: value` line.
pub open spec fn after_colon(s: Seq<char>) -> Option<Seq<char>> {
    match idx_of(s, ':') {
        Some(i) => {
            let rest = s.skip(i + 1);
            match idx_of(rest, ':') {
                Some(j) => Some(rest.take(j)),
                None => Some(rest),
            }
        },
        None => None,
    }
}

/// Extracts the value part of a `key: value` line.
pub fn after_colon_str<'a>(s: &'a str) -> (r: Option<&'a str>)
    ensures
        match r {
            Some(t) => after_colon(s@) == Some(t@),
            None => after_colon(s@) is None,
        },
{
    match split_once_str(s, ':') {
        Some(p) => {
            let rest = p.1;
            match find_char(rest, ':') {
                Some(j) => {
                    let t = rest.substring_char(0, j);
                    proof {
                        assert(t@ =~= rest@.take(j as int));
                    }
                    Some(t)
                },
                None => Some(rest),
            }
        },
        None => None,
    }
}

/// `s` without trailing occurrences of `c`.
pub open spec fn strip_back(s: Seq<char>, c: char) -> Seq<char>
    decreases s.len(),
{
    if s.len() > 0 && s.last() == c {
        strip_back(s.drop_last(), c)
    } else {
        s
    }
}

/// `s` without leading occurrences of `c`.
pub open spec fn strip_front(s: Seq<char>, c: char) -> Seq<char>
    decreases s.len(),
{
    if s.len() > 0 && s[0] == c {
        strip_front(s.drop_first(), c)
    } else {
        s
    }
}

/// Removes all trailing occurrences of `c` from `s`.
pub fn strip_back_str<'a>(s: &'a str, c: char) -> (t: &'a str)
    ensures
        t@ == strip_back(s@, c),
{
    let n: usize = s.unicode_len();
    let mut b: usize = n;
    proof {
        assert(s@.take(n as int) =~= s@);
    }
    while b > 0 && s.get_char(b - 1) == c
        invariant
            b <= n,
            n == s@.len(),
            strip_back(s@, c) == strip_back(s@.take(b as int), c),
        decreases b,
    {
        proof {
            assert(s@.take(b as int).last() == s@[b - 1]);
            assert(s@.take(b as int).drop_last() =~= s@.take(b - 1));
        }
        b = b - 1;
    }
    proof {
        if b > 0 {
            assert(s@.take(b as int).last() == s@[b - 1]);
            assert(strip_back(s@.take(b as int), c) == s@.take(b as int));
        } else {
            assert(s@.take(0) =~= Seq::<char>::empty());
        }
    }
    let t = s.substring_char(0, b);
    proof {
        assert(t@ =~= s@.take(b as int));
    }
    t
}

/// Removes all leading occurrences of `c` from `s`.
pub fn strip_front_str<'a>(s: &'a str, c: char) -> (t: &'a str)
    ensures
        t@ == strip_front(s@, c),
{
    let n: usize = s.unicode_len();
    let mut a: usize = 0;
    proof {
        assert(s@.skip(0) =~= s@);
    }
    while a < n && s.get_char(a) == c
        invariant
            a <= n,
            n == s@.len(),
            strip_front(s@, c) == strip_front(s@.skip(a as int), c),
        decreases n - a,
    {
        proof {
            assert(s@.skip(a as int).drop_first() =~= s@.skip(a as int + 1));
        }
        a = a + 1;
    }
    proof {
        if a == n {
            assert(s@.skip(a as int) =~= Seq::<char>::empty());
        }
    }
    let t = s.substring_char(a, n);
    proof {
        assert(t@ =~= s@.skip(a as int));
    }
    t
}

/// A decimal digit.
pub open spec fn is_digit(c: char) -> bool {
    '0' <= c && c <= '9'
}

/// The numeric value of a digit character.
pub open spec fn digit_val(c: char) -> nat {
    ((c as int) - ('0' as int)) as nat
}

/// Every character of `s` is a decimal digit.
pub open spec fn all_digits(s: Seq<char>) -> bool {
    forall|i: int| 0 <= i < s.len() ==> is_digit(s[i])
}

/// The number written by the digit string `s`, most significant digit first.
pub open spec fn digits_val(s: Seq<char>) -> nat
    decreases s.len(),
{
    if s.len() == 0 {
        0
    } else {
        digits_val(s.drop_last()) * 10 + digit_val(s.last())
    }
}

/// A digit string's value only grows as digits are appended.
pub proof fn lemma_digits_val_take_le(s: Seq<char>, k: int)
    requires
        0 <= k <= s.len(),
    ensures
        digits_val(s.take(k)) <= digits_val(s),
    decreases s.len(),
{
    if k == s.len() {
        assert(s.take(k) =~= s);
    } else {
        let t = s.drop_last();
        assert(s.take(k) =~= t.take(k));
        lemma_digits_val_take_le(t, k);
        assert(digits_val(t) * 10 >= digits_val(t));
    }
}

/// What `s` parses to as a decimal `u32`: defined exactly when `s` is a
/// non-empty digit string whose value fits.
pub open spec fn parse_u32_spec(s: Seq<char>) -> Option<u32> {
    if s.len() > 0 && all_digits(s) && digits_val(s) <= u32::MAX {
        Some(digits_val(s) as u32)
    } else {
        None
    }
}

/// Parses `s` as a decimal `u32`.
pub fn parse_u32_str(s: &str) -> (r: Option<u32>)
    ensures
        r == parse_u32_spec(s@),
{
    let n: usize = s.unicode_len();
    if n == 0 {
        return None;
    }
    let mut acc: u64 = 0;
    let mut i: usize = 0;
    while i < n
        invariant
            i <= n,
            n == s@.len(),
            n > 0,
            all_digits(s@.take(i as int)),
            acc == digits_val(s@.take(i as int)),
            acc <= u32::MAX,
        decreases n - i,
    {
        let c = s.get_char(i);
        if c < '0' || c > '9' {
            proof {
                assert(!is_digit(s@[i as int]));
            }
            return None;
        }
        let d: u64 = (c as u64) - ('0' as u64);
        acc = acc * 10 + d;
        proof {
            assert(s@.take(i as int + 1).drop_last() =~= s@.take(i as int));
            assert(s@.take(i as int + 1).last() == s@[i as int]);
            assert forall|j: int| 0 <= j < i + 1 implies is_digit(#[trigger] s@.take(i as int + 1)[j]) by {
                if j < i {
                    assert(is_digit(s@.take(i as int)[j]));
                }
            }
        }
        if acc > 0xffff_ffff {
            proof {
                lemma_digits_val_take_le(s@, i as int + 1);
            }
            return None;
        }
        i = i + 1;
    }
    proof {
        assert(s@.take(n as int) =~= s@);
    }
    Some(acc as u32)
}

/// The lines of `s`: the pieces between newline characters, with a final
/// newline closing the last line rather than opening an empty one.
pub open spec fn lines_spec(s: Seq<char>) -> Seq<Seq<char>>
    decreases s.len(),
{
    if s.len() == 0 {
        Seq::empty()
    } else {
        match idx_of(s, '\n') {
            Some(i) => if 0 <= i < s.len() {
                seq![s.take(i)] + lines_spec(s.skip(i + 1))
            } else {
                seq![s]
            },
            None => seq![s],
        }
    }
}

/// Splits `s` into its lines.
pub fn split_lines(s: &str) -> (v: Vec<String>)
    ensures
        v.deep_view() == lines_spec(s@),
{
    let mut v: Vec<String> = Vec::new();
    let n: usize = s.unicode_len();
    let mut pos: usize = 0;
    proof {
        assert(s@.skip(0) =~= s@);
        assert(v.deep_view() + lines_spec(s@) =~= lines_spec(s@));
    }
    while pos < n
        invariant
            pos <= n,
            n == s@.len(),
            lines_spec(s@) == v.deep_view() + lines_spec(s@.skip(pos as int)),
        decreases n - pos,
    {
        let ghost dv0 = v.deep_view();
        let rest = s.substring_char(pos, n);
        proof {
            assert(rest@ =~= s@.skip(pos as int));
        }
        match find_char(rest, '\n') {
            Some(i) => {
                let line = rest.substring_char(0, i).to_owned();
                v.push(line);
                pos = pos + i + 1;
                proof {
                    assert(line@ =~= rest@.take(i as int));
                    assert(rest@.skip(i as int + 1) =~= s@.skip(pos as int));
                    assert(lines_spec(rest@) == seq![line@] + lines_spec(s@.skip(pos as int)));
                    assert(v.deep_view() =~= dv0.push(line@));
                    assert(dv0 + (seq![line@] + lines_spec(s@.skip(pos as int))) =~= dv0.push(
                        line@,
                    ) + lines_spec(s@.skip(pos as int)));
                }
            },
            None => {
                let line = rest.to_owned();
                v.push(line);
                pos = n;
                proof {
                    assert(lines_spec(rest@) == seq![line@]);
                    assert(v.deep_view() =~= dv0.push(line@));
                    assert(s@.skip(n as int) =~= Seq::<char>::empty());
                    assert(dv0 + seq![line@] =~= dv0.push(line@) + lines_spec(
                        s@.skip(n as int),
                    ));
                }
            },
        }
    }
    proof {
        assert(s@.skip(pos as int) =~= Seq::<char>::empty());
        assert(v.deep_view() + lines_spec(s@.skip(pos as int)) =~= v.deep_view());
    }
    v
}

/// The length of the whitespace-free token at the front of `s`.
pub open spec fn token_len(s: Seq<char>) -> nat
    decreases s.len(),
{
    if s.len() == 0 || is_space(s[0]) {
        0
    } else {
        1 + token_len(s.drop_first())
    }
}

/// The whitespace-separated tokens of `s`, in order.
pub open spec fn tokens_of(s: Seq<char>) -> Seq<Seq<char>>
    decreases s.len(),
{
    if s.len() == 0 {
        Seq::empty()
    } else if is_space(s[0]) {
        tokens_of(s.drop_first())
    } else {
        let k = token_len(s);
        if 1 <= k <= s.len() {
            seq![s.take(k as int)] + tokens_of(s.skip(k as int))
        } else {
            // token_len is between 1 and the length here, so this is never taken
            seq![s]
        }
    }
}

/// Splits `s` into its whitespace-separated tokens.
pub fn tokenize(s: &str) -> (v: Vec<String>)
    ensures
        v.deep_view() == tokens_of(s@),
{
    let mut v: Vec<String> = Vec::new();
    let n: usize = s.unicode_len();
    let mut pos: usize = 0;
    proof {
        assert(s@.skip(0) =~= s@);
        assert(v.deep_view() + tokens_of(s@) =~= tokens_of(s@));
    }
    while pos < n
        invariant
            pos <= n,
            n == s@.len(),
            tokens_of(s@) == v.deep_view() + tokens_of(s@.skip(pos as int)),
        decreases n - pos,
    {
        if is_space_exec(s.get_char(pos)) {
            proof {
                assert(s@.skip(pos as int).drop_first() =~= s@.skip(pos as int + 1));
            }
            pos = pos + 1;
        } else {
            let ghost dv0 = v.deep_view();
            let ghost u = s@.skip(pos as int);
            let mut end: usize = pos;
            while end < n && !is_space_exec(s.get_char(end))
                invariant
                    pos <= end <= n,
                    n == s@.len(),
                    u == s@.skip(pos as int),
                    token_len(u) == end - pos + token_len(s@.skip(end as int)),
                decreases n - end,
            {
                proof {
                    assert(s@.skip(end as int)[0] == s@[end as int]);
                    assert(s@.skip(end as int).drop_first() =~= s@.skip(end as int + 1));
                }
                end = end + 1;
            }
            proof {
                if end < n {
                    assert(s@.skip(end as int)[0] == s@[end as int]);
                    assert(token_len(s@.skip(end as int)) == 0);
                } else {
                    assert(s@.skip(end as int) =~= Seq::<char>::empty());
                    assert(token_len(s@.skip(end as int)) == 0);
                }
                assert(u[0] == s@[pos as int]);
                assert(token_len(u) >= 1);
            }
            let tok = s.substring_char(pos, end).to_owned();
            v.push(tok);
            proof {
                let k = token_len(u) as int;
                assert(k == end - pos);
                assert(tok@ =~= u.take(k));
                assert(u.skip(k) =~= s@.skip(end as int));
                assert(tokens_of(u) == seq![tok@] + tokens_of(s@.skip(end as int)));
                assert(v.deep_view() =~= dv0.push(tok@));
                assert(dv0 + (seq![tok@] + tokens_of(s@.skip(end as int))) =~= dv0.push(tok@)
                    + tokens_of(s@.skip(end as int)));
            }
            pos = end;
        }
    }
    proof {
        assert(s@.skip(pos as int) =~= Seq::<char>::empty());
        assert(v.deep_view() + tokens_of(s@.skip(pos as int)) =~= v.deep_view());
    }
    v
}

/// What `s` parses to as a decimal `i32`: an optional minus sign, then a
/// non-empty digit string whose value fits.
pub open spec fn parse_i32_spec(s: Seq<char>) -> Option<i32> {
    if s.len() > 0 && s[0] == '-' {
        let m = s.drop_first();
        if m.len() > 0 && all_digits(m) && digits_val(m) <= 0x8000_0000 {
            Some((0 - digits_val(m)) as i32)
        } else {
            None
        }
    } else if s.len() > 0 && all_digits(s) && digits_val(s) <= 0x7fff_ffff {
        Some(digits_val(s) as i32)
    } else {
        None
    }
}

/// Parses `s` as a decimal `i32`.
pub fn parse_i32_str(s: &str) -> (r: Option<i32>)
    ensures
        r == parse_i32_spec(s@),
{
    let n: usize = s.unicode_len();
    if n == 0 {
        return None;
    }
    if s.get_char(0) == '-' {
        let m = s.substring_char(1, n);
        proof {
            assert(m@ =~= s@.drop_first());
        }
        match parse_u32_str(m) {
            Some(v) => {
                if v <= 0x8000_0000 {
                    if v == 0x8000_0000 {
                        Some(i32::MIN)
                    } else {
                        Some(-(v as i32))
                    }
                } else {
                    None
                }
            },
            None => {
                proof {
                    if m@.len() > 0 && all_digits(m@) && digits_val(m@) <= 0x8000_0000 {
                        assert(digits_val(m@) <= u32::MAX);
                    }
                }
                None
            },
        }
    } else {
        match parse_u32_str(s) {
            Some(v) => {
                if v <= 0x7fff_ffff {
                    Some(v as i32)
                } else {
                    None
                }
            },
            None => None,
        }
    }
}

} // verus!
