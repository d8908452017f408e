//! String utilities with exact contracts: substring search, whitespace
//! handling, splitting, and decimal conversion, all stated over `Seq<char>`.

use vstd::prelude::*;
use vstd::string::*;

verus! {

/// ASCII whitespace as the parsers here understand it.
pub open spec fn is_ws(c: char) -> bool {
    c == ' ' || c == '\t' || c == '\n' || c == '\r'
}

/// `pat` occurs in `s` starting at position `i`.
pub open spec fn match_at(s: Seq<char>, pat: Seq<char>, i: int) -> bool {
    0 <= i && i + pat.len() <= s.len() && s.subrange(i, i + pat.len() as int) == pat
}

/// `pat` occurs somewhere in `s`.
pub open spec fn contains_seq(s: Seq<char>, pat: Seq<char>) -> bool {
    exists|i: int| match_at(s, pat, i)
}

fn match_range(s: &str, i: usize, pat: &str) -> (r: bool)
    requires
        i + pat@.len() <= s@.len(),
        s@.len() <= usize::MAX,
    ensures
        r == match_at(s@, pat@, i as int),
{
    let m: usize = pat.unicode_len();
    let mut j: usize = 0;
    while j < m
        invariant
            j <= m,
            m == pat@.len(),
            i + m <= s@.len(),
            s@.len() <= usize::MAX,
            forall|k: int| 0 <= k < j ==> s@[i + k] == pat@[k],
        decreases m - j,
    {
        if s.get_char(i + j) != pat.get_char(j) {
            assert(!match_at(s@, pat@, i as int)) by {
                if s@.subrange(i as int, i + m as int) == pat@ {
                    assert(s@.subrange(i as int, i + m as int)[j as int] == pat@[j as int]);
                }
            }
            return false;
        }
        j += 1;
    }
    assert(s@.subrange(i as int, i + m as int) =~= pat@);
    true
}

/// Position of the first occurrence of `pat` in `s`, if any.
pub fn find_sub(s: &str, pat: &str) -> (r: Option<usize>)
    ensures
        match r {
            Some(i) => match_at(s@, pat@, i as int) && (forall|j: int|
                0 <= j < i ==> !match_at(s@, pat@, j)),
            None => forall|j: int| !match_at(s@, pat@, j),
        },
{
    let n: usize = s.unicode_len();
    let m: usize = pat.unicode_len();
    if m > n {
        return None;
    }
    if m == 0 {
        assert(s@.subrange(0, 0) =~= pat@);
        return Some(0);
    }
    let mut i: usize = 0;
    while i <= n - m
        invariant
            m == pat@.len(),
            n == s@.len(),
            1 <= m <= n,
            i <= n - m + 1,
            forall|j: int| 0 <= j < i ==> !match_at(s@, pat@, j),
        decreases n - i,
    {
        if match_range(s, i, pat) {
            return Some(i);
        }
        i += 1;
    }
    None
}

/// Position of the last occurrence of `pat` in `s`, if any.
pub fn rfind_sub(s: &str, pat: &str) -> (r: Option<usize>)
    ensures
        match r {
            Some(i) => match_at(s@, pat@, i as int) && (forall|j: int|
                i < j ==> !match_at(s@, pat@, j)),
            None => forall|j: int| !match_at(s@, pat@, j),
        },
{
    let n: usize = s.unicode_len();
    let m: usize = pat.unicode_len();
    if m > n {
        return None;
    }
    if m == 0 {
        assert(s@.subrange(n as int, n as int) =~= pat@);
        return Some(n);
    }
    let mut i: usize = n - m + 1;
    while i > 0
        invariant
            m == pat@.len(),
            n == s@.len(),
            m <= n,
            i <= n - m + 1,
            forall|j: int| i <= j ==> !match_at(s@, pat@, j),
        decreases i,
    {
        i -= 1;
        if match_range(s, i, pat) {
            return Some(i);
        }
    }
    None
}

/// Whether `pat` is a prefix of `s`.
pub fn starts_with(s: &str, pat: &str) -> (r: bool)
    ensures
        r == match_at(s@, pat@, 0),
{
    let n: usize = s.unicode_len();
    let m: usize = pat.unicode_len();
    if m > n {
        return false;
    }
    match_range(s, 0, pat)
}

/// Whether `pat` occurs anywhere in `s`.
pub fn contains_sub(s: &str, pat: &str) -> (r: bool)
    ensures
        r == contains_seq(s@, pat@),
{
    match find_sub(s, pat) {
        Some(_) => true,
        None => false,
    }
}

fn is_ws_exec(c: char) -> (r: bool)
    ensures
        r == is_ws(c),
{
    c == ' ' || c == '\t' || c == '\n' || c == '\r'
}

/// `s` with leading whitespace removed.
pub open spec fn trim_start_spec(s: Seq<char>) -> Seq<char>
    decreases s.len(),
{
    if s.len() > 0 && is_ws(s[0]) {
        trim_start_spec(s.drop_first())
    } else {
        s
    }
}

/// `s` with trailing whitespace removed.
pub open spec fn trim_end_spec(s: Seq<char>) -> Seq<char>
    decreases s.len(),
{
    if s.len() > 0 && is_ws(s.last()) {
        trim_end_spec(s.drop_last())
    } else {
        s
    }
}

/// `s` with whitespace removed from both ends.
pub open spec fn trim_spec(s: Seq<char>) -> Seq<char> {
    trim_end_spec(trim_start_spec(s))
}

proof fn lemma_trim_start_at(s: Seq<char>, k: int)
    requires
        0 <= k <= s.len(),
        forall|j: int| 0 <= j < k ==> is_ws(s[j]),
        k == s.len() || !is_ws(s[k]),
    ensures
        trim_start_spec(s) == s.subrange(k, s.len() as int),
    decreases k,
{
    if k == 0 {
        assert(s.subrange(0, s.len() as int) =~= s);
    } else {
        assert(is_ws(s[0]));
        let t = s.drop_first();
        assert(forall|j: int| 0 <= j < k - 1 ==> is_ws(#[trigger] t[j]));
        lemma_trim_start_at(t, k - 1);
        assert(t.subrange(k - 1, t.len() as int) =~= s.subrange(k, s.len() as int));
    }
}

proof fn lemma_trim_end_at(s: Seq<char>, k: int)
    requires
        0 <= k <= s.len(),
        forall|j: int| k <= j < s.len() ==> is_ws(s[j]),
        k == 0 || !is_ws(s[k - 1]),
    ensures
        trim_end_spec(s) == s.subrange(0, k),
    decreases s.len(),
{
    if k == s.len() {
        if s.len() == 0 || !is_ws(s.last()) {
            assert(s.subrange(0, k) =~= s);
        } else {
            assert(false);
        }
    } else {
        assert(is_ws(s.last()));
        let t = s.drop_last();
        lemma_trim_end_at(t, k);
        assert(t.subrange(0, k) =~= s.subrange(0, k));
    }
}

/// Removes leading and trailing whitespace, as `trim_spec` describes.
pub fn trim(s: &str) -> (r: &str)
    ensures
        r@ == trim_spec(s@),
{
    let n: usize = s.unicode_len();
    let mut a: usize = 0;
    while a < n && is_ws_exec(s.get_char(a))
        invariant
            a <= n,
            n == s@.len(),
            forall|j: int| 0 <= j < a ==> is_ws(s@[j]),
        decreases n - a,
    {
        a += 1;
    }
    if a == n {
        proof {
            lemma_trim_start_at(s@, n as int);
            assert(trim_start_spec(s@) =~= Seq::<char>::empty());
        }
        return s.substring_char(n, n);
    }
    let mut b: usize = n;
    while b > a && is_ws_exec(s.get_char(b - 1))
        invariant
            a <= b <= n,
            n == s@.len(),
            forall|j: int| b <= j < n ==> is_ws(s@[j]),
        decreases b,
    {
        b -= 1;
    }
    proof {
        lemma_trim_start_at(s@, a as int);
        let t = s@.subrange(a as int, n as int);
        assert(!is_ws(s@[a as int]));
        assert(b > a) by {
            if b == a {
                assert(is_ws(s@[a as int]));
            }
        }
        assert(!is_ws(s@[b - 1]));
        assert(forall|j: int| b - a <= j < t.len() ==> is_ws(#[trigger] t[j]));
        assert(!is_ws(t[b - a - 1]));
        lemma_trim_end_at(t, b - a);
        assert(t.subrange(0, b - a) =~= s@.subrange(a as int, b as int));
    }
    s.substring_char(a, b)
}

/// The pieces of `s` between occurrences of the separator `sep`; an empty
/// input yields one empty piece, as `str::split` does.
pub open spec fn split_spec(s: Seq<char>, sep: char) -> Seq<Seq<char>>
    decreases s.len(),
{
    if s.len() == 0 {
        seq![Seq::<char>::empty()]
    } else if s[0] == sep {
        seq![Seq::<char>::empty()] + split_spec(s.drop_first(), sep)
    } else {
        let rest = split_spec(s.drop_first(), sep);
        seq![seq![s[0]] + rest[0]] + rest.drop_first()
    }
}

pub proof fn lemma_split_len(s: Seq<char>, sep: char)
    ensures
        split_spec(s, sep).len() >= 1,
    decreases s.len(),
{
    if s.len() > 0 {
        lemma_split_len(s.drop_first(), sep);
    }
}

proof fn lemma_split_no_sep(s: Seq<char>, sep: char)
    requires
        forall|j: int| 0 <= j < s.len() ==> s[j] != sep,
    ensures
        split_spec(s, sep) == seq![s],
    decreases s.len(),
{
    if s.len() == 0 {
        assert(s =~= Seq::<char>::empty());
        assert(seq![Seq::<char>::empty()] =~= seq![s]);
    } else {
        let t = s.drop_first();
        lemma_split_no_sep(t, sep);
        lemma_split_len(t, sep);
        assert(seq![s[0]] + t =~= s);
        assert(seq![seq![s[0]] + t] + split_spec(t, sep).drop_first() =~= seq![s]);
    }
}

proof fn lemma_split_first_sep(s: Seq<char>, sep: char, i: int)
    requires
        0 <= i < s.len(),
        s[i] == sep,
        forall|j: int| 0 <= j < i ==> s[j] != sep,
    ensures
        split_spec(s, sep) == seq![s.subrange(0, i)] + split_spec(
            s.subrange(i + 1, s.len() as int),
            sep,
        ),
    decreases i,
{
    if i == 0 {
        assert(s.subrange(0, 0) =~= Seq::<char>::empty());
        assert(s.drop_first() =~= s.subrange(1, s.len() as int));
        assert(seq![Seq::<char>::empty()] =~= seq![s.subrange(0, 0)]);
    } else {
        let t = s.drop_first();
        assert(t[i - 1] == sep);
        lemma_split_first_sep(t, sep, i - 1);
        lemma_split_len(t, sep);
        let rest = split_spec(t, sep);
        assert(rest[0] == t.subrange(0, i - 1));
        assert(rest.drop_first() =~= split_spec(t.subrange(i, t.len() as int), sep));
        assert(t.subrange(i, t.len() as int) =~= s.subrange(i + 1, s.len() as int));
        assert(seq![s[0]] + t.subrange(0, i - 1) =~= s.subrange(0, i));
        assert(seq![seq![s[0]] + rest[0]] + rest.drop_first() =~= seq![s.subrange(0, i)]
            + split_spec(s.subrange(i + 1, s.len() as int), sep));
    }
}

/// Splits `s` at every occurrence of `sep`, exactly as `split_spec` says.
pub fn split_char(s: &str, sep: char) -> (r: Vec<String>)
    ensures
        r.deep_view() == split_spec(s@, sep),
{
    let n: usize = s.unicode_len();
    let mut out: Vec<String> = Vec::new();
    proof {
        assert(out.deep_view() =~= Seq::<Seq<char>>::empty());
        assert(s@.subrange(0, n as int) =~= s@);
        assert(out.deep_view() + split_spec(s@, sep) =~= split_spec(s@, sep));
    }
    let mut start: usize = 0;
    let mut i: usize = 0;
    while i < n
        invariant
            start <= i <= n,
            n == s@.len(),
            forall|j: int| start <= j < i ==> s@[j] != sep,
            split_spec(s@, sep) == out.deep_view() + split_spec(
                s@.subrange(start as int, n as int),
                sep,
            ),
        decreases n - i,
    {
        if s.get_char(i) == sep {
            let piece = s.substring_char(start, i);
            proof {
                let tail = s@.subrange(start as int, n as int);
                assert(tail[i - start] == sep);
                assert(forall|j: int| 0 <= j < i - start ==> #[trigger] tail[j] != sep);
                lemma_split_first_sep(tail, sep, i - start);
                assert(tail.subrange(0, i - start) =~= s@.subrange(start as int, i as int));
                assert(tail.subrange(i - start + 1, tail.len() as int) =~= s@.subrange(
                    i + 1,
                    n as int,
                ));
            }
            let ghost old_dv = out.deep_view();
            out.push(String::from_str(piece));
            proof {
                assert(out.deep_view() =~= old_dv + seq![s@.subrange(start as int, i as int)]);
                assert(out.deep_view() + split_spec(s@.subrange(i + 1, n as int), sep) =~= old_dv
                    + (seq![s@.subrange(start as int, i as int)] + split_spec(
                    s@.subrange(i + 1, n as int),
                    sep,
                )));
            }
            start = i + 1;
        }
        i += 1;
    }
    let piece = s.substring_char(start, n);
    proof {
        let tail = s@.subrange(start as int, n as int);
        assert(forall|j: int| 0 <= j < tail.len() ==> #[trigger] tail[j] != sep);
        lemma_split_no_sep(tail, sep);
    }
    let ghost old_dv = out.deep_view();
    out.push(String::from_str(piece));
    proof {
        assert(out.deep_view() =~= old_dv + seq![s@.subrange(start as int, n as int)]);
    }
    out
}

/// The maximal runs of non-whitespace characters in `s`, in order, as
/// `str::split_whitespace` yields them.
pub open spec fn ws_tokens(s: Seq<char>) -> Seq<Seq<char>>
    decreases s.len(),
{
    if s.len() == 0 {
        Seq::<Seq<char>>::empty()
    } else if is_ws(s[0]) {
        ws_tokens(s.drop_first())
    } else {
        let rest = ws_tokens(s.drop_first());
        if s.len() > 1 && !is_ws(s[1]) {
            seq![seq![s[0]] + rest[0]] + rest.drop_first()
        } else {
            seq![seq![s[0]]] + rest
        }
    }
}

proof fn lemma_ws_tokens_nonempty(s: Seq<char>)
    requires
        s.len() > 0,
        !is_ws(s[0]),
    ensures
        ws_tokens(s).len() >= 1,
{
}

proof fn lemma_ws_tokens_skip_ws(s: Seq<char>, k: int)
    requires
        0 <= k <= s.len(),
        forall|j: int| 0 <= j < k ==> is_ws(s[j]),
    ensures
        ws_tokens(s) == ws_tokens(s.subrange(k, s.len() as int)),
    decreases k,
{
    if k == 0 {
        assert(s.subrange(0, s.len() as int) =~= s);
    } else {
        let t = s.drop_first();
        lemma_ws_tokens_skip_ws(t, k - 1);
        assert(t.subrange(k - 1, t.len() as int) =~= s.subrange(k, s.len() as int));
    }
}

proof fn lemma_ws_tokens_take_token(s: Seq<char>, k: int)
    requires
        1 <= k <= s.len(),
        forall|j: int| 0 <= j < k ==> !is_ws(s[j]),
        k == s.len() || is_ws(s[k]),
    ensures
        ws_tokens(s) == seq![s.subrange(0, k)] + ws_tokens(s.subrange(k, s.len() as int)),
    decreases k,
{
    let t = s.drop_first();
    if k == 1 {
        assert(seq![s[0]] =~= s.subrange(0, 1));
        assert(t =~= s.subrange(1, s.len() as int));
        if s.len() > 1 && !is_ws(s[1]) {
            assert(false);
        }
    } else {
        assert(!is_ws(t[0]));
        lemma_ws_tokens_take_token(t, k - 1);
        lemma_ws_tokens_nonempty(t);
        let rest = ws_tokens(t);
        assert(rest[0] == t.subrange(0, k - 1));
        assert(rest.drop_first() =~= ws_tokens(t.subrange(k - 1, t.len() as int)));
        assert(t.subrange(k - 1, t.len() as int) =~= s.subrange(k, s.len() as int));
        assert(seq![s[0]] + t.subrange(0, k - 1) =~= s.subrange(0, k));
        assert(seq![seq![s[0]] + rest[0]] + rest.drop_first() =~= seq![s.subrange(0, k)]
            + ws_tokens(s.subrange(k, s.len() as int)));
    }
}

/// Splits `s` into its whitespace-separated tokens, exactly `ws_tokens`.
pub fn split_ws(s: &str) -> (r: Vec<String>)
    ensures
        r.deep_view() == ws_tokens(s@),
{
    let n: usize = s.unicode_len();
    let mut out: Vec<String> = Vec::new();
    proof {
        assert(out.deep_view() =~= Seq::<Seq<char>>::empty());
        assert(s@.subrange(0, n as int) =~= s@);
        assert(out.deep_view() + ws_tokens(s@) =~= ws_tokens(s@));
    }
    let mut i: usize = 0;
    while i < n
        invariant
            i <= n,
            n == s@.len(),
            ws_tokens(s@) == out.deep_view() + ws_tokens(s@.subrange(i as int, n as int)),
        decreases n - i,
    {
        if is_ws_exec(s.get_char(i)) {
            proof {
                let tail = s@.subrange(i as int, n as int);
                lemma_ws_tokens_skip_ws(tail, 1);
                assert(tail.subrange(1, tail.len() as int) =~= s@.subrange(i + 1, n as int));
            }
            i += 1;
        } else {
            let start = i;
            i += 1;
            while i < n && !is_ws_exec(s.get_char(i))
                invariant
                    start < i <= n,
                    n == s@.len(),
                    forall|j: int| start <= j < i ==> !is_ws(s@[j]),
                decreases n - i,
            {
                i += 1;
            }
            let piece = s.substring_char(start, i);
            proof {
                let tail = s@.subrange(start as int, n as int);
                assert(forall|j: int| 0 <= j < i - start ==> !is_ws(#[trigger] tail[j]));
                lemma_ws_tokens_take_token(tail, i - start);
                assert(tail.subrange(0, i - start) =~= s@.subrange(start as int, i as int));
                assert(tail.subrange(i - start, tail.len() as int) =~= s@.subrange(
                    i as int,
                    n as int,
                ));
            }
            let ghost old_dv = out.deep_view();
            out.push(String::from_str(piece));
            proof {
                assert(out.deep_view() =~= old_dv + seq![s@.subrange(start as int, i as int)]);
                assert(out.deep_view() + ws_tokens(s@.subrange(i as int, n as int)) =~= old_dv + (
                seq![s@.subrange(start as int, i as int)] + ws_tokens(
                    s@.subrange(i as int, n as int),
                )));
            }
        }
    }
    proof {
        assert(s@.subrange(n as int, n as int) =~= Seq::<char>::empty());
        assert(out.deep_view() + ws_tokens(Seq::<char>::empty()) =~= out.deep_view());
    }
    out
}

/// Position of the first occurrence of `pat` in `s`, or -1 when `pat` does
/// not occur.
pub open spec fn find_spec(s: Seq<char>, pat: Seq<char>) -> int
    decreases s.len(),
{
    if match_at(s, pat, 0) {
        0
    } else if s.len() == 0 {
        -1
    } else if find_spec(s.drop_first(), pat) == -1 {
        -1
    } else {
        find_spec(s.drop_first(), pat) + 1
    }
}

proof fn lemma_match_at_shift(s: Seq<char>, pat: Seq<char>, i: int)
    requires
        i >= 1,
        s.len() >= 1,
    ensures
        match_at(s, pat, i) == match_at(s.drop_first(), pat, i - 1),
{
    if match_at(s, pat, i) {
        assert(s.drop_first().subrange(i - 1, i - 1 + pat.len() as int) =~= s.subrange(
            i,
            i + pat.len() as int,
        ));
    }
    if match_at(s.drop_first(), pat, i - 1) {
        assert(s.subrange(i, i + pat.len() as int) =~= s.drop_first().subrange(
            i - 1,
            i - 1 + pat.len() as int,
        ));
    }
}

pub proof fn lemma_find_spec_at(s: Seq<char>, pat: Seq<char>, i: int)
    requires
        match_at(s, pat, i),
        forall|j: int| 0 <= j < i ==> !match_at(s, pat, j),
    ensures
        find_spec(s, pat) == i,
    decreases i,
{
    if i == 0 {
    } else {
        assert(!match_at(s, pat, 0));
        assert(s.len() > 0);
        let t = s.drop_first();
        lemma_match_at_shift(s, pat, i);
        assert(forall|j: int| 0 <= j < i - 1 ==> !match_at(t, pat, j)) by {
            assert forall|j: int| 0 <= j < i - 1 implies !match_at(t, pat, j) by {
                lemma_match_at_shift(s, pat, j + 1);
            }
        }
        lemma_find_spec_at(t, pat, i - 1);
    }
}

pub proof fn lemma_find_spec_none(s: Seq<char>, pat: Seq<char>)
    requires
        forall|j: int| !match_at(s, pat, j),
    ensures
        find_spec(s, pat) == -1,
    decreases s.len(),
{
    if s.len() > 0 {
        let t = s.drop_first();
        assert(forall|j: int| !match_at(t, pat, j)) by {
            assert forall|j: int| !match_at(t, pat, j) by {
                if j >= 0 {
                    lemma_match_at_shift(s, pat, j + 1);
                }
            }
        }
        lemma_find_spec_none(t, pat);
    }
}

/// Position of the last occurrence of `pat` in `s`, or -1 when `pat` does
/// not occur.
pub open spec fn rfind_spec(s: Seq<char>, pat: Seq<char>) -> int
    decreases s.len(),
{
    if pat.len() > s.len() {
        -1
    } else if s.len() == 0 {
        0
    } else if match_at(s, pat, s.len() - pat.len()) {
        s.len() - pat.len()
    } else {
        rfind_spec(s.drop_last(), pat)
    }
}

proof fn lemma_match_at_inner(s: Seq<char>, pat: Seq<char>, i: int)
    requires
        i + pat.len() < s.len(),
    ensures
        match_at(s, pat, i) == match_at(s.drop_last(), pat, i),
{
    if match_at(s, pat, i) {
        assert(s.drop_last().subrange(i, i + pat.len() as int) =~= s.subrange(
            i,
            i + pat.len() as int,
        ));
    }
    if match_at(s.drop_last(), pat, i) {
        assert(s.subrange(i, i + pat.len() as int) =~= s.drop_last().subrange(
            i,
            i + pat.len() as int,
        ));
    }
}

pub proof fn lemma_rfind_spec_at(s: Seq<char>, pat: Seq<char>, i: int)
    requires
        match_at(s, pat, i),
        forall|j: int| j > i ==> !match_at(s, pat, j),
    ensures
        rfind_spec(s, pat) == i,
    decreases s.len(),
{
    if i == s.len() - pat.len() {
    } else {
        assert(i + pat.len() < s.len());
        assert(!match_at(s, pat, s.len() - pat.len()));
        let t = s.drop_last();
        lemma_match_at_inner(s, pat, i);
        assert(forall|j: int| j > i ==> !match_at(t, pat, j)) by {
            assert forall|j: int| j > i implies !match_at(t, pat, j) by {
                if j + pat.len() <= t.len() && j >= 0 {
                    lemma_match_at_inner(s, pat, j);
                }
            }
        }
        lemma_rfind_spec_at(t, pat, i);
    }
}

pub proof fn lemma_rfind_spec_none(s: Seq<char>, pat: Seq<char>)
    requires
        forall|j: int| !match_at(s, pat, j),
    ensures
        rfind_spec(s, pat) == -1,
    decreases s.len(),
{
    if pat.len() <= s.len() {
        if s.len() == 0 {
            assert(s.subrange(0, pat.len() as int) =~= pat);
            assert(match_at(s, pat, 0));
        } else {
            let t = s.drop_last();
            assert(forall|j: int| !match_at(t, pat, j)) by {
                assert forall|j: int| !match_at(t, pat, j) by {
                    if j >= 0 && j + pat.len() <= t.len() {
                        lemma_match_at_inner(s, pat, j);
                    }
                }
            }
            lemma_rfind_spec_none(t, pat);
        }
    }
}

/// The first piece of the `sep`-split of `s`: everything before the first
/// separator, or all of `s` when there is none.
pub fn split_first(s: &str, sep: char) -> (r: &str)
    ensures
        r@ == split_spec(s@, sep)[0],
{
    let n: usize = s.unicode_len();
    let mut i: usize = 0;
    while i < n && s.get_char(i) != sep
        invariant
            i <= n,
            n == s@.len(),
            forall|j: int| 0 <= j < i ==> s@[j] != sep,
        decreases n - i,
    {
        i += 1;
    }
    proof {
        lemma_split_len(s@, sep);
        if i < n {
            lemma_split_first_sep(s@, sep, i as int);
        } else {
            lemma_split_no_sep(s@, sep);
            assert(s@.subrange(0, n as int) =~= s@);
        }
    }
    s.substring_char(0, i)
}

/// The text a possibly missing source yielded.
pub open spec fn opt_text(o: Option<String>) -> Option<Seq<char>> {
    match o {
        Some(s) => Some(s@),
        None => None,
    }
}

/// Whether every character of `s` is a decimal digit.
pub fn check_all_digits(s: &str) -> (r: bool)
    ensures
        r == all_digits(s@),
{
    let n: usize = s.unicode_len();
    let mut i: usize = 0;
    while i < n
        invariant
            i <= n,
            n == s@.len(),
            forall|j: int| 0 <= j < i ==> spec_is_digit(s@[j]),
        decreases n - i,
    {
        let c = s.get_char(i);
        if !('0' <= c && c <= '9') {
            return false;
        }
        i += 1;
    }
    true
}

/// A decimal digit.
pub open spec fn spec_is_digit(c: char) -> bool {
    '0' <= c && c <= '9'
}

/// Numeric value of a decimal digit.
pub open spec fn digit_val(c: char) -> nat {
    (c as nat - '0' as nat) as nat
}

/// Every character of `s` is a decimal digit.
pub open spec fn all_digits(s: Seq<char>) -> bool {
    forall|i: int| 0 <= i < s.len() ==> spec_is_digit(s[i])
}

/// The number that the digit string `s` denotes, most significant first.
pub open spec fn digits_val(s: Seq<char>) -> nat
    decreases s.len(),
{
    if s.len() == 0 {
        0
    } else {
        digits_val(s.drop_last()) * 10 + digit_val(s.last())
    }
}

proof fn lemma_digits_val_step(s: Seq<char>, i: int)
    requires
        0 <= i < s.len(),
    ensures
        digits_val(s.subrange(0, i + 1)) == digits_val(s.subrange(0, i)) * 10 + digit_val(s[i]),
{
    let p = s.subrange(0, i + 1);
    assert(p.drop_last() =~= s.subrange(0, i));
    assert(p.last() == s[i]);
}

proof fn lemma_digits_val_prefix_le(s: Seq<char>, i: int)
    requires
        0 <= i <= s.len(),
    ensures
        digits_val(s.subrange(0, i)) <= digits_val(s),
    decreases s.len() - i,
{
    if i == s.len() {
        assert(s.subrange(0, i) =~= s);
    } else {
        lemma_digits_val_step(s, i);
        lemma_digits_val_prefix_le(s, i + 1);
    }
}

/// Parses `s` as an unsigned decimal number: the result is the denoted value
/// exactly when `s` is nonempty, all digits, and the value fits in `u64`.
pub fn parse_u64(s: &str) -> (r: Option<u64>)
    ensures
        r is Some <==> (s@.len() > 0 && all_digits(s@) && digits_val(s@) <= u64::MAX),
        r is Some ==> r->0 == digits_val(s@),
{
    let n: usize = s.unicode_len();
    if n == 0 {
        return None;
    }
    let mut acc: u64 = 0;
    let mut i: usize = 0;
    proof {
        assert(s@.subrange(0, 0) =~= Seq::<char>::empty());
    }
    while i < n
        invariant
            i <= n,
            n == s@.len(),
            forall|j: int| 0 <= j < i ==> spec_is_digit(s@[j]),
            acc == digits_val(s@.subrange(0, i as int)),
        decreases n - i,
    {
        let c = s.get_char(i);
        if !('0' <= c && c <= '9') {
            return None;
        }
        let d: u64 = (c as u32 as u64) - ('0' as u32 as u64);
        if acc > (u64::MAX - d) / 10 {
            proof {
                lemma_digits_val_step(s@, i as int);
                assert(digits_val(s@.subrange(0, i + 1)) > u64::MAX);
                lemma_digits_val_prefix_le(s@, i + 1);
            }
            return None;
        }
        proof {
            lemma_digits_val_step(s@, i as int);
        }
        acc = acc * 10 + d;
        i += 1;
    }
    proof {
        assert(s@.subrange(0, n as int) =~= s@);
    }
    Some(acc)
}

/// The digit character for a value below ten.
pub open spec fn digit_char(d: nat) -> char {
    if d == 0 {
        '0'
    } else if d == 1 {
        '1'
    } else if d == 2 {
        '2'
    } else if d == 3 {
        '3'
    } else if d == 4 {
        '4'
    } else if d == 5 {
        '5'
    } else if d == 6 {
        '6'
    } else if d == 7 {
        '7'
    } else if d == 8 {
        '8'
    } else {
        '9'
    }
}

/// The decimal rendering of `n`, most significant digit first, no sign and
/// no leading zero except for zero itself.
pub open spec fn dec_spec(n: nat) -> Seq<char>
    decreases n,
{
    if n < 10 {
        seq![digit_char(n)]
    } else {
        dec_spec(n / 10).push(digit_char(n % 10))
    }
}

fn digit_str(d: u64) -> (r: &'static str)
    requires
        d < 10,
    ensures
        r@ == seq![digit_char(d as nat)],
{
    if d == 0 {
        proof {
            reveal_strlit("0");
            assert("0"@ =~= seq![digit_char(0)]);
        }
        "0"
    } else if d == 1 {
        proof {
            reveal_strlit("1");
            assert("1"@ =~= seq![digit_char(1)]);
        }
        "1"
    } else if d == 2 {
        proof {
            reveal_strlit("2");
            assert("2"@ =~= seq![digit_char(2)]);
        }
        "2"
    } else if d == 3 {
        proof {
            reveal_strlit("3");
            assert("3"@ =~= seq![digit_char(3)]);
        }
        "3"
    } else if d == 4 {
        proof {
            reveal_strlit("4");
            assert("4"@ =~= seq![digit_char(4)]);
        }
        "4"
    } else if d == 5 {
        proof {
            reveal_strlit("5");
            assert("5"@ =~= seq![digit_char(5)]);
        }
        "5"
    } else if d == 6 {
        proof {
            reveal_strlit("6");
            assert("6"@ =~= seq![digit_char(6)]);
        }
        "6"
    } else if d == 7 {
        proof {
            reveal_strlit("7");
            assert("7"@ =~= seq![digit_char(7)]);
        }
        "7"
    } else if d == 8 {
        proof {
            reveal_strlit("8");
            assert("8"@ =~= seq![digit_char(8)]);
        }
        "8"
    } else {
        proof {
            reveal_strlit("9");
            assert("9"@ =~= seq![digit_char(9)]);
        }
        "9"
    }
}

/// Renders `n` in decimal, exactly `dec_spec`.
pub fn u64_to_dec(n: u64) -> (r: String)
    ensures
        r@ == dec_spec(n as nat),
    decreases n,
{
    if n < 10 {
        String::from_str(digit_str(n))
    } else {
        let mut r = u64_to_dec(n / 10);
        r.append(digit_str(n % 10));
        proof {
            assert(r@ =~= dec_spec((n / 10) as nat).push(digit_char((n % 10) as nat)));
        }
        r
    }
}

/// The pieces of `ps` joined with `sep` between consecutive pieces.
pub open spec fn join_spec(ps: Seq<Seq<char>>, sep: Seq<char>) -> Seq<char>
    decreases ps.len(),
{
    if ps.len() == 0 {
        Seq::<char>::empty()
    } else if ps.len() == 1 {
        ps[0]
    } else {
        ps[0] + sep + join_spec(ps.drop_first(), sep)
    }
}

proof fn lemma_join_push(ps: Seq<Seq<char>>, sep: Seq<char>, x: Seq<char>)
    requires
        ps.len() >= 1,
    ensures
        join_spec(ps.push(x), sep) == join_spec(ps, sep) + sep + x,
    decreases ps.len(),
{
    if ps.len() == 1 {
        let q = ps.push(x);
        assert(q.drop_first() =~= seq![x]);
        assert(q[0] == ps[0]);
        assert(seq![x].len() == 1 && seq![x][0] == x);
        assert(join_spec(seq![x], sep) == x);
        assert(join_spec(q, sep) == ps[0] + sep + x);
    } else {
        lemma_join_push(ps.drop_first(), sep, x);
        let q = ps.push(x);
        assert(q.drop_first() =~= ps.drop_first().push(x));
        assert(join_spec(q, sep) == q[0] + sep + join_spec(ps.drop_first().push(x), sep));
        assert(ps[0] + sep + (join_spec(ps.drop_first(), sep) + sep + x) =~= (ps[0] + sep
            + join_spec(ps.drop_first(), sep)) + sep + x);
    }
}

/// Joins the strings of `v` with the separator `sep`, exactly `join_spec`.
pub fn join(v: &Vec<String>, sep: &str) -> (r: String)
    ensures
        r@ == join_spec(v.deep_view(), sep@),
{
    let mut r = String::new();
    let mut i: usize = 0;
    proof {
        assert(v.deep_view().subrange(0, 0) =~= Seq::<Seq<char>>::empty());
        assert(r@ =~= join_spec(v.deep_view().subrange(0, 0), sep@));
    }
    while i < v.len()
        invariant
            i <= v.len(),
            r@ == join_spec(v.deep_view().subrange(0, i as int), sep@),
        decreases v.len() - i,
    {
        proof {
            assert(v.deep_view().subrange(0, i + 1) =~= v.deep_view().subrange(0, i as int).push(
                v@[i as int]@,
            ));
            if i > 0 {
                lemma_join_push(v.deep_view().subrange(0, i as int), sep@, v@[i as int]@);
            } else {
                assert(v.deep_view().subrange(0, 1) =~= seq![v@[0]@]);
            }
        }
        if i > 0 {
            r.append(sep);
        }
        r.append(v[i].as_str());
        i += 1;
    }
    proof {
        assert(v.deep_view().subrange(0, v.len() as int) =~= v.deep_view());
    }
    r
}

} // verus!
