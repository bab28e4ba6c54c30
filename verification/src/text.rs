//! Character-level string handling shared by the rest of the library.
//!
//! Strings are viewed as `Seq<char>`; the executable helpers work on
//! `Vec<char>` and state their results over those views.
use vstd::prelude::*;

verus! {

// ───────────────────────── character classes ─────────────────────────

/// Whether `c` has the Unicode `White_Space` property (what `char::is_whitespace`
/// reports): U+0009..=U+000D, space, U+0085, U+00A0, U+1680, U+2000..=U+200A, U+2028,
/// U+2029, U+202F, U+205F and U+3000.
pub open spec fn unicode_white_space(c: char) -> bool {
    let u = c as u32;
    (9 <= u && u <= 13) || u == 32 || u == 0x85 || u == 0xA0 || u == 0x1680 || (0x2000 <= u && u
        <= 0x200A) || u == 0x2028 || u == 0x2029 || u == 0x202F || u == 0x205F || u == 0x3000
}

/// Whether `c` is in one of the Unicode numeric categories Nd, Nl or No
/// (what `char::is_numeric` reports).
pub uninterp spec fn unicode_numeric(c: char) -> bool;

/// The Unicode lowercase mapping of a whole string (what `str::to_lowercase` returns).
pub uninterp spec fn unicode_lowercase(s: Seq<char>) -> Seq<char>;

/// Calls `char::is_whitespace`, which reports the Unicode `White_Space` property of `c`.
#[verifier::external_body]
pub(crate) fn char_is_whitespace(c: char) -> (r: bool)
    ensures
        r == unicode_white_space(c),
{
    c.is_whitespace()
}

/// Calls `char::is_numeric`. The result is membership of `c` in the Unicode numeric
/// categories; among ASCII characters those are exactly the digits `0`..=`9`.
#[verifier::external_body]
pub(crate) fn char_is_numeric(c: char) -> (r: bool)
    ensures
        r == unicode_numeric(c),
        (c as u32) < 128 ==> (r <==> (48 <= (c as u32) && (c as u32) <= 57)),
{
    c.is_numeric()
}

/// Calls `str::to_lowercase`. Nothing is stated of the mapping beyond its name: Unicode
/// lowercasing may change the number of characters.
#[verifier::external_body]
pub(crate) fn to_lowercase(s: &str) -> (r: String)
    ensures
        r@ == unicode_lowercase(s@),
{
    s.to_lowercase()
}

/// Calls `String::push`, which appends one character at the end.
#[verifier::external_body]
pub(crate) fn push_char(s: &mut String, c: char)
    ensures
        final(s)@ == old(s)@.push(c),
{
    s.push(c);
}

pub open spec fn is_ascii_digit(c: char) -> bool {
    '0' <= c && c <= '9'
}

pub open spec fn digit_value(c: char) -> nat {
    ((c as int) - 48) as nat
}

pub open spec fn digit_char(d: nat) -> char
    recommends
        d < 10,
{
    ((d + 48) as u32) as char
}

// ───────────────────────── conversions ─────────────────────────

/// The characters of `s`, in order.
pub fn chars_of(s: &str) -> (v: Vec<char>)
    ensures
        v@ == s@,
{
    let mut v: Vec<char> = Vec::new();
    let n = s.unicode_len();
    let mut i: usize = 0;
    while i < n
        invariant
            n == s@.len(),
            i <= n,
            v@ == s@.subrange(0, i as int),
        decreases n - i,
    {
        let c = s.get_char(i);
        v.push(c);
        i = i + 1;
    }
    v
}

/// The string made of the characters `v[from..to]`.
pub fn string_of_range(v: &Vec<char>, from: usize, to: usize) -> (s: String)
    requires
        from <= to <= v@.len(),
    ensures
        s@ == v@.subrange(from as int, to as int),
{
    let mut s = String::new();
    let mut i = from;
    while i < to
        invariant
            from <= i <= to <= v@.len(),
            s@ == v@.subrange(from as int, i as int),
        decreases to - i,
    {
        push_char(&mut s, v[i]);
        i = i + 1;
    }
    s
}

/// The string made of all the characters of `v`.
pub fn string_of(v: &Vec<char>) -> (s: String)
    ensures
        s@ == v@,
{
    let s = string_of_range(v, 0, v.len());
    assert(v@.subrange(0, v@.len() as int) =~= v@);
    s
}

/// A copy of `v[from..to]`.
pub fn sub_vec(v: &Vec<char>, from: usize, to: usize) -> (r: Vec<char>)
    requires
        from <= to <= v@.len(),
    ensures
        r@ == v@.subrange(from as int, to as int),
{
    let mut r: Vec<char> = Vec::new();
    let mut i = from;
    while i < to
        invariant
            from <= i <= to <= v@.len(),
            r@ == v@.subrange(from as int, i as int),
        decreases to - i,
    {
        r.push(v[i]);
        i = i + 1;
    }
    r
}

/// Appends the characters `v[from..to]` to `s`.
pub fn append_range(s: &mut String, v: &Vec<char>, from: usize, to: usize)
    requires
        from <= to <= v@.len(),
    ensures
        final(s)@ == old(s)@ + v@.subrange(from as int, to as int),
{
    let ghost start = s@;
    let mut i = from;
    while i < to
        invariant
            from <= i <= to <= v@.len(),
            s@ == start + v@.subrange(from as int, i as int),
        decreases to - i,
    {
        push_char(s, v[i]);
        i = i + 1;
        assert(v@.subrange(from as int, i as int) =~= v@.subrange(from as int, i - 1).push(
            v@[i - 1],
        ));
    }
}

/// Two string slices have the same characters.
pub fn str_eq(a: &str, b: &str) -> (r: bool)
    ensures
        r == (a@ == b@),
{
    let va = chars_of(a);
    let vb = chars_of(b);
    chars_eq(&va, &vb)
}

/// Two character vectors are equal.
pub fn chars_eq(a: &Vec<char>, b: &Vec<char>) -> (r: bool)
    ensures
        r == (a@ == b@),
{
    if a.len() != b.len() {
        return false;
    }
    let mut i: usize = 0;
    while i < a.len()
        invariant
            a@.len() == b@.len(),
            i <= a@.len(),
            forall|j: int| 0 <= j < i ==> a@[j] == b@[j],
        decreases a@.len() - i,
    {
        if a[i] != b[i] {
            return false;
        }
        i = i + 1;
    }
    assert(a@ =~= b@);
    true
}

/// The characters of `a` equal those of the string `b`.
pub fn chars_eq_str(a: &Vec<char>, b: &str) -> (r: bool)
    ensures
        r == (a@ == b@),
{
    let vb = chars_of(b);
    chars_eq(a, &vb)
}

// ───────────────────────── prefixes, suffixes, substrings ─────────────────────────

pub open spec fn has_prefix(s: Seq<char>, p: Seq<char>) -> bool {
    p.len() <= s.len() && s.subrange(0, p.len() as int) == p
}

pub open spec fn has_suffix(s: Seq<char>, p: Seq<char>) -> bool {
    p.len() <= s.len() && s.subrange(s.len() - p.len(), s.len() as int) == p
}

pub open spec fn occurs_at(s: Seq<char>, p: Seq<char>, i: int) -> bool {
    0 <= i && i + p.len() <= s.len() && s.subrange(i, i + p.len()) == p
}

pub open spec fn has_substring(s: Seq<char>, p: Seq<char>) -> bool {
    exists|i: int| occurs_at(s, p, i)
}

/// `v[at..]` starts with `p`.
pub fn occurs_at_exec(v: &Vec<char>, p: &Vec<char>, at: usize) -> (r: bool)
    ensures
        r == occurs_at(v@, p@, at as int),
{
    if at > v.len() || p.len() > v.len() - at {
        return false;
    }
    let mut i: usize = 0;
    while i < p.len()
        invariant
            at + p@.len() <= v@.len(),
            i <= p@.len(),
            forall|j: int| 0 <= j < i ==> v@[at + j] == p@[j],
        decreases p@.len() - i,
    {
        assert(at + i < v.len());
        if v[at + i] != p[i] {
            assert(v@.subrange(at as int, at + p@.len())[i as int] != p@[i as int]);
            return false;
        }
        i = i + 1;
    }
    assert(v@.subrange(at as int, at + p@.len()) =~= p@);
    true
}

pub fn starts_with(v: &Vec<char>, p: &Vec<char>) -> (r: bool)
    ensures
        r == has_prefix(v@, p@),
{
    occurs_at_exec(v, p, 0)
}

pub fn starts_with_str(v: &Vec<char>, p: &str) -> (r: bool)
    ensures
        r == has_prefix(v@, p@),
{
    let pv = chars_of(p);
    starts_with(v, &pv)
}

pub fn ends_with(v: &Vec<char>, p: &Vec<char>) -> (r: bool)
    ensures
        r == has_suffix(v@, p@),
{
    if p.len() > v.len() {
        return false;
    }
    occurs_at_exec(v, p, v.len() - p.len())
}

pub fn ends_with_str(v: &Vec<char>, p: &str) -> (r: bool)
    ensures
        r == has_suffix(v@, p@),
{
    let pv = chars_of(p);
    ends_with(v, &pv)
}

pub fn contains_seq(v: &Vec<char>, p: &Vec<char>) -> (r: bool)
    ensures
        r == has_substring(v@, p@),
{
    let mut i: usize = 0;
    while i < v.len()
        invariant
            i <= v@.len(),
            forall|j: int| 0 <= j < i ==> !occurs_at(v@, p@, j),
        decreases v@.len() - i,
    {
        if occurs_at_exec(v, p, i) {
            return true;
        }
        i = i + 1;
    }
    if occurs_at_exec(v, p, i) {
        return true;
    }
    assert forall|j: int| !occurs_at(v@, p@, j) by {
        if 0 <= j < i {
        }
    }
    false
}

pub fn contains_str(v: &Vec<char>, p: &str) -> (r: bool)
    ensures
        r == has_substring(v@, p@),
{
    let pv = chars_of(p);
    contains_seq(v, &pv)
}

pub fn contains_char(v: &Vec<char>, c: char) -> (r: bool)
    ensures
        r == v@.contains(c),
{
    let mut i: usize = 0;
    while i < v.len()
        invariant
            i <= v@.len(),
            forall|j: int| 0 <= j < i ==> v@[j] != c,
        decreases v@.len() - i,
    {
        if v[i] == c {
            return true;
        }
        i = i + 1;
    }
    false
}

// ───────────────────────── trimming ─────────────────────────

/// `s` without its leading whitespace.
pub open spec fn trim_start(s: Seq<char>) -> Seq<char>
    decreases s.len(),
{
    if s.len() > 0 && unicode_white_space(s[0]) {
        trim_start(s.drop_first())
    } else {
        s
    }
}

/// `s` without its trailing whitespace.
pub open spec fn trim_end(s: Seq<char>) -> Seq<char>
    decreases s.len(),
{
    if s.len() > 0 && unicode_white_space(s.last()) {
        trim_end(s.drop_last())
    } else {
        s
    }
}

/// `s` without leading and trailing whitespace, as `str::trim` gives it.
pub open spec fn trim(s: Seq<char>) -> Seq<char> {
    trim_end(trim_start(s))
}

proof fn lemma_trim_start_step(s: Seq<char>, i: int)
    requires
        0 <= i < s.len(),
        unicode_white_space(s[i]),
    ensures
        trim_start(s.subrange(i, s.len() as int)) == trim_start(s.subrange(i + 1, s.len() as int)),
{
    assert(s.subrange(i, s.len() as int).drop_first() =~= s.subrange(i + 1, s.len() as int));
}

proof fn lemma_trim_end_step(s: Seq<char>, a: int, j: int)
    requires
        0 <= a < j <= s.len(),
        unicode_white_space(s[j - 1]),
    ensures
        trim_end(s.subrange(a, j)) == trim_end(s.subrange(a, j - 1)),
{
    assert(s.subrange(a, j).drop_last() =~= s.subrange(a, j - 1));
}

/// The bounds `(a, b)` such that `v[a..b]` is `v` trimmed of whitespace.
pub fn trim_bounds(v: &Vec<char>) -> (r: (usize, usize))
    ensures
        r.0 <= r.1 <= v@.len(),
        v@.subrange(r.0 as int, r.1 as int) == trim(v@),
        trim_start(v@) == v@.subrange(r.0 as int, v@.len() as int),
{
    let n = v.len();
    let mut a: usize = 0;
    assert(v@.subrange(0, n as int) =~= v@);
    while a < n && char_is_whitespace(v[a])
        invariant
            n == v@.len(),
            a <= n,
            trim_start(v@) == trim_start(v@.subrange(a as int, n as int)),
        decreases n - a,
    {
        proof {
            lemma_trim_start_step(v@, a as int);
        }
        a = a + 1;
    }
    proof {
        if a < n {
            assert(v@.subrange(a as int, n as int)[0] == v@[a as int]);
        }
    }
    let mut b: usize = n;
    while b > a && char_is_whitespace(v[b - 1])
        invariant
            n == v@.len(),
            a <= b <= n,
            trim_end(v@.subrange(a as int, n as int)) == trim_end(v@.subrange(a as int, b as int)),
        decreases b - a,
    {
        proof {
            lemma_trim_end_step(v@, a as int, b as int);
        }
        b = b - 1;
    }
    proof {
        if b > a {
            assert(v@.subrange(a as int, b as int).last() == v@[b - 1]);
        }
    }
    (a, b)
}

/// The characters of `v` with leading and trailing whitespace removed.
pub fn trim_chars(v: &Vec<char>) -> (r: Vec<char>)
    ensures
        r@ == trim(v@),
{
    let (a, b) = trim_bounds(v);
    sub_vec(v, a, b)
}

/// `s` with leading and trailing whitespace removed, as characters.
pub fn trim_str(s: &str) -> (r: Vec<char>)
    ensures
        r@ == trim(s@),
{
    let v = chars_of(s);
    trim_chars(&v)
}

/// `s` with leading and trailing whitespace removed.
pub fn trimmed_string(s: &str) -> (r: String)
    ensures
        r@ == trim(s@),
{
    let v = trim_str(s);
    string_of(&v)
}

// ───────────────────────── splitting ─────────────────────────

/// Index of the first `c` in `s`, or `s.len()` when there is none.
pub open spec fn find_char(s: Seq<char>, c: char) -> int
    decreases s.len(),
{
    if s.len() == 0 {
        0
    } else if s[0] == c {
        0
    } else {
        1 + find_char(s.drop_first(), c)
    }
}

pub proof fn lemma_find_char(s: Seq<char>, c: char)
    ensures
        0 <= find_char(s, c) <= s.len(),
        forall|j: int| 0 <= j < find_char(s, c) ==> s[j] != c,
        find_char(s, c) < s.len() ==> s[find_char(s, c)] == c,
    decreases s.len(),
{
    if s.len() > 0 && s[0] != c {
        lemma_find_char(s.drop_first(), c);
        assert forall|j: int| 0 <= j < find_char(s, c) implies s[j] != c by {
            if j > 0 {
                assert(s[j] == s.drop_first()[j - 1]);
            }
        }
    }
}

proof fn lemma_find_char_unique(s: Seq<char>, c: char, k: int)
    requires
        0 <= k <= s.len(),
        forall|j: int| 0 <= j < k ==> s[j] != c,
        k < s.len() ==> s[k] == c,
    ensures
        find_char(s, c) == k,
{
    lemma_find_char(s, c);
    let f = find_char(s, c);
    if f < k {
        assert(s[f] == c);
    } else if k < f {
        assert(s[k] == c);
    }
}

/// The pieces of `s` between occurrences of `c`, as `str::split(c)` yields them
/// (there is always at least one piece, possibly empty).
pub open spec fn split_char(s: Seq<char>, c: char) -> Seq<Seq<char>>
    decreases s.len(),
{
    let k = find_char(s, c);
    proof {
        lemma_find_char(s, c);
    }
    if k >= s.len() {
        seq![s]
    } else {
        seq![s.subrange(0, k)] + split_char(s.subrange(k + 1, s.len() as int), c)
    }
}

/// Position of the first `c` in `v[from..]` (or `v.len()`).
pub fn find_char_from(v: &Vec<char>, c: char, from: usize) -> (r: usize)
    requires
        from <= v@.len(),
    ensures
        from <= r <= v@.len(),
        r - from == find_char(v@.subrange(from as int, v@.len() as int), c),
        forall|j: int| from <= j < r ==> v@[j] != c,
        r < v@.len() ==> v@[r as int] == c,
{
    let mut i = from;
    while i < v.len() && v[i] != c
        invariant
            from <= i <= v@.len(),
            forall|j: int| from <= j < i ==> v@[j] != c,
        decreases v@.len() - i,
    {
        i = i + 1;
    }
    proof {
        let t = v@.subrange(from as int, v@.len() as int);
        lemma_find_char_unique(t, c, i - from);
    }
    i
}

/// The pieces of `v` split at every `c`.
pub fn split_on(v: &Vec<char>, c: char) -> (r: Vec<Vec<char>>)
    ensures
        views(r@) == split_char(v@, c),
{
    let mut r: Vec<Vec<char>> = Vec::new();
    let n = v.len();
    let mut start: usize = 0;
    assert(v@.subrange(0, n as int) =~= v@);
    assert(views(r@) =~= Seq::<Seq<char>>::empty());
    loop
        invariant
            n == v@.len(),
            start <= n,
            views(r@) + split_char(v@.subrange(start as int, n as int), c) == split_char(v@, c),
        decreases n - start,
    {
        let k = find_char_from(v, c, start);
        let piece = sub_vec(v, start, k);
        let ghost rest = v@.subrange(start as int, n as int);
        let ghost before = views(r@);
        proof {
            assert(rest.subrange(0, k - start) =~= v@.subrange(start as int, k as int));
        }
        r.push(piece);
        proof {
            assert(views(r@) =~= before.push(piece@));
        }
        if k >= n {
            proof {
                assert(rest =~= v@.subrange(start as int, k as int));
                assert(split_char(rest, c) == seq![rest]);
                assert(views(r@) =~= before + split_char(rest, c));
            }
            return r;
        }
        proof {
            let tail = v@.subrange(k + 1, n as int);
            assert(rest.subrange(k - start + 1, rest.len() as int) =~= tail);
            assert(split_char(rest, c) == seq![piece@] + split_char(tail, c));
            assert(views(r@) + split_char(tail, c) =~= before + split_char(rest, c));
        }
        start = k + 1;
    }
}

/// The character views of a sequence of character vectors.
pub open spec fn views(r: Seq<Vec<char>>) -> Seq<Seq<char>> {
    r.map_values(|p: Vec<char>| p@)
}

// ───────────────────────── lines and words ─────────────────────────

/// `l` without one trailing carriage return.
pub open spec fn strip_cr(l: Seq<char>) -> Seq<char> {
    if l.len() > 0 && l.last() == '\r' {
        l.drop_last()
    } else {
        l
    }
}

/// The lines of `s` as `str::lines` yields them: pieces ended by `\n` (a `\r` just before
/// that `\n` is dropped); a final piece without `\n` is kept as it is; no piece follows
/// a final `\n`.
pub open spec fn lines(s: Seq<char>) -> Seq<Seq<char>>
    decreases s.len(),
{
    if s.len() == 0 {
        seq![]
    } else {
        let k = find_char(s, '\n');
        proof {
            lemma_find_char(s, '\n');
        }
        if k >= s.len() {
            seq![s]
        } else {
            seq![strip_cr(s.subrange(0, k))] + lines(s.subrange(k + 1, s.len() as int))
        }
    }
}

/// Past a prefix without `c`, the search for `c` goes on in what follows.
pub proof fn lemma_find_char_past(a: Seq<char>, t: Seq<char>, c: char)
    requires
        !a.contains(c),
    ensures
        find_char(a + t, c) == a.len() + find_char(t, c),
    decreases a.len(),
{
    if a.len() == 0 {
        assert(a + t =~= t);
    } else {
        assert((a + t)[0] == a[0]);
        assert(!a.drop_first().contains(c)) by {
            if a.drop_first().contains(c) {
                let j = choose|j: int| 0 <= j < a.drop_first().len() && a.drop_first()[j] == c;
                assert(a[j + 1] == c);
            }
        }
        assert((a + t).drop_first() =~= a.drop_first() + t);
        lemma_find_char_past(a.drop_first(), t, c);
    }
}

/// A piece without a line break, then a line break, is the first line.
pub proof fn lemma_lines_after_piece(a: Seq<char>, b: Seq<char>)
    requires
        !a.contains('\n'),
    ensures
        lines(a + seq!['\n'] + b) == seq![strip_cr(a)] + lines(b),
{
    let s = a + seq!['\n'] + b;
    assert(s =~= a + (seq!['\n'] + b));
    lemma_find_char_past(a, seq!['\n'] + b, '\n');
    assert(find_char(seq!['\n'] + b, '\n') == 0);
    assert(s.subrange(0, a.len() as int) =~= a);
    assert(s.subrange(a.len() as int + 1, s.len() as int) =~= b);
}

/// The lines of `v`.
pub fn lines_of(v: &Vec<char>) -> (r: Vec<Vec<char>>)
    ensures
        views(r@) == lines(v@),
{
    let mut r: Vec<Vec<char>> = Vec::new();
    let n = v.len();
    let mut start: usize = 0;
    assert(v@.subrange(0, n as int) =~= v@);
    assert(views(r@) =~= Seq::<Seq<char>>::empty());
    while start < n
        invariant
            n == v@.len(),
            start <= n,
            views(r@) + lines(v@.subrange(start as int, n as int)) == lines(v@),
        decreases n - start,
    {
        let k = find_char_from(v, '\n', start);
        let ghost rest = v@.subrange(start as int, n as int);
        let ghost before = views(r@);
        proof {
            assert(rest.subrange(0, k - start) =~= v@.subrange(start as int, k as int));
        }
        if k >= n {
            let piece = sub_vec(v, start, k);
            r.push(piece);
            proof {
                assert(rest =~= v@.subrange(start as int, k as int));
                assert(views(r@) =~= before.push(piece@));
                assert(lines(rest) == seq![rest]);
                assert(views(r@) =~= before + lines(rest));
                assert(v@.subrange(n as int, n as int) =~= Seq::<char>::empty());
                assert(views(r@) + lines(v@.subrange(n as int, n as int)) =~= views(r@));
            }
            start = n;
        } else {
            let end = if k > start && v[k - 1] == '\r' {
                k - 1
            } else {
                k
            };
            let piece = sub_vec(v, start, end);
            r.push(piece);
            proof {
                let tail = v@.subrange(k + 1, n as int);
                assert(rest.subrange(k - start + 1, rest.len() as int) =~= tail);
                assert(piece@ =~= strip_cr(v@.subrange(start as int, k as int)));
                assert(views(r@) =~= before.push(piece@));
                assert(lines(rest) == seq![piece@] + lines(tail));
                assert(views(r@) + lines(tail) =~= before + lines(rest));
            }
            start = k + 1;
        }
    }
    proof {
        assert(v@.subrange(n as int, n as int) =~= Seq::<char>::empty());
        assert(views(r@) + lines(v@.subrange(n as int, n as int)) =~= views(r@));
    }
    r
}

/// Index of the first whitespace character of `s` (or `s.len()`).
pub open spec fn find_ws(s: Seq<char>) -> int
    decreases s.len(),
{
    if s.len() == 0 {
        0
    } else if unicode_white_space(s[0]) {
        0
    } else {
        1 + find_ws(s.drop_first())
    }
}

pub proof fn lemma_find_ws(s: Seq<char>)
    ensures
        0 <= find_ws(s) <= s.len(),
        s.len() > 0 && !unicode_white_space(s[0]) ==> find_ws(s) >= 1,
        forall|j: int| 0 <= j < find_ws(s) ==> !unicode_white_space(s[j]),
        find_ws(s) < s.len() ==> unicode_white_space(s[find_ws(s)]),
    decreases s.len(),
{
    if s.len() > 0 && !unicode_white_space(s[0]) {
        lemma_find_ws(s.drop_first());
        assert forall|j: int| 0 <= j < find_ws(s) implies !unicode_white_space(s[j]) by {
            if j > 0 {
                assert(s[j] == s.drop_first()[j - 1]);
            }
        }
    }
}

proof fn lemma_find_ws_unique(s: Seq<char>, k: int)
    requires
        0 <= k <= s.len(),
        forall|j: int| 0 <= j < k ==> !unicode_white_space(s[j]),
        k < s.len() ==> unicode_white_space(s[k]),
    ensures
        find_ws(s) == k,
{
    lemma_find_ws(s);
    let f = find_ws(s);
    if f < k {
        assert(unicode_white_space(s[f]));
    } else if k < f {
        assert(unicode_white_space(s[k]));
    }
}

/// The words of `s` as `str::split_whitespace` yields them: the maximal runs of
/// non-whitespace characters, in order.
pub open spec fn words(s: Seq<char>) -> Seq<Seq<char>>
    decreases s.len(),
{
    if s.len() == 0 {
        seq![]
    } else if unicode_white_space(s[0]) {
        words(s.drop_first())
    } else {
        let k = find_ws(s);
        proof {
            lemma_find_ws(s);
        }
        seq![s.subrange(0, k)] + words(s.subrange(k, s.len() as int))
    }
}

/// The words of `v`.
pub fn words_of(v: &Vec<char>) -> (r: Vec<Vec<char>>)
    ensures
        views(r@) == words(v@),
{
    let mut r: Vec<Vec<char>> = Vec::new();
    let n = v.len();
    let mut i: usize = 0;
    assert(v@.subrange(0, n as int) =~= v@);
    assert(views(r@) =~= Seq::<Seq<char>>::empty());
    while i < n
        invariant
            n == v@.len(),
            i <= n,
            views(r@) + words(v@.subrange(i as int, n as int)) == words(v@),
        decreases n - i,
    {
        let ghost rest = v@.subrange(i as int, n as int);
        if char_is_whitespace(v[i]) {
            proof {
                assert(rest[0] == v@[i as int]);
                assert(rest.drop_first() =~= v@.subrange(i + 1, n as int));
            }
            i = i + 1;
        } else {
            let mut j = i + 1;
            while j < n && !char_is_whitespace(v[j])
                invariant
                    n == v@.len(),
                    i < j <= n,
                    forall|t: int| i <= t < j ==> !unicode_white_space(v@[t]),
                decreases n - j,
            {
                j = j + 1;
            }
            let ghost before = views(r@);
            let piece = sub_vec(v, i, j);
            r.push(piece);
            proof {
                lemma_find_ws_unique(rest, j - i);
                assert(rest.subrange(0, j - i) =~= piece@);
                assert(rest.subrange(j - i, rest.len() as int) =~= v@.subrange(j as int, n as int));
                assert(views(r@) =~= before.push(piece@));
                assert(words(rest) == seq![piece@] + words(v@.subrange(j as int, n as int)));
                assert(views(r@) + words(v@.subrange(j as int, n as int)) =~= before + words(rest));
            }
            i = j;
        }
    }
    proof {
        assert(v@.subrange(n as int, n as int) =~= Seq::<char>::empty());
        assert(views(r@) + words(v@.subrange(n as int, n as int)) =~= views(r@));
    }
    r
}

// ───────────────────────── joining ─────────────────────────

/// The pieces of `parts` with `sep` between neighbours, as `[..].join(sep)` builds it.
pub open spec fn join(parts: Seq<Seq<char>>, sep: Seq<char>) -> Seq<char>
    decreases parts.len(),
{
    if parts.len() == 0 {
        seq![]
    } else if parts.len() == 1 {
        parts[0]
    } else {
        join(parts.drop_last(), sep) + sep + parts.last()
    }
}

/// The string views of a sequence of strings.
pub open spec fn string_views(r: Seq<String>) -> Seq<Seq<char>> {
    r.map_values(|p: String| p@)
}

/// `parts` joined by `sep`.
pub fn join_strings(parts: &[String], sep: &str) -> (r: String)
    ensures
        r@ == join(string_views(parts@), sep@),
{
    let mut r = String::new();
    let n = parts.len();
    let mut i: usize = 0;
    while i < n
        invariant
            n == parts@.len(),
            i <= n,
            r@ == join(string_views(parts@).subrange(0, i as int), sep@),
        decreases n - i,
    {
        let ghost sv = string_views(parts@);
        proof {
            assert(sv.subrange(0, i + 1).drop_last() =~= sv.subrange(0, i as int));
            assert(sv.subrange(0, i + 1).last() == parts@[i as int]@);
        }
        if i > 0 {
            r.append(sep);
        }
        r.append(parts[i].as_str());
        proof {
            if i == 0 {
                assert(r@ =~= parts@[0]@);
            }
        }
        i = i + 1;
    }
    assert(string_views(parts@).subrange(0, n as int) =~= string_views(parts@));
    r
}

// ───────────────────────── ASCII case ─────────────────────────

pub open spec fn ascii_lower(c: char) -> char {
    if 'A' <= c && c <= 'Z' {
        ((c as u32) + 32) as char
    } else {
        c
    }
}

/// Equality ignoring ASCII case, as `str::eq_ignore_ascii_case` decides it.
pub open spec fn eq_ignore_ascii_case(a: Seq<char>, b: Seq<char>) -> bool {
    a.len() == b.len() && forall|i: int| 0 <= i < a.len() ==> ascii_lower(a[i]) == ascii_lower(b[i])
}

pub fn ascii_lower_char(c: char) -> (r: char)
    ensures
        r == ascii_lower(c),
{
    if 'A' <= c && c <= 'Z' {
        let b: u8 = (c as u8) + 32;
        b as char
    } else {
        c
    }
}

pub fn eq_ignore_ascii_case_exec(a: &Vec<char>, b: &str) -> (r: bool)
    ensures
        r == eq_ignore_ascii_case(a@, b@),
{
    let bv = chars_of(b);
    if a.len() != bv.len() {
        return false;
    }
    let mut i: usize = 0;
    while i < a.len()
        invariant
            a@.len() == bv@.len(),
            bv@ == b@,
            i <= a@.len(),
            forall|j: int| 0 <= j < i ==> ascii_lower(a@[j]) == ascii_lower(bv@[j]),
        decreases a@.len() - i,
    {
        if ascii_lower_char(a[i]) != ascii_lower_char(bv[i]) {
            return false;
        }
        i = i + 1;
    }
    true
}

// ───────────────────────── decimal numbers ─────────────────────────

/// The decimal digits of `n`, without sign or leading zeros, as `Display` writes them.
pub open spec fn decimal(n: nat) -> Seq<char>
    decreases n,
{
    if n < 10 {
        seq![digit_char(n)]
    } else {
        decimal(n / 10).push(digit_char(n % 10))
    }
}

/// The decimal form of a signed integer, as `Display` writes it.
pub open spec fn signed_decimal(n: int) -> Seq<char> {
    if n < 0 {
        seq!['-'] + decimal((-n) as nat)
    } else {
        decimal(n as nat)
    }
}

fn push_digit(s: &mut String, d: u64)
    requires
        d < 10,
    ensures
        final(s)@ == old(s)@.push(digit_char(d as nat)),
{
    let b: u8 = (d as u8) + 48;
    push_char(s, b as char);
}

/// Appends the decimal digits of `n` to `s`.
pub fn push_decimal(s: &mut String, n: u64)
    ensures
        final(s)@ == old(s)@ + decimal(n as nat),
    decreases n,
{
    if n < 10 {
        push_digit(s, n);
    } else {
        push_decimal(s, n / 10);
        push_digit(s, n % 10);
    }
}

/// The decimal form of `n`.
pub fn u64_to_string(n: u64) -> (r: String)
    ensures
        r@ == decimal(n as nat),
{
    let mut s = String::new();
    push_decimal(&mut s, n);
    s
}

/// Appends the decimal form of the signed `n` to `s`.
pub fn push_signed_decimal(s: &mut String, n: i64)
    ensures
        final(s)@ == old(s)@ + signed_decimal(n as int),
{
    if n < 0 {
        push_char(s, '-');
        let m: u64 = ((-(n + 1)) as u64) + 1;
        push_decimal(s, m);
    } else {
        push_decimal(s, n as u64);
    }
}

/// Every character of `s` is an ASCII digit.
pub open spec fn all_digits(s: Seq<char>) -> bool {
    forall|i: int| 0 <= i < s.len() ==> is_ascii_digit(s[i])
}

/// The value of a string of decimal digits.
pub open spec fn digits_value(s: Seq<char>) -> nat
    decreases s.len(),
{
    if s.len() == 0 {
        0
    } else {
        digits_value(s.drop_last()) * 10 + digit_value(s.last())
    }
}

/// `s` without one leading `+`.
pub open spec fn unsigned_digits(s: Seq<char>) -> Seq<char> {
    if s.len() > 0 && s[0] == '+' {
        s.drop_first()
    } else {
        s
    }
}

/// What `str::parse` gives for an unsigned integer type whose largest value is `max`:
/// an optional `+`, then one or more ASCII digits, whose value must not exceed `max`.
pub open spec fn parse_unsigned(s: Seq<char>, max: nat) -> Option<nat> {
    let d = unsigned_digits(s);
    if d.len() > 0 && all_digits(d) && digits_value(d) <= max {
        Some(digits_value(d))
    } else {
        None
    }
}

/// The decimal form of `n` is a non-empty string of digits whose value is `n`.
pub proof fn lemma_decimal_digits(n: nat)
    ensures
        decimal(n).len() > 0,
        all_digits(decimal(n)),
        digits_value(decimal(n)) == n,
    decreases n,
{
    assert(digit_value(digit_char(n % 10)) == n % 10);
    if n < 10 {
        assert(decimal(n).drop_last() =~= Seq::<char>::empty());
        assert(n % 10 == n);
        assert(digits_value(decimal(n)) == digits_value(Seq::<char>::empty()) * 10 + digit_value(digit_char(n)));
    } else {
        lemma_decimal_digits(n / 10);
        let d = decimal(n / 10);
        assert(decimal(n).drop_last() =~= d);
        assert(decimal(n).last() == digit_char(n % 10));
        assert(digits_value(decimal(n)) == digits_value(d) * 10 + digit_value(digit_char(n % 10)));
        assert(n == (n / 10) * 10 + n % 10);
        assert forall|i: int| 0 <= i < decimal(n).len() implies is_ascii_digit(decimal(n)[i]) by {
            if i < d.len() {
                assert(decimal(n)[i] == d[i]);
            }
        }
    }
}

/// What the decimal form of a number parses back to: the number, when it fits.
pub proof fn lemma_parse_decimal(n: nat, max: nat)
    ensures
        parse_unsigned(decimal(n), max) == (if n <= max { Some(n) } else { None::<nat> }),
{
    lemma_decimal_digits(n);
    assert(is_ascii_digit(decimal(n)[0]));
    assert(unsigned_digits(decimal(n)) == decimal(n));
}

proof fn lemma_digits_value_step(s: Seq<char>, i: int)
    requires
        0 <= i < s.len(),
    ensures
        digits_value(s.subrange(0, i + 1)) == digits_value(s.subrange(0, i)) * 10 + digit_value(
            s[i],
        ),
{
    assert(s.subrange(0, i + 1).drop_last() =~= s.subrange(0, i));
}

proof fn lemma_digits_value_prefix_le(s: Seq<char>, i: int)
    requires
        0 <= i <= s.len(),
        all_digits(s),
    ensures
        digits_value(s.subrange(0, i)) <= digits_value(s),
    decreases s.len() - i,
{
    if i < s.len() {
        lemma_digits_value_prefix_le(s, i + 1);
        lemma_digits_value_step(s, i);
    } else {
        assert(s.subrange(0, i) =~= s);
    }
}

/// Parses `v[from..to]` as an unsigned integer no larger than `max`, as `str::parse` does.
pub fn parse_unsigned_range(v: &Vec<char>, from: usize, to: usize, max: u64) -> (r: Option<u64>)
    requires
        from <= to <= v@.len(),
    ensures
        match parse_unsigned(v@.subrange(from as int, to as int), max as nat) {
            Some(x) => r == Some(x as u64),
            None => r is None,
        },
{
    let ghost s = v@.subrange(from as int, to as int);
    let start = if from < to && v[from] == '+' {
        from + 1
    } else {
        from
    };
    let ghost d = v@.subrange(start as int, to as int);
    proof {
        if from < to {
            assert(s[0] == v@[from as int]);
        }
        if from < to && v@[from as int] == '+' {
            assert(s.drop_first() =~= d);
        } else {
            assert(s =~= d);
        }
        assert(d == unsigned_digits(s));
    }
    if start == to {
        return None;
    }
    let mut i = start;
    while i < to
        invariant
            start <= i <= to <= v@.len(),
            d == v@.subrange(start as int, to as int),
            d == unsigned_digits(v@.subrange(from as int, to as int)),
            forall|j: int| start <= j < i ==> is_ascii_digit(v@[j]),
        decreases to - i,
    {
        if !('0' <= v[i] && v[i] <= '9') {
            assert(!is_ascii_digit(d[i - start]));
            return None;
        }
        i = i + 1;
    }
    assert(all_digits(d)) by {
        assert forall|j: int| 0 <= j < d.len() implies is_ascii_digit(d[j]) by {
            assert(d[j] == v@[start + j]);
        }
    }
    let mut acc: u64 = 0;
    let mut k = start;
    assert(d.subrange(0, 0) =~= Seq::<char>::empty());
    while k < to
        invariant
            start <= k <= to <= v@.len(),
            d == v@.subrange(start as int, to as int),
            d == unsigned_digits(v@.subrange(from as int, to as int)),
            all_digits(d),
            acc as nat == digits_value(d.subrange(0, k - start)),
            acc <= max,
        decreases to - k,
    {
        proof {
            lemma_digits_value_step(d, k - start);
            assert(d[k - start] == v@[k as int]);
            assert(is_ascii_digit(v@[k as int]));
        }
        let dv: u64 = ((v[k] as u32) - 48) as u64;
        if dv > max || acc > (max - dv) / 10 {
            proof {
                if dv <= max {
                    assert(acc * 10 + dv > max) by (nonlinear_arith)
                        requires
                            acc > (max - dv) / 10,
                            dv <= max,
                    ;
                }
                lemma_digits_value_prefix_le(d, k - start + 1);
                assert(digits_value(d) > max);
            }
            return None;
        }
        proof {
            assert(acc * 10 + dv <= max) by (nonlinear_arith)
                requires
                    acc <= (max - dv) / 10,
                    dv <= max,
            ;
        }
        acc = acc * 10 + dv;
        k = k + 1;
    }
    assert(d.subrange(0, d.len() as int) =~= d);
    Some(acc)
}

/// Parses all of `v` as an unsigned integer no larger than `max`.
pub fn parse_unsigned_chars(v: &Vec<char>, max: u64) -> (r: Option<u64>)
    ensures
        match parse_unsigned(v@, max as nat) {
            Some(x) => r == Some(x as u64),
            None => r is None,
        },
{
    assert(v@.subrange(0, v@.len() as int) =~= v@);
    parse_unsigned_range(v, 0, v.len(), max)
}

/// `s` with every `c` removed.
pub open spec fn without_char(s: Seq<char>, c: char) -> Seq<char>
    decreases s.len(),
{
    if s.len() == 0 {
        seq![]
    } else if s.last() == c {
        without_char(s.drop_last(), c)
    } else {
        without_char(s.drop_last(), c).push(s.last())
    }
}

/// Removing `c` leaves no `c`, and removing it again changes nothing.
pub proof fn lemma_without_char(s: Seq<char>, c: char)
    ensures
        !without_char(s, c).contains(c),
        without_char(without_char(s, c), c) == without_char(s, c),
    decreases s.len(),
{
    if s.len() > 0 {
        lemma_without_char(s.drop_last(), c);
        let w = without_char(s.drop_last(), c);
        if s.last() != c {
            assert(w.push(s.last()).drop_last() =~= w);
            assert forall|i: int| 0 <= i < w.push(s.last()).len() implies w.push(s.last())[i] != c by {
                if i < w.len() {
                    assert(w.push(s.last())[i] == w[i]);
                }
            }
        }
    }
}

/// `v` with every `c` removed.
pub fn remove_char(v: &Vec<char>, c: char) -> (r: Vec<char>)
    ensures
        r@ == without_char(v@, c),
{
    let mut r: Vec<char> = Vec::new();
    let mut i: usize = 0;
    assert(v@.subrange(0, 0) =~= Seq::<char>::empty());
    while i < v.len()
        invariant
            i <= v@.len(),
            r@ == without_char(v@.subrange(0, i as int), c),
        decreases v@.len() - i,
    {
        proof {
            assert(v@.subrange(0, i + 1).drop_last() =~= v@.subrange(0, i as int));
            assert(v@.subrange(0, i + 1).last() == v@[i as int]);
        }
        if v[i] != c {
            r.push(v[i]);
        }
        i = i + 1;
    }
    assert(v@.subrange(0, v@.len() as int) =~= v@);
    r
}

pub open spec fn opt_string_view(o: Option<String>) -> Option<Seq<char>> {
    match o {
        Some(s) => Some(s@),
        None => None,
    }
}

pub open spec fn opt_chars_view(o: Option<Vec<char>>) -> Option<Seq<char>> {
    match o {
        Some(s) => Some(s@),
        None => None,
    }
}

} // verus!
