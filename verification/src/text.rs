//! Character-sequence helpers shared by the parser and the writers.
//!
//! Strings are handled as sequences of `char`; every helper states its result
//! over `Seq<char>`.

use vstd::prelude::*;

verus! {

// ───────────────────────── Unicode properties (std) ─────────────────────────

/// What `char::is_whitespace` returns for a character (the Unicode
/// `White_Space` property).
pub uninterp spec fn white_space(c: char) -> bool;

/// What `str::to_lowercase` returns for a string.
pub uninterp spec fn lowercase_of(s: Seq<char>) -> Seq<char>;

/// What `str::to_uppercase` returns for a string.
pub uninterp spec fn uppercase_of(s: Seq<char>) -> Seq<char>;

/// Calls `char::is_whitespace`; the result is the `White_Space` property of
/// `c`.  The documentation's examples are stated too: a space, a line break
/// and a no-break space are white space, and the letter U+8D8A is not.  The
/// documentation does not list the property's other code points.
#[verifier::external_body]
pub(crate) fn char_is_whitespace(c: char) -> (b: bool)
    ensures
        b == white_space(c),
        (c == ' ' || c == '\n' || c == '\u{A0}') ==> b,
        c == '\u{8D8A}' ==> !b,
{
    c.is_whitespace()
}

/// Calls `str::to_lowercase` on the string made of `s`; the result is
/// `lowercase_of(s@)`, a function of the characters alone.
#[verifier::external_body]
pub(crate) fn chars_to_lowercase(s: &Vec<char>) -> (r: Vec<char>)
    ensures
        r@ == lowercase_of(s@),
{
    let st: String = s.iter().collect();
    st.to_lowercase().chars().collect()
}

/// Calls `str::to_uppercase` on the string made of `s`; the result is
/// `uppercase_of(s@)`, a function of the characters alone.
#[verifier::external_body]
pub(crate) fn chars_to_uppercase(s: &Vec<char>) -> (r: Vec<char>)
    ensures
        r@ == uppercase_of(s@),
{
    let st: String = s.iter().collect();
    st.to_uppercase().chars().collect()
}

/// Builds a `String` from characters (`String: FromIterator<char>`); the
/// string holds exactly those characters.
#[verifier::external_body]
pub(crate) fn chars_to_string(v: &Vec<char>) -> (s: String)
    ensures
        s@ == v@,
{
    v.iter().collect()
}

// ───────────────────────── conversions ─────────────────────────

/// The characters of a string slice, in order.
pub fn str_chars(s: &str) -> (v: Vec<char>)
    ensures
        v@ == s@,
{
    let mut v: Vec<char> = Vec::new();
    for c in it: s.chars()
        invariant
            v@ == it.seq().take(it.index() as int),
    {
        v.push(c);
    }
    v
}

/// The characters `v[a..b]`.
pub fn sub_chars(v: &Vec<char>, a: usize, b: usize) -> (r: Vec<char>)
    requires
        a <= b <= v.len(),
    ensures
        r@ == v@.subrange(a as int, b as int),
{
    let mut r: Vec<char> = Vec::new();
    let mut i = a;
    while i < b
        invariant
            a <= i <= b <= v.len(),
            r@ == v@.subrange(a as int, i as int),
        decreases b - i,
    {
        r.push(v[i]);
        i = i + 1;
    }
    r
}

/// Whether two character sequences are equal.
pub fn chars_eq(a: &Vec<char>, b: &Vec<char>) -> (r: bool)
    ensures
        r == (a@ == b@),
{
    if a.len() != b.len() {
        return false;
    }
    let mut i: usize = 0;
    while i < a.len()
        invariant
            a.len() == b.len(),
            0 <= i <= a.len(),
            forall|j: int| 0 <= j < i ==> a@[j] == b@[j],
        decreases a.len() - i,
    {
        if a[i] != b[i] {
            return false;
        }
        i = i + 1;
    }
    assert(a@ =~= b@);
    true
}

// ───────────────────────── character classes ─────────────────────────

/// A character allowed in a provider name or a cluster type: `[a-z0-9-]`.
pub open spec fn is_provider_char(c: char) -> bool {
    ('a' <= c && c <= 'z') || ('0' <= c && c <= '9') || c == '-'
}

/// A provider name: non-empty, made of `[a-z0-9-]` only.
pub open spec fn is_provider_name(s: Seq<char>) -> bool {
    s.len() > 0 && forall|i: int| 0 <= i < s.len() ==> is_provider_char(#[trigger] s[i])
}

/// An ASCII letter or digit.
pub open spec fn is_ascii_alnum(c: char) -> bool {
    ('a' <= c && c <= 'z') || ('A' <= c && c <= 'Z') || ('0' <= c && c <= '9')
}

/// The code of a character after ASCII lower-casing (other characters keep theirs).
pub open spec fn ascii_lower_code(c: char) -> u32 {
    if 'A' <= c && c <= 'Z' {
        (c as u32 + 32) as u32
    } else {
        c as u32
    }
}

/// Two sequences that are equal when ASCII letters are compared without case.
pub open spec fn eq_ignore_ascii_case(a: Seq<char>, b: Seq<char>) -> bool {
    a.len() == b.len() && forall|i: int|
        0 <= i < a.len() ==> ascii_lower_code(#[trigger] a[i]) == ascii_lower_code(b[i])
}

/// Whether `s` is a provider name.
pub fn chars_are_provider_name(s: &Vec<char>) -> (r: bool)
    ensures
        r == is_provider_name(s@),
{
    if s.len() == 0 {
        return false;
    }
    let mut i: usize = 0;
    while i < s.len()
        invariant
            0 <= i <= s.len(),
            forall|j: int| 0 <= j < i ==> is_provider_char(#[trigger] s@[j]),
        decreases s.len() - i,
    {
        let c = s[i];
        if !(('a' <= c && c <= 'z') || ('0' <= c && c <= '9') || c == '-') {
            return false;
        }
        i = i + 1;
    }
    true
}

fn char_lower_code(c: char) -> (r: u32)
    ensures
        r == ascii_lower_code(c),
{
    if 'A' <= c && c <= 'Z' {
        c as u32 + 32
    } else {
        c as u32
    }
}

// ───────────────────────── trimming ─────────────────────────

/// `s` without its leading white space.
pub open spec fn trim_start(s: Seq<char>) -> Seq<char>
    decreases s.len(),
{
    if s.len() > 0 && white_space(s[0]) {
        trim_start(s.drop_first())
    } else {
        s
    }
}

/// `s` without its trailing white space.
pub open spec fn trim_end(s: Seq<char>) -> Seq<char>
    decreases s.len(),
{
    if s.len() > 0 && white_space(s.last()) {
        trim_end(s.drop_last())
    } else {
        s
    }
}

/// `s` without leading and trailing white space (`str::trim`).
pub open spec fn trim(s: Seq<char>) -> Seq<char> {
    trim_end(trim_start(s))
}

proof fn lemma_trim_start_skip(s: Seq<char>, a: int)
    requires
        0 <= a < s.len(),
        white_space(s[a]),
    ensures
        trim_start(s.skip(a)) == trim_start(s.skip(a + 1)),
{
    assert(s.skip(a).drop_first() =~= s.skip(a + 1));
}

proof fn lemma_trim_end_take(s: Seq<char>, b: int)
    requires
        0 < b <= s.len(),
        white_space(s[b - 1]),
    ensures
        trim_end(s.take(b)) == trim_end(s.take(b - 1)),
{
    assert(s.take(b).drop_last() =~= s.take(b - 1));
}

/// The bounds `(a, b)` of the trimmed part of `s`: `trim(s) == s[a..b]`.
pub fn trim_bounds(s: &Vec<char>) -> (r: (usize, usize))
    ensures
        r.0 <= r.1 <= s.len(),
        s@.subrange(r.0 as int, r.1 as int) == trim(s@),
{
    let mut a: usize = 0;
    assert(s@.skip(0) =~= s@);
    while a < s.len() && char_is_whitespace(s[a])
        invariant
            0 <= a <= s.len(),
            trim_start(s@) == trim_start(s@.skip(a as int)),
        decreases s.len() - a,
    {
        proof {
            lemma_trim_start_skip(s@, a as int);
        }
        a = a + 1;
    }
    let ghost t = s@.skip(a as int);
    assert(trim_start(s@) == t) by {
        if a < s.len() {
            assert(t[0] == s@[a as int]);
        } else {
            assert(t.len() == 0);
        }
    }
    let mut b: usize = s.len();
    assert(t.take(t.len() as int) =~= t);
    while b > a && char_is_whitespace(s[b - 1])
        invariant
            a <= b <= s.len(),
            t == s@.skip(a as int),
            trim_end(t) == trim_end(t.take(b - a)),
        decreases b - a,
    {
        proof {
            assert(t[b - a - 1] == s@[b - 1]);
            lemma_trim_end_take(t, b - a);
        }
        b = b - 1;
    }
    assert(trim_end(t.take(b - a)) == t.take(b - a)) by {
        if b > a {
            assert(t.take(b - a).last() == s@[b - 1]);
        }
    }
    assert(s@.subrange(a as int, b as int) =~= t.take(b - a));
    (a, b)
}

/// The bounds of the trimmed part of `s[a..b]`, as indices into `s`.
pub fn trim_range(s: &Vec<char>, a: usize, b: usize) -> (r: (usize, usize))
    requires
        a <= b <= s.len(),
    ensures
        a <= r.0 <= r.1 <= b,
        s@.subrange(r.0 as int, r.1 as int) == trim(s@.subrange(a as int, b as int)),
{
    let part = sub_chars(s, a, b);
    let (x, y) = trim_bounds(&part);
    assert(s@.subrange(a + x, a + y) =~= part@.subrange(x as int, y as int));
    (a + x, a + y)
}

/// `s` with the prefix `p` removed, the prefix compared without ASCII case.
pub fn chars_strip_prefix_ignore_case(s: &Vec<char>, p: &str) -> (r: Option<Vec<char>>)
    ensures
        match strip_prefix_ignore_case(s@, p@) {
            Some(rest) => r matches Some(x) && x@ == rest,
            None => r is None,
        },
{
    let pv = str_chars(p);
    if chars_starts_with_ignore_case(s, &pv) {
        Some(sub_chars(s, pv.len(), s.len()))
    } else {
        None
    }
}

/// `trim(s)` as a new vector.
pub fn trim_chars(s: &Vec<char>) -> (r: Vec<char>)
    ensures
        r@ == trim(s@),
{
    let (a, b) = trim_bounds(s);
    sub_chars(s, a, b)
}


// ───────────────────────── searching ─────────────────────────

/// `pat` occurs in `s` at index `i`.
pub open spec fn occurs_at(s: Seq<char>, pat: Seq<char>, i: int) -> bool {
    0 <= i && i + pat.len() <= s.len() && s.subrange(i, i + pat.len()) == pat
}

/// The first index `>= k` at which `pat` occurs in `s`.
pub open spec fn find_from(s: Seq<char>, pat: Seq<char>, k: int) -> Option<int>
    decreases s.len() - k,
{
    if k < 0 || k + pat.len() > s.len() {
        None
    } else if occurs_at(s, pat, k) {
        Some(k)
    } else if k >= s.len() {
        None
    } else {
        find_from(s, pat, k + 1)
    }
}

/// The first index at which `pat` occurs in `s` (`str::find`).
pub open spec fn find(s: Seq<char>, pat: Seq<char>) -> Option<int> {
    find_from(s, pat, 0)
}

/// `s` holds `pat` somewhere (`str::contains`).
pub open spec fn contains(s: Seq<char>, pat: Seq<char>) -> bool {
    find(s, pat) is Some
}

/// `s` begins with `p`.
pub open spec fn starts_with(s: Seq<char>, p: Seq<char>) -> bool {
    p.len() <= s.len() && s.take(p.len() as int) == p
}

/// What `find_from` returns: an occurrence at or after `k` with none before it.
pub proof fn lemma_find_from(s: Seq<char>, pat: Seq<char>, k: int)
    requires
        k >= 0,
    ensures
        find_from(s, pat, k) matches Some(i) ==> k <= i && occurs_at(s, pat, i) && forall|
            j: int,
        |
            k <= j < i ==> !occurs_at(s, pat, j),
        find_from(s, pat, k) is None ==> forall|j: int| k <= j ==> !occurs_at(s, pat, j),
    decreases s.len() - k,
{
    if k + pat.len() > s.len() {
    } else if occurs_at(s, pat, k) {
    } else if k >= s.len() {
    } else {
        lemma_find_from(s, pat, k + 1);
    }
}

/// Searching the tail `s[a..]` is searching `s` from `a` on.
pub proof fn lemma_find_from_skip(s: Seq<char>, pat: Seq<char>, a: int, k: int)
    requires
        0 <= a <= s.len(),
        0 <= k,
    ensures
        find_from(s.skip(a), pat, k) == (match find_from(s, pat, a + k) {
            Some(j) => Some(j - a),
            None => None,
        }),
    decreases s.len() - (a + k),
{
    let t = s.skip(a);
    if k + pat.len() > t.len() {
    } else {
        assert(t.subrange(k, k + pat.len()) =~= s.subrange(a + k, a + k + pat.len()));
        if occurs_at(t, pat, k) {
        } else if k >= t.len() {
        } else {
            lemma_find_from_skip(s, pat, a, k + 1);
        }
    }
}

/// Whether `pat` occurs in `s` at `i`.
pub fn chars_occur_at(s: &Vec<char>, pat: &Vec<char>, i: usize) -> (r: bool)
    ensures
        r == occurs_at(s@, pat@, i as int),
{
    if i > s.len() || pat.len() > s.len() - i {
        return false;
    }
    let mut j: usize = 0;
    while j < pat.len()
        invariant
            i + pat.len() <= s.len(),
            0 <= j <= pat.len(),
            forall|m: int| 0 <= m < j ==> s@[i + m] == pat@[m],
        decreases pat.len() - j,
    {
        if s[i + j] != pat[j] {
            assert(s@.subrange(i as int, i + pat.len())[j as int] != pat@[j as int]);
            return false;
        }
        j = j + 1;
    }
    assert(s@.subrange(i as int, i + pat.len()) =~= pat@);
    true
}

/// The first index `>= k` at which `pat` occurs in `s`.
pub fn chars_find_from(s: &Vec<char>, pat: &Vec<char>, k: usize) -> (r: Option<usize>)
    ensures
        r matches Some(i) ==> find_from(s@, pat@, k as int) == Some(i as int) && k <= i && i
            + pat@.len() <= s@.len(),
        r is None ==> find_from(s@, pat@, k as int) is None,
{
    proof {
        lemma_find_from(s@, pat@, k as int);
    }
    let mut i = k;
    while i <= s.len() && pat.len() <= s.len() - i
        invariant
            k <= i,
            find_from(s@, pat@, k as int) == find_from(s@, pat@, i as int),
        decreases s.len() + 1 - i,
    {
        if chars_occur_at(s, pat, i) {
            return Some(i);
        }
        if i == s.len() {
            return None;
        }
        i = i + 1;
    }
    None
}

/// The first index at which the character `c` occurs in `s`.
pub fn chars_find_char(s: &Vec<char>, c: char) -> (r: Option<usize>)
    ensures
        r matches Some(i) ==> find(s@, seq![c]) == Some(i as int) && i < s@.len(),
        r is None ==> find(s@, seq![c]) is None,
{
    let pat = vec![c];
    assert(pat@ =~= seq![c]);
    chars_find_from(s, &pat, 0)
}

/// `s` holds `pat`.
pub fn chars_contains(s: &Vec<char>, pat: &Vec<char>) -> (r: bool)
    ensures
        r == contains(s@, pat@),
{
    chars_find_from(s, pat, 0).is_some()
}

/// `s` holds the character `c`.
pub fn chars_contains_char(s: &Vec<char>, c: char) -> (r: bool)
    ensures
        r == contains(s@, seq![c]),
{
    chars_find_char(s, c).is_some()
}

/// `s` begins with `p`.
pub fn chars_starts_with(s: &Vec<char>, p: &Vec<char>) -> (r: bool)
    ensures
        r == starts_with(s@, p@),
{
    let r = chars_occur_at(s, p, 0);
    assert(s@.subrange(0, p@.len() as int) == s@.take(p@.len() as int));
    r
}

/// The last index `< k` at which `c` occurs in `s`.
pub open spec fn rfind_before(s: Seq<char>, c: char, k: int) -> Option<int>
    decreases k,
{
    if k <= 0 || k > s.len() {
        None
    } else if s[k - 1] == c {
        Some(k - 1)
    } else {
        rfind_before(s, c, k - 1)
    }
}

/// The last index at which `c` occurs in `s` (`str::rfind`).
pub open spec fn rfind(s: Seq<char>, c: char) -> Option<int> {
    rfind_before(s, c, s.len() as int)
}

/// What `rfind_before` returns: an index below `k` holding `c`.
pub proof fn lemma_rfind_before(s: Seq<char>, c: char, k: int)
    requires
        k <= s.len(),
    ensures
        rfind_before(s, c, k) matches Some(i) ==> 0 <= i < k && s[i] == c,
    decreases k,
{
    if k > 0 && s[k - 1] != c {
        lemma_rfind_before(s, c, k - 1);
    }
}

/// The last index at which `c` occurs in `s`.
pub fn chars_rfind_char(s: &Vec<char>, c: char) -> (r: Option<usize>)
    ensures
        r matches Some(i) ==> rfind(s@, c) == Some(i as int) && i < s@.len(),
        r is None ==> rfind(s@, c) is None,
{
    let mut k = s.len();
    while k > 0
        invariant
            k <= s.len(),
            rfind(s@, c) == rfind_before(s@, c, k as int),
        decreases k,
    {
        if s[k - 1] == c {
            return Some(k - 1);
        }
        k = k - 1;
    }
    None
}

// ───────────────────────── prefixes ─────────────────────────

/// `s` with the prefix `p` removed, where the prefix is compared without
/// ASCII case (`"Title: x"` with `"title:"` gives `" x"`).
pub open spec fn strip_prefix_ignore_case(s: Seq<char>, p: Seq<char>) -> Option<Seq<char>> {
    if p.len() <= s.len() && eq_ignore_ascii_case(s.take(p.len() as int), p) {
        Some(s.skip(p.len() as int))
    } else {
        None
    }
}

/// Whether `s` begins with `p`, ASCII case aside.
pub fn chars_starts_with_ignore_case(s: &Vec<char>, p: &Vec<char>) -> (r: bool)
    ensures
        r == (p@.len() <= s@.len() && eq_ignore_ascii_case(s@.take(p@.len() as int), p@)),
{
    if p.len() > s.len() {
        return false;
    }
    let mut i: usize = 0;
    while i < p.len()
        invariant
            p.len() <= s.len(),
            0 <= i <= p.len(),
            forall|j: int| 0 <= j < i ==> ascii_lower_code(s@[j]) == ascii_lower_code(p@[j]),
        decreases p.len() - i,
    {
        if char_lower_code(s[i]) != char_lower_code(p[i]) {
            assert(s@.take(p@.len() as int)[i as int] == s@[i as int]);
            return false;
        }
        i = i + 1;
    }
    assert forall|j: int| 0 <= j < p@.len() implies ascii_lower_code(
        #[trigger] s@.take(p@.len() as int)[j],
    ) == ascii_lower_code(p@[j]) by {
        assert(s@.take(p@.len() as int)[j] == s@[j]);
    }
    true
}

// ───────────────────────── splitting ─────────────────────────

/// The character sequences held by a list of vectors.
pub open spec fn rows(v: Seq<Vec<char>>) -> Seq<Seq<char>> {
    v.map_values(|x: Vec<char>| x@)
}

/// `s` cut at each occurrence of the non-empty separator `sep`, left to right
/// (`str::split`).
pub open spec fn split_by(s: Seq<char>, sep: Seq<char>) -> Seq<Seq<char>>
    decreases s.len(),
{
    if sep.len() == 0 {
        seq![s]
    } else {
        match find(s, sep) {
            Some(i) => {
                proof {
                    lemma_find_from(s, sep, 0);
                }
                seq![s.take(i)] + split_by(s.skip(i + sep.len()), sep)
            },
            None => seq![s],
        }
    }
}

/// `split_by(s, sep)` as vectors.
pub fn chars_split(s: &Vec<char>, sep: &Vec<char>) -> (r: Vec<Vec<char>>)
    requires
        sep.len() > 0,
    ensures
        rows(r@) == split_by(s@, sep@),
{
    let mut parts: Vec<Vec<char>> = Vec::new();
    let mut start: usize = 0;
    assert(s@.skip(0) =~= s@);
    loop
        invariant
            sep.len() > 0,
            start <= s.len(),
            split_by(s@, sep@) == rows(parts@) + split_by(s@.skip(start as int), sep@),
        decreases s.len() - start,
    {
        let ghost rest = s@.skip(start as int);
        proof {
            lemma_find_from_skip(s@, sep@, start as int, 0);
            lemma_find_from(s@, sep@, start as int);
        }
        match chars_find_from(s, sep, start) {
            Some(i) => {
                let piece = sub_chars(s, start, i);
                assert(piece@ =~= rest.take(i - start));
                assert(s@.skip(i + sep.len()) =~= rest.skip(i - start + sep@.len()));
                let ghost old_parts = rows(parts@);
                parts.push(piece);
                assert(rows(parts@) =~= old_parts.push(piece@));
                start = i + sep.len();
            },
            None => {
                let piece = sub_chars(s, start, s.len());
                assert(piece@ =~= rest);
                let ghost old_parts = rows(parts@);
                parts.push(piece);
                assert(rows(parts@) =~= old_parts.push(piece@));
                assert(rows(parts@) =~= old_parts + seq![rest]);
                return parts;
            },
        }
    }
}

// ───────────────────────── lines ─────────────────────────

/// A line without the carriage return that ended it.
pub open spec fn strip_cr(l: Seq<char>) -> Seq<char> {
    if l.len() > 0 && l.last() == '\r' {
        l.drop_last()
    } else {
        l
    }
}

/// The lines of a text (`str::lines`): split at `'\n'`, a `'\r'` just before
/// a `'\n'` dropped, and no empty line after a final line ending.
pub open spec fn lines_of(s: Seq<char>) -> Seq<Seq<char>>
    decreases s.len(),
{
    if s.len() == 0 {
        seq![]
    } else {
        match find(s, seq!['\n']) {
            Some(i) => {
                proof {
                    lemma_find_from(s, seq!['\n'], 0);
                }
                seq![strip_cr(s.take(i))] + lines_of(s.skip(i + 1))
            },
            None => seq![s],
        }
    }
}

/// `lines_of(s)` as vectors.
pub fn chars_lines(s: &Vec<char>) -> (r: Vec<Vec<char>>)
    ensures
        rows(r@) == lines_of(s@),
{
    let mut out: Vec<Vec<char>> = Vec::new();
    let mut start: usize = 0;
    let nl = vec!['\n'];
    assert(nl@ =~= seq!['\n']);
    assert(s@.skip(0) =~= s@);
    while start < s.len()
        invariant
            nl@ == seq!['\n'],
            start <= s.len(),
            lines_of(s@) == rows(out@) + lines_of(s@.skip(start as int)),
        decreases s.len() - start,
    {
        let ghost rest = s@.skip(start as int);
        proof {
            lemma_find_from_skip(s@, nl@, start as int, 0);
            lemma_find_from(s@, nl@, start as int);
        }
        let ghost old_out = rows(out@);
        match chars_find_from(s, &nl, start) {
            Some(i) => {
                let mut end = i;
                if end > start && s[end - 1] == '\r' {
                    end = end - 1;
                }
                let piece = sub_chars(s, start, end);
                assert(piece@ =~= strip_cr(rest.take(i - start)));
                assert(s@.skip(i + 1) =~= rest.skip(i - start + 1));
                out.push(piece);
                assert(rows(out@) =~= old_out.push(piece@));
                start = i + 1;
            },
            None => {
                let piece = sub_chars(s, start, s.len());
                assert(piece@ =~= rest);
                out.push(piece);
                assert(rows(out@) =~= old_out.push(piece@));
                assert(lines_of(s@.skip(s.len() as int)) =~= seq![]);
                start = s.len();
            },
        }
    }
    assert(lines_of(s@.skip(start as int)) =~= seq![]) by {
        assert(s@.skip(start as int).len() == 0);
    }
    assert(rows(out@) + seq![] =~= rows(out@));
    out
}


// ───────────────────────── joining ─────────────────────────

/// The parts that are not empty, in order.
pub open spec fn nonempty_parts(parts: Seq<Seq<char>>) -> Seq<Seq<char>> {
    parts.filter(|p: Seq<char>| p.len() > 0)
}

/// The parts kept by `nonempty_parts` are parts, and are not empty.
pub proof fn lemma_nonempty_parts(parts: Seq<Seq<char>>)
    ensures
        forall|k: int| 0 <= k < nonempty_parts(parts).len() ==> (#[trigger] nonempty_parts(parts)[k]).len() > 0
            && parts.contains(nonempty_parts(parts)[k]),
    decreases parts.len(),
{
    reveal(Seq::filter);
    if parts.len() > 0 {
        let d = parts.drop_last();
        lemma_nonempty_parts(d);
        let out = nonempty_parts(parts);
        assert forall|k: int| 0 <= k < out.len() implies (#[trigger] out[k]).len() > 0 && parts.contains(out[k]) by {
            if k < nonempty_parts(d).len() {
                assert(out[k] == nonempty_parts(d)[k]);
                let m = choose|m: int| 0 <= m < d.len() && d[m] == out[k];
                assert(parts[m] == d[m]);
            } else {
                assert(out[k] == parts.last());
                assert(parts[parts.len() - 1] == parts.last());
            }
        }
    }
}

/// The parts written one after another with `sep` between two neighbours
/// (`[&str]::join`).
pub open spec fn join(parts: Seq<Seq<char>>, sep: Seq<char>) -> Seq<char>
    decreases parts.len(),
{
    if parts.len() == 0 {
        seq![]
    } else if parts.len() == 1 {
        parts[0]
    } else {
        join(parts.drop_last(), sep) + sep + parts.last()
    }
}

/// `nonempty_parts(parts)` as vectors.
pub fn chars_nonempty_parts(parts: &Vec<Vec<char>>) -> (r: Vec<Vec<char>>)
    ensures
        rows(r@) == nonempty_parts(rows(parts@)),
{
    let mut out: Vec<Vec<char>> = Vec::new();
    let mut i: usize = 0;
    while i < parts.len()
        invariant
            0 <= i <= parts.len(),
            rows(out@) == nonempty_parts(rows(parts@).take(i as int)),
        decreases parts.len() - i,
    {
        let ghost before = rows(parts@).take(i as int);
        assert(rows(parts@).take(i + 1).drop_last() =~= before);
        assert(rows(parts@).take(i + 1).last() == parts@[i as int]@);
        assert(nonempty_parts(rows(parts@).take(i + 1)) == if parts@[i as int]@.len() > 0 {
            nonempty_parts(before).push(parts@[i as int]@)
        } else {
            nonempty_parts(before)
        }) by {
            reveal(Seq::filter);
        }
        if parts[i].len() > 0 {
            let ghost old_out = rows(out@);
            let mut copy: Vec<char> = Vec::new();
            let mut j: usize = 0;
            while j < parts[i].len()
                invariant
                    i < parts.len(),
                    0 <= j <= parts@[i as int].len(),
                    copy@ == parts@[i as int]@.take(j as int),
                decreases parts@[i as int].len() - j,
            {
                copy.push(parts[i][j]);
                j = j + 1;
            }
            assert(copy@ =~= parts@[i as int]@);
            out.push(copy);
            assert(rows(out@) =~= old_out.push(parts@[i as int]@));
        }
        i = i + 1;
    }
    assert(rows(parts@).take(parts.len() as int) =~= rows(parts@));
    out
}

/// `join(parts, sep)` as a vector.
pub fn chars_join(parts: &Vec<Vec<char>>, sep: &Vec<char>) -> (r: Vec<char>)
    ensures
        r@ == join(rows(parts@), sep@),
{
    let mut out: Vec<char> = Vec::new();
    let mut i: usize = 0;
    while i < parts.len()
        invariant
            0 <= i <= parts.len(),
            out@ == join(rows(parts@).take(i as int), sep@),
        decreases parts.len() - i,
    {
        let ghost before = rows(parts@).take(i as int);
        let ghost after = rows(parts@).take(i + 1);
        assert(after.drop_last() =~= before);
        assert(after.last() == parts@[i as int]@);
        if i > 0 {
            append_chars(&mut out, sep);
        } else {
            assert(after.len() == 1);
        }
        append_chars(&mut out, &parts[i]);
        i = i + 1;
    }
    assert(rows(parts@).take(parts.len() as int) =~= rows(parts@));
    out
}

/// Appends the characters of `b` to `a`.
pub fn append_chars(a: &mut Vec<char>, b: &Vec<char>)
    ensures
        final(a)@ == old(a)@ + b@,
{
    let mut j: usize = 0;
    let ghost a0 = a@;
    while j < b.len()
        invariant
            0 <= j <= b.len(),
            a@ == a0 + b@.take(j as int),
        decreases b.len() - j,
    {
        a.push(b[j]);
        j = j + 1;
    }
    assert(b@.take(b.len() as int) =~= b@);
}

/// Appends the characters of a string slice to `a`.
pub fn append_str(a: &mut Vec<char>, b: &str)
    ensures
        final(a)@ == old(a)@ + b@,
{
    let v = str_chars(b);
    append_chars(a, &v);
}

// ───────────────────────── numbers ─────────────────────────

/// The decimal digit for `d < 10`.
pub open spec fn digit_char(d: nat) -> char {
    if d == 0 {
        '0'
    } else if d == 1 {
        '1'
    } else if d == 2 {
        '2'
    } else if d == 3 {
        '3'
    } else if d == 4 {
        '4'
    } else if d == 5 {
        '5'
    } else if d == 6 {
        '6'
    } else if d == 7 {
        '7'
    } else if d == 8 {
        '8'
    } else {
        '9'
    }
}

/// The decimal notation of `n`, without leading zeros.
pub open spec fn decimal(n: nat) -> Seq<char>
    decreases n,
{
    if n < 10 {
        seq![digit_char(n)]
    } else {
        decimal(n / 10).push(digit_char(n % 10))
    }
}

fn digit(d: usize) -> (c: char)
    requires
        d < 10,
    ensures
        c == digit_char(d as nat),
{
    if d == 0 {
        '0'
    } else if d == 1 {
        '1'
    } else if d == 2 {
        '2'
    } else if d == 3 {
        '3'
    } else if d == 4 {
        '4'
    } else if d == 5 {
        '5'
    } else if d == 6 {
        '6'
    } else if d == 7 {
        '7'
    } else if d == 8 {
        '8'
    } else {
        '9'
    }
}

/// The decimal notation of `n`.
pub fn decimal_chars(n: u128) -> (r: Vec<char>)
    ensures
        r@ == decimal(n as nat),
    decreases n,
{
    if n < 10 {
        let v = vec![digit(n as usize)];
        assert(v@ =~= seq![digit_char(n as nat)]);
        v
    } else {
        let mut v = decimal_chars(n / 10);
        v.push(digit((n % 10) as usize));
        v
    }
}

/// The decimal text of a number is never empty, and has one digit exactly
/// below 10.
pub proof fn lemma_decimal_len(n: nat)
    ensures
        decimal(n).len() >= 1,
        decimal(n).len() == 1 <==> n < 10,
    decreases n,
{
    if n >= 10 {
        lemma_decimal_len(n / 10);
    }
}

proof fn lemma_digit_char_injective(x: nat, y: nat)
    requires
        x < 10,
        y < 10,
        digit_char(x) == digit_char(y),
    ensures
        x == y,
{
}

/// Different numbers have different decimal texts.
pub proof fn lemma_decimal_injective(a: nat, b: nat)
    requires
        decimal(a) == decimal(b),
    ensures
        a == b,
    decreases a,
{
    lemma_decimal_len(a);
    lemma_decimal_len(b);
    if a < 10 {
        assert(b < 10);
        assert(decimal(a)[0] == digit_char(a));
        assert(decimal(b)[0] == digit_char(b));
        lemma_digit_char_injective(a, b);
    } else {
        assert(b >= 10);
        let da = decimal(a / 10);
        let db = decimal(b / 10);
        assert(decimal(a) == da.push(digit_char(a % 10)));
        assert(decimal(b) == db.push(digit_char(b % 10)));
        assert(da =~= decimal(a).drop_last());
        assert(db =~= decimal(b).drop_last());
        assert(decimal(a).last() == digit_char(a % 10));
        assert(decimal(b).last() == digit_char(b % 10));
        lemma_digit_char_injective(a % 10, b % 10);
        lemma_decimal_injective(a / 10, b / 10);
    }
}

// ───────────────────────── lists of names ─────────────────────────

/// The first index `>= k` at which `x` stands in `s`.
pub open spec fn index_from(s: Seq<Seq<char>>, x: Seq<char>, k: int) -> Option<int>
    decreases s.len() - k,
{
    if k < 0 || k >= s.len() {
        None
    } else if s[k] == x {
        Some(k)
    } else {
        index_from(s, x, k + 1)
    }
}

/// What `index_from` returns: the first index at or after `k` holding `x`.
pub proof fn lemma_index_from(s: Seq<Seq<char>>, x: Seq<char>, k: int)
    requires
        0 <= k,
    ensures
        index_from(s, x, k) matches Some(i) ==> k <= i < s.len() && s[i] == x && forall|j: int|
            k <= j < i ==> s[j] != x,
        index_from(s, x, k) is None ==> forall|j: int| k <= j < s.len() ==> s[j] != x,
    decreases s.len() - k,
{
    if k < s.len() && s[k] != x {
        lemma_index_from(s, x, k + 1);
    }
}

/// `index_from` finds the first index at or after `k` holding `x`.
pub proof fn lemma_index_from_first(s: Seq<Seq<char>>, x: Seq<char>, k: int, i: int)
    requires
        0 <= k <= i < s.len(),
        s[i] == x,
        forall|j: int| k <= j < i ==> s[j] != x,
    ensures
        index_from(s, x, k) == Some(i),
    decreases i - k,
{
    if k < i {
        lemma_index_from_first(s, x, k + 1, i);
    }
}

/// `ids` with `id` added at the end unless it is there already.
pub open spec fn add_unique(ids: Seq<Seq<char>>, id: Seq<char>) -> Seq<Seq<char>> {
    if ids.contains(id) {
        ids
    } else {
        ids.push(id)
    }
}

/// `ids` with each of `more` added in turn by `add_unique`.
pub open spec fn add_all(ids: Seq<Seq<char>>, more: Seq<Seq<char>>) -> Seq<Seq<char>>
    decreases more.len(),
{
    if more.len() == 0 {
        ids
    } else {
        add_unique(add_all(ids, more.drop_last()), more.last())
    }
}

/// Adding with `add_unique` never lists an id twice.
pub proof fn lemma_add_unique_distinct(ids: Seq<Seq<char>>, x: Seq<char>)
    requires
        distinct_ids(ids),
    ensures
        distinct_ids(add_unique(ids, x)),
{
    let m = seq![x];
    lemma_add_all_distinct(ids, m);
    assert(m.drop_last() =~= Seq::<Seq<char>>::empty());
    assert(add_all(ids, m.drop_last()) == ids);
    assert(m.last() == x);
    assert(add_all(ids, m) == add_unique(ids, x));
}

/// No id is listed twice.
pub open spec fn distinct_ids(ids: Seq<Seq<char>>) -> bool {
    forall|a: int, b: int| 0 <= a < b < ids.len() ==> ids[a] != ids[b]
}

/// Adding with `add_all` never lists an id twice.
pub proof fn lemma_add_all_distinct(ids: Seq<Seq<char>>, more: Seq<Seq<char>>)
    requires
        distinct_ids(ids),
    ensures
        distinct_ids(add_all(ids, more)),
    decreases more.len(),
{
    if more.len() > 0 {
        lemma_add_all_distinct(ids, more.drop_last());
        let prev = add_all(ids, more.drop_last());
        let x = more.last();
        if !prev.contains(x) {
            let next = prev.push(x);
            assert forall|a: int, b: int| 0 <= a < b < next.len() implies next[a] != next[b] by {
                if b == prev.len() {
                    assert(prev[a] == next[a]);
                    if next[a] == next[b] {
                        assert(prev.contains(x));
                    }
                }
            }
        }
    }
}

/// Adds `id` to `ids` unless it is there already.
pub fn add_unique_id(ids: &mut Vec<String>, id: &String)
    ensures
        final(ids).deep_view() == add_unique(old(ids).deep_view(), id@),
{
    let mut i: usize = 0;
    while i < ids.len()
        invariant
            0 <= i <= ids.len(),
            forall|j: int| 0 <= j < i ==> ids.deep_view()[j] != id@,
        decreases ids.len() - i,
    {
        if ids[i] == *id {
            assert(ids.deep_view()[i as int] == id@);
            return;
        }
        i = i + 1;
    }
    let ghost before = ids.deep_view();
    assert(!before.contains(id@));
    ids.push(id.clone());
    assert(ids.deep_view() =~= before.push(id@));
}

/// Adds each of `more` to `ids` in turn, unless it is there already.
pub fn add_all_ids(ids: &mut Vec<String>, more: &Vec<String>)
    ensures
        final(ids).deep_view() == add_all(old(ids).deep_view(), more.deep_view()),
{
    let ghost start = ids.deep_view();
    let mut k: usize = 0;
    assert(more.deep_view().take(0) =~= seq![]);
    while k < more.len()
        invariant
            0 <= k <= more.len(),
            ids.deep_view() == add_all(start, more.deep_view().take(k as int)),
        decreases more.len() - k,
    {
        assert(more.deep_view().take(k + 1).drop_last() =~= more.deep_view().take(k as int));
        add_unique_id(ids, &more[k]);
        k = k + 1;
    }
    assert(more.deep_view().take(more.len() as int) =~= more.deep_view());
}


// ───────────────────────── ordering ─────────────────────────

/// `a` comes before `b` in lexicographic order by code point (the order of
/// `str`).
pub open spec fn str_less(a: Seq<char>, b: Seq<char>) -> bool
    decreases a.len(),
{
    if a.len() == 0 {
        b.len() > 0
    } else if b.len() == 0 {
        false
    } else if a[0] != b[0] {
        a[0] < b[0]
    } else {
        str_less(a.drop_first(), b.drop_first())
    }
}

/// No string comes before itself.
pub proof fn lemma_str_less_irreflexive(a: Seq<char>)
    ensures
        !str_less(a, a),
    decreases a.len(),
{
    if a.len() > 0 {
        lemma_str_less_irreflexive(a.drop_first());
    }
}

/// The order is transitive.
pub proof fn lemma_str_less_transitive(a: Seq<char>, b: Seq<char>, c: Seq<char>)
    requires
        str_less(a, b),
        str_less(b, c),
    ensures
        str_less(a, c),
    decreases a.len(),
{
    if a.len() > 0 && b.len() > 0 && c.len() > 0 && a[0] == b[0] && b[0] == c[0] {
        lemma_str_less_transitive(a.drop_first(), b.drop_first(), c.drop_first());
    }
}

/// Of two different strings, one comes before the other, and not both ways.
pub proof fn lemma_str_less_total(a: Seq<char>, b: Seq<char>)
    ensures
        a != b ==> str_less(a, b) || str_less(b, a),
        !(str_less(a, b) && str_less(b, a)),
    decreases a.len(),
{
    if a.len() > 0 && b.len() > 0 {
        if a[0] == b[0] {
            lemma_str_less_total(a.drop_first(), b.drop_first());
            if a != b {
                assert(a =~= seq![a[0]] + a.drop_first());
                assert(b =~= seq![b[0]] + b.drop_first());
            }
        }
    } else if a.len() == 0 && b.len() == 0 {
        assert(a =~= b);
    }
}

/// `a` is a proper prefix of `b`.
pub open spec fn proper_prefix(a: Seq<char>, b: Seq<char>) -> bool {
    a.len() < b.len() && b.take(a.len() as int) == a
}

/// `a` and `b` agree before index `k`, and at `k` the character of `a` is
/// the smaller one.
pub open spec fn first_difference_less(a: Seq<char>, b: Seq<char>, k: int) -> bool {
    0 <= k < a.len() && k < b.len() && a.take(k) == b.take(k) && a[k] < b[k]
}

/// `str_less` is the order of `str`: a proper prefix comes first, and
/// otherwise the first character at which the two differ decides, whatever
/// their lengths.
pub proof fn lemma_str_less_lexicographic(a: Seq<char>, b: Seq<char>)
    ensures
        str_less(a, b) <==> (proper_prefix(a, b) || exists|k: int| #[trigger] first_difference_less(a, b, k)),
    decreases a.len(),
{
    if a.len() == 0 {
        assert(b.len() > 0 ==> b.take(0) =~= a);
        assert(!exists|k: int| #[trigger] first_difference_less(a, b, k));
    } else if b.len() == 0 {
        assert(!exists|k: int| #[trigger] first_difference_less(a, b, k));
    } else if a[0] != b[0] {
        if proper_prefix(a, b) {
            assert(b.take(a.len() as int)[0] == b[0]);
        }
        assert forall|k: int| #[trigger] first_difference_less(a, b, k) implies k == 0 by {
            if k > 0 {
                assert(a.take(k)[0] == b.take(k)[0]);
            }
        }
        if a[0] < b[0] {
            assert(a.take(0) =~= b.take(0));
            assert(first_difference_less(a, b, 0));
        }
    } else {
        let a1 = a.drop_first();
        let b1 = b.drop_first();
        lemma_str_less_lexicographic(a1, b1);
        if proper_prefix(a1, b1) {
            assert(b.take(a.len() as int) =~= seq![b[0]] + b1.take(a1.len() as int));
            assert(a =~= seq![a[0]] + a1);
        }
        if proper_prefix(a, b) {
            assert(b1.take(a1.len() as int) =~= b.take(a.len() as int).drop_first());
        }
        if exists|k: int| #[trigger] first_difference_less(a1, b1, k) {
            let k = choose|k: int| #[trigger] first_difference_less(a1, b1, k);
            assert(a.take(k + 1) =~= seq![a[0]] + a1.take(k));
            assert(b.take(k + 1) =~= seq![b[0]] + b1.take(k));
            assert(a[k + 1] == a1[k] && b[k + 1] == b1[k]);
            assert(first_difference_less(a, b, k + 1));
        }
        if exists|k: int| #[trigger] first_difference_less(a, b, k) {
            let k = choose|k: int| #[trigger] first_difference_less(a, b, k);
            assert(k > 0);
            assert(a1.take(k - 1) =~= a.take(k).drop_first());
            assert(b1.take(k - 1) =~= b.take(k).drop_first());
            assert(a1[k - 1] == a[k] && b1[k - 1] == b[k]);
            assert(first_difference_less(a1, b1, k - 1));
        }
    }
}

/// Whether `a` comes before `b`.
pub fn string_less(a: &String, b: &String) -> (r: bool)
    ensures
        r == str_less(a@, b@),
{
    let x = str_chars(a.as_str());
    let y = str_chars(b.as_str());
    let mut i: usize = 0;
    assert(x@.skip(0) =~= x@);
    assert(y@.skip(0) =~= y@);
    while i < x.len() && i < y.len()
        invariant
            x@ == a@,
            y@ == b@,
            0 <= i <= x.len(),
            i <= y.len(),
            str_less(x@, y@) == str_less(x@.skip(i as int), y@.skip(i as int)),
        decreases x.len() - i,
    {
        let c = x[i];
        let d = y[i];
        assert(x@.skip(i as int)[0] == c);
        assert(y@.skip(i as int)[0] == d);
        if c != d {
            assert(x@.skip(i as int).len() > 0 && y@.skip(i as int).len() > 0);
            assert(str_less(x@.skip(i as int), y@.skip(i as int)) == (c < d));
            return c < d;
        }
        assert(x@.skip(i as int).drop_first() =~= x@.skip(i + 1));
        assert(y@.skip(i as int).drop_first() =~= y@.skip(i + 1));
        i = i + 1;
    }
    i < y.len()
}

/// Each string comes before the next one, so none is repeated.
pub open spec fn strictly_sorted(s: Seq<Seq<char>>) -> bool {
    forall|i: int, j: int| 0 <= i < j < s.len() ==> str_less(#[trigger] s[i], #[trigger] s[j])
}

/// Inserts `x`, which is not in `v`, at its place in the sorted `v`.
pub fn insert_sorted(v: &mut Vec<String>, x: String)
    requires
        strictly_sorted(old(v).deep_view()),
        !old(v).deep_view().contains(x@),
    ensures
        strictly_sorted(final(v).deep_view()),
        final(v).deep_view().to_set() == old(v).deep_view().to_set().insert(x@),
        final(v).len() == old(v).len() + 1,
{
    let ghost s = v.deep_view();
    let mut p: usize = 0;
    while p < v.len() && string_less(&v[p], &x)
        invariant
            0 <= p <= v.len(),
            v.deep_view() == s,
            forall|i: int| 0 <= i < p ==> str_less(#[trigger] s[i], x@),
        decreases v.len() - p,
    {
        p = p + 1;
    }
    proof {
        if p < s.len() {
            assert(s[p as int] != x@) by {
                assert(s[p as int] == s[p as int]);
            }
            lemma_str_less_total(s[p as int], x@);
        }
    }
    v.insert(p, x);
    proof {
        let t = v.deep_view();
        assert(t =~= s.insert(p as int, x@));
        assert forall|i: int, j: int| 0 <= i < j < t.len() implies str_less(#[trigger] t[i], #[trigger] t[j]) by {
            if j < p {
                assert(t[i] == s[i] && t[j] == s[j]);
            } else if j == p {
                assert(t[i] == s[i]);
            } else if i == p {
                assert(t[j] == s[j - 1]);
                if j - 1 > p {
                    lemma_str_less_transitive(x@, s[p as int], s[j - 1]);
                }
            } else if i < p {
                assert(t[i] == s[i] && t[j] == s[j - 1]);
            } else {
                assert(t[i] == s[i - 1] && t[j] == s[j - 1]);
            }
        }
        assert(t.to_set() =~= s.to_set().insert(x@)) by {
            assert forall|y: Seq<char>| t.to_set().contains(y) implies s.to_set().insert(x@).contains(y) by {
                let i = choose|i: int| 0 <= i < t.len() && t[i] == y;
                if i < p {
                    assert(s[i] == y);
                } else if i > p {
                    assert(s[i - 1] == y);
                }
            }
            assert forall|y: Seq<char>| s.to_set().insert(x@).contains(y) implies t.to_set().contains(y) by {
                if y == x@ {
                    assert(t[p as int] == y);
                } else {
                    let i = choose|i: int| 0 <= i < s.len() && s[i] == y;
                    if i < p {
                        assert(t[i] == y);
                    } else {
                        assert(t[i + 1] == y);
                    }
                }
            }
        }
    }
}

} // verus!
