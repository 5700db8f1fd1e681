//! Character-level text model: whitespace, trimming, tokens, line splitting.

use vstd::prelude::*;
use vstd::string::StringExecFns;

verus! {

/// The Unicode `White_Space` property, which is what `char::is_whitespace` tests.
pub open spec fn is_ws(c: char) -> bool {
    let u = c as u32;
    (0x09 <= u && u <= 0x0d) || u == 0x20 || u == 0x85 || u == 0xa0 || u == 0x1680 || (0x2000
        <= u && u <= 0x200a) || u == 0x2028 || u == 0x2029 || u == 0x202f || u == 0x205f || u
        == 0x3000
}

pub fn is_ws_char(c: char) -> (b: bool)
    ensures
        b == is_ws(c),
{
    let u = c as u32;
    (0x09 <= u && u <= 0x0d) || u == 0x20 || u == 0x85 || u == 0xa0 || u == 0x1680 || (0x2000
        <= u && u <= 0x200a) || u == 0x2028 || u == 0x2029 || u == 0x202f || u == 0x205f || u
        == 0x3000
}

/// The characters of `s`, in order.
pub fn chars_of(s: &str) -> (r: Vec<char>)
    ensures
        r@ == s@,
{
    let mut r: Vec<char> = Vec::new();
    for c in it: s.chars()
        invariant
            r@ == it.seq().subrange(0, it.index() as int),
    {
        r.push(c);
    }
    r
}

/// Relies on `String`'s `FromIterator<char>`: the string holds exactly the given characters.
#[verifier::external_body]
pub(crate) fn chars_to_string(cs: &[char]) -> (r: String)
    ensures
        r@ == cs@,
{
    cs.iter().collect()
}


/// First index at or after `i` that does not hold whitespace (or `s.len()`).
pub open spec fn skip_ws(s: Seq<char>, i: int) -> int
    decreases s.len() - i,
{
    if i < s.len() && is_ws(s[i]) {
        skip_ws(s, i + 1)
    } else {
        i
    }
}

/// First index at or after `i` that holds whitespace (or `s.len()`).
pub open spec fn skip_word(s: Seq<char>, i: int) -> int
    decreases s.len() - i,
{
    if i < s.len() && !is_ws(s[i]) {
        skip_word(s, i + 1)
    } else {
        i
    }
}

/// Moving left from `j`, the end of the last non-whitespace character at or after `lo`.
pub open spec fn rskip_ws(s: Seq<char>, lo: int, j: int) -> int
    decreases j - lo,
{
    if lo < j && is_ws(s[j - 1]) {
        rskip_ws(s, lo, j - 1)
    } else {
        j
    }
}

/// `s` without leading and trailing whitespace, as `str::trim` gives it.
pub open spec fn trim(s: Seq<char>) -> Seq<char> {
    let a = skip_ws(s, 0);
    s.subrange(a, rskip_ws(s, a, s.len() as int))
}

/// The first whitespace-delimited token of `s`.
pub open spec fn first_token(s: Seq<char>) -> Seq<char> {
    let a = skip_ws(s, 0);
    s.subrange(a, skip_word(s, a))
}

/// The second whitespace-delimited token of `s` (empty where there is none).
pub open spec fn second_token(s: Seq<char>) -> Seq<char> {
    let a = skip_ws(s, skip_word(s, skip_ws(s, 0)));
    s.subrange(a, skip_word(s, a))
}

pub proof fn lemma_skip_ws_bounds(s: Seq<char>, i: int)
    requires
        0 <= i <= s.len(),
    ensures
        i <= skip_ws(s, i) <= s.len(),
        forall|k: int| i <= k < skip_ws(s, i) ==> is_ws(#[trigger] s[k]),
        skip_ws(s, i) < s.len() ==> !is_ws(s[skip_ws(s, i)]),
    decreases s.len() - i,
{
    if i < s.len() && is_ws(s[i]) {
        lemma_skip_ws_bounds(s, i + 1);
    }
}

/// `skip_ws` as an index computation.
pub fn skip_ws_at(s: &Vec<char>, i: usize) -> (r: usize)
    requires
        i <= s.len(),
    ensures
        r as int == skip_ws(s@, i as int),
        i <= r <= s.len(),
{
    let mut j = i;
    while j < s.len() && is_ws_char(s[j])
        invariant
            i <= j <= s.len(),
            skip_ws(s@, i as int) == skip_ws(s@, j as int),
        decreases s.len() - j,
    {
        j = j + 1;
    }
    j
}

/// `skip_word` as an index computation.
pub fn skip_word_at(s: &Vec<char>, i: usize) -> (r: usize)
    requires
        i <= s.len(),
    ensures
        r as int == skip_word(s@, i as int),
        i <= r <= s.len(),
{
    let mut j = i;
    while j < s.len() && !is_ws_char(s[j])
        invariant
            i <= j <= s.len(),
            skip_word(s@, i as int) == skip_word(s@, j as int),
        decreases s.len() - j,
    {
        j = j + 1;
    }
    j
}

/// `rskip_ws` as an index computation.
pub fn rskip_ws_at(s: &Vec<char>, lo: usize, j: usize) -> (r: usize)
    requires
        lo <= j <= s.len(),
    ensures
        r as int == rskip_ws(s@, lo as int, j as int),
        lo <= r <= j,
{
    let mut k = j;
    while lo < k && is_ws_char(s[k - 1])
        invariant
            lo <= k <= j <= s.len(),
            rskip_ws(s@, lo as int, j as int) == rskip_ws(s@, lo as int, k as int),
        decreases k - lo,
    {
        k = k - 1;
    }
    k
}

/// The characters of `s` from `a` up to `b`.
pub fn copy_range(s: &Vec<char>, a: usize, b: usize) -> (r: Vec<char>)
    requires
        a <= b <= s.len(),
    ensures
        r@ == s@.subrange(a as int, b as int),
{
    let mut r: Vec<char> = Vec::new();
    let mut i = a;
    while i < b
        invariant
            a <= i <= b <= s.len(),
            r@ == s@.subrange(a as int, i as int),
        decreases b - i,
    {
        r.push(s[i]);
        i = i + 1;
    }
    r
}

/// Bounds of the trimmed part of `s`.
pub fn trim_bounds(s: &Vec<char>) -> (r: (usize, usize))
    ensures
        r.0 <= r.1 <= s.len(),
        r.0 as int == skip_ws(s@, 0),
        r.1 as int == rskip_ws(s@, r.0 as int, s.len() as int),
        s@.subrange(r.0 as int, r.1 as int) == trim(s@),
{
    let a = skip_ws_at(s, 0);
    let b = rskip_ws_at(s, a, s.len());
    (a, b)
}

/// `str::trim` on characters.
pub fn trim_chars(s: &Vec<char>) -> (r: Vec<char>)
    ensures
        r@ == trim(s@),
{
    let (a, b) = trim_bounds(s);
    copy_range(s, a, b)
}

/// Bounds of the first and the second whitespace-delimited tokens of `s`.
pub fn token_bounds(s: &Vec<char>) -> (r: (usize, usize, usize, usize))
    ensures
        r.0 <= r.1 <= r.2 <= r.3 <= s.len(),
        s@.subrange(r.0 as int, r.1 as int) == first_token(s@),
        s@.subrange(r.2 as int, r.3 as int) == second_token(s@),
{
    let a1 = skip_ws_at(s, 0);
    let b1 = skip_word_at(s, a1);
    let a2 = skip_ws_at(s, b1);
    let b2 = skip_word_at(s, a2);
    (a1, b1, a2, b2)
}


/// The indices below `n` at which `s` holds an element that satisfies `f`, in increasing order.
pub open spec fn positions<T>(s: Seq<T>, f: spec_fn(T) -> bool, n: int) -> Seq<int>
    decreases n,
{
    if n <= 0 {
        Seq::empty()
    } else {
        let p = positions(s, f, n - 1);
        if f(s[n - 1]) {
            p.push(n - 1)
        } else {
            p
        }
    }
}

pub proof fn lemma_positions<T>(s: Seq<T>, f: spec_fn(T) -> bool, n: int)
    requires
        0 <= n <= s.len(),
    ensures
        positions(s, f, n).len() <= n,
        forall|k: int|
            0 <= k < positions(s, f, n).len() ==> 0 <= #[trigger] positions(s, f, n)[k] < n && f(
                s[positions(s, f, n)[k]],
            ),
        forall|a: int, b: int|
            0 <= a < b < positions(s, f, n).len() ==> positions(s, f, n)[a] < positions(
                s,
                f,
                n,
            )[b],
    decreases n,
{
    if n > 0 {
        lemma_positions(s, f, n - 1);
    }
}

/// With no element satisfying `f`, there are no positions.
pub proof fn lemma_positions_none<T>(s: Seq<T>, f: spec_fn(T) -> bool, n: int)
    requires
        0 <= n <= s.len(),
        forall|i: int| 0 <= i < n ==> !f(#[trigger] s[i]),
    ensures
        positions(s, f, n).len() == 0,
    decreases n,
{
    if n > 0 {
        lemma_positions_none(s, f, n - 1);
    }
}

/// Start of the `k`-th segment cut by the separator positions `p`.
pub open spec fn seg_start(p: Seq<int>, k: int) -> int {
    if k <= 0 {
        0
    } else {
        p[k - 1] + 1
    }
}

/// End (exclusive) of the `k`-th segment cut by the separator positions `p` in `n` elements.
pub open spec fn seg_end(p: Seq<int>, k: int, n: int) -> int {
    if k < p.len() {
        p[k]
    } else {
        n
    }
}

pub proof fn lemma_segments<T>(s: Seq<T>, f: spec_fn(T) -> bool, k: int)
    requires
        0 <= k <= positions(s, f, s.len() as int).len(),
    ensures
        0 <= seg_start(positions(s, f, s.len() as int), k) <= seg_end(
            positions(s, f, s.len() as int),
            k,
            s.len() as int,
        ) <= s.len(),
{
    lemma_positions(s, f, s.len() as int);
}

pub open spec fn newline_test() -> spec_fn(char) -> bool {
    |c: char| c == '\n'
}

/// Indices of the line feeds in `s`.
pub open spec fn line_breaks(s: Seq<char>) -> Seq<int> {
    positions(s, newline_test(), s.len() as int)
}

/// Number of lines of `s`: one per line feed, and one more for a last line without one.
pub open spec fn line_count(s: Seq<char>) -> int {
    let p = line_breaks(s);
    if seg_start(p, p.len() as int) < s.len() {
        p.len() + 1int
    } else {
        p.len() as int
    }
}

pub open spec fn strip_cr(l: Seq<char>) -> Seq<char> {
    if l.len() > 0 && l.last() == '\r' {
        l.drop_last()
    } else {
        l
    }
}

/// The `k`-th line: a line ended by `\n` loses that and a `\r` before it.
pub open spec fn line_at(s: Seq<char>, k: int) -> Seq<char> {
    let p = line_breaks(s);
    if k < p.len() {
        strip_cr(s.subrange(seg_start(p, k), p[k]))
    } else {
        s.subrange(seg_start(p, k), s.len() as int)
    }
}

/// The lines of `s`, as `str::lines` yields them.
pub open spec fn lines_of(s: Seq<char>) -> Seq<Seq<char>> {
    Seq::new(line_count(s) as nat, |k: int| line_at(s, k))
}

/// The views of a sequence of character vectors.
pub open spec fn lines_view(v: Seq<Vec<char>>) -> Seq<Seq<char>> {
    Seq::new(v.len(), |k: int| v[k]@)
}

/// Indices of the line feeds in `s`.
fn line_break_indices(s: &Vec<char>) -> (r: Vec<usize>)
    ensures
        r.len() == line_breaks(s@).len(),
        forall|k: int| 0 <= k < r.len() ==> r[k] as int == line_breaks(s@)[k],
{
    let mut r: Vec<usize> = Vec::new();
    let mut i: usize = 0;
    while i < s.len()
        invariant
            i <= s.len(),
            r.len() == positions(s@, newline_test(), i as int).len(),
            forall|k: int|
                0 <= k < r.len() ==> r[k] as int == positions(s@, newline_test(), i as int)[k],
        decreases s.len() - i,
    {
        if s[i] == '\n' {
            r.push(i);
        }
        i = i + 1;
    }
    r
}

/// Splits `s` into lines as `str::lines` does.
pub fn split_lines(s: &Vec<char>) -> (r: Vec<Vec<char>>)
    ensures
        lines_view(r@) == lines_of(s@),
{
    let breaks = line_break_indices(s);
    let ghost p = line_breaks(s@);
    proof {
        lemma_positions(s@, newline_test(), s@.len() as int);
    }
    let mut r: Vec<Vec<char>> = Vec::new();
    let mut k: usize = 0;
    while k < breaks.len()
        invariant
            k <= breaks.len() == p.len(),
            p == line_breaks(s@),
            forall|j: int| 0 <= j < breaks.len() ==> breaks[j] as int == p[j],
            forall|j: int| 0 <= j < p.len() ==> 0 <= #[trigger] p[j] < s.len(),
            forall|a: int, b: int| 0 <= a < b < p.len() ==> p[a] < p[b],
            r.len() == k,
            forall|j: int| 0 <= j < k ==> #[trigger] r[j]@ == line_at(s@, j),
        decreases breaks.len() - k,
    {
        proof {
            assert(breaks[k as int] as int == p[k as int]);
            assert(p[k as int] < s.len());
            if k > 0 {
                assert(breaks[k - 1] as int == p[k - 1]);
                assert(p[k - 1] < p[k as int]);
            }
        }
        let start = if k == 0 {
            0
        } else {
            breaks[k - 1] + 1
        };
        let mut line = copy_range(s, start, breaks[k]);
        if line.len() > 0 && line[line.len() - 1] == '\r' {
            line.pop();
        }
        r.push(line);
        k = k + 1;
    }
    proof {
        if breaks.len() > 0 {
            assert(breaks[breaks.len() - 1] as int == p[breaks.len() - 1]);
            assert(p[breaks.len() - 1] < s.len());
        }
    }
    let start = if breaks.len() == 0 {
        0
    } else {
        breaks[breaks.len() - 1] + 1
    };
    if start < s.len() {
        let line = copy_range(s, start, s.len());
        r.push(line);
    }
    assert(lines_view(r@) =~= lines_of(s@));
    r
}

/// Joins lines with `\n` between them.
pub open spec fn join_lines(ls: Seq<Seq<char>>) -> Seq<char>
    decreases ls.len(),
{
    if ls.len() == 0 {
        Seq::empty()
    } else if ls.len() == 1 {
        ls[0]
    } else {
        join_lines(ls.drop_last()) + seq!['\n'] + ls.last()
    }
}

/// The lines from `a` up to `b`, joined with `\n`.
pub fn join_range(lines: &Vec<Vec<char>>, a: usize, b: usize) -> (r: Vec<char>)
    requires
        a <= b <= lines.len(),
    ensures
        r@ == join_lines(lines_view(lines@).subrange(a as int, b as int)),
{
    let ghost ls = lines_view(lines@);
    let mut r: Vec<char> = Vec::new();
    let mut i = a;
    while i < b
        invariant
            a <= i <= b <= lines.len(),
            ls == lines_view(lines@),
            r@ == join_lines(ls.subrange(a as int, i as int)),
        decreases b - i,
    {
        if i > a {
            r.push('\n');
        }
        let line = &lines[i];
        let ghost before = r@;
        let mut j: usize = 0;
        while j < line.len()
            invariant
                j <= line.len(),
                r@ == before + line@.subrange(0, j as int),
            decreases line.len() - j,
        {
            r.push(line[j]);
            j = j + 1;
        }
        proof {
            assert(line@.subrange(0, line@.len() as int) =~= line@);
            assert(ls.subrange(a as int, i + 1).drop_last() =~= ls.subrange(a as int, i as int));
            assert(ls.subrange(a as int, i + 1).last() == ls[i as int]);
            if i == a {
                assert(r@ =~= join_lines(ls.subrange(a as int, i + 1)));
            } else {
                assert(r@ =~= join_lines(ls.subrange(a as int, i + 1)));
            }
        }
        i = i + 1;
    }
    r
}


/// First index at or after `i` where `s` holds `c` (or `s.len()`).
pub open spec fn find_char(s: Seq<char>, c: char, i: int) -> int
    decreases s.len() - i,
{
    if i < s.len() && s[i] != c {
        find_char(s, c, i + 1)
    } else {
        i
    }
}

/// `find_char` as an index computation.
pub fn find_char_at(s: &Vec<char>, c: char, i: usize) -> (r: usize)
    requires
        i <= s.len(),
    ensures
        r as int == find_char(s@, c, i as int),
        i <= r <= s.len(),
{
    let mut j = i;
    while j < s.len() && s[j] != c
        invariant
            i <= j <= s.len(),
            find_char(s@, c, i as int) == find_char(s@, c, j as int),
        decreases s.len() - j,
    {
        j = j + 1;
    }
    j
}

/// Whether `pat` occurs in `s` at index `i`.
pub open spec fn occurs_at(s: Seq<char>, pat: Seq<char>, i: int) -> bool {
    0 <= i && i + pat.len() <= s.len() && s.subrange(i, i + pat.len()) == pat
}

/// Whether `pat` occurs in `s`, as `str::contains` tests it.
pub open spec fn contains(s: Seq<char>, pat: Seq<char>) -> bool {
    exists|i: int| occurs_at(s, pat, i)
}

fn occurs_at_exec(s: &Vec<char>, pat: &Vec<char>, i: usize) -> (b: bool)
    requires
        i + pat.len() <= s.len(),
    ensures
        b == occurs_at(s@, pat@, i as int),
{
    let mut j: usize = 0;
    while j < pat.len()
        invariant
            j <= pat.len(),
            i + pat.len() <= s.len(),
            forall|k: int| 0 <= k < j ==> s@[i + k] == pat@[k],
        decreases pat.len() - j,
    {
        if s[i + j] != pat[j] {
            assert(s@.subrange(i as int, i + pat.len())[j as int] != pat@[j as int]);
            return false;
        }
        j = j + 1;
    }
    assert(s@.subrange(i as int, i + pat.len()) =~= pat@);
    true
}

/// Whether `pat` occurs in `s`.
pub fn contains_chars(s: &Vec<char>, pat: &Vec<char>) -> (b: bool)
    ensures
        b == contains(s@, pat@),
{
    if pat.len() > s.len() {
        return false;
    }
    if pat.len() == 0 {
        assert(s@.subrange(0, 0) =~= pat@);
        assert(occurs_at(s@, pat@, 0));
        return true;
    }
    let mut i: usize = 0;
    let last = s.len() - pat.len();
    while i <= last
        invariant
            1 <= pat.len() <= s.len(),
            last == s.len() - pat.len(),
            i <= last + 1,
            forall|k: int| 0 <= k < i ==> !occurs_at(s@, pat@, k),
        decreases last + 1 - i,
    {
        if occurs_at_exec(s, pat, i) {
            return true;
        }
        i = i + 1;
    }
    assert forall|k: int| !occurs_at(s@, pat@, k) by {
        if k >= i {
            assert(k + pat.len() > s.len());
        }
    }
    false
}

pub open spec fn digit_char(d: int) -> char {
    if d == 0 {
        '0'
    } else if d == 1 {
        '1'
    } else if d == 2 {
        '2'
    } else if d == 3 {
        '3'
    } else if d == 4 {
        '4'
    } else if d == 5 {
        '5'
    } else if d == 6 {
        '6'
    } else if d == 7 {
        '7'
    } else if d == 8 {
        '8'
    } else {
        '9'
    }
}

/// The decimal digits of `n`, most significant first, as `Display` writes an integer.
pub open spec fn decimal(n: nat) -> Seq<char>
    decreases n,
{
    if n < 10 {
        seq![digit_char(n as int)]
    } else {
        decimal(n / 10).push(digit_char((n % 10) as int))
    }
}

fn digit_of(d: u64) -> (c: char)
    requires
        d < 10,
    ensures
        c == digit_char(d as int),
{
    if d == 0 {
        '0'
    } else if d == 1 {
        '1'
    } else if d == 2 {
        '2'
    } else if d == 3 {
        '3'
    } else if d == 4 {
        '4'
    } else if d == 5 {
        '5'
    } else if d == 6 {
        '6'
    } else if d == 7 {
        '7'
    } else if d == 8 {
        '8'
    } else {
        '9'
    }
}

fn push_decimal(out: &mut Vec<char>, n: u64)
    ensures
        final(out)@ == old(out)@ + decimal(n as nat),
    decreases n,
{
    if n >= 10 {
        push_decimal(out, n / 10);
    }
    out.push(digit_of(n % 10));
    proof {
        if n < 10 {
            assert(n % 10 == n);
        }
    }
}

/// `n` written in decimal.
pub fn decimal_string(n: u64) -> (r: String)
    ensures
        r@ == decimal(n as nat),
{
    let mut v: Vec<char> = Vec::new();
    push_decimal(&mut v, n);
    assert(v@ =~= decimal(n as nat));
    chars_to_string(v.as_slice())
}


/// Whether `a` holds the same text as `b`.
pub fn same_text(a: &String, b: &str) -> (r: bool)
    ensures
        r == (a@ == b@),
{
    let owned = String::from_str(b);
    *a == owned
}

/// Optional text, seen as characters.
pub open spec fn opt_view(o: Option<String>) -> Option<Seq<char>> {
    match o {
        Some(s) => Some(s@),
        None => None,
    }
}

/// A result of texts, seen as characters.
pub open spec fn result_view(r: Result<String, String>) -> Result<Seq<char>, Seq<char>> {
    match r {
        Ok(s) => Ok(s@),
        Err(e) => Err(e@),
    }
}


/// What `str::to_uppercase` makes of a text.
pub uninterp spec fn upper_of(s: Seq<char>) -> Seq<char>;

/// Relies on `str::to_uppercase`: full Unicode upper-casing, which depends on the
/// characters alone.
#[verifier::external_body]
pub(crate) fn upper_case(s: &str) -> (r: String)
    ensures
        r@ == upper_of(s@),
{
    s.to_uppercase()
}

} // verus!
