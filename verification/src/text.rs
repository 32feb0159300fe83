//! Character-level text model shared by the checks: lines, trimming,
//! prefix and substring tests, and UTF-8 byte lengths.

use vstd::prelude::*;
use vstd::utf8::*;

verus! {

// ---------------------------------------------------------------------------
// Lines
// ---------------------------------------------------------------------------

/// Index of the first `'\n'` in `s`, or `s.len()` when there is none.
pub open spec fn first_newline(s: Seq<char>) -> nat
    decreases s.len(),
{
    if s.len() == 0 {
        0
    } else if s[0] == '\n' {
        0
    } else {
        1 + first_newline(s.drop_first())
    }
}

/// Removes one trailing `'\r'`, if there is one.
pub open spec fn strip_cr(s: Seq<char>) -> Seq<char> {
    if s.len() > 0 && s.last() == '\r' {
        s.drop_last()
    } else {
        s
    }
}

/// The lines of `s`, as `str::lines` yields them: the text is cut after each
/// `'\n'`, the `'\n'` and one `'\r'` right before it are removed, and an empty
/// piece after a final `'\n'` is not a line.
pub open spec fn lines(s: Seq<char>) -> Seq<Seq<char>>
    decreases s.len(),
{
    if s.len() == 0 {
        seq![]
    } else {
        let k = first_newline(s);
        if k >= s.len() {
            seq![s]
        } else {
            seq![strip_cr(s.take(k as int))] + lines(s.skip(k + 1 as int))
        }
    }
}

/// `s` holds no `'\n'`.
pub open spec fn no_newline(s: Seq<char>) -> bool {
    forall|j: int| 0 <= j < s.len() ==> s[j] != '\n'
}

pub proof fn lemma_first_newline_at(s: Seq<char>, k: int)
    requires
        0 <= k <= s.len(),
        forall|j: int| 0 <= j < k ==> s[j] != '\n',
        k == s.len() || s[k] == '\n',
    ensures
        first_newline(s) == k,
    decreases k,
{
    if k > 0 {
        lemma_first_newline_at(s.drop_first(), k - 1);
    }
}

/// A text without a line break is one line (or none, when empty).
pub proof fn lemma_lines_single(s: Seq<char>)
    requires
        no_newline(s),
    ensures
        lines(s) == (if s.len() == 0 { Seq::<Seq<char>>::empty() } else { seq![s] }),
{
    if s.len() > 0 {
        lemma_first_newline_at(s, s.len() as int);
    }
}

/// The first line ends at the first line break.
pub proof fn lemma_lines_cons(a: Seq<char>, b: Seq<char>)
    requires
        no_newline(a),
    ensures
        lines(a + seq!['\n'] + b) == seq![strip_cr(a)] + lines(b),
{
    let s = a + seq!['\n'] + b;
    lemma_first_newline_at(s, a.len() as int);
    assert(s.take(a.len() as int) =~= a);
    assert(s.skip(a.len() + 1 as int) =~= b);
}

/// The lines of `s` as character vectors, computed as `str::lines` does.
pub fn lines_of(s: &Vec<char>) -> (r: Vec<Vec<char>>)
    ensures
        r@.map_values(|l: Vec<char>| l@) == lines(s@),
{
    let n = s.len();
    let mut out: Vec<Vec<char>> = Vec::new();
    let mut cur: Vec<char> = Vec::new();
    let mut seg_start: usize = 0;
    let mut i: usize = 0;
    assert(s@.subrange(0, n as int) =~= s@);
    assert(out@.map_values(|l: Vec<char>| l@) + lines(s@) =~= lines(s@));
    while i < n
        invariant
            n == s@.len(),
            seg_start <= i <= n,
            cur@ == s@.subrange(seg_start as int, i as int),
            no_newline(cur@),
            lines(s@) == out@.map_values(|l: Vec<char>| l@) + lines(
                s@.subrange(seg_start as int, n as int),
            ),
        decreases n - i,
    {
        let c = s[i];
        if c == '\n' {
            let ghost t = s@.subrange(seg_start as int, n as int);
            let ghost rest = s@.subrange(i + 1, n as int);
            proof {
                assert(t =~= cur@ + seq!['\n'] + rest);
                lemma_lines_cons(cur@, rest);
            }
            let ghost before = out@.map_values(|l: Vec<char>| l@);
            let mut line = cur;
            let len = line.len();
            if len > 0 && line[len - 1] == '\r' {
                line.pop();
            }
            assert(line@ == strip_cr(s@.subrange(seg_start as int, i as int)));
            out.push(line);
            assert(out@.map_values(|l: Vec<char>| l@) =~= before.push(
                strip_cr(s@.subrange(seg_start as int, i as int)),
            ));
            cur = Vec::new();
            i = i + 1;
            seg_start = i;
            assert(cur@ =~= s@.subrange(seg_start as int, i as int));
        } else {
            cur.push(c);
            i = i + 1;
            assert(cur@ =~= s@.subrange(seg_start as int, i as int));
        }
    }
    proof {
        lemma_lines_single(cur@);
    }
    let ghost before = out@.map_values(|l: Vec<char>| l@);
    if cur.len() > 0 {
        out.push(cur);
        assert(out@.map_values(|l: Vec<char>| l@) =~= before + lines(
            s@.subrange(seg_start as int, n as int),
        ));
    } else {
        assert(before + lines(s@.subrange(seg_start as int, n as int)) =~= before);
    }
    out
}

// ---------------------------------------------------------------------------
// Characters and strings
// ---------------------------------------------------------------------------

/// Appends one character to a string (`String::push`).
#[verifier::external_body]
pub(crate) fn push_char(s: &mut String, c: char)
    ensures
        final(s)@ == old(s)@.push(c),
{
    s.push(c);
}

/// The characters of `s`, in order.
pub fn chars_of(s: &str) -> (r: Vec<char>)
    ensures
        r@ == s@,
{
    let mut r: Vec<char> = Vec::new();
    for c in it: s.chars()
        invariant
            r@ == it.seq().take(it.index()),
    {
        r.push(c);
    }
    r
}

/// A string made of the given characters.
pub fn string_of(v: &Vec<char>) -> (r: String)
    ensures
        r@ == v@,
{
    let mut r = String::new();
    let n = v.len();
    let mut i: usize = 0;
    while i < n
        invariant
            n == v@.len(),
            i <= n,
            r@ == v@.take(i as int),
        decreases n - i,
    {
        push_char(&mut r, v[i]);
        i = i + 1;
        assert(r@ =~= v@.take(i as int));
    }
    assert(v@.take(n as int) =~= v@);
    r
}


// ---------------------------------------------------------------------------
// Whitespace and trimming
// ---------------------------------------------------------------------------

/// The Unicode `White_Space` property, as `char::is_whitespace` decides it.
pub open spec fn is_whitespace(c: char) -> bool {
    let u = c as u32;
    ||| 0x09 <= u <= 0x0d
    ||| u == 0x20
    ||| u == 0x85
    ||| u == 0xa0
    ||| u == 0x1680
    ||| 0x2000 <= u <= 0x200a
    ||| u == 0x2028
    ||| u == 0x2029
    ||| u == 0x202f
    ||| u == 0x205f
    ||| u == 0x3000
}

pub fn whitespace(c: char) -> (r: bool)
    ensures
        r == is_whitespace(c),
{
    let u = c as u32;
    (0x09 <= u && u <= 0x0d) || u == 0x20 || u == 0x85 || u == 0xa0 || u == 0x1680 || (0x2000
        <= u && u <= 0x200a) || u == 0x2028 || u == 0x2029 || u == 0x202f || u == 0x205f || u
        == 0x3000
}

/// `s` without its leading whitespace.
pub open spec fn trim_start(s: Seq<char>) -> Seq<char>
    decreases s.len(),
{
    if s.len() > 0 && is_whitespace(s[0]) {
        trim_start(s.drop_first())
    } else {
        s
    }
}

/// `s` without its trailing whitespace.
pub open spec fn trim_end(s: Seq<char>) -> Seq<char>
    decreases s.len(),
{
    if s.len() > 0 && is_whitespace(s.last()) {
        trim_end(s.drop_last())
    } else {
        s
    }
}

/// `s` without leading and trailing whitespace (`str::trim`).
pub open spec fn trim(s: Seq<char>) -> Seq<char> {
    trim_end(trim_start(s))
}

pub proof fn lemma_trim_start_at(s: Seq<char>, a: int)
    requires
        0 <= a <= s.len(),
        forall|j: int| 0 <= j < a ==> is_whitespace(s[j]),
        a == s.len() || !is_whitespace(s[a]),
    ensures
        trim_start(s) == s.skip(a),
    decreases a,
{
    if a > 0 {
        lemma_trim_start_at(s.drop_first(), a - 1);
        assert(s.drop_first().skip(a - 1) =~= s.skip(a));
    } else {
        assert(s.skip(0) =~= s);
    }
}

pub proof fn lemma_trim_end_at(s: Seq<char>, b: int)
    requires
        0 <= b <= s.len(),
        forall|j: int| b <= j < s.len() ==> is_whitespace(s[j]),
        b == 0 || !is_whitespace(s[b - 1]),
    ensures
        trim_end(s) == s.take(b),
    decreases s.len() - b,
{
    if b < s.len() {
        lemma_trim_end_at(s.drop_last(), b);
        assert(s.drop_last().take(b) =~= s.take(b));
    } else {
        assert(s.take(b) =~= s);
    }
}

/// A copy of `v[from..to]`.
pub fn copy_range(v: &Vec<char>, from: usize, to: usize) -> (r: Vec<char>)
    requires
        from <= to <= v@.len(),
    ensures
        r@ == v@.subrange(from as int, to as int),
{
    let mut r: Vec<char> = Vec::new();
    let mut i = from;
    while i < to
        invariant
            from <= i <= to <= v@.len(),
            r@ == v@.subrange(from as int, i as int),
        decreases to - i,
    {
        r.push(v[i]);
        i = i + 1;
        assert(r@ =~= v@.subrange(from as int, i as int));
    }
    r
}

/// `v` without leading and trailing whitespace.
pub fn trim_chars(v: &Vec<char>) -> (r: Vec<char>)
    ensures
        r@ == trim(v@),
{
    let n = v.len();
    let mut a: usize = 0;
    while a < n && whitespace(v[a])
        invariant
            a <= n == v@.len(),
            forall|j: int| 0 <= j < a ==> is_whitespace(v@[j]),
        decreases n - a,
    {
        a = a + 1;
    }
    proof {
        lemma_trim_start_at(v@, a as int);
    }
    let ghost t = v@.skip(a as int);
    let mut b: usize = n;
    while b > a && whitespace(v[b - 1])
        invariant
            a <= b <= n == v@.len(),
            forall|j: int| b <= j < n ==> is_whitespace(v@[j]),
        decreases b,
    {
        b = b - 1;
    }
    proof {
        lemma_trim_end_at(t, b - a);
        assert(t.take(b - a) =~= v@.subrange(a as int, b as int));
    }
    copy_range(v, a, b)
}

// ---------------------------------------------------------------------------
// Prefixes and substrings
// ---------------------------------------------------------------------------

/// `s` begins with `p`.
pub open spec fn starts_with(s: Seq<char>, p: Seq<char>) -> bool {
    p.len() <= s.len() && s.take(p.len() as int) == p
}

/// `p` occurs in `s` at position `i`.
pub open spec fn occurs_at(s: Seq<char>, p: Seq<char>, i: int) -> bool {
    0 <= i && i + p.len() <= s.len() && s.subrange(i, i + p.len()) == p
}

/// `p` occurs somewhere in `s` (`str::contains`).
pub open spec fn contains(s: Seq<char>, p: Seq<char>) -> bool {
    exists|i: int| occurs_at(s, p, i)
}

/// Whether `p` occurs in `s` at position `i`.
pub fn matches_at(s: &Vec<char>, p: &Vec<char>, i: usize) -> (r: bool)
    requires
        i <= s@.len(),
    ensures
        r == occurs_at(s@, p@, i as int),
{
    let n = s.len();
    let m = p.len();
    if m > n - i {
        return false;
    }
    let mut j: usize = 0;
    while j < m
        invariant
            i + m <= n == s@.len(),
            m == p@.len(),
            j <= m,
            forall|k: int| 0 <= k < j ==> s@[i + k] == p@[k],
        decreases m - j,
    {
        if s[i + j] != p[j] {
            assert(s@.subrange(i as int, i + m)[j as int] != p@[j as int]);
            return false;
        }
        j = j + 1;
    }
    assert(s@.subrange(i as int, i + m) =~= p@);
    true
}

/// Whether `s` begins with `p`.
pub fn starts_with_chars(s: &Vec<char>, p: &Vec<char>) -> (r: bool)
    ensures
        r == starts_with(s@, p@),
{
    let r = matches_at(s, p, 0);
    assert(s@.subrange(0, p@.len() as int) == s@.take(p@.len() as int));
    r
}

/// Whether `p` occurs in `s`.
pub fn contains_chars(s: &Vec<char>, p: &Vec<char>) -> (r: bool)
    ensures
        r == contains(s@, p@),
{
    let n = s.len();
    let mut i: usize = 0;
    while i < n
        invariant
            n == s@.len(),
            i <= n,
            forall|k: int| 0 <= k < i ==> !occurs_at(s@, p@, k),
        decreases n - i,
    {
        if matches_at(s, p, i) {
            return true;
        }
        i = i + 1;
    }
    let r = matches_at(s, p, n);
    assert(r <==> contains(s@, p@)) by {
        if !r {
            assert forall|k: int| !occurs_at(s@, p@, k) by {
                if 0 <= k && k < n {
                } else if k > n {
                } else {
                }
            }
        }
    }
    r
}

pub proof fn lemma_contains_middle(a: Seq<char>, p: Seq<char>, b: Seq<char>)
    ensures
        contains(a + p + b, p),
{
    assert((a + p + b).subrange(a.len() as int, a.len() + p.len() as int) =~= p);
    assert(occurs_at(a + p + b, p, a.len() as int));
}

// ---------------------------------------------------------------------------
// UTF-8 byte lengths
// ---------------------------------------------------------------------------

/// The number of bytes of the UTF-8 encoding of `s` (what `str::len` returns).
pub open spec fn byte_len(s: Seq<char>) -> nat {
    encode_utf8(s).len()
}

pub proof fn lemma_encode_utf8_concat(a: Seq<char>, b: Seq<char>)
    ensures
        encode_utf8(a + b) == encode_utf8(a) + encode_utf8(b),
    decreases a.len(),
{
    if a.len() == 0 {
        assert(a + b =~= b);
        assert(encode_utf8(a) + encode_utf8(b) =~= encode_utf8(b));
    } else {
        lemma_encode_utf8_concat(a.drop_first(), b);
        assert((a + b).drop_first() =~= a.drop_first() + b);
    }
}

pub proof fn lemma_byte_len_push(s: Seq<char>, c: char)
    ensures
        byte_len(s.push(c)) == byte_len(s) + encode_scalar(c as u32).len(),
{
    lemma_encode_utf8_concat(s, seq![c]);
    assert(s.push(c) =~= s + seq![c]);
    assert(seq![c].drop_first() =~= Seq::<char>::empty());
    assert(encode_utf8(seq![c].drop_first()) =~= Seq::<u8>::empty());
    assert(encode_utf8(seq![c]) =~= encode_scalar(c as u32));
}

/// The number of bytes of the UTF-8 encoding of `c` (`char::len_utf8`).
pub fn char_byte_len(c: char) -> (r: usize)
    ensures
        r == encode_scalar(c as u32).len(),
        1 <= r <= 4,
{
    let u = c as u32;
    if u <= 0x7f {
        1
    } else if u <= 0x7ff {
        2
    } else if u <= 0xffff {
        proof {
            char_is_scalar(c);
        }
        3
    } else {
        4
    }
}

/// The number of bytes of the UTF-8 encoding of `v`.
pub fn byte_len_of(v: &Vec<char>) -> (r: usize)
    requires
        byte_len(v@) <= usize::MAX,
    ensures
        r == byte_len(v@),
{
    let n = v.len();
    let mut total: usize = 0;
    let mut i: usize = 0;
    while i < n
        invariant
            n == v@.len(),
            i <= n,
            total == byte_len(v@.take(i as int)),
            byte_len(v@) <= usize::MAX,
        decreases n - i,
    {
        let w = char_byte_len(v[i]);
        proof {
            lemma_byte_len_push(v@.take(i as int), v@[i as int]);
            assert(v@.take(i as int).push(v@[i as int]) =~= v@.take(i + 1));
            lemma_encode_utf8_concat(v@.take(i + 1), v@.skip(i + 1));
            assert(v@.take(i + 1) + v@.skip(i + 1) =~= v@);
        }
        total = total + w;
        i = i + 1;
    }
    assert(v@.take(n as int) =~= v@);
    total
}

// ---------------------------------------------------------------------------
// Sequences of lines
// ---------------------------------------------------------------------------

/// The views of a vector of character vectors.
pub open spec fn views(v: Seq<Vec<char>>) -> Seq<Seq<char>> {
    v.map_values(|l: Vec<char>| l@)
}

/// How many lines at the front of `ls` satisfy `p`.
pub open spec fn count_leading(ls: Seq<Seq<char>>, p: spec_fn(Seq<char>) -> bool) -> nat
    decreases ls.len(),
{
    if ls.len() > 0 && p(ls[0]) {
        1 + count_leading(ls.drop_first(), p)
    } else {
        0
    }
}

pub proof fn lemma_count_leading_at(ls: Seq<Seq<char>>, p: spec_fn(Seq<char>) -> bool, a: int)
    requires
        0 <= a <= ls.len(),
        forall|j: int| 0 <= j < a ==> p(#[trigger] ls[j]),
        a == ls.len() || !p(ls[a]),
    ensures
        count_leading(ls, p) == a,
    decreases a,
{
    if a > 0 {
        lemma_count_leading_at(ls.drop_first(), p, a - 1);
    }
}

/// The byte offset at which line `k` of `ls` starts, counting one byte for
/// the line break after each earlier line.
pub open spec fn line_offset(ls: Seq<Seq<char>>, k: int) -> nat
    decreases k,
{
    if k <= 0 {
        0
    } else {
        line_offset(ls, k - 1) + byte_len(ls[k - 1]) + 1
    }
}

/// The lines joined with a `'\n'` after each one.
pub open spec fn unlines(ls: Seq<Seq<char>>) -> Seq<char>
    decreases ls.len(),
{
    if ls.len() == 0 {
        Seq::empty()
    } else {
        unlines(ls.drop_last()) + ls.last() + seq!['\n']
    }
}

pub proof fn lemma_byte_len_le_take(s: Seq<char>, k: int)
    requires
        0 <= k <= s.len(),
    ensures
        byte_len(s.take(k)) <= byte_len(s),
{
    lemma_encode_utf8_concat(s.take(k), s.skip(k));
    assert(s.take(k) + s.skip(k) =~= s);
}

/// Every line, with the line breaks before it, lies within the text's bytes.
pub proof fn lemma_lines_within(s: Seq<char>, k: int)
    requires
        0 <= k < lines(s).len(),
    ensures
        line_offset(lines(s), k) + byte_len(lines(s)[k]) <= byte_len(s),
    decreases s.len(),
{
    let f = first_newline(s);
    if f >= s.len() {
        assert(line_offset(lines(s), 0) == 0);
    } else {
        let a = s.take(f as int);
        let rest = s.skip(f + 1 as int);
        lemma_first_newline_props(s);
        assert(s =~= a + seq!['\n'] + rest);
        lemma_encode_utf8_concat(a + seq!['\n'], rest);
        lemma_encode_utf8_concat(a, seq!['\n']);
        assert(seq!['\n'].drop_first() =~= Seq::<char>::empty());
        assert(encode_utf8(seq!['\n']).len() == 1) by {
            assert(encode_utf8(seq!['\n'].drop_first()) =~= Seq::<u8>::empty());
        }
        let ls = lines(s);
        let lr = lines(rest);
        assert(ls =~= seq![strip_cr(a)] + lr);
        if a.len() > 0 && a.last() == '\r' {
            lemma_byte_len_le_take(a, a.len() - 1);
            assert(a.drop_last() =~= a.take(a.len() - 1));
        }
        assert(byte_len(strip_cr(a)) <= byte_len(a));
        if k > 0 {
            lemma_lines_within(rest, k - 1);
            lemma_line_offset_shift(ls, lr, k);
        }
    }
}

pub proof fn lemma_line_offset_shift(ls: Seq<Seq<char>>, lr: Seq<Seq<char>>, k: int)
    requires
        ls.len() == lr.len() + 1,
        forall|j: int| 0 <= j < lr.len() ==> ls[j + 1] == lr[j],
        1 <= k <= ls.len(),
    ensures
        line_offset(ls, k) == byte_len(ls[0]) + 1 + line_offset(lr, k - 1),
    decreases k,
{
    assert(line_offset(ls, 0) == 0);
    assert(line_offset(lr, 0) == 0);
    if k > 1 {
        lemma_line_offset_shift(ls, lr, k - 1);
        assert(ls[k - 1] == lr[k - 2]);
    }
}

pub proof fn lemma_first_newline_props(s: Seq<char>)
    ensures
        first_newline(s) <= s.len(),
        first_newline(s) < s.len() ==> s[first_newline(s) as int] == '\n',
        forall|j: int| 0 <= j < first_newline(s) ==> s[j] != '\n',
    decreases s.len(),
{
    if s.len() > 0 && s[0] != '\n' {
        lemma_first_newline_props(s.drop_first());
        assert forall|j: int| 0 <= j < first_newline(s) implies s[j] != '\n' by {
            if j > 0 {
                assert(s[j] == s.drop_first()[j - 1]);
            }
        }
    }
}

pub proof fn lemma_line_offset_mono(ls: Seq<Seq<char>>, i: int, j: int)
    requires
        0 <= i <= j,
    ensures
        line_offset(ls, i) <= line_offset(ls, j),
    decreases j,
{
    if i < j {
        lemma_line_offset_mono(ls, i, j - 1);
    }
}

/// Appends the given characters to a string.
pub fn push_chars(s: &mut String, v: &Vec<char>)
    ensures
        final(s)@ == old(s)@ + v@,
{
    let n = v.len();
    let mut i: usize = 0;
    while i < n
        invariant
            n == v@.len(),
            i <= n,
            s@ == old(s)@ + v@.take(i as int),
        decreases n - i,
    {
        push_char(s, v[i]);
        i = i + 1;
        assert(s@ =~= old(s)@ + v@.take(i as int));
    }
    assert(v@.take(n as int) =~= v@);
}

/// Appends a string slice to a string.
pub fn push_str(s: &mut String, t: &str)
    ensures
        final(s)@ == old(s)@ + t@,
{
    let v = chars_of(t);
    push_chars(s, &v);
}

/// `s` with every leading copy of `p` removed (`str::trim_start_matches`
/// with a non-empty string pattern).
pub open spec fn trim_prefix_all(s: Seq<char>, p: Seq<char>) -> Seq<char>
    decreases s.len(),
{
    if p.len() > 0 && starts_with(s, p) {
        trim_prefix_all(s.skip(p.len() as int), p)
    } else {
        s
    }
}

/// `s` with every leading copy of `p` removed.
pub fn trim_prefix_all_chars(s: &Vec<char>, p: &Vec<char>) -> (r: Vec<char>)
    ensures
        r@ == trim_prefix_all(s@, p@),
{
    let n = s.len();
    let m = p.len();
    if m == 0 {
        return copy_range(s, 0, n);
    }
    let mut i: usize = 0;
    assert(s@.skip(0) =~= s@);
    while matches_at(s, p, i)
        invariant
            i <= n == s@.len(),
            m == p@.len() > 0,
            trim_prefix_all(s@, p@) == trim_prefix_all(s@.skip(i as int), p@),
        decreases n - i,
    {
        proof {
            assert(s@.skip(i as int).take(m as int) =~= s@.subrange(i as int, i + m));
            assert(s@.skip(i as int).skip(m as int) =~= s@.skip(i + m));
        }
        i = i + m;
    }
    proof {
        if m <= s@.skip(i as int).len() {
            assert(s@.skip(i as int).take(m as int) =~= s@.subrange(i as int, i + m));
        }
    }
    copy_range(s, i, n)
}

/// The lines that are not empty, in order.
pub open spec fn nonempty_lines(ls: Seq<Seq<char>>) -> Seq<Seq<char>>
    decreases ls.len(),
{
    if ls.len() == 0 {
        Seq::empty()
    } else if ls.last().len() == 0 {
        nonempty_lines(ls.drop_last())
    } else {
        nonempty_lines(ls.drop_last()).push(ls.last())
    }
}

/// The lines joined with `'\n'` between them.
pub open spec fn join_lines(ls: Seq<Seq<char>>) -> Seq<char>
    decreases ls.len(),
{
    if ls.len() == 0 {
        Seq::empty()
    } else if ls.len() == 1 {
        ls[0]
    } else {
        join_lines(ls.drop_last()) + seq!['\n'] + ls.last()
    }
}

/// Index of the last line satisfying `p`, or -1.
pub open spec fn last_with(ls: Seq<Seq<char>>, p: spec_fn(Seq<char>) -> bool) -> int
    decreases ls.len(),
{
    if ls.len() == 0 {
        -1
    } else if p(ls.last()) {
        ls.len() - 1
    } else {
        last_with(ls.drop_last(), p)
    }
}

pub proof fn lemma_last_with_at(ls: Seq<Seq<char>>, p: spec_fn(Seq<char>) -> bool, i: int)
    requires
        0 <= i <= ls.len(),
        forall|j: int| i <= j < ls.len() ==> !p(#[trigger] ls[j]),
        i == 0 || p(ls[i - 1]),
    ensures
        last_with(ls, p) == i - 1,
    decreases ls.len() - i,
{
    if i < ls.len() {
        lemma_last_with_at(ls.drop_last(), p, i);
    }
}

/// Byte length of the first line, and at least 1 (1 when there is no line).
pub open spec fn first_line_width(ls: Seq<Seq<char>>) -> nat {
    if ls.len() > 0 && byte_len(ls[0]) > 1 {
        byte_len(ls[0])
    } else {
        1
    }
}

/// Whether two character vectors are equal.
pub fn chars_eq(a: &Vec<char>, b: &Vec<char>) -> (r: bool)
    ensures
        r == (a@ == b@),
{
    let n = a.len();
    if n != b.len() {
        return false;
    }
    let mut i: usize = 0;
    while i < n
        invariant
            n == a@.len() == b@.len(),
            i <= n,
            forall|j: int| 0 <= j < i ==> a@[j] == b@[j],
        decreases n - i,
    {
        if a[i] != b[i] {
            assert(a@[i as int] != b@[i as int]);
            return false;
        }
        i = i + 1;
    }
    assert(a@ =~= b@);
    true
}

/// `s` with every non-overlapping occurrence of `from`, scanning left to
/// right, replaced by `to` (`str::replace` with a non-empty pattern).
pub open spec fn replace_all(s: Seq<char>, from: Seq<char>, to: Seq<char>) -> Seq<char>
    decreases s.len(),
{
    if from.len() == 0 || s.len() == 0 {
        s
    } else if starts_with(s, from) {
        to + replace_all(s.skip(from.len() as int), from, to)
    } else {
        seq![s[0]] + replace_all(s.drop_first(), from, to)
    }
}

/// `s` with every occurrence of `from` replaced by `to`.
pub fn replace_all_chars(s: &Vec<char>, from: &Vec<char>, to: &Vec<char>) -> (r: Vec<char>)
    requires
        from@.len() > 0,
    ensures
        r@ == replace_all(s@, from@, to@),
{
    let n = s.len();
    let m = from.len();
    let mut out: Vec<char> = Vec::new();
    let mut i: usize = 0;
    assert(s@.skip(0) =~= s@);
    while i < n
        invariant
            i <= n == s@.len(),
            m == from@.len() > 0,
            out@ + replace_all(s@.skip(i as int), from@, to@) == replace_all(s@, from@, to@),
        decreases n - i,
    {
        let ghost rest = s@.skip(i as int);
        if matches_at(s, from, i) {
            assert(rest.take(m as int) =~= s@.subrange(i as int, i + m));
            assert(rest.skip(m as int) =~= s@.skip(i + m));
            let ghost before = out@;
            let k = to.len();
            let mut j: usize = 0;
            while j < k
                invariant
                    k == to@.len(),
                    j <= k,
                    out@ == before + to@.take(j as int),
                decreases k - j,
            {
                out.push(to[j]);
                j = j + 1;
                assert(out@ =~= before + to@.take(j as int));
            }
            assert(to@.take(k as int) =~= to@);
            assert(out@ + replace_all(s@.skip(i + m), from@, to@) =~= before + replace_all(
                rest,
                from@,
                to@,
            ));
            i = i + m;
        } else {
            proof {
                if m <= rest.len() {
                    assert(rest.take(m as int) =~= s@.subrange(i as int, i + m));
                }
                assert(rest.drop_first() =~= s@.skip(i + 1));
            }
            let ghost before = out@;
            out.push(s[i]);
            assert(out@ + replace_all(s@.skip(i + 1), from@, to@) =~= before + replace_all(
                rest,
                from@,
                to@,
            ));
            i = i + 1;
        }
    }
    assert(s@.skip(n as int) =~= Seq::<char>::empty());
    assert(out@ + replace_all(s@.skip(n as int), from@, to@) =~= out@);
    out
}

/// Index of the first `c` in `s`, or `s.len()`.
pub open spec fn first_index_of(s: Seq<char>, c: char) -> nat
    decreases s.len(),
{
    if s.len() == 0 || s[0] == c {
        0
    } else {
        1 + first_index_of(s.drop_first(), c)
    }
}

/// The pieces of `s` between the separators `c` (`str::split` with a `char`):
/// always at least one piece, empty pieces kept.
pub open spec fn split_on(s: Seq<char>, c: char) -> Seq<Seq<char>>
    decreases s.len(),
{
    let k = first_index_of(s, c);
    if k >= s.len() {
        seq![s]
    } else {
        seq![s.take(k as int)] + split_on(s.skip(k + 1 as int), c)
    }
}

pub proof fn lemma_first_index_of_at(s: Seq<char>, c: char, k: int)
    requires
        0 <= k <= s.len(),
        forall|j: int| 0 <= j < k ==> s[j] != c,
        k == s.len() || s[k] == c,
    ensures
        first_index_of(s, c) == k,
    decreases k,
{
    if k > 0 {
        lemma_first_index_of_at(s.drop_first(), c, k - 1);
    }
}

/// The pieces of `s` between the separators `c`.
pub fn split_chars(s: &Vec<char>, c: char) -> (r: Vec<Vec<char>>)
    ensures
        views(r@) == split_on(s@, c),
{
    let n = s.len();
    let mut out: Vec<Vec<char>> = Vec::new();
    let mut cur: Vec<char> = Vec::new();
    let mut start: usize = 0;
    let mut i: usize = 0;
    assert(s@.subrange(0, n as int) =~= s@);
    assert(views(out@) + split_on(s@, c) =~= split_on(s@, c));
    while i < n
        invariant
            start <= i <= n == s@.len(),
            cur@ == s@.subrange(start as int, i as int),
            forall|j: int| start <= j < i ==> s@[j] != c,
            views(out@) + split_on(s@.subrange(start as int, n as int), c) == split_on(s@, c),
        decreases n - i,
    {
        if s[i] == c {
            let ghost t = s@.subrange(start as int, n as int);
            proof {
                lemma_first_index_of_at(t, c, i - start);
                assert(t.take(i - start) =~= cur@);
                assert(t.skip(i - start + 1) =~= s@.subrange(i + 1, n as int));
            }
            let ghost before = views(out@);
            out.push(cur);
            assert(views(out@) =~= before.push(s@.subrange(start as int, i as int)));
            cur = Vec::new();
            i = i + 1;
            start = i;
            assert(cur@ =~= s@.subrange(start as int, i as int));
        } else {
            cur.push(s[i]);
            i = i + 1;
            assert(cur@ =~= s@.subrange(start as int, i as int));
        }
    }
    let ghost t = s@.subrange(start as int, n as int);
    proof {
        lemma_first_index_of_at(t, c, t.len() as int);
    }
    let ghost before = views(out@);
    out.push(cur);
    assert(views(out@) =~= before.push(t));
    out
}

pub proof fn lemma_unlines_cons(ls: Seq<Seq<char>>)
    requires
        ls.len() > 0,
    ensures
        unlines(ls) == ls[0] + seq!['\n'] + unlines(ls.drop_first()),
    decreases ls.len(),
{
    if ls.len() == 1 {
        assert(ls.drop_first() =~= Seq::<Seq<char>>::empty());
        assert(ls.drop_last() =~= Seq::<Seq<char>>::empty());
        assert(unlines(ls) =~= ls[0] + seq!['\n'] + unlines(ls.drop_first()));
    } else {
        lemma_unlines_cons(ls.drop_last());
        assert(ls.drop_last().drop_first() =~= ls.drop_first().drop_last());
        assert(ls.drop_first().last() == ls.last());
        assert(unlines(ls) =~= ls[0] + seq!['\n'] + unlines(ls.drop_first()));
    }
}

/// Lines without line breaks, each ended by `'\n'`, read back as the same
/// lines (each without a final `'\r'`).
pub proof fn lemma_lines_unlines(ls: Seq<Seq<char>>)
    requires
        forall|i: int| 0 <= i < ls.len() ==> no_newline(#[trigger] ls[i]),
    ensures
        lines(unlines(ls)) == ls.map_values(|l: Seq<char>| strip_cr(l)),
    decreases ls.len(),
{
    if ls.len() == 0 {
        assert(ls.map_values(|l: Seq<char>| strip_cr(l)) =~= Seq::<Seq<char>>::empty());
    } else {
        lemma_unlines_cons(ls);
        assert(no_newline(ls[0]));
        lemma_lines_cons(ls[0], unlines(ls.drop_first()));
        assert forall|i: int| 0 <= i < ls.drop_first().len() implies no_newline(
            #[trigger] ls.drop_first()[i],
        ) by {
            assert(ls.drop_first()[i] == ls[i + 1]);
        }
        lemma_lines_unlines(ls.drop_first());
        assert(ls.map_values(|l: Seq<char>| strip_cr(l)) =~= seq![strip_cr(ls[0])]
            + ls.drop_first().map_values(|l: Seq<char>| strip_cr(l)));
    }
}

/// Dropping a final whitespace character does not change the trimmed text.
pub proof fn lemma_trim_drop_ws_last(x: Seq<char>)
    requires
        x.len() > 0,
        is_whitespace(x.last()),
    ensures
        trim(x.drop_last()) == trim(x),
    decreases x.len(),
{
    if is_whitespace(x[0]) {
        if x.len() == 1 {
            assert(x.drop_last() =~= Seq::<char>::empty());
            assert(x.drop_first() =~= Seq::<char>::empty());
        } else {
            lemma_trim_drop_ws_last(x.drop_first());
            assert(x.drop_last().drop_first() =~= x.drop_first().drop_last());
        }
    } else {
        assert(x.len() >= 2);
        assert(trim_start(x) == x);
        assert(x.drop_last()[0] == x[0]);
        assert(trim_start(x.drop_last()) == x.drop_last());
    }
}

/// A prefix of `strip_cr(x)` is a prefix of `x`.
pub proof fn lemma_starts_with_strip_cr(x: Seq<char>, p: Seq<char>)
    requires
        starts_with(strip_cr(x), p),
    ensures
        starts_with(x, p),
{
    if x.len() > 0 && x.last() == '\r' {
        assert(x.take(p.len() as int) =~= x.drop_last().take(p.len() as int));
    }
}

pub proof fn lemma_no_newline_concat(a: Seq<char>, b: Seq<char>)
    requires
        no_newline(a),
        no_newline(b),
    ensures
        no_newline(a + b),
{
    assert forall|j: int| 0 <= j < (a + b).len() implies (a + b)[j] != '\n' by {
        if j < a.len() {
            assert((a + b)[j] == a[j]);
        } else {
            assert((a + b)[j] == b[j - a.len()]);
        }
    }
}

pub proof fn lemma_trim_prefix_all_no_newline(s: Seq<char>, p: Seq<char>)
    requires
        no_newline(s),
    ensures
        no_newline(trim_prefix_all(s, p)),
    decreases s.len(),
{
    if p.len() > 0 && starts_with(s, p) {
        let t = s.skip(p.len() as int);
        assert forall|j: int| 0 <= j < t.len() implies t[j] != '\n' by {
            assert(t[j] == s[j + p.len()]);
        }
        lemma_trim_prefix_all_no_newline(t, p);
    }
}

pub proof fn lemma_starts_with_concat(a: Seq<char>, b: Seq<char>, p: Seq<char>)
    requires
        starts_with(a, p),
    ensures
        starts_with(a + b, p),
{
    assert((a + b).take(p.len() as int) =~= a.take(p.len() as int));
}

/// `trim_start(x)` is a suffix of `x` that starts at or before any
/// non-whitespace character.
pub proof fn lemma_trim_start_suffix(x: Seq<char>) -> (a: int)
    ensures
        0 <= a <= x.len(),
        trim_start(x) == x.skip(a),
        forall|i: int| 0 <= i < x.len() && !is_whitespace(x[i]) ==> a <= i,
    decreases x.len(),
{
    if x.len() > 0 && is_whitespace(x[0]) {
        let a1 = lemma_trim_start_suffix(x.drop_first());
        assert(x.drop_first().skip(a1) =~= x.skip(a1 + 1));
        assert forall|i: int| 0 <= i < x.len() && !is_whitespace(x[i]) implies a1 + 1 <= i by {
            assert(i > 0);
            assert(x.drop_first()[i - 1] == x[i]);
        }
        a1 + 1
    } else {
        assert(x.skip(0) =~= x);
        0
    }
}

/// `trim_end(y)` is a prefix of `y` that ends after any non-whitespace character.
pub proof fn lemma_trim_end_prefix(y: Seq<char>) -> (c: int)
    ensures
        0 <= c <= y.len(),
        trim_end(y) == y.take(c),
        forall|j: int| 0 <= j < y.len() && !is_whitespace(y[j]) ==> j < c,
        c > 0 ==> !is_whitespace(y[c - 1]),
    decreases y.len(),
{
    if y.len() > 0 && is_whitespace(y.last()) {
        let c1 = lemma_trim_end_prefix(y.drop_last());
        assert(y.drop_last().take(c1) =~= y.take(c1));
        assert forall|j: int| 0 <= j < y.len() && !is_whitespace(y[j]) implies j < c1 by {
            assert(j < y.len() - 1);
            assert(y.drop_last()[j] == y[j]);
        }
        c1
    } else {
        assert(y.take(y.len() as int) =~= y);
        y.len() as int
    }
}

/// `trim(x)` is `x[a..c]`, and every non-whitespace character of `x` lies in it.
pub proof fn lemma_trim_range(x: Seq<char>) -> (r: (int, int))
    ensures
        0 <= r.0 <= r.1 <= x.len(),
        trim(x) == x.subrange(r.0, r.1),
        forall|i: int| 0 <= i < x.len() && !is_whitespace(x[i]) ==> r.0 <= i < r.1,
        r.0 < r.1 ==> !is_whitespace(x[r.1 - 1]),
{
    let a = lemma_trim_start_suffix(x);
    let y = x.skip(a);
    let c = lemma_trim_end_prefix(y);
    assert(y.take(c) =~= x.subrange(a, a + c));
    assert forall|i: int| 0 <= i < x.len() && !is_whitespace(x[i]) implies a <= i < a + c by {
        assert(y[i - a] == x[i]);
    }
    if c > 0 {
        assert(y[c - 1] == x[a + c - 1]);
    }
    (a, a + c)
}

/// Trimming keeps a text free of line breaks.
pub proof fn lemma_trim_no_newline(x: Seq<char>)
    requires
        no_newline(x),
    ensures
        no_newline(trim(x)),
{
    let (a, c) = lemma_trim_range(x);
    assert forall|j: int| 0 <= j < trim(x).len() implies trim(x)[j] != '\n' by {
        assert(trim(x)[j] == x[a + j]);
    }
}

/// No line of a text holds a line break.
pub proof fn lemma_lines_no_newline(s: Seq<char>)
    ensures
        forall|i: int| 0 <= i < lines(s).len() ==> no_newline(#[trigger] lines(s)[i]),
    decreases s.len(),
{
    if s.len() > 0 {
        lemma_first_newline_props(s);
        let k = first_newline(s);
        if k < s.len() {
            lemma_lines_no_newline(s.skip(k + 1 as int));
            let a = strip_cr(s.take(k as int));
            assert forall|j: int| 0 <= j < a.len() implies a[j] != '\n' by {
                assert(a[j] == s[j]);
            }
            assert forall|i: int| 0 <= i < lines(s).len() implies no_newline(#[trigger] lines(s)[i]) by {
                if i > 0 {
                    assert(lines(s)[i] == lines(s.skip(k + 1 as int))[i - 1]);
                }
            }
        }
    }
}

pub proof fn lemma_count_leading_stop(ls: Seq<Seq<char>>, p: spec_fn(Seq<char>) -> bool)
    ensures
        count_leading(ls, p) <= ls.len(),
        forall|j: int| 0 <= j < count_leading(ls, p) ==> p(#[trigger] ls[j]),
        count_leading(ls, p) < ls.len() ==> !p(ls[count_leading(ls, p) as int]),
    decreases ls.len(),
{
    if ls.len() > 0 && p(ls[0]) {
        let t = ls.drop_first();
        lemma_count_leading_stop(t, p);
        assert forall|j: int| 0 <= j < count_leading(ls, p) implies p(#[trigger] ls[j]) by {
            if j > 0 {
                assert(ls[j] == t[j - 1]);
            }
        }
        if count_leading(ls, p) < ls.len() {
            assert(ls[count_leading(ls, p) as int] == t[count_leading(t, p) as int]);
        }
    }
}

pub proof fn lemma_first_index_of_props(s: Seq<char>, c: char)
    ensures
        first_index_of(s, c) <= s.len(),
        forall|j: int| 0 <= j < first_index_of(s, c) ==> s[j] != c,
        first_index_of(s, c) < s.len() ==> s[first_index_of(s, c) as int] == c,
    decreases s.len(),
{
    if s.len() > 0 && s[0] != c {
        let t = s.drop_first();
        lemma_first_index_of_props(t, c);
        assert forall|j: int| 0 <= j < first_index_of(s, c) implies s[j] != c by {
            if j > 0 {
                assert(s[j] == t[j - 1]);
            }
        }
    }
}

/// The pieces of a text between its line breaks hold no line break, and,
/// each ended by `'\n'`, make up the text followed by a `'\n'`.
pub proof fn lemma_split_unlines(x: Seq<char>)
    ensures
        split_on(x, '\n').len() > 0,
        forall|i: int| 0 <= i < split_on(x, '\n').len() ==> no_newline(#[trigger] split_on(x, '\n')[i]),
        unlines(split_on(x, '\n')) == x + seq!['\n'],
    decreases x.len(),
{
    let k = first_index_of(x, '\n');
    lemma_first_index_of_props(x, '\n');
    let sp = split_on(x, '\n');
    if k >= x.len() {
        assert(sp == seq![x]);
        assert(seq![x].drop_last() =~= Seq::<Seq<char>>::empty());
        assert(unlines(Seq::<Seq<char>>::empty()) == Seq::<char>::empty());
        assert(seq![x].last() == x);
        assert(unlines(sp) == unlines(sp.drop_last()) + sp.last() + seq!['\n']);
        assert(unlines(sp) =~= x + seq!['\n']);
    } else {
        let head = x.take(k as int);
        let rest = x.skip(k + 1 as int);
        lemma_split_unlines(rest);
        let sr = split_on(rest, '\n');
        assert(sp == seq![head] + sr);
        assert forall|i: int| 0 <= i < sp.len() implies no_newline(#[trigger] sp[i]) by {
            if i > 0 {
                assert(sp[i] == sr[i - 1]);
            }
        }
        lemma_unlines_cons(sp);
        assert(sp.drop_first() =~= sr);
        assert(x =~= head + seq!['\n'] + rest);
    }
}

/// A text without a line break is its only piece.
pub proof fn lemma_split_single(x: Seq<char>)
    requires
        no_newline(x),
    ensures
        split_on(x, '\n') == seq![x],
{
    lemma_first_index_of_at(x, '\n', x.len() as int);
}

/// A character that is not whitespace lies in one of the pieces between the
/// line breaks, and stays there when a final `'\r'` is removed.
pub proof fn lemma_split_content(x: Seq<char>, q: int) -> (r: (int, int))
    requires
        0 <= q < x.len(),
        !is_whitespace(x[q]),
    ensures
        0 <= r.0 < split_on(x, '\n').len(),
        0 <= r.1 < strip_cr(split_on(x, '\n')[r.0]).len(),
        !is_whitespace(strip_cr(split_on(x, '\n')[r.0])[r.1]),
    decreases x.len(),
{
    let k = first_index_of(x, '\n');
    lemma_first_index_of_props(x, '\n');
    let sp = split_on(x, '\n');
    assert(is_whitespace('\n'));
    assert(is_whitespace('\r'));
    if q < k {
        let p = if k >= x.len() {
            x
        } else {
            x.take(k as int)
        };
        assert(sp[0] == p);
        assert(p[q] == x[q]);
        assert(strip_cr(p)[q] == p[q]);
        (0, q)
    } else {
        assert(q != k);
        let rest = x.skip(k + 1 as int);
        assert(rest[q - k - 1] == x[q]);
        let (j, m) = lemma_split_content(rest, q - k - 1);
        assert(sp[j + 1] == split_on(rest, '\n')[j]);
        (j + 1, m)
    }
}

/// Dropping the empty lines of two runs of lines drops them from each.
pub proof fn lemma_nonempty_lines_concat(a: Seq<Seq<char>>, b: Seq<Seq<char>>)
    ensures
        nonempty_lines(a + b) == nonempty_lines(a) + nonempty_lines(b),
    decreases b.len(),
{
    if b.len() == 0 {
        assert(a + b =~= a);
        assert(nonempty_lines(b) =~= Seq::<Seq<char>>::empty());
        assert(nonempty_lines(a) + nonempty_lines(b) =~= nonempty_lines(a));
    } else {
        lemma_nonempty_lines_concat(a, b.drop_last());
        assert((a + b).drop_last() =~= a + b.drop_last());
        assert((a + b).last() == b.last());
        if b.last().len() == 0 {
        } else {
            assert(nonempty_lines(a + b) =~= nonempty_lines(a) + nonempty_lines(b));
        }
    }
}

/// Joining a line in front of other lines puts a `'\n'` between them.
pub proof fn lemma_join_lines_cons(x: Seq<char>, ls: Seq<Seq<char>>)
    requires
        ls.len() > 0,
    ensures
        join_lines(seq![x] + ls) == x + seq!['\n'] + join_lines(ls),
    decreases ls.len(),
{
    let all = seq![x] + ls;
    assert(all.last() == ls.last());
    if ls.len() == 1 {
        assert(all.drop_last() =~= seq![x]);
        assert(join_lines(seq![x]) == x);
        assert(join_lines(ls) == ls[0]);
    } else {
        lemma_join_lines_cons(x, ls.drop_last());
        assert(all.drop_last() =~= seq![x] + ls.drop_last());
        assert(join_lines(all) =~= x + seq!['\n'] + join_lines(ls));
    }
}

/// A character that is not whitespace in one of the lines is found again in
/// the non-empty lines joined.
pub proof fn lemma_join_content(ls: Seq<Seq<char>>, j: int, k: int) -> (m: int)
    requires
        0 <= j < ls.len(),
        0 <= k < ls[j].len(),
        !is_whitespace(ls[j][k]),
    ensures
        0 <= m < join_lines(nonempty_lines(ls)).len(),
        !is_whitespace(join_lines(nonempty_lines(ls))[m]),
    decreases ls.len(),
{
    let n = nonempty_lines(ls.drop_last());
    let jn = join_lines(n);
    if j == ls.len() - 1 {
        assert(nonempty_lines(ls) == n.push(ls.last()));
        if n.len() == 0 {
            assert(n.push(ls.last()) =~= seq![ls.last()]);
            k
        } else {
            assert(n.push(ls.last()).drop_last() =~= n);
            assert(join_lines(n.push(ls.last())) == jn + seq!['\n'] + ls.last());
            assert((jn + seq!['\n'] + ls.last())[jn.len() + 1 + k] == ls.last()[k]);
            jn.len() + 1 + k
        }
    } else {
        assert(ls.drop_last()[j] == ls[j]);
        let m = lemma_join_content(ls.drop_last(), j, k);
        if ls.last().len() == 0 {
            m
        } else {
            assert(n.len() > 0);
            assert(n.push(ls.last()).drop_last() =~= n);
            assert(join_lines(n.push(ls.last())) == jn + seq!['\n'] + ls.last());
            assert((jn + seq!['\n'] + ls.last())[m] == jn[m]);
            m
        }
    }
}

/// The offset of line `k` is the number of bytes of the lines before it,
/// each followed by its line break.
pub proof fn law_line_offset_counts_bytes(ls: Seq<Seq<char>>, k: int)
    requires
        0 <= k <= ls.len(),
    ensures
        line_offset(ls, k) == byte_len(unlines(ls.take(k))),
    decreases k,
{
    if k == 0 {
        assert(ls.take(0) =~= Seq::<Seq<char>>::empty());
        assert(encode_utf8(Seq::<char>::empty()) =~= Seq::<u8>::empty());
    } else {
        law_line_offset_counts_bytes(ls, k - 1);
        let pre = ls.take(k);
        assert(pre.drop_last() =~= ls.take(k - 1));
        assert(pre.last() == ls[k - 1]);
        let u = unlines(ls.take(k - 1));
        assert(unlines(pre) == u + ls[k - 1] + seq!['\n']);
        lemma_encode_utf8_concat(u, ls[k - 1]);
        lemma_byte_len_push(u + ls[k - 1], '\n');
        assert((u + ls[k - 1]).push('\n') =~= u + ls[k - 1] + seq!['\n']);
        assert(encode_scalar('\n' as u32).len() == 1);
    }
}

proof fn lemma_trim_start_first(s: Seq<char>)
    ensures
        trim_start(s).len() > 0 ==> !is_whitespace(trim_start(s)[0]),
    decreases s.len(),
{
    if s.len() > 0 && is_whitespace(s[0]) {
        lemma_trim_start_first(s.drop_first());
    }
}

/// Trimming removes exactly the whitespace at both ends: the result is the
/// part of `x` from `r.0` to `r.1`, everything before and after it is
/// whitespace, and when it is not empty it starts and ends with a character
/// that is not whitespace.
pub proof fn law_trim_strips_whitespace(x: Seq<char>) -> (r: (int, int))
    ensures
        0 <= r.0 <= r.1 <= x.len(),
        trim(x) == x.subrange(r.0, r.1),
        forall|j: int| 0 <= j < r.0 ==> is_whitespace(#[trigger] x[j]),
        forall|j: int| r.1 <= j < x.len() ==> is_whitespace(#[trigger] x[j]),
        r.0 < r.1 ==> !is_whitespace(x[r.0]) && !is_whitespace(x[r.1 - 1]),
{
    let (a, c) = lemma_trim_range(x);
    let a0 = lemma_trim_start_suffix(x);
    lemma_trim_start_first(x);
    if a < c {
        assert(trim(x)[0] == x[a]);
        if a0 < a {
            assert(trim_start(x)[0] == x[a0]);
            assert(!is_whitespace(x[a0]));
        }
        assert(a0 >= a);
        let y = trim_start(x);
        let c0 = lemma_trim_end_prefix(y);
        assert(trim(x) == y.take(c0));
        assert(y[0] == x[a0]);
        assert(c0 > 0);
        assert(trim(x)[0] == y[0]);
    }
    (a, c)
}

/// `last_with` finds the last line with the property: `-1` when no line has
/// it, else an index whose line has it and after which no line has it.
pub proof fn law_last_with_is_last(ls: Seq<Seq<char>>, p: spec_fn(Seq<char>) -> bool)
    ensures
        -1 <= last_with(ls, p) < ls.len(),
        last_with(ls, p) == -1 ==> forall|j: int| 0 <= j < ls.len() ==> !p(#[trigger] ls[j]),
        last_with(ls, p) >= 0 ==> p(ls[last_with(ls, p)]),
        forall|j: int| last_with(ls, p) < j < ls.len() ==> !p(#[trigger] ls[j]),
    decreases ls.len(),
{
    if ls.len() > 0 && !p(ls.last()) {
        let t = ls.drop_last();
        law_last_with_is_last(t, p);
        assert forall|j: int| last_with(ls, p) < j < ls.len() implies !p(#[trigger] ls[j]) by {
            if j < ls.len() - 1 {
                assert(ls[j] == t[j]);
            }
        }
        if last_with(ls, p) >= 0 {
            assert(ls[last_with(ls, p)] == t[last_with(t, p)]);
        }
    }
}

/// The non-empty lines are the lines filtered by being non-empty.
pub proof fn law_nonempty_lines_filter(ls: Seq<Seq<char>>)
    ensures
        nonempty_lines(ls) == ls.filter(|l: Seq<char>| l.len() > 0),
    decreases ls.len(),
{
    reveal(Seq::filter);
    if ls.len() > 0 {
        law_nonempty_lines_filter(ls.drop_last());
    }
}

/// Joining lines puts a `'\n'` between them: followed by one more `'\n'`,
/// the joined lines are the lines each ended by `'\n'`.
pub proof fn law_join_lines_unlines(ls: Seq<Seq<char>>)
    requires
        ls.len() > 0,
    ensures
        join_lines(ls) + seq!['\n'] == unlines(ls),
    decreases ls.len(),
{
    if ls.len() == 1 {
        assert(ls.drop_last() =~= Seq::<Seq<char>>::empty());
        assert(unlines(Seq::<Seq<char>>::empty()) == Seq::<char>::empty());
        assert(ls.last() == ls[0]);
        assert(unlines(ls) == unlines(ls.drop_last()) + ls.last() + seq!['\n']);
        assert(unlines(ls) =~= ls[0] + seq!['\n']);
    } else {
        law_join_lines_unlines(ls.drop_last());
        assert(unlines(ls) =~= join_lines(ls) + seq!['\n']);
    }
}

/// The pieces joined with the separator between them.
pub open spec fn join_with(ls: Seq<Seq<char>>, c: char) -> Seq<char>
    decreases ls.len(),
{
    if ls.len() == 0 {
        Seq::empty()
    } else if ls.len() == 1 {
        ls[0]
    } else {
        ls[0] + seq![c] + join_with(ls.drop_first(), c)
    }
}

/// Splitting at `c` cuts the text into pieces that hold no `c` and that,
/// joined again with `c` between them, give back the text.
pub proof fn law_split_on_pieces(s: Seq<char>, c: char)
    ensures
        split_on(s, c).len() > 0,
        forall|i: int|
            0 <= i < split_on(s, c).len() ==> !(#[trigger] split_on(s, c)[i]).contains(c),
        join_with(split_on(s, c), c) == s,
    decreases s.len(),
{
    let k = first_index_of(s, c);
    lemma_first_index_of_props(s, c);
    let sp = split_on(s, c);
    if k >= s.len() {
        assert(sp == seq![s]);
        if s.contains(c) {
            let j = choose|j: int| 0 <= j < s.len() && s[j] == c;
            assert(false);
        }
    } else {
        let head = s.take(k as int);
        let rest = s.skip(k + 1 as int);
        law_split_on_pieces(rest, c);
        let sr = split_on(rest, c);
        assert(sp == seq![head] + sr);
        assert forall|i: int| 0 <= i < sp.len() implies !(#[trigger] sp[i]).contains(c) by {
            if i > 0 {
                assert(sp[i] == sr[i - 1]);
            } else if head.contains(c) {
                let j = choose|j: int| 0 <= j < head.len() && head[j] == c;
                assert(s[j] == c);
            }
        }
        assert(sp.drop_first() =~= sr);
        assert(sp.len() > 1);
        assert(s =~= head + seq![c] + rest);
    }
}

} // verus!
