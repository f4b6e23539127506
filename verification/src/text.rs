//! Character sequences: the model that every text function of this crate is
//! stated over, and the executable helpers that work on it.
//!
//! A string is viewed as its sequence of characters (`Seq<char>`). Executable
//! code first turns a `&str` into a `Vec<char>` and then works on slices of
//! it, so that every position is a character position.

use vstd::prelude::*;
use vstd::slice::slice_subrange;

verus! {

/// `String::push` of the standard library: the string afterwards is the
/// string before with `c` added at its end. Nothing else is claimed.
pub assume_specification[ String::push ](s: &mut String, c: char)
    ensures
        final(s)@ == old(s)@.push(c),
;

// ---------------------------------------------------------------------------
// Whitespace and trimming
// ---------------------------------------------------------------------------

/// The characters with the Unicode property `White_Space`.
pub open spec fn is_whitespace(c: char) -> bool {
    let n = c as u32;
    ||| 0x09 <= n <= 0x0D
    ||| n == 0x20
    ||| n == 0x85
    ||| n == 0xA0
    ||| n == 0x1680
    ||| 0x2000 <= n <= 0x200A
    ||| n == 0x2028
    ||| n == 0x2029
    ||| n == 0x202F
    ||| n == 0x205F
    ||| n == 0x3000
}

/// How many whitespace characters `s` begins with.
pub open spec fn leading_whitespace(s: Seq<char>) -> nat
    decreases s.len(),
{
    if s.len() > 0 && is_whitespace(s[0]) {
        1 + leading_whitespace(s.drop_first())
    } else {
        0
    }
}

/// How many whitespace characters `s` ends with.
pub open spec fn trailing_whitespace(s: Seq<char>) -> nat
    decreases s.len(),
{
    if s.len() > 0 && is_whitespace(s.last()) {
        1 + trailing_whitespace(s.drop_last())
    } else {
        0
    }
}

/// `s` without its leading whitespace.
pub open spec fn trim_start(s: Seq<char>) -> Seq<char> {
    s.skip(leading_whitespace(s) as int)
}

/// `s` without its trailing whitespace.
pub open spec fn trim_end(s: Seq<char>) -> Seq<char> {
    s.take(s.len() - trailing_whitespace(s))
}

/// `s` without leading and trailing whitespace.
pub open spec fn trim(s: Seq<char>) -> Seq<char> {
    trim_end(trim_start(s))
}

/// The count of leading whitespace is the first position that holds no
/// whitespace, or the length where all of `s` is whitespace.
pub proof fn lemma_leading_whitespace(s: Seq<char>, n: int)
    requires
        0 <= n <= s.len(),
        forall|k: int| 0 <= k < n ==> is_whitespace(#[trigger] s[k]),
        n < s.len() ==> !is_whitespace(s[n]),
    ensures
        leading_whitespace(s) == n,
    decreases n,
{
    if n > 0 {
        let t = s.drop_first();
        assert forall|k: int| 0 <= k < n - 1 implies is_whitespace(#[trigger] t[k]) by {
            assert(t[k] == s[k + 1]);
        }
        lemma_leading_whitespace(t, n - 1);
    }
}

/// The count of trailing whitespace, read from the end of `s`.
pub proof fn lemma_trailing_whitespace(s: Seq<char>, n: int)
    requires
        0 <= n <= s.len(),
        forall|k: int| s.len() - n <= k < s.len() ==> is_whitespace(#[trigger] s[k]),
        n < s.len() ==> !is_whitespace(s[s.len() - n - 1]),
    ensures
        trailing_whitespace(s) == n,
    decreases n,
{
    if n > 0 {
        let t = s.drop_last();
        assert forall|k: int| t.len() - (n - 1) <= k < t.len() implies is_whitespace(
            #[trigger] t[k],
        ) by {
            assert(t[k] == s[k]);
        }
        lemma_trailing_whitespace(t, n - 1);
    }
}

/// The bounds of the two counts.
pub proof fn lemma_whitespace_bounds(s: Seq<char>)
    ensures
        leading_whitespace(s) <= s.len(),
        trailing_whitespace(s) <= s.len(),
    decreases s.len(),
{
    if s.len() > 0 {
        lemma_whitespace_bounds(s.drop_first());
        lemma_whitespace_bounds(s.drop_last());
    }
}

/// Whether `c` is whitespace.
pub fn is_whitespace_char(c: char) -> (r: bool)
    ensures
        r == is_whitespace(c),
{
    let n: u32 = c as u32;
    (0x09 <= n && n <= 0x0D) || n == 0x20 || n == 0x85 || n == 0xA0 || n == 0x1680 || (0x2000 <= n
        && n <= 0x200A) || n == 0x2028 || n == 0x2029 || n == 0x202F || n == 0x205F || n == 0x3000
}

/// The number of whitespace characters at the start of `s`.
pub fn count_leading_whitespace(s: &[char]) -> (n: usize)
    ensures
        n == leading_whitespace(s@),
        n <= s@.len(),
{
    let mut i: usize = 0;
    while i < s.len() && is_whitespace_char(s[i])
        invariant
            i <= s@.len(),
            forall|k: int| 0 <= k < i ==> is_whitespace(#[trigger] s@[k]),
        decreases s@.len() - i,
    {
        i += 1;
    }
    proof {
        lemma_leading_whitespace(s@, i as int);
    }
    i
}

/// The number of whitespace characters at the end of `s`.
pub fn count_trailing_whitespace(s: &[char]) -> (n: usize)
    ensures
        n == trailing_whitespace(s@),
        n <= s@.len(),
{
    let len: usize = s.len();
    let mut n: usize = 0;
    while n < len && is_whitespace_char(s[len - n - 1])
        invariant
            len == s@.len(),
            n <= len,
            forall|k: int| len - n <= k < len ==> is_whitespace(#[trigger] s@[k]),
        decreases len - n,
    {
        n += 1;
    }
    proof {
        lemma_trailing_whitespace(s@, n as int);
    }
    n
}

/// `s` without its leading whitespace.
pub fn trim_start_chars<'a>(s: &'a [char]) -> (r: &'a [char])
    ensures
        r@ == trim_start(s@),
{
    let n: usize = count_leading_whitespace(s);
    slice_subrange(s, n, s.len())
}

/// `s` without leading and trailing whitespace.
pub fn trim_chars<'a>(s: &'a [char]) -> (r: &'a [char])
    ensures
        r@ == trim(s@),
{
    let t = trim_start_chars(s);
    let n: usize = count_trailing_whitespace(t);
    slice_subrange(t, 0, t.len() - n)
}

// ---------------------------------------------------------------------------
// Strings and character vectors
// ---------------------------------------------------------------------------

/// The characters of `s`, in order.
pub fn chars_of(s: &str) -> (v: Vec<char>)
    ensures
        v@ == s@,
{
    let mut v: Vec<char> = Vec::new();
    for c in it: s.chars()
        invariant
            v@ == it.seq().take(it.index() as int),
            it.seq() == s@,
    {
        v.push(c);
    }
    v
}

/// The string made of the characters of `s`.
pub fn string_of(s: &[char]) -> (r: String)
    ensures
        r@ == s@,
{
    let mut r = String::new();
    let mut i: usize = 0;
    while i < s.len()
        invariant
            i <= s@.len(),
            r@ == s@.take(i as int),
        decreases s@.len() - i,
    {
        r.push(s[i]);
        i += 1;
        assert(s@.take(i as int) == s@.take(i - 1).push(s@[i - 1]));
    }
    assert(s@.take(i as int) == s@);
    r
}

/// The characters of an optional string.
pub open spec fn text_of(o: Option<String>) -> Option<Seq<char>> {
    match o {
        Some(s) => Some(s@),
        None => None,
    }
}

/// The characters of an optional string slice.
pub open spec fn text_of_str(o: Option<&str>) -> Option<Seq<char>> {
    match o {
        Some(s) => Some(s@),
        None => None,
    }
}

/// The characters of each string of a sequence.
pub open spec fn texts(v: Seq<String>) -> Seq<Seq<char>> {
    v.map_values(|s: String| s@)
}

// ---------------------------------------------------------------------------
// Prefixes, suffixes and searching
// ---------------------------------------------------------------------------

/// Whether `s` begins with `p`.
pub open spec fn starts_with(s: Seq<char>, p: Seq<char>) -> bool {
    p.len() <= s.len() && s.take(p.len() as int) == p
}

/// Whether `s` ends with `p`.
pub open spec fn ends_with(s: Seq<char>, p: Seq<char>) -> bool {
    p.len() <= s.len() && s.skip(s.len() - p.len()) == p
}

/// The first position of `c` in `s`, or the length of `s` where `c` does not
/// occur.
pub open spec fn find_char(s: Seq<char>, c: char) -> int
    decreases s.len(),
{
    if s.len() == 0 || s[0] == c {
        0
    } else {
        1 + find_char(s.drop_first(), c)
    }
}

/// The first position at which `p` occurs in `s`, or the length of `s` where
/// it does not occur. (An empty `p` occurs at position 0.)
pub open spec fn find_sub(s: Seq<char>, p: Seq<char>) -> int
    decreases s.len(),
{
    if s.len() == 0 || starts_with(s, p) {
        0
    } else {
        1 + find_sub(s.drop_first(), p)
    }
}

/// Whether `p` occurs in `s`.
pub open spec fn contains_sub(s: Seq<char>, p: Seq<char>) -> bool {
    p.len() == 0 || find_sub(s, p) < s.len()
}

/// `find_char` is the least position holding `c`.
pub proof fn lemma_find_char(s: Seq<char>, c: char, n: int)
    requires
        0 <= n <= s.len(),
        forall|k: int| 0 <= k < n ==> #[trigger] s[k] != c,
        n < s.len() ==> s[n] == c,
    ensures
        find_char(s, c) == n,
    decreases n,
{
    if n > 0 {
        let t = s.drop_first();
        assert forall|k: int| 0 <= k < n - 1 implies #[trigger] t[k] != c by {
            assert(t[k] == s[k + 1]);
        }
        lemma_find_char(t, c, n - 1);
    }
}

/// `find_sub` is the least position at which `p` occurs.
pub proof fn lemma_find_sub(s: Seq<char>, p: Seq<char>, n: int)
    requires
        0 <= n <= s.len(),
        forall|k: int| 0 <= k < n ==> !starts_with(#[trigger] s.skip(k), p),
        n < s.len() ==> starts_with(s.skip(n), p),
    ensures
        find_sub(s, p) == n,
    decreases n,
{
    assert(s.skip(0) == s);
    if n > 0 {
        let t = s.drop_first();
        assert forall|k: int| 0 <= k < n - 1 implies !starts_with(#[trigger] t.skip(k), p) by {
            assert(t.skip(k) == s.skip(k + 1));
        }
        assert(t.skip(n - 1) == s.skip(n));
        lemma_find_sub(t, p, n - 1);
    }
}

/// Whether two slices hold the same characters.
pub fn chars_eq(a: &[char], b: &[char]) -> (r: bool)
    ensures
        r == (a@ == b@),
{
    if a.len() != b.len() {
        return false;
    }
    let mut i: usize = 0;
    while i < a.len()
        invariant
            a@.len() == b@.len(),
            i <= a@.len(),
            forall|k: int| 0 <= k < i ==> a@[k] == b@[k],
        decreases a@.len() - i,
    {
        if a[i] != b[i] {
            return false;
        }
        i += 1;
    }
    assert(a@ =~= b@);
    true
}

/// Whether `s` begins with `p`.
pub fn chars_start_with(s: &[char], p: &[char]) -> (r: bool)
    ensures
        r == starts_with(s@, p@),
{
    if p.len() > s.len() {
        return false;
    }
    chars_eq(slice_subrange(s, 0, p.len()), p)
}

/// Whether `s` ends with `p`.
pub fn chars_end_with(s: &[char], p: &[char]) -> (r: bool)
    ensures
        r == ends_with(s@, p@),
{
    if p.len() > s.len() {
        return false;
    }
    chars_eq(slice_subrange(s, s.len() - p.len(), s.len()), p)
}

/// The first position of `c` in `s`, or the length of `s`.
pub fn find_char_in(s: &[char], c: char) -> (n: usize)
    ensures
        n == find_char(s@, c),
        n <= s@.len(),
        n < s@.len() ==> s@[n as int] == c,
{
    let mut i: usize = 0;
    while i < s.len() && s[i] != c
        invariant
            i <= s@.len(),
            forall|k: int| 0 <= k < i ==> #[trigger] s@[k] != c,
        decreases s@.len() - i,
    {
        i += 1;
    }
    proof {
        lemma_find_char(s@, c, i as int);
    }
    i
}

/// The first position at which `p` occurs in `s`, or the length of `s`.
pub fn find_sub_in(s: &[char], p: &[char]) -> (n: usize)
    ensures
        n == find_sub(s@, p@),
        n <= s@.len(),
{
    let mut i: usize = 0;
    while i < s.len()
        invariant
            i <= s@.len(),
            forall|k: int| 0 <= k < i ==> !starts_with(#[trigger] s@.skip(k), p@),
        decreases s@.len() - i,
    {
        if chars_start_with(slice_subrange(s, i, s.len()), p) {
            proof {
                lemma_find_sub(s@, p@, i as int);
            }
            return i;
        }
        i += 1;
    }
    proof {
        lemma_find_sub(s@, p@, i as int);
    }
    i
}

/// Whether `s` ends with `p`.
pub fn str_ends_with(s: &str, p: &str) -> (r: bool)
    ensures
        r == ends_with(s@, p@),
{
    let x = chars_of(s);
    let y = chars_of(p);
    chars_end_with(x.as_slice(), y.as_slice())
}

/// Whether two strings hold the same characters.
pub fn str_eq(a: &str, b: &str) -> (r: bool)
    ensures
        r == (a@ == b@),
{
    let x = chars_of(a);
    let y = chars_of(b);
    chars_eq(x.as_slice(), y.as_slice())
}

// ---------------------------------------------------------------------------
// Lines
// ---------------------------------------------------------------------------

/// `line` without a carriage return at its end.
pub open spec fn strip_cr(line: Seq<char>) -> Seq<char> {
    if line.len() > 0 && line.last() == '\r' {
        line.drop_last()
    } else {
        line
    }
}

/// The lines of `s`. A line ends at a line feed, or at a carriage return
/// directly followed by a line feed; neither belongs to the line. The last
/// line needs no line ending, and text that ends with one has no empty line
/// after it.
pub open spec fn lines(s: Seq<char>) -> Seq<Seq<char>>
    decreases s.len(),
{
    if s.len() == 0 {
        Seq::empty()
    } else {
        let n = find_char(s, '\n');
        if 0 <= n < s.len() {
            seq![strip_cr(s.take(n))] + lines(s.skip(n + 1))
        } else {
            seq![s]
        }
    }
}

/// Text has no more lines than characters.
pub proof fn lemma_lines_len(s: Seq<char>)
    ensures
        lines(s).len() <= s.len(),
    decreases s.len(),
{
    if s.len() > 0 {
        let n = find_char(s, '\n');
        if 0 <= n < s.len() {
            lemma_lines_len(s.skip(n + 1));
        }
    }
}

/// The character sequences that a vector of slices holds.
pub open spec fn line_views(v: Seq<&[char]>) -> Seq<Seq<char>> {
    v.map_values(|l: &[char]| l@)
}

/// The lines of `s`, each a slice of `s`.
pub fn split_lines<'a>(s: &'a [char]) -> (r: Vec<&'a [char]>)
    ensures
        line_views(r@) == lines(s@),
{
    let mut out: Vec<&[char]> = Vec::new();
    let mut pos: usize = 0;
    assert(s@.skip(0) == s@);
    assert(line_views(out@) + lines(s@) == lines(s@));
    while pos < s.len()
        invariant
            pos <= s@.len(),
            lines(s@) == line_views(out@) + lines(s@.skip(pos as int)),
        decreases s@.len() - pos,
    {
        let rest = slice_subrange(s, pos, s.len());
        let n: usize = find_char_in(rest, '\n');
        let ghost before = out@;
        if n < rest.len() {
            let mut line = slice_subrange(rest, 0, n);
            if n > 0 && line[n - 1] == '\r' {
                line = slice_subrange(line, 0, n - 1);
            }
            assert(line@ == strip_cr(rest@.take(n as int)));
            out.push(line);
            pos = pos + n + 1;
            assert(rest@.skip(n + 1) == s@.skip(pos as int));
            assert(line_views(out@) == line_views(before) + seq![line@]);
        } else {
            out.push(rest);
            pos = s.len();
            assert(lines(s@.skip(pos as int)) == Seq::<Seq<char>>::empty());
            assert(line_views(out@) == line_views(before) + seq![rest@]);
        }
    }
    assert(line_views(out@) + Seq::<Seq<char>>::empty() == line_views(out@));
    out
}

/// The lines `ls` put together again, with one line feed between each two.
pub open spec fn join_lines(ls: Seq<Seq<char>>) -> Seq<char>
    decreases ls.len(),
{
    if ls.len() == 0 {
        Seq::empty()
    } else if ls.len() == 1 {
        ls[0]
    } else {
        join_lines(ls.drop_last()) + seq!['\n'] + ls.last()
    }
}

// ---------------------------------------------------------------------------
// What trimming and splitting keep
// ---------------------------------------------------------------------------

/// Whether `c` does not occur in `s`.
pub open spec fn lacks(s: Seq<char>, c: char) -> bool {
    forall|k: int| 0 <= k < s.len() ==> #[trigger] s[k] != c
}

/// Whether `s` neither begins nor ends with whitespace.
pub open spec fn is_trimmed(s: Seq<char>) -> bool {
    s.len() == 0 || (!is_whitespace(s[0]) && !is_whitespace(s.last()))
}

/// Where the leading whitespace ends, a character that is no whitespace
/// stands, unless the text ends there.
pub proof fn lemma_leading_whitespace_ends(s: Seq<char>)
    ensures
        leading_whitespace(s) <= s.len(),
        leading_whitespace(s) < s.len() ==> !is_whitespace(s[leading_whitespace(s) as int]),
    decreases s.len(),
{
    if s.len() > 0 && is_whitespace(s[0]) {
        lemma_leading_whitespace_ends(s.drop_first());
    }
}

/// Before the trailing whitespace a character that is no whitespace stands,
/// unless the text begins there.
pub proof fn lemma_trailing_whitespace_begins(s: Seq<char>)
    ensures
        trailing_whitespace(s) <= s.len(),
        trailing_whitespace(s) < s.len() ==> !is_whitespace(
            s[s.len() - trailing_whitespace(s) - 1],
        ),
    decreases s.len(),
{
    if s.len() > 0 && is_whitespace(s.last()) {
        lemma_trailing_whitespace_begins(s.drop_last());
    }
}

/// A trimmed text is a part of the text, is trimmed, and is empty only
/// where the text holds nothing but whitespace.
pub proof fn lemma_trim(s: Seq<char>)
    ensures
        is_trimmed(trim(s)),
        exists|a: int, b: int| 0 <= a <= b <= s.len() && trim(s) == s.subrange(a, b),
        forall|c: char| lacks(s, c) ==> lacks(trim(s), c),
{
    lemma_leading_whitespace_ends(s);
    let a = leading_whitespace(s) as int;
    let t = trim_start(s);
    lemma_trailing_whitespace_begins(t);
    let b = s.len() - trailing_whitespace(t);
    assert(trim(s) =~= s.subrange(a, b));
    assert forall|c: char| lacks(s, c) implies lacks(trim(s), c) by {
        assert forall|k: int| 0 <= k < trim(s).len() implies #[trigger] trim(s)[k] != c by {
            assert(trim(s)[k] == s[a + k]);
        }
    }
    if trim(s).len() > 0 {
        assert(trim(s)[0] == s[a]);
        assert(trim(s).last() == t[t.len() - trailing_whitespace(t) - 1]);
    }
}

/// Trimming a trimmed text changes nothing.
pub proof fn lemma_trim_of_trimmed(s: Seq<char>)
    requires
        is_trimmed(s),
    ensures
        trim(s) == s,
        leading_whitespace(s) == 0,
{
    assert(trim_start(s) =~= s);
    assert(trim_end(s) =~= s);
}

/// A character that a text lacks is found at its end.
pub proof fn lemma_find_char_lacks(s: Seq<char>, c: char)
    ensures
        lacks(s, c) <==> find_char(s, c) == s.len(),
{
    lemma_first_occurrence(s, c);
    if lacks(s, c) {
        lemma_find_char(s, c, s.len() as int);
    }
}

/// No line holds a line feed.
pub proof fn lemma_lines_lack_newline(s: Seq<char>)
    ensures
        forall|i: int| 0 <= i < lines(s).len() ==> lacks(#[trigger] lines(s)[i], '\n'),
    decreases s.len(),
{
    if s.len() > 0 {
        let n = find_char(s, '\n');
        lemma_first_occurrence(s, '\n');
        if 0 <= n < s.len() {
            let rest = s.skip(n + 1);
            lemma_lines_lack_newline(rest);
            let head = strip_cr(s.take(n));
            assert forall|k: int| 0 <= k < head.len() implies #[trigger] head[k] != '\n' by {
                assert(head[k] == s[k]);
            }
            assert forall|i: int| 0 <= i < lines(s).len() implies lacks(
                #[trigger] lines(s)[i],
                '\n',
            ) by {
                if i > 0 {
                    assert(lines(s)[i] == lines(rest)[i - 1]);
                }
            }
        } else {
            lemma_find_char_lacks(s, '\n');
        }
    }
}

/// Before its first occurrence a character does not occur.
pub proof fn lemma_first_occurrence(s: Seq<char>, c: char)
    ensures
        0 <= find_char(s, c) <= s.len(),
        forall|k: int| 0 <= k < find_char(s, c) ==> #[trigger] s[k] != c,
        find_char(s, c) < s.len() ==> s[find_char(s, c)] == c,
    decreases s.len(),
{
    if !(s.len() == 0 || s[0] == c) {
        let r = s.drop_first();
        lemma_first_occurrence(r, c);
        assert forall|k: int| 0 <= k < find_char(s, c) implies #[trigger] s[k] != c by {
            if k > 0 {
                assert(s[k] == r[k - 1]);
            }
        }
    }
}

// ---------------------------------------------------------------------------
// Order
// ---------------------------------------------------------------------------

/// Whether `a` comes before `b` in the order of strings: at the first
/// position where they differ `a` holds the lesser character, or `a` ends
/// there and `b` goes on.
pub open spec fn lex_lt(a: Seq<char>, b: Seq<char>) -> bool
    decreases a.len(),
{
    if b.len() == 0 {
        false
    } else if a.len() == 0 {
        true
    } else if a[0] != b[0] {
        (a[0] as u32) < (b[0] as u32)
    } else {
        lex_lt(a.drop_first(), b.drop_first())
    }
}

/// Different characters have different code points.
pub proof fn lemma_code_points(c: char, d: char)
    ensures
        c != d ==> c as u32 != d as u32,
{
}

/// No string comes before itself.
pub proof fn lemma_lex_lt_irreflexive(a: Seq<char>)
    ensures
        !lex_lt(a, a),
    decreases a.len(),
{
    if a.len() > 0 {
        lemma_lex_lt_irreflexive(a.drop_first());
    }
}

/// Of two different strings one comes before the other.
pub proof fn lemma_lex_lt_connected(a: Seq<char>, b: Seq<char>)
    ensures
        a != b ==> lex_lt(a, b) || lex_lt(b, a),
        !(lex_lt(a, b) && lex_lt(b, a)),
    decreases a.len(),
{
    if a.len() > 0 && b.len() > 0 {
        lemma_lex_lt_connected(a.drop_first(), b.drop_first());
        lemma_code_points(a[0], b[0]);
        if a[0] == b[0] && a.drop_first() == b.drop_first() {
            assert(a =~= seq![a[0]] + a.drop_first());
            assert(b =~= seq![b[0]] + b.drop_first());
        }
    } else if a.len() == 0 && b.len() == 0 {
        assert(a =~= b);
    }
}

/// The order of strings is transitive.
pub proof fn lemma_lex_lt_transitive(a: Seq<char>, b: Seq<char>, c: Seq<char>)
    requires
        lex_lt(a, b),
        lex_lt(b, c),
    ensures
        lex_lt(a, c),
    decreases a.len(),
{
    if a.len() > 0 && b.len() > 0 && c.len() > 0 {
        if a[0] == b[0] && b[0] == c[0] {
            lemma_lex_lt_transitive(a.drop_first(), b.drop_first(), c.drop_first());
        }
    }
}

/// Whether `a` comes before `b` in the order of strings.
pub fn chars_less(a: &[char], b: &[char]) -> (r: bool)
    ensures
        r == lex_lt(a@, b@),
{
    let mut i: usize = 0;
    assert(a@.skip(0) == a@ && b@.skip(0) == b@);
    while i < a.len() && i < b.len() && a[i] == b[i]
        invariant
            i <= a@.len(),
            i <= b@.len(),
            lex_lt(a@, b@) == lex_lt(a@.skip(i as int), b@.skip(i as int)),
        decreases a@.len() - i,
    {
        proof {
            let x = a@.skip(i as int);
            let y = b@.skip(i as int);
            assert(x.drop_first() == a@.skip(i + 1));
            assert(y.drop_first() == b@.skip(i + 1));
        }
        i += 1;
    }
    if i >= b.len() {
        false
    } else if i >= a.len() {
        true
    } else {
        (a[i] as u32) < (b[i] as u32)
    }
}

/// Whether `a` comes before `b` in the order of strings.
pub fn str_less(a: &str, b: &str) -> (r: bool)
    ensures
        r == lex_lt(a@, b@),
{
    let x = chars_of(a);
    let y = chars_of(b);
    chars_less(x.as_slice(), y.as_slice())
}

// ---------------------------------------------------------------------------
// Replacing, numbers and padding
// ---------------------------------------------------------------------------

/// `s` with every occurrence of `from` replaced by `to`. Occurrences are
/// taken from left to right and do not overlap. An empty `from` occurs before
/// every character and at the end.
pub open spec fn replaced(s: Seq<char>, from: Seq<char>, to: Seq<char>) -> Seq<char>
    decreases s.len(),
{
    if from.len() == 0 {
        if s.len() == 0 {
            to
        } else {
            to + seq![s[0]] + replaced(s.drop_first(), from, to)
        }
    } else if s.len() == 0 {
        s
    } else if starts_with(s, from) {
        to + replaced(s.skip(from.len() as int), from, to)
    } else {
        seq![s[0]] + replaced(s.drop_first(), from, to)
    }
}

/// Appends the characters of `s` to `out`.
pub fn push_chars(out: &mut String, s: &[char])
    ensures
        final(out)@ == old(out)@ + s@,
{
    let mut i: usize = 0;
    assert(out@ =~= old(out)@ + s@.take(0));
    while i < s.len()
        invariant
            i <= s@.len(),
            out@ == old(out)@ + s@.take(i as int),
        decreases s@.len() - i,
    {
        out.push(s[i]);
        i += 1;
        assert(out@ =~= old(out)@ + s@.take(i as int));
    }
    assert(s@.take(i as int) == s@);
}

/// `s` with every occurrence of `from` replaced by `to`.
pub fn replace_all(s: &str, from: &str, to: &str) -> (r: String)
    ensures
        r@ == replaced(s@, from@, to@),
{
    let held = chars_of(s);
    let chars = held.as_slice();
    let pattern = chars_of(from);
    let len: usize = chars.len();
    let width: usize = pattern.len();
    let mut r = String::new();
    let mut i: usize = 0;
    assert(chars@.skip(0) == chars@);
    assert(r@ + replaced(chars@, from@, to@) =~= replaced(s@, from@, to@));
    while i < len
        invariant
            i <= len,
            len == chars@.len(),
            chars@ == s@,
            pattern@ == from@,
            width == pattern@.len(),
            replaced(s@, from@, to@) == r@ + replaced(chars@.skip(i as int), from@, to@),
        decreases len - i,
    {
        let ghost before = r@;
        let ghost rest = chars@.skip(i as int);
        let here = slice_subrange(chars, i, len);
        proof {
            assert(rest.drop_first() == chars@.skip(i + 1));
        }
        if width == 0 {
            r.append(to);
            r.push(chars[i]);
            i += 1;
        } else if chars_start_with(here, pattern.as_slice()) {
            r.append(to);
            proof {
                assert(rest.skip(width as int) == chars@.skip(i + width));
            }
            i += width;
        } else {
            r.push(chars[i]);
            i += 1;
        }
        assert(before + replaced(rest, from@, to@) =~= r@ + replaced(
            chars@.skip(i as int),
            from@,
            to@,
        ));
    }
    if width == 0 {
        r.append(to);
    }
    assert(r@ =~= replaced(s@, from@, to@));
    r
}

/// The character of the decimal digit `d`.
pub open spec fn digit_char(d: int) -> char {
    if d == 0 {
        '0'
    } else if d == 1 {
        '1'
    } else if d == 2 {
        '2'
    } else if d == 3 {
        '3'
    } else if d == 4 {
        '4'
    } else if d == 5 {
        '5'
    } else if d == 6 {
        '6'
    } else if d == 7 {
        '7'
    } else if d == 8 {
        '8'
    } else {
        '9'
    }
}

/// The number `n` written in decimal digits, without leading zeros.
pub open spec fn decimal(n: nat) -> Seq<char>
    decreases n,
{
    if n < 10 {
        seq![digit_char(n as int)]
    } else {
        decimal(n / 10).push(digit_char((n % 10) as int))
    }
}

/// The character of the decimal digit `d`.
fn digit(d: u64) -> (c: char)
    requires
        d < 10,
    ensures
        c == digit_char(d as int),
{
    if d == 0 {
        '0'
    } else if d == 1 {
        '1'
    } else if d == 2 {
        '2'
    } else if d == 3 {
        '3'
    } else if d == 4 {
        '4'
    } else if d == 5 {
        '5'
    } else if d == 6 {
        '6'
    } else if d == 7 {
        '7'
    } else if d == 8 {
        '8'
    } else {
        '9'
    }
}

/// The number `n` written in decimal digits.
pub fn decimal_string(n: u64) -> (r: String)
    ensures
        r@ == decimal(n as nat),
{
    let mut digits: Vec<char> = Vec::new();
    let mut rest: u64 = n;
    while rest >= 10
        invariant
            decimal(n as nat) == decimal(rest as nat) + digits@.reverse(),
        decreases rest,
    {
        let ghost before = digits@;
        digits.push(digit(rest % 10));
        assert(decimal(rest as nat) + before.reverse() =~= decimal((rest / 10) as nat)
            + digits@.reverse());
        rest = rest / 10;
    }
    let mut r = String::new();
    r.push(digit(rest));
    let mut k: usize = digits.len();
    assert(r@ + digits@.take(k as int).reverse() =~= decimal(n as nat)) by {
        assert(digits@.take(k as int) == digits@);
    }
    while k > 0
        invariant
            k <= digits@.len(),
            r@ + digits@.take(k as int).reverse() == decimal(n as nat),
        decreases k,
    {
        let ghost before = r@;
        k -= 1;
        r.push(digits[k]);
        assert(before + digits@.take(k + 1).reverse() =~= r@ + digits@.take(k as int).reverse());
    }
    assert(digits@.take(0).reverse() =~= Seq::<char>::empty());
    assert(r@ + Seq::<char>::empty() =~= r@);
    r
}

/// `n` spaces.
pub open spec fn spaces(n: nat) -> Seq<char> {
    Seq::new(n, |i: int| ' ')
}

/// `s` filled up with spaces at its end to `width` characters; `s` itself
/// where it is as long or longer.
pub open spec fn padded(s: Seq<char>, width: nat) -> Seq<char> {
    if s.len() >= width {
        s
    } else {
        s + spaces((width - s.len()) as nat)
    }
}

/// `s` filled up with spaces at its end to `width` characters.
pub fn pad_right(s: &str, width: usize) -> (r: String)
    ensures
        r@ == padded(s@, width as nat),
{
    let mut r = s.to_owned();
    let len: usize = s.unicode_len();
    let mut n: usize = len;
    assert(r@ =~= s@ + spaces(0));
    while n < width
        invariant
            len == s@.len(),
            len <= n,
            n <= width || n == len,
            r@ == s@ + spaces((n - len) as nat),
        decreases width - n,
    {
        r.push(' ');
        n += 1;
        assert(r@ =~= s@ + spaces((n - len) as nat));
    }
    r
}

} // verus!
