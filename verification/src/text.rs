//! Character-level text utilities with their specifications.
//!
//! Line splitting, trimming and whitespace tokenisation follow the behaviour
//! of `str::lines`, `str::trim`, `str::split_whitespace` and
//! `str::split_ascii_whitespace`; decimal rendering and parsing follow the
//! `Display` and `FromStr` impls of the unsigned integers.
use vstd::prelude::*;

verus! {

// ───────────────────────────── character classes ─────────────────────────────

/// `char::is_whitespace`: the Unicode `White_Space` property.
pub open spec fn is_unicode_ws(c: char) -> bool {
    ||| ('\u{0009}' <= c && c <= '\u{000D}')
    ||| c == ' '
    ||| c == '\u{0085}'
    ||| c == '\u{00A0}'
    ||| c == '\u{1680}'
    ||| ('\u{2000}' <= c && c <= '\u{200A}')
    ||| c == '\u{2028}'
    ||| c == '\u{2029}'
    ||| c == '\u{202F}'
    ||| c == '\u{205F}'
    ||| c == '\u{3000}'
}

/// `char::is_ascii_whitespace`: space, tab, line feed, form feed, carriage return.
pub open spec fn is_ascii_ws(c: char) -> bool {
    c == ' ' || c == '\t' || c == '\n' || c == '\u{000C}' || c == '\r'
}

/// A separator for tokenisation: Unicode whitespace when `unicode`, ASCII
/// whitespace otherwise.
pub open spec fn is_sep(c: char, unicode: bool) -> bool {
    if unicode {
        is_unicode_ws(c)
    } else {
        is_ascii_ws(c)
    }
}

pub fn unicode_ws(c: char) -> (r: bool)
    ensures
        r == is_unicode_ws(c),
{
    ('\u{0009}' <= c && c <= '\u{000D}') || c == ' ' || c == '\u{0085}' || c == '\u{00A0}'
        || c == '\u{1680}' || ('\u{2000}' <= c && c <= '\u{200A}') || c == '\u{2028}' || c
        == '\u{2029}' || c == '\u{202F}' || c == '\u{205F}' || c == '\u{3000}'
}

pub fn ascii_ws(c: char) -> (r: bool)
    ensures
        r == is_ascii_ws(c),
{
    c == ' ' || c == '\t' || c == '\n' || c == '\u{000C}' || c == '\r'
}

pub fn sep(c: char, unicode: bool) -> (r: bool)
    ensures
        r == is_sep(c, unicode),
{
    if unicode {
        unicode_ws(c)
    } else {
        ascii_ws(c)
    }
}

// ───────────────────────────── string conversion ─────────────────────────────

/// The characters of a string slice, in order.
pub fn chars_of(s: &str) -> (v: Vec<char>)
    ensures
        v@ == s@,
{
    let mut v: Vec<char> = Vec::new();
    for c in it: s.chars()
        invariant
            v@ == it.seq().take(it.index() as int),
            it.seq() == s@,
    {
        v.push(c);
    }
    v
}

/// `String::push`.
#[verifier::external_body]
fn string_push(s: &mut String, c: char)
    ensures
        final(s)@ == old(s)@.push(c),
{
    s.push(c);
}

/// Append characters to a string.
pub fn push_chars(s: &mut String, v: &[char])
    ensures
        final(s)@ == old(s)@ + v@,
{
    let mut i: usize = 0;
    while i < v.len()
        invariant
            i <= v@.len(),
            s@ == old(s)@ + v@.take(i as int),
        decreases v@.len() - i,
    {
        string_push(s, v[i]);
        i += 1;
        assert(v@.take(i as int) =~= v@.take((i - 1) as int).push(v@[i - 1]));
    }
    assert(v@.take(v@.len() as int) =~= v@);
}

/// Append a string slice to a string.
pub fn push_str(s: &mut String, t: &str)
    ensures
        final(s)@ == old(s)@ + t@,
{
    let v = chars_of(t);
    push_chars(s, v.as_slice());
}

/// A string holding exactly the given characters.
pub fn string_of(v: &[char]) -> (s: String)
    ensures
        s@ == v@,
{
    let mut s = String::new();
    push_chars(&mut s, v);
    assert(s@ =~= v@);
    s
}

/// Whether two character sequences are equal.
pub fn chars_eq(a: &[char], b: &[char]) -> (r: bool)
    ensures
        r == (a@ == b@),
{
    if a.len() != b.len() {
        return false;
    }
    let mut i: usize = 0;
    while i < a.len()
        invariant
            a@.len() == b@.len(),
            i <= a@.len(),
            forall|k: int| 0 <= k < i ==> a@[k] == b@[k],
        decreases a@.len() - i,
    {
        if a[i] != b[i] {
            return false;
        }
        i += 1;
    }
    assert(a@ =~= b@);
    true
}

/// Whether a character sequence equals a string slice.
pub fn eq_str(a: &[char], b: &str) -> (r: bool)
    ensures
        r == (a@ == b@),
{
    let bv = chars_of(b);
    chars_eq(a, bv.as_slice())
}

/// Whether a string equals a string slice.
pub fn string_eq_str(a: &String, b: &str) -> (r: bool)
    ensures
        r == (a@ == b@),
{
    let av = chars_of(a.as_str());
    eq_str(av.as_slice(), b)
}

/// Concatenation of two string slices.
pub fn concat2(a: &str, b: &str) -> (s: String)
    ensures
        s@ == a@ + b@,
{
    let mut s = String::new();
    push_str(&mut s, a);
    push_str(&mut s, b);
    assert(s@ =~= a@ + b@);
    s
}

// ───────────────────────────── prefixes and suffixes ─────────────────────────

pub open spec fn has_prefix(s: Seq<char>, p: Seq<char>) -> bool {
    p.len() <= s.len() && s.take(p.len() as int) == p
}

pub open spec fn has_suffix(s: Seq<char>, p: Seq<char>) -> bool {
    p.len() <= s.len() && s.skip(s.len() - p.len()) == p
}

pub fn starts_with(s: &[char], p: &[char]) -> (r: bool)
    ensures
        r == has_prefix(s@, p@),
{
    if p.len() > s.len() {
        return false;
    }
    let mut i: usize = 0;
    while i < p.len()
        invariant
            p@.len() <= s@.len(),
            i <= p@.len(),
            forall|k: int| 0 <= k < i ==> s@[k] == p@[k],
        decreases p@.len() - i,
    {
        if s[i] != p[i] {
            assert(s@.take(p@.len() as int)[i as int] != p@[i as int]);
            return false;
        }
        i += 1;
    }
    assert(s@.take(p@.len() as int) =~= p@);
    true
}

pub fn ends_with(s: &[char], p: &[char]) -> (r: bool)
    ensures
        r == has_suffix(s@, p@),
{
    if p.len() > s.len() {
        return false;
    }
    let n = s.len();
    let off = n - p.len();
    let mut i: usize = 0;
    while i < p.len()
        invariant
            p@.len() <= s@.len(),
            n == s@.len(),
            off == s@.len() - p@.len(),
            off + p.len() == n,
            i <= p@.len(),
            forall|k: int| 0 <= k < i ==> s@[off + k] == p@[k],
        decreases p@.len() - i,
    {
        if s[off + i] != p[i] {
            assert(s@.skip(off as int)[i as int] != p@[i as int]);
            return false;
        }
        i += 1;
    }
    assert(s@.skip(off as int) =~= p@);
    true
}

/// `str::strip_suffix` on characters.
pub fn strip_suffix(s: &[char], p: &str) -> (r: Option<Vec<char>>)
    ensures
        has_suffix(s@, p@) ==> r is Some && r->0@ == s@.take(s@.len() - p@.len()),
        !has_suffix(s@, p@) ==> r is None,
{
    let pv = chars_of(p);
    if ends_with(s, pv.as_slice()) {
        Some(slice_range(s, 0, s.len() - pv.len()))
    } else {
        None
    }
}

/// `str::strip_prefix` on characters.
pub fn strip_prefix(s: &[char], p: &str) -> (r: Option<Vec<char>>)
    ensures
        has_prefix(s@, p@) ==> r is Some && r->0@ == s@.skip(p@.len() as int),
        !has_prefix(s@, p@) ==> r is None,
{
    let pv = chars_of(p);
    if starts_with(s, pv.as_slice()) {
        Some(slice_range(s, pv.len(), s.len()))
    } else {
        None
    }
}

/// A copy of `s[lo..hi]`.
pub fn slice_range(s: &[char], lo: usize, hi: usize) -> (r: Vec<char>)
    requires
        lo <= hi <= s@.len(),
    ensures
        r@ == s@.subrange(lo as int, hi as int),
{
    let mut r: Vec<char> = Vec::new();
    let mut i = lo;
    while i < hi
        invariant
            lo <= i <= hi <= s@.len(),
            r@ == s@.subrange(lo as int, i as int),
        decreases hi - i,
    {
        r.push(s[i]);
        i += 1;
        assert(r@ =~= s@.subrange(lo as int, i as int));
    }
    r
}

/// Concatenation of two character sequences.
pub fn cat(a: &[char], b: &[char]) -> (r: Vec<char>)
    ensures
        r@ == a@ + b@,
{
    let mut r = slice_range(a, 0, a.len());
    let mut i: usize = 0;
    while i < b.len()
        invariant
            i <= b@.len(),
            r@ == a@ + b@.take(i as int),
        decreases b@.len() - i,
    {
        r.push(b[i]);
        i += 1;
        assert(r@ =~= a@ + b@.take(i as int));
    }
    assert(b@.take(b@.len() as int) =~= b@);
    r
}

/// Whether `c` occurs in `s`.
pub fn contains_char(s: &[char], c: char) -> (r: bool)
    ensures
        r == s@.contains(c),
{
    let mut i: usize = 0;
    while i < s.len()
        invariant
            i <= s@.len(),
            forall|k: int| 0 <= k < i ==> s@[k] != c,
        decreases s@.len() - i,
    {
        if s[i] == c {
            assert(s@[i as int] == c);
            return true;
        }
        i += 1;
    }
    false
}

// ───────────────────────────── trimming ──────────────────────────────────────

/// `str::trim_start`: drop leading Unicode whitespace.
pub open spec fn trim_start(s: Seq<char>) -> Seq<char>
    decreases s.len(),
{
    if s.len() > 0 && is_unicode_ws(s[0]) {
        trim_start(s.drop_first())
    } else {
        s
    }
}

/// `str::trim_end`: drop trailing Unicode whitespace.
pub open spec fn trim_end(s: Seq<char>) -> Seq<char>
    decreases s.len(),
{
    if s.len() > 0 && is_unicode_ws(s.last()) {
        trim_end(s.drop_last())
    } else {
        s
    }
}

/// `str::trim`.
pub open spec fn trim(s: Seq<char>) -> Seq<char> {
    trim_end(trim_start(s))
}

proof fn lemma_trim_start_skip(s: Seq<char>, i: int)
    requires
        0 <= i <= s.len(),
        forall|k: int| 0 <= k < i ==> is_unicode_ws(s[k]),
    ensures
        trim_start(s) == trim_start(s.skip(i)),
    decreases i,
{
    if i > 0 {
        assert(s.skip(1) =~= s.drop_first());
        lemma_trim_start_skip(s.drop_first(), i - 1);
        assert(s.drop_first().skip(i - 1) =~= s.skip(i));
    } else {
        assert(s.skip(0) =~= s);
    }
}

proof fn lemma_trim_end_take(s: Seq<char>, j: int)
    requires
        0 <= j <= s.len(),
        forall|k: int| j <= k < s.len() ==> is_unicode_ws(s[k]),
    ensures
        trim_end(s) == trim_end(s.take(j)),
    decreases s.len() - j,
{
    if j < s.len() {
        assert(s.drop_last() =~= s.take(s.len() - 1));
        lemma_trim_end_take(s.drop_last(), j);
        assert(s.drop_last().take(j) =~= s.take(j));
    } else {
        assert(s.take(j) =~= s);
    }
}

/// `str::trim_start` on characters.
pub fn trim_start_chars(s: &[char]) -> (r: Vec<char>)
    ensures
        r@ == trim_start(s@),
{
    let mut i: usize = 0;
    while i < s.len() && unicode_ws(s[i])
        invariant
            i <= s@.len(),
            forall|k: int| 0 <= k < i ==> is_unicode_ws(s@[k]),
        decreases s@.len() - i,
    {
        i += 1;
    }
    proof {
        lemma_trim_start_skip(s@, i as int);
        let t = s@.skip(i as int);
        if t.len() > 0 {
            assert(t[0] == s@[i as int]);
        }
        assert(trim_start(t) == t);
        assert(t =~= s@.subrange(i as int, s@.len() as int));
    }
    slice_range(s, i, s.len())
}

/// `str::trim` on characters.
pub fn trim_chars(s: &[char]) -> (r: Vec<char>)
    ensures
        r@ == trim(s@),
{
    let mut i: usize = 0;
    while i < s.len() && unicode_ws(s[i])
        invariant
            i <= s@.len(),
            forall|k: int| 0 <= k < i ==> is_unicode_ws(s@[k]),
        decreases s@.len() - i,
    {
        i += 1;
    }
    proof {
        lemma_trim_start_skip(s@, i as int);
    }
    let ghost t = s@.skip(i as int);
    assert(trim_start(t) == t);
    let mut j: usize = s.len();
    while j > i && unicode_ws(s[j - 1])
        invariant
            i <= j <= s@.len(),
            t == s@.skip(i as int),
            forall|k: int| j <= k < s@.len() ==> is_unicode_ws(s@[k]),
        decreases j,
    {
        j -= 1;
    }
    proof {
        lemma_trim_end_take(t, j - i);
        let u = t.take(j - i);
        if u.len() > 0 {
            assert(u.last() == s@[j - 1]);
        }
        assert(trim_end(u) == u);
        assert(u =~= s@.subrange(i as int, j as int));
    }
    slice_range(s, i, j)
}

// ───────────────────────────── tokenisation ──────────────────────────────────

/// Length of the run of non-separator characters at the start of `s`.
pub open spec fn token_len(s: Seq<char>, unicode: bool) -> nat
    decreases s.len(),
{
    if s.len() == 0 || is_sep(s[0], unicode) {
        0
    } else {
        1 + token_len(s.drop_first(), unicode)
    }
}

/// The whitespace-separated words of `s`: `str::split_whitespace` when
/// `unicode`, `str::split_ascii_whitespace` otherwise.
pub open spec fn words(s: Seq<char>, unicode: bool) -> Seq<Seq<char>>
    decreases s.len(),
{
    if s.len() == 0 {
        seq![]
    } else if is_sep(s[0], unicode) {
        words(s.drop_first(), unicode)
    } else {
        let n = token_len(s, unicode);
        proof {
            lemma_token_len_bound(s, unicode);
        }
        if n == 0 {
            seq![]
        } else {
            seq![s.take(n as int)] + words(s.skip(n as int), unicode)
        }
    }
}

pub proof fn lemma_token_len_bound(s: Seq<char>, unicode: bool)
    ensures
        token_len(s, unicode) <= s.len(),
    decreases s.len(),
{
    if s.len() > 0 && !is_sep(s[0], unicode) {
        lemma_token_len_bound(s.drop_first(), unicode);
    }
}

pub proof fn lemma_token_len(s: Seq<char>, unicode: bool, n: int)
    requires
        0 <= n <= s.len(),
        forall|k: int| 0 <= k < n ==> !is_sep(s[k], unicode),
        n == s.len() || is_sep(s[n], unicode),
    ensures
        token_len(s, unicode) == n,
    decreases n,
{
    if n > 0 {
        lemma_token_len(s.drop_first(), unicode, n - 1);
    }
}

/// The whitespace-separated words of `s`.
pub fn split_words(s: &[char], unicode: bool) -> (r: Vec<Vec<char>>)
    ensures
        r@.len() == words(s@, unicode).len(),
        forall|k: int| 0 <= k < r@.len() ==> #[trigger] r@[k]@ == words(s@, unicode)[k],
{
    let mut r: Vec<Vec<char>> = Vec::new();
    let ghost mut done: Seq<Seq<char>> = seq![];
    let mut i: usize = 0;
    assert(s@.skip(0) =~= s@);
    while i < s.len()
        invariant
            i <= s@.len(),
            r@.len() == done.len(),
            forall|k: int| 0 <= k < r@.len() ==> #[trigger] r@[k]@ == done[k],
            words(s@, unicode) == done + words(s@.skip(i as int), unicode),
        decreases s@.len() - i,
    {
        let ghost rest = s@.skip(i as int);
        if sep(s[i], unicode) {
            assert(rest.drop_first() =~= s@.skip(i + 1));
            i += 1;
        } else {
            let mut j = i + 1;
            while j < s.len() && !sep(s[j], unicode)
                invariant
                    i < j <= s@.len(),
                    forall|k: int| i <= k < j ==> !is_sep(s@[k], unicode),
                decreases s@.len() - j,
            {
                j += 1;
            }
            proof {
                lemma_token_len(rest, unicode, j - i);
                assert(rest.take(j - i) =~= s@.subrange(i as int, j as int));
                assert(rest.skip(j - i) =~= s@.skip(j as int));
            }
            let w = slice_range(s, i, j);
            r.push(w);
            proof {
                done = done.push(s@.subrange(i as int, j as int));
                assert(done + words(s@.skip(j as int), unicode) =~= (done.drop_last() + seq![
                    s@.subrange(i as int, j as int),
                ]) + words(s@.skip(j as int), unicode));
                assert forall|k: int| 0 <= k < r@.len() implies #[trigger] r@[k]@ == done[k] by {
                    if k < r@.len() - 1 {
                    }
                }
            }
            i = j;
        }
    }
    proof {
        assert(s@.skip(i as int).len() == 0);
        assert(done + seq![] =~= done);
    }
    r
}

// ───────────────────────────── lines ─────────────────────────────────────────

/// Length of the text before the first line feed (or of all of `s`).
pub open spec fn line_len(s: Seq<char>) -> nat
    decreases s.len(),
{
    if s.len() == 0 || s[0] == '\n' {
        0
    } else {
        1 + line_len(s.drop_first())
    }
}

/// A line that ended with a line feed loses one trailing carriage return.
pub open spec fn strip_cr(l: Seq<char>) -> Seq<char> {
    if l.len() > 0 && l.last() == '\r' {
        l.drop_last()
    } else {
        l
    }
}

/// `str::lines`: split at line feeds; a line terminated by `\n` also drops a
/// trailing `\r`; a final line feed does not start an empty line.
pub open spec fn lines(s: Seq<char>) -> Seq<Seq<char>>
    decreases s.len(),
{
    if s.len() == 0 {
        seq![]
    } else {
        let n = line_len(s);
        if n < s.len() {
            seq![strip_cr(s.take(n as int))] + lines(s.skip(n as int + 1))
        } else {
            seq![s]
        }
    }
}

proof fn lemma_line_len(s: Seq<char>, n: int)
    requires
        0 <= n <= s.len(),
        forall|k: int| 0 <= k < n ==> s[k] != '\n',
        n == s.len() || s[n] == '\n',
    ensures
        line_len(s) == n,
    decreases n,
{
    if n > 0 {
        lemma_line_len(s.drop_first(), n - 1);
    }
}

/// What `line_len` measures: the characters before it are not line feeds,
/// and the one at it, if any, is.
proof fn lemma_line_len_props(s: Seq<char>)
    ensures
        line_len(s) <= s.len(),
        forall|k: int| 0 <= k < line_len(s) ==> s[k] != '\n',
        line_len(s) < s.len() ==> s[line_len(s) as int] == '\n',
    decreases s.len(),
{
    if s.len() > 0 && s[0] != '\n' {
        lemma_line_len_props(s.drop_first());
        assert forall|k: int| 0 <= k < line_len(s) implies s[k] != '\n' by {
            if k > 0 {
                assert(s[k] == s.drop_first()[k - 1]);
            }
        }
    }
}

/// The lines of a text that ends at a line feed, followed by another text,
/// are the lines of the first followed by those of the second.
pub proof fn lemma_lines_concat(a: Seq<char>, b: Seq<char>)
    requires
        a.len() == 0 || a.last() == '\n',
    ensures
        lines(a + b) == lines(a) + lines(b),
    decreases a.len(),
{
    if a.len() == 0 {
        assert(a + b =~= b);
        assert(lines(a) + lines(b) =~= lines(b));
    } else {
        lemma_line_len_props(a);
        let n = line_len(a);
        if n == a.len() {
            assert(a[a.len() - 1] != '\n');
        }
        assert(n < a.len());
        let s = a + b;
        assert forall|k: int| 0 <= k < n implies s[k] != '\n' by {
            assert(s[k] == a[k]);
        }
        assert(s[n as int] == a[n as int]);
        lemma_line_len(s, n as int);
        let rest = a.skip(n as int + 1);
        assert(s.take(n as int) =~= a.take(n as int));
        assert(s.skip(n as int + 1) =~= rest + b);
        if rest.len() > 0 {
            assert(rest.last() == a.last());
        }
        lemma_lines_concat(rest, b);
        assert(lines(s) == seq![strip_cr(a.take(n as int))] + lines(rest + b));
        assert(lines(a) == seq![strip_cr(a.take(n as int))] + lines(rest));
        assert(lines(s) =~= lines(a) + lines(b));
    }
}

/// The lines of `s`.
pub fn split_lines(s: &[char]) -> (r: Vec<Vec<char>>)
    ensures
        r@.len() == lines(s@).len(),
        forall|k: int| 0 <= k < r@.len() ==> #[trigger] r@[k]@ == lines(s@)[k],
{
    let mut r: Vec<Vec<char>> = Vec::new();
    let ghost mut done: Seq<Seq<char>> = seq![];
    let mut i: usize = 0;
    assert(s@.skip(0) =~= s@);
    while i < s.len()
        invariant
            i <= s@.len(),
            r@.len() == done.len(),
            forall|k: int| 0 <= k < r@.len() ==> #[trigger] r@[k]@ == done[k],
            lines(s@) == done + lines(s@.skip(i as int)),
        decreases s@.len() - i,
    {
        let ghost rest = s@.skip(i as int);
        let mut j = i;
        while j < s.len() && s[j] != '\n'
            invariant
                i <= j <= s@.len(),
                forall|k: int| i <= k < j ==> s@[k] != '\n',
            decreases s@.len() - j,
        {
            j += 1;
        }
        proof {
            lemma_line_len(rest, j - i);
            assert(rest.take(j - i) =~= s@.subrange(i as int, j as int));
        }
        let mut line = slice_range(s, i, j);
        let ghost raw = line@;
        if j < s.len() {
            if line.len() > 0 && line[line.len() - 1] == '\r' {
                line.pop();
                assert(line@ =~= raw.drop_last());
            }
            assert(line@ == strip_cr(raw));
            proof {
                assert(rest.skip(j - i + 1) =~= s@.skip(j + 1));
            }
        } else {
            assert(rest =~= raw);
        }
        r.push(line);
        proof {
            let l = r@[r@.len() - 1]@;
            let old_done = done;
            done = done.push(l);
            if j < s.len() {
                assert(lines(rest) == seq![l] + lines(s@.skip(j + 1)));
                assert(old_done + lines(rest) =~= done + lines(s@.skip(j + 1)));
            } else {
                assert(lines(rest) == seq![l]);
                assert(s@.skip(s@.len() as int).len() == 0);
                assert(old_done + lines(rest) =~= done + lines(s@.skip(s@.len() as int)));
            }
            assert forall|k: int| 0 <= k < r@.len() implies #[trigger] r@[k]@ == done[k] by {
                if k < r@.len() - 1 {
                }
            }
        }
        if j < s.len() {
            i = j + 1;
        } else {
            i = j;
        }
    }
    proof {
        assert(s@.skip(i as int).len() == 0);
        assert(done + seq![] =~= done);
    }
    r
}

// ───────────────────────────── decimal numbers ───────────────────────────────

pub open spec fn digit_char(d: nat) -> char {
    if d == 0 {
        '0'
    } else if d == 1 {
        '1'
    } else if d == 2 {
        '2'
    } else if d == 3 {
        '3'
    } else if d == 4 {
        '4'
    } else if d == 5 {
        '5'
    } else if d == 6 {
        '6'
    } else if d == 7 {
        '7'
    } else if d == 8 {
        '8'
    } else {
        '9'
    }
}

/// The decimal rendering of `n` (no sign, no leading zeros).
pub open spec fn decimal(n: nat) -> Seq<char>
    decreases n,
{
    if n < 10 {
        seq![digit_char(n)]
    } else {
        decimal(n / 10).push(digit_char(n % 10))
    }
}

fn digit(d: u64) -> (c: char)
    requires
        d < 10,
    ensures
        c == digit_char(d as nat),
{
    if d == 0 {
        '0'
    } else if d == 1 {
        '1'
    } else if d == 2 {
        '2'
    } else if d == 3 {
        '3'
    } else if d == 4 {
        '4'
    } else if d == 5 {
        '5'
    } else if d == 6 {
        '6'
    } else if d == 7 {
        '7'
    } else if d == 8 {
        '8'
    } else {
        '9'
    }
}

/// Append the decimal rendering of `n`.
pub fn push_decimal(out: &mut Vec<char>, n: u64)
    ensures
        final(out)@ == old(out)@ + decimal(n as nat),
    decreases n,
{
    if n < 10 {
        out.push(digit(n));
        assert(out@ =~= old(out)@ + decimal(n as nat));
    } else {
        push_decimal(out, n / 10);
        out.push(digit(n % 10));
        assert(out@ =~= old(out)@ + decimal(n as nat));
    }
}

/// Value of a decimal digit character.
pub open spec fn digit_value(c: char) -> nat {
    (c as nat - '0' as nat) as nat
}

pub open spec fn is_digit(c: char) -> bool {
    '0' <= c && c <= '9'
}

pub open spec fn all_digits(s: Seq<char>) -> bool {
    forall|k: int| 0 <= k < s.len() ==> is_digit(#[trigger] s[k])
}

/// Value of a sequence of decimal digits.
pub open spec fn digits_value(s: Seq<char>) -> nat
    decreases s.len(),
{
    if s.len() == 0 {
        0
    } else {
        digits_value(s.drop_last()) * 10 + digit_value(s.last())
    }
}

/// `u64::from_str`: an optional `+` followed by at least one decimal digit,
/// with a value that fits in 64 bits.
pub open spec fn parse_u64_spec(s: Seq<char>) -> Option<u64> {
    let d = if s.len() > 0 && s[0] == '+' {
        s.drop_first()
    } else {
        s
    };
    if d.len() > 0 && all_digits(d) && digits_value(d) <= u64::MAX {
        Some(digits_value(d) as u64)
    } else {
        None
    }
}

proof fn lemma_digits_value_mono(s: Seq<char>, i: int)
    requires
        0 <= i <= s.len(),
        all_digits(s),
    ensures
        digits_value(s.take(i)) <= digits_value(s),
    decreases s.len() - i,
{
    if i < s.len() {
        lemma_digits_value_mono(s, i + 1);
        assert(s.take(i + 1).drop_last() =~= s.take(i));
        assert(is_digit(s[i]));
    } else {
        assert(s.take(i) =~= s);
    }
}

/// Parse an unsigned 64-bit decimal number.
pub fn parse_u64(s: &[char]) -> (r: Option<u64>)
    ensures
        r == parse_u64_spec(s@),
{
    let start: usize = if s.len() > 0 && s[0] == '+' {
        1
    } else {
        0
    };
    let ghost d = if s@.len() > 0 && s@[0] == '+' {
        s@.drop_first()
    } else {
        s@
    };
    assert(d =~= s@.skip(start as int));
    assert(parse_u64_spec(s@) == parse_u64_spec_digits(d));
    if start >= s.len() {
        return None;
    }
    let mut value: u64 = 0;
    let mut i = start;
    while i < s.len()
        invariant
            start <= i <= s@.len(),
            d =~= s@.skip(start as int),
            parse_u64_spec(s@) == parse_u64_spec_digits(d),
            d.len() > 0,
            all_digits(d.take(i - start)),
            value == digits_value(d.take(i - start)),
        decreases s@.len() - i,
    {
        let c = s[i];
        if !('0' <= c && c <= '9') {
            assert(d[i - start] == c);
            assert(!all_digits(d));
            return None;
        }
        let dv: u64 = (c as u64) - ('0' as u64);
        assert(dv == digit_value(c));
        let ghost prefix = d.take(i + 1 - start);
        assert(prefix.drop_last() =~= d.take(i - start));
        assert(prefix.last() == c);
        assert(all_digits(prefix)) by {
            assert forall|k: int| 0 <= k < prefix.len() implies is_digit(#[trigger] prefix[k]) by {
                if k < prefix.len() - 1 {
                    assert(prefix[k] == d.take(i - start)[k]);
                }
            }
        }
        match value.checked_mul(10) {
            Some(v10) => match v10.checked_add(dv) {
                Some(v) => {
                    value = v;
                },
                None => {
                    proof {
                        assert(digits_value(prefix) == v10 + dv);
                        assert(digits_value(prefix) > u64::MAX);
                        lemma_rest_digits(d, prefix, i + 1 - start);
                    }
                    return None;
                },
            },
            None => {
                proof {
                    assert(digits_value(prefix) >= value * 10) by (nonlinear_arith)
                        requires
                            digits_value(prefix) == value * 10 + digit_value(c),
                    ;
                    lemma_rest_digits(d, prefix, i + 1 - start);
                }
                return None;
            },
        }
        i += 1;
    }
    assert(d.take(i - start) =~= d);
    Some(value)
}

/// If a prefix of `d` is all digits but `d` is not all digits, or `d` is all
/// digits, its value bounds the value of the prefix.
proof fn lemma_rest_digits(d: Seq<char>, prefix: Seq<char>, n: int)
    requires
        0 <= n <= d.len(),
        prefix == d.take(n),
        digits_value(prefix) > u64::MAX,
    ensures
        parse_u64_spec_digits(d) is None,
{
    if all_digits(d) {
        lemma_digits_value_mono(d, n);
    }
}

/// `parse_u64_spec` after the optional sign has been removed.
pub open spec fn parse_u64_spec_digits(d: Seq<char>) -> Option<u64> {
    if d.len() > 0 && all_digits(d) && digits_value(d) <= u64::MAX {
        Some(digits_value(d) as u64)
    } else {
        None
    }
}

} // verus!

verus! {

// ───────────────────────────── searching ─────────────────────────────────────

/// Whether `pat` occurs in `s` at position `i`.
pub open spec fn occurs_at(s: Seq<char>, pat: Seq<char>, i: int) -> bool {
    0 <= i && i + pat.len() <= s.len() && s.subrange(i, i + pat.len()) == pat
}

/// The position of the first occurrence of `pat` in `s`, if any.
pub open spec fn find_first(s: Seq<char>, pat: Seq<char>) -> Option<int> {
    if exists|i: int| occurs_at(s, pat, i) {
        Some(choose|i: int| occurs_at(s, pat, i) && forall|j: int| 0 <= j < i ==> !occurs_at(s, pat, j))
    } else {
        None
    }
}

/// `str::split_once`: the text before and after the first occurrence of `pat`.
pub open spec fn split_once_spec(s: Seq<char>, pat: Seq<char>) -> Option<(Seq<char>, Seq<char>)> {
    match find_first(s, pat) {
        Some(i) => Some((s.take(i), s.skip(i + pat.len()))),
        None => None,
    }
}

/// `str::split_once` on characters (`pat` must not be empty).
pub fn split_once(s: &[char], pat: &[char]) -> (r: Option<(Vec<char>, Vec<char>)>)
    requires
        pat@.len() > 0,
    ensures
        match split_once_spec(s@, pat@) {
            Some((a, b)) => r matches Some((x, y)) && x@ == a && y@ == b,
            None => r is None,
        },
{
    if pat.len() > s.len() {
        assert(forall|i: int| !occurs_at(s@, pat@, i));
        return None;
    }
    let n = s.len();
    let last = n - pat.len();
    let mut i: usize = 0;
    while i <= last
        invariant
            n == s@.len(),
            last + pat.len() == n,
            pat@.len() > 0,
            i <= last + 1,
            forall|j: int| 0 <= j < i ==> !occurs_at(s@, pat@, j),
        decreases last + 1 - i,
    {
        let mut k: usize = 0;
        while k < pat.len() && s[i + k] == pat[k]
            invariant
                i <= last,
                n == s@.len(),
                last + pat.len() == n,
                k <= pat@.len(),
                forall|m: int| 0 <= m < k ==> s@[i + m] == pat@[m],
            decreases pat@.len() - k,
        {
            k += 1;
        }
        if k == pat.len() {
            proof {
                assert(s@.subrange(i as int, i + pat@.len()) =~= pat@);
                assert(occurs_at(s@, pat@, i as int));
                let c = choose|c: int| occurs_at(s@, pat@, c) && forall|j: int| 0 <= j < c ==> !occurs_at(s@, pat@, j);
                assert(occurs_at(s@, pat@, c) && forall|j: int| 0 <= j < c ==> !occurs_at(s@, pat@, j));
                if c < i {
                } else if c > i {
                }
                assert(c == i);
            }
            let a = slice_range(s, 0, i);
            let b = slice_range(s, i + pat.len(), s.len());
            return Some((a, b));
        }
        proof {
            assert(s@.subrange(i as int, i + pat@.len())[k as int] != pat@[k as int]);
        }
        i += 1;
    }
    proof {
        assert forall|j: int| !occurs_at(s@, pat@, j) by {
            if 0 <= j < i {
            }
        }
    }
    None
}


// ───────────────────────────── splitting on a character ──────────────────────

/// `str::split(c)`: the pieces between the occurrences of `c`; a text
/// without `c` is one piece, and the empty text is one empty piece.
pub open spec fn pieces(s: Seq<char>, c: char) -> Seq<Seq<char>>
    decreases s.len(),
{
    if s.len() == 0 {
        seq![seq![]]
    } else {
        let p = pieces(s.drop_last(), c);
        if s.last() == c {
            p.push(seq![])
        } else {
            p.update(p.len() - 1, p.last().push(s.last()))
        }
    }
}

/// The pieces joined with `c` between them (`[..].join(c)`).
pub open spec fn join_with(ws: Seq<Seq<char>>, c: char) -> Seq<char>
    decreases ws.len(),
{
    if ws.len() == 0 {
        seq![]
    } else if ws.len() == 1 {
        ws[0]
    } else {
        join_with(ws.drop_last(), c) + seq![c] + ws.last()
    }
}

/// There is at least one piece.
pub proof fn lemma_pieces_nonempty(s: Seq<char>, c: char)
    ensures
        pieces(s, c).len() >= 1,
    decreases s.len(),
{
    if s.len() > 0 {
        lemma_pieces_nonempty(s.drop_last(), c);
    }
}

/// Text without `c` added to the end extends the last piece.
proof fn lemma_pieces_append_plain(p: Seq<char>, q: Seq<char>, c: char)
    requires
        !q.contains(c),
    ensures
        pieces(p + q, c) == pieces(p, c).update(
            pieces(p, c).len() - 1,
            pieces(p, c).last() + q,
        ),
    decreases q.len(),
{
    lemma_pieces_nonempty(p, c);
    if q.len() == 0 {
        assert(p + q =~= p);
        assert(pieces(p, c).last() + q =~= pieces(p, c).last());
        assert(pieces(p, c).update(pieces(p, c).len() - 1, pieces(p, c).last()) =~= pieces(p, c));
    } else {
        let q0 = q.drop_last();
        assert(!q0.contains(c)) by {
            if q0.contains(c) {
                let k = choose|k: int| 0 <= k < q0.len() && q0[k] == c;
                assert(q[k] == c);
            }
        }
        lemma_pieces_append_plain(p, q0, c);
        assert((p + q).drop_last() =~= p + q0);
        assert((p + q).last() == q.last());
        assert(q.last() != c) by {
            assert(q[q.len() - 1] == q.last());
        }
        lemma_pieces_nonempty(p + q0, c);
        assert(pieces(p, c).last() + q =~= (pieces(p, c).last() + q0).push(q.last()));
        assert(pieces(p + q, c) =~= pieces(p, c).update(
            pieces(p, c).len() - 1,
            pieces(p, c).last() + q,
        ));
    }
}

/// Splitting text that was joined with `c` gives back the pieces, when no
/// piece holds `c` and there is at least one piece.
pub proof fn lemma_split_join(ws: Seq<Seq<char>>, c: char)
    requires
        ws.len() > 0,
        forall|i: int| 0 <= i < ws.len() ==> !(#[trigger] ws[i]).contains(c),
    ensures
        pieces(join_with(ws, c), c) == ws,
    decreases ws.len(),
{
    if ws.len() == 1 {
        lemma_pieces_append_plain(seq![], ws[0], c);
        assert(seq![] + ws[0] =~= ws[0]);
        assert(pieces(seq![], c).last() + ws[0] =~= ws[0]);
        assert(pieces(join_with(ws, c), c) =~= ws);
    } else {
        let init = ws.drop_last();
        assert forall|i: int| 0 <= i < init.len() implies !(#[trigger] init[i]).contains(c) by {
            assert(init[i] == ws[i]);
        }
        lemma_split_join(init, c);
        let a = join_with(init, c) + seq![c];
        assert(a.drop_last() =~= join_with(init, c));
        assert(pieces(a, c) == init.push(seq![]));
        assert(!ws.last().contains(c)) by {
            assert(ws[ws.len() - 1] == ws.last());
        }
        lemma_pieces_append_plain(a, ws.last(), c);
        assert(join_with(ws, c) =~= a + ws.last());
        assert(seq![] + ws.last() =~= ws.last());
        assert(pieces(join_with(ws, c), c) =~= ws);
    }
}

/// `str::split(c)` on characters.
pub fn split_char(s: &[char], c: char) -> (r: Vec<Vec<char>>)
    ensures
        r@.len() == pieces(s@, c).len(),
        forall|i: int| 0 <= i < r@.len() ==> #[trigger] r@[i]@ == pieces(s@, c)[i],
{
    let mut r: Vec<Vec<char>> = Vec::new();
    let mut cur: Vec<char> = Vec::new();
    let mut i: usize = 0;
    while i < s.len()
        invariant
            i <= s@.len(),
            r@.len() + 1 == pieces(s@.take(i as int), c).len(),
            forall|k: int| 0 <= k < r@.len() ==> #[trigger] r@[k]@ == pieces(s@.take(i as int), c)[k],
            cur@ == pieces(s@.take(i as int), c).last(),
        decreases s@.len() - i,
    {
        proof {
            assert(s@.take(i + 1).drop_last() =~= s@.take(i as int));
            assert(s@.take(i + 1).last() == s@[i as int]);
            lemma_pieces_nonempty(s@.take(i as int), c);
        }
        if s[i] == c {
            let done = cur;
            r.push(done);
            cur = Vec::new();
        } else {
            cur.push(s[i]);
        }
        i += 1;
    }
    r.push(cur);
    proof {
        assert(s@.take(i as int) =~= s@);
        lemma_pieces_nonempty(s@, c);
    }
    r
}

/// The strings joined with `c` between them.
pub fn join_strings(v: &Vec<String>, c: char) -> (r: String)
    ensures
        r@ == join_with(crate::util::strings_view(v@), c),
{
    let mut s = String::new();
    let mut i: usize = 0;
    while i < v.len()
        invariant
            i <= v@.len(),
            s@ == join_with(crate::util::strings_view(v@).take(i as int), c),
        decreases v@.len() - i,
    {
        let ghost pre = crate::util::strings_view(v@).take(i as int);
        assert(crate::util::strings_view(v@).take(i + 1).drop_last() =~= pre);
        assert(crate::util::strings_view(v@).take(i + 1).last() == v@[i as int]@);
        if i > 0 {
            string_push(&mut s, c);
        }
        push_str(&mut s, v[i].as_str());
        proof {
            if i == 0 {
                assert(s@ =~= join_with(crate::util::strings_view(v@).take(1), c));
            } else {
                assert(s@ =~= join_with(pre, c) + seq![c] + v@[i as int]@);
            }
        }
        i += 1;
    }
    assert(crate::util::strings_view(v@).take(i as int) =~= crate::util::strings_view(v@));
    s
}

} // verus!
