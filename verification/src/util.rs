//! Reading line-oriented configuration files, joining paths, and sorting names.
//!
//! Files are handed in as their text, `None` standing for a file that does
//! not exist; reading them is left to the caller.
use vstd::prelude::*;

use crate::text::{
    cat, chars_of, lines, slice_range, split_lines, string_of, trim, trim_chars,
};

verus! {

/// Whether a trimmed line carries content: not blank and not a `#` comment.
pub open spec fn is_content(l: Seq<char>) -> bool {
    l.len() > 0 && l[0] != '#'
}

/// The trimmed content lines of `ls`, in order.
pub open spec fn content_of(ls: Seq<Seq<char>>) -> Seq<Seq<char>>
    decreases ls.len(),
{
    if ls.len() == 0 {
        seq![]
    } else {
        let t = trim(ls.last());
        if is_content(t) {
            content_of(ls.drop_last()).push(t)
        } else {
            content_of(ls.drop_last())
        }
    }
}

/// The content lines of a file: every line trimmed, blank lines and `#`
/// comments dropped; an absent file has none.
pub open spec fn file_lines(file: Option<Seq<char>>) -> Seq<Seq<char>> {
    match file {
        Some(text) => content_of(lines(text)),
        None => seq![],
    }
}

pub open spec fn opt_view(file: Option<&str>) -> Option<Seq<char>> {
    match file {
        Some(s) => Some(s@),
        None => None,
    }
}

pub open spec fn strings_view(v: Seq<String>) -> Seq<Seq<char>> {
    Seq::new(v.len(), |i: int| v[i]@)
}

/// The content lines of a file, as character vectors.
pub fn file_line_chars(file: Option<&str>) -> (r: Vec<Vec<char>>)
    ensures
        Seq::new(r@.len(), |i: int| r@[i]@) == file_lines(opt_view(file)),
{
    let mut r: Vec<Vec<char>> = Vec::new();
    match file {
        None => {
            assert(Seq::new(r@.len(), |i: int| r@[i]@) =~= seq![]);
            r
        },
        Some(text) => {
            let chars = chars_of(text);
            let ls = split_lines(chars.as_slice());
            let ghost all = lines(text@);
            let mut i: usize = 0;
            while i < ls.len()
                invariant
                    i <= ls@.len(),
                    ls@.len() == all.len(),
                    forall|k: int| 0 <= k < ls@.len() ==> #[trigger] ls@[k]@ == all[k],
                    Seq::new(r@.len(), |k: int| r@[k]@) == content_of(all.take(i as int)),
                decreases ls@.len() - i,
            {
                let t = trim_chars(ls[i].as_slice());
                let ghost pre = all.take(i as int);
                assert(all.take(i + 1).drop_last() =~= pre);
                assert(all.take(i + 1).last() == ls@[i as int]@);
                if t.len() > 0 && t[0] != '#' {
                    let ghost before = Seq::new(r@.len(), |k: int| r@[k]@);
                    r.push(t);
                    assert(Seq::new(r@.len(), |k: int| r@[k]@) =~= before.push(r@[r@.len() - 1]@));
                }
                i += 1;
            }
            assert(all.take(i as int) =~= all);
            r
        },
    }
}

/// `util::read_lines`: the content lines of a file.
pub fn file_lines_of(file: Option<&str>) -> (r: Vec<String>)
    ensures
        strings_view(r@) == file_lines(opt_view(file)),
{
    let v = file_line_chars(file);
    let mut r: Vec<String> = Vec::new();
    let mut i: usize = 0;
    while i < v.len()
        invariant
            i <= v@.len(),
            r@.len() == i,
            forall|k: int| 0 <= k < i ==> #[trigger] r@[k]@ == v@[k]@,
        decreases v@.len() - i,
    {
        r.push(string_of(v[i].as_slice()));
        i += 1;
    }
    assert(strings_view(r@) =~= Seq::new(v@.len(), |k: int| v@[k]@));
    r
}

/// The first content line of a file, if any.
pub open spec fn first_line(file: Option<Seq<char>>) -> Option<Seq<char>> {
    if file_lines(file).len() > 0 {
        Some(file_lines(file)[0])
    } else {
        None
    }
}

/// `util::read_single_line`: the first content line of a file.
pub fn first_line_of(file: Option<&str>) -> (r: Option<String>)
    ensures
        match first_line(opt_view(file)) {
            Some(l) => r is Some && r->0@ == l,
            None => r is None,
        },
{
    let v = file_line_chars(file);
    if v.len() > 0 {
        Some(string_of(v[0].as_slice()))
    } else {
        None
    }
}

// ───────────────────────────── paths ─────────────────────────────────────────

/// `Path::join` on Unix: an absolute component replaces the base; otherwise a
/// `/` separates the two unless the base is empty or already ends with one.
pub open spec fn join_path(base: Seq<char>, comp: Seq<char>) -> Seq<char> {
    if comp.len() > 0 && comp[0] == '/' {
        comp
    } else if base.len() == 0 {
        comp
    } else if base.last() == '/' {
        base + comp
    } else {
        base + seq!['/'] + comp
    }
}

/// `Path::join` on Unix.
pub fn join(base: &str, comp: &str) -> (r: String)
    ensures
        r@ == join_path(base@, comp@),
{
    let b = chars_of(base);
    let c = chars_of(comp);
    if c.len() > 0 && c[0] == '/' {
        string_of(c.as_slice())
    } else if b.len() == 0 {
        string_of(c.as_slice())
    } else if b[b.len() - 1] == '/' {
        let r = cat(b.as_slice(), c.as_slice());
        string_of(r.as_slice())
    } else {
        let mut bs = slice_range(b.as_slice(), 0, b.len());
        bs.push('/');
        let r = cat(bs.as_slice(), c.as_slice());
        string_of(r.as_slice())
    }
}

/// The last component of a path (`Path::file_name`), or `None` when there is
/// none.
pub open spec fn last_component(p: Seq<char>) -> Seq<char>
    decreases p.len(),
{
    if p.len() == 0 {
        seq![]
    } else if p.last() == '/' {
        last_component(p.drop_last())
    } else {
        tail_after_slash(p)
    }
}

/// The characters after the last `/`.
pub open spec fn tail_after_slash(p: Seq<char>) -> Seq<char>
    decreases p.len(),
{
    if p.len() == 0 {
        seq![]
    } else if p.last() == '/' {
        seq![]
    } else {
        tail_after_slash(p.drop_last()).push(p.last())
    }
}

// ───────────────────────────── ordering of names ─────────────────────────────

/// Lexicographic order on character sequences (the order of `str`).
pub open spec fn lex_le(a: Seq<char>, b: Seq<char>) -> bool
    decreases a.len(),
{
    if a.len() == 0 {
        true
    } else if b.len() == 0 {
        false
    } else if a[0] != b[0] {
        a[0] < b[0]
    } else {
        lex_le(a.drop_first(), b.drop_first())
    }
}

pub proof fn lemma_lex_total(a: Seq<char>, b: Seq<char>)
    ensures
        lex_le(a, b) || lex_le(b, a),
    decreases a.len(),
{
    if a.len() > 0 && b.len() > 0 && a[0] == b[0] {
        lemma_lex_total(a.drop_first(), b.drop_first());
    }
}

pub proof fn lemma_lex_trans(a: Seq<char>, b: Seq<char>, c: Seq<char>)
    requires
        lex_le(a, b),
        lex_le(b, c),
    ensures
        lex_le(a, c),
    decreases a.len(),
{
    if a.len() > 0 && b.len() > 0 && c.len() > 0 && a[0] == b[0] && b[0] == c[0] {
        lemma_lex_trans(a.drop_first(), b.drop_first(), c.drop_first());
    }
}

pub proof fn lemma_lex_antisym(a: Seq<char>, b: Seq<char>)
    requires
        lex_le(a, b),
        lex_le(b, a),
    ensures
        a == b,
    decreases a.len(),
{
    if a.len() > 0 && b.len() > 0 {
        lemma_lex_antisym(a.drop_first(), b.drop_first());
        assert(a =~= seq![a[0]] + a.drop_first());
        assert(b =~= seq![b[0]] + b.drop_first());
    } else if a.len() == 0 && b.len() == 0 {
        assert(a =~= b);
    }
}

/// `a <= b` for strings.
pub fn str_le(a: &[char], b: &[char]) -> (r: bool)
    ensures
        r == lex_le(a@, b@),
{
    let mut i: usize = 0;
    assert(a@.skip(0) =~= a@);
    assert(b@.skip(0) =~= b@);
    while i < a.len() && i < b.len() && a[i] == b[i]
        invariant
            i <= a@.len(),
            i <= b@.len(),
            a@.take(i as int) == b@.take(i as int),
            lex_le(a@, b@) == lex_le(a@.skip(i as int), b@.skip(i as int)),
        decreases a@.len() - i,
    {
        proof {
            assert(a@.skip(i as int).drop_first() =~= a@.skip(i + 1));
            assert(b@.skip(i as int).drop_first() =~= b@.skip(i + 1));
            assert(a@.take(i + 1) =~= a@.take(i as int).push(a@[i as int]));
            assert(b@.take(i + 1) =~= b@.take(i as int).push(b@[i as int]));
        }
        i += 1;
    }
    if i == a.len() {
        true
    } else if i == b.len() {
        false
    } else {
        a[i] < b[i]
    }
}

pub open spec fn sorted_names(s: Seq<Seq<char>>) -> bool {
    forall|i: int, j: int| 0 <= i < j < s.len() ==> lex_le(s[i], s[j])
}

/// Sort names into lexicographic order (a stable insertion sort).
pub fn sort_names(v: Vec<String>) -> (r: Vec<String>)
    ensures
        sorted_names(strings_view(r@)),
        strings_view(r@).to_multiset() == strings_view(v@).to_multiset(),
        r@.len() == v@.len(),
{
    let mut r: Vec<String> = Vec::new();
    let mut keys: Vec<Vec<char>> = Vec::new();
    let mut i: usize = 0;
    broadcast use vstd::seq_lib::group_to_multiset_ensures;
    while i < v.len()
        invariant
            i <= v@.len(),
            r@.len() == keys@.len(),
            forall|k: int| 0 <= k < r@.len() ==> #[trigger] keys@[k]@ == r@[k]@,
            sorted_names(strings_view(r@)),
            strings_view(r@).to_multiset() == strings_view(v@.take(i as int)).to_multiset(),
            r@.len() == i,
        decreases v@.len() - i,
    {
        let key = chars_of(v[i].as_str());
        let mut j: usize = r.len();
        while j > 0 && !str_le(keys[j - 1].as_slice(), key.as_slice())
            invariant
                j <= r@.len(),
                r@.len() == keys@.len(),
                forall|k: int| 0 <= k < r@.len() ==> #[trigger] keys@[k]@ == r@[k]@,
                forall|k: int| j <= k < r@.len() ==> !lex_le(#[trigger] r@[k]@, key@),
            decreases j,
        {
            j -= 1;
        }
        let ghost old_r = strings_view(r@);
        let name = string_of(key.as_slice());
        r.insert(j, name);
        keys.insert(j, key);
        proof {
            let nr = strings_view(r@);
            assert(nr =~= old_r.insert(j as int, v@[i as int]@));
            assert forall|a: int, b: int| 0 <= a < b < nr.len() implies lex_le(nr[a], nr[b]) by {
                if b == j {
                    if a < j {
                        assert(lex_le(old_r[a], v@[i as int]@)) by {
                            if j > 0 {
                                assert(lex_le(old_r[j - 1], v@[i as int]@));
                                if a < j - 1 {
                                    lemma_lex_trans(old_r[a], old_r[j - 1], v@[i as int]@);
                                }
                            }
                        }
                    }
                } else if a == j {
                    assert(!lex_le(old_r[b - 1], v@[i as int]@));
                    lemma_lex_total(old_r[b - 1], v@[i as int]@);
                } else {
                    let oa = if a < j { a } else { a - 1 };
                    let ob = if b < j { b } else { b - 1 };
                    assert(nr[a] == old_r[oa]);
                    assert(nr[b] == old_r[ob]);
                    if oa == ob {
                    }
                }
            }
            assert(v@.take(i + 1) =~= v@.take(i as int).push(v@[i as int]));
            assert(strings_view(v@.take(i + 1)) =~= strings_view(v@.take(i as int)).push(v@[i as int]@));
            vstd::seq_lib::to_multiset_insert(old_r, j as int, v@[i as int]@);
            vstd::seq_lib::to_multiset_build(strings_view(v@.take(i as int)), v@[i as int]@);
        }
        i += 1;
    }
    assert(v@.take(i as int) =~= v@);
    r
}

} // verus!
