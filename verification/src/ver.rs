//! The version helpers of PMS 12.3.14 (`ver_cut`, `ver_rs`, `ver_test`): a
//! version string read as separators and components, then cut, rewritten or
//! compared.
use vstd::prelude::*;

use crate::text::{
    chars_of, eq_str, is_digit, parse_u64, parse_u64_spec, parse_u64_spec_digits, string_of,
};

verus! {

// ───────────────────────────── splitting ────────────────────────────────────

/// An ASCII letter.
pub open spec fn is_alpha(c: char) -> bool {
    ('a' <= c && c <= 'z') || ('A' <= c && c <= 'Z')
}

/// The characters of a run: separators (`kind` 0, anything but ASCII
/// letters and digits), digits (`kind` 1) or letters (`kind` 2).
pub open spec fn in_run(c: char, kind: u8) -> bool {
    if kind == 0 {
        !(is_digit(c) || is_alpha(c))
    } else if kind == 1 {
        is_digit(c)
    } else {
        is_alpha(c)
    }
}

/// The length of the run of `kind` at the start of `s`.
pub open spec fn run_len(s: Seq<char>, kind: u8) -> nat
    decreases s.len(),
{
    if s.len() > 0 && in_run(s[0], kind) {
        1 + run_len(s.drop_first(), kind)
    } else {
        0
    }
}

/// A run is no longer than the text.
pub proof fn lemma_run_len_le(s: Seq<char>, kind: u8)
    ensures
        run_len(s, kind) <= s.len(),
    decreases s.len(),
{
    if s.len() > 0 {
        lemma_run_len_le(s.drop_first(), kind);
    }
}

/// The length of the component at the start of `s`: its digits when it
/// starts with one, else its letters.
pub open spec fn comp_len(s: Seq<char>) -> nat {
    if s.len() > 0 && is_digit(s[0]) {
        run_len(s, 1)
    } else {
        run_len(s, 2)
    }
}

/// A version split as Gentoo's reference implementation splits it: a
/// separator (possibly empty) and a component (possibly empty at the end),
/// then again for the rest, until nothing is left.
pub open spec fn ver_parts(v: Seq<char>) -> Seq<Seq<char>>
    decreases v.len(),
{
    if v.len() == 0 {
        seq![]
    } else {
        let n = run_len(v, 0);
        let r = v.skip(n as int);
        let c = comp_len(r);
        proof {
            lemma_run_len_le(v, 0);
            lemma_run_len_le(r, 1);
            lemma_run_len_le(r, 2);
            if n == 0 {
                assert(!in_run(v[0], 0));
                assert(r =~= v);
            }
        }
        seq![v.take(n as int), r.take(c as int)] + ver_parts(r.skip(c as int))
    }
}

/// The pieces one after the other.
pub open spec fn concat_all(ps: Seq<Seq<char>>) -> Seq<char>
    decreases ps.len(),
{
    if ps.len() == 0 {
        seq![]
    } else {
        concat_all(ps.drop_last()) + ps.last()
    }
}

/// Character vectors as plain values.
pub open spec fn chars_view(v: Seq<Vec<char>>) -> Seq<Seq<char>> {
    Seq::new(v.len(), |i: int| v[i]@)
}

fn char_in_run(c: char, kind: u8) -> (r: bool)
    ensures
        r == in_run(c, kind),
{
    let digit = '0' <= c && c <= '9';
    let alpha = ('a' <= c && c <= 'z') || ('A' <= c && c <= 'Z');
    if kind == 0 {
        !(digit || alpha)
    } else if kind == 1 {
        digit
    } else {
        alpha
    }
}

/// The length of the run of `kind` in `s` from `i`.
fn count_run(s: &[char], i: usize, kind: u8) -> (n: usize)
    requires
        i <= s@.len(),
    ensures
        n == run_len(s@.skip(i as int), kind),
        i + n <= s@.len(),
{
    let mut j: usize = i;
    assert(s@.skip(i as int).skip(0) =~= s@.skip(i as int));
    while j < s.len() && char_in_run(s[j], kind)
        invariant
            i <= j <= s@.len(),
            run_len(s@.skip(i as int), kind) == (j - i) + run_len(s@.skip(j as int), kind),
        decreases s@.len() - j,
    {
        assert(s@.skip(j as int).drop_first() =~= s@.skip(j + 1));
        assert(s@.skip(j as int)[0] == s@[j as int]);
        j += 1;
    }
    if j < s.len() {
        assert(s@.skip(j as int)[0] == s@[j as int]);
    }
    j - i
}

/// A version's separators and components, in the order of [`ver_parts`].
pub fn ver_split(v: &[char]) -> (r: Vec<Vec<char>>)
    ensures
        chars_view(r@) == ver_parts(v@),
{
    let mut out: Vec<Vec<char>> = Vec::new();
    let mut i: usize = 0;
    assert(v@.skip(0) =~= v@);
    assert(chars_view(out@) =~= Seq::<Seq<char>>::empty());
    while i < v.len()
        invariant
            i <= v@.len(),
            chars_view(out@) + ver_parts(v@.skip(i as int)) == ver_parts(v@),
        decreases v@.len() - i,
    {
        let ghost w = v@.skip(i as int);
        let n = count_run(v, i, 0);
        let ghost r = w.skip(n as int);
        assert(r =~= v@.skip((i + n) as int));
        let c = if i + n < v.len() && '0' <= v[i + n] && v[i + n] <= '9' {
            count_run(v, i + n, 1)
        } else {
            count_run(v, i + n, 2)
        };
        proof {
            if i + n < v.len() {
                assert(r[0] == v@[(i + n) as int]);
            }
            assert(c == comp_len(r));
            if n == 0 {
                assert(!in_run(w[0], 0));
                assert(w[0] == v@[i as int]);
                assert(c > 0);
            }
        }
        let sep = crate::text::slice_range(v, i, i + n);
        let comp = crate::text::slice_range(v, i + n, i + n + c);
        let ghost pre = chars_view(out@);
        out.push(sep);
        out.push(comp);
        proof {
            assert(sep@ =~= w.take(n as int));
            assert(comp@ =~= r.take(c as int));
            assert(r.skip(c as int) =~= v@.skip((i + n + c) as int));
            assert(ver_parts(w) == seq![w.take(n as int), r.take(c as int)] + ver_parts(r.skip(c as int)));
            assert(chars_view(out@) =~= pre + seq![w.take(n as int), r.take(c as int)]);
        }
        i = i + n + c;
    }
    assert(v@.skip(i as int) =~= Seq::<char>::empty());
    assert(chars_view(out@) + Seq::<Seq<char>>::empty() =~= chars_view(out@));
    out
}

/// The pieces joined.
fn join_all(ps: &Vec<Vec<char>>, from: usize, to: usize) -> (r: Vec<char>)
    requires
        from <= to <= ps@.len(),
    ensures
        r@ == concat_all(chars_view(ps@).subrange(from as int, to as int)),
{
    let mut out: Vec<char> = Vec::new();
    let mut k: usize = from;
    assert(chars_view(ps@).subrange(from as int, from as int) =~= Seq::<Seq<char>>::empty());
    while k < to
        invariant
            from <= k <= to <= ps@.len(),
            out@ == concat_all(chars_view(ps@).subrange(from as int, k as int)),
        decreases to - k,
    {
        let ghost pre = out@;
        let piece = &ps[k];
        let mut j: usize = 0;
        while j < piece.len()
            invariant
                j <= piece@.len(),
                out@ == pre + piece@.take(j as int),
            decreases piece@.len() - j,
        {
            out.push(piece[j]);
            j += 1;
            assert(out@ =~= pre + piece@.take(j as int));
        }
        assert(piece@.take(j as int) =~= piece@);
        assert(chars_view(ps@).subrange(from as int, k + 1).drop_last() =~= chars_view(ps@).subrange(
            from as int,
            k as int,
        ));
        k += 1;
    }
    out
}

// ───────────────────────────── ranges ───────────────────────────────────────

/// `a` if it is at most `b`, else `b`.
pub open spec fn min_nat(a: nat, b: nat) -> nat {
    if a <= b {
        a
    } else {
        b
    }
}

/// A range argument, `N`, `N-` or `N-M`, read against `max` components: its
/// start and its end, the end lowered to `max`; an error when it does not
/// start with a number, when its end is below its start or is no number,
/// or when a number does not fit in 64 bits.
pub open spec fn range_spec(r: Seq<char>, max: nat) -> Result<(nat, nat), Seq<char>> {
    let d = run_len(r, 1);
    let rest = r.skip(d as int);
    if d == 0 {
        Err("range must start with a number"@)
    } else {
        match parse_u64_spec_digits(r.take(d as int)) {
            None => Err("range number too large"@),
            Some(s) => if rest.len() == 0 {
                Ok((s as nat, min_nat(s as nat, max)))
            } else if rest == "-"@ {
                Ok((s as nat, max))
            } else if rest[0] == '-' && run_len(rest.drop_first(), 1) == rest.len() - 1 {
                match parse_u64_spec_digits(rest.drop_first()) {
                    None => Err("range number too large"@),
                    Some(e) => if s <= e {
                        Ok((s as nat, min_nat(e as nat, max)))
                    } else {
                        Err("end of range must be >= start"@)
                    },
                }
            } else {
                Err("end of range must be >= start"@)
            },
        }
    }
}

proof fn lemma_run_all(s: Seq<char>, kind: u8, k: int)
    requires
        0 <= k < run_len(s, kind),
    ensures
        in_run(s[k], kind),
    decreases s.len(),
{
    lemma_run_len_le(s, kind);
    assert(s.len() > 0 && in_run(s[0], kind));
    if k > 0 {
        lemma_run_all(s.drop_first(), kind, k - 1);
        assert(s.drop_first()[k - 1] == s[k]);
    }
}

/// A run of digits read as a `u64`.
fn digits_u64(s: &[char]) -> (r: Option<u64>)
    requires
        s@.len() > 0,
        run_len(s@, 1) == s@.len(),
    ensures
        r == parse_u64_spec_digits(s@),
{
    proof {
        lemma_run_all(s@, 1, 0);
    }
    let r = parse_u64(s);
    proof {
        assert(s@[0] != '+');
        assert(parse_u64_spec(s@) == parse_u64_spec_digits(s@));
    }
    r
}

fn message(m: &str) -> (r: Result<(u64, usize), String>)
    ensures
        r matches Err(x) && x@ == m@,
{
    Err(m.to_owned())
}

/// Read a range argument against `max` components (see [`range_spec`]).
pub fn parse_range(r: &str, max: usize) -> (res: Result<(u64, usize), String>)
    ensures
        match range_spec(r@, max as nat) {
            Ok((s, e)) => res matches Ok((a, b)) && a == s && b == e,
            Err(m) => res matches Err(x) && x@ == m,
        },
{
    let v = chars_of(r);
    let d = count_run(v.as_slice(), 0, 1);
    assert(v@.skip(0) =~= v@);
    proof {
        reveal_strlit("range must start with a number");
        reveal_strlit("range number too large");
        reveal_strlit("end of range must be >= start");
        reveal_strlit("-");
    }
    if d == 0 {
        return message("range must start with a number");
    }
    let first = crate::text::slice_range(v.as_slice(), 0, d);
    let rest = crate::text::slice_range(v.as_slice(), d, v.len());
    assert(first@ =~= r@.take(d as int));
    assert(rest@ =~= r@.skip(d as int));
    proof {
        assert forall|k: int| 0 <= k < d implies in_run(#[trigger] first@[k], 1) by {
            lemma_run_all(r@, 1, k);
        }
        lemma_run_full(first@, 1);
    }
    let s = match digits_u64(first.as_slice()) {
        None => {
            return message("range number too large");
        },
        Some(s) => s,
    };
    if rest.len() == 0 {
        let e: usize = if (s as u128) <= (max as u128) { s as usize } else { max };
        return Ok((s, e));
    }
    if rest.len() == 1 && rest[0] == '-' {
        assert(rest@ =~= "-"@);
        return Ok((s, max));
    }
    let tail = crate::text::slice_range(rest.as_slice(), 1, rest.len());
    assert(tail@ =~= rest@.drop_first());
    let t = count_run(tail.as_slice(), 0, 1);
    assert(tail@.skip(0) =~= tail@);
    if rest[0] == '-' && t == tail.len() && tail.len() > 0 {
        match digits_u64(tail.as_slice()) {
            None => message("range number too large"),
            Some(e) => if s <= e {
                let b: usize = if (e as u128) <= (max as u128) { e as usize } else { max };
                Ok((s, b))
            } else {
                message("end of range must be >= start")
            },
        }
    } else {
        proof {
            if rest@[0] == '-' && run_len(rest@.drop_first(), 1) == rest@.len() - 1 {
                assert(tail@.len() == 0);
                assert(rest@ =~= "-"@);
            }
        }
        message("end of range must be >= start")
    }
}

proof fn lemma_run_full(s: Seq<char>, kind: u8)
    requires
        forall|k: int| 0 <= k < s.len() ==> in_run(#[trigger] s[k], kind),
    ensures
        run_len(s, kind) == s.len(),
    decreases s.len(),
{
    if s.len() > 0 {
        assert forall|k: int| 0 <= k < s.drop_first().len() implies in_run(
            #[trigger] s.drop_first()[k],
            kind,
        ) by {
            assert(s.drop_first()[k] == s[k + 1]);
        }
        lemma_run_full(s.drop_first(), kind);
    }
}

// ───────────────────────────── ver_cut ──────────────────────────────────────

/// Components `start` to `end` of split version `ps` with the separators
/// between them (from separator 0 when `start` is 0).
pub open spec fn cut_spec(ps: Seq<Seq<char>>, start: nat, end: nat) -> Seq<char> {
    let a: int = if start > 0 {
        2 * start as int - 1
    } else {
        0
    };
    let b: int = 2 * end as int;
    if a >= b {
        seq![]
    } else {
        concat_all(ps.subrange(a, b))
    }
}

/// `ver_cut range version`: the components of the range with the
/// separators between them, or the error of the range.
pub open spec fn ver_cut_spec(range: Seq<char>, version: Seq<char>) -> Result<Seq<char>, Seq<char>> {
    let ps = ver_parts(version);
    match range_spec(range, ps.len() / 2) {
        Ok((s, e)) => Ok(cut_spec(ps, s, e)),
        Err(m) => Err(m),
    }
}

/// `ver_cut range version`.
pub fn ver_cut(range: &str, version: &str) -> (r: Result<String, String>)
    ensures
        match ver_cut_spec(range@, version@) {
            Ok(t) => r matches Ok(x) && x@ == t,
            Err(m) => r matches Err(x) && x@ == m,
        },
{
    let ps = ver_split(chars_of(version).as_slice());
    let max = ps.len() / 2;
    match parse_range(range, max) {
        Err(m) => Err(m),
        Ok((s, e)) => {
            if (s as u128) > (e as u128) {
                return Ok(String::new());
            }
            let su = s as usize;
            let a: usize = if su > 0 {
                2 * su - 1
            } else {
                0
            };
            let b: usize = 2 * e;
            if a >= b {
                return Ok(String::new());
            }
            let out = join_all(&ps, a, b);
            Ok(string_of(out.as_slice()))
        },
    }
}

// ───────────────────────────── ver_rs ───────────────────────────────────────

/// Separator `i` of split version `ps` set to `repl` (appended when it is
/// the one after the last piece); an empty separator 0 stays as it is.
pub open spec fn set_separator(ps: Seq<Seq<char>>, i: nat, repl: Seq<char>) -> Seq<Seq<char>> {
    if i == 0 && (ps.len() == 0 || ps[0].len() == 0) {
        ps
    } else if 2 * i < ps.len() {
        ps.update(2 * i as int, repl)
    } else if 2 * i == ps.len() {
        ps.push(repl)
    } else {
        ps
    }
}

/// Separators `i` to `end` set to `repl`, in that order.
pub open spec fn set_separators(ps: Seq<Seq<char>>, i: nat, end: nat, repl: Seq<char>) -> Seq<Seq<char>>
    decreases end + 1 - i,
{
    if i > end {
        ps
    } else {
        set_separators(set_separator(ps, i, repl), i + 1, end, repl)
    }
}

/// The `(range, replacement)` pairs applied in order, each range read
/// against the components of the version as it stands then.
pub open spec fn rs_pairs(ps: Seq<Seq<char>>, pairs: Seq<(Seq<char>, Seq<char>)>) -> Result<
    Seq<Seq<char>>,
    Seq<char>,
>
    decreases pairs.len(),
{
    if pairs.len() == 0 {
        Ok(ps)
    } else {
        match range_spec(pairs[0].0, ps.len() / 2) {
            Err(m) => Err(m),
            Ok((s, e)) => rs_pairs(set_separators(ps, s, e, pairs[0].1), pairs.drop_first()),
        }
    }
}

/// The arguments taken two by two, a last odd one left out.
pub open spec fn arg_pairs(args: Seq<Seq<char>>) -> Seq<(Seq<char>, Seq<char>)> {
    Seq::new(args.len() / 2, |k: int| (args[2 * k], args[2 * k + 1]))
}

/// `ver_rs range repl [range repl...] [version]`: with an odd number of
/// arguments the last is the version, else it is `pv`; the separators of
/// each range are replaced, and the pieces joined.
pub open spec fn ver_rs_spec(args: Seq<Seq<char>>, pv: Seq<char>) -> Result<Seq<char>, Seq<char>> {
    let odd = args.len() % 2 == 1;
    let version = if odd {
        args.last()
    } else {
        pv
    };
    match rs_pairs(ver_parts(version), arg_pairs(args)) {
        Ok(ps) => Ok(concat_all(ps)),
        Err(m) => Err(m),
    }
}

fn set_separator_exec(ps: &mut Vec<Vec<char>>, i: usize, repl: &[char])
    requires
        2 * i <= old(ps)@.len(),
    ensures
        chars_view(final(ps)@) == set_separator(chars_view(old(ps)@), i as nat, repl@),
{
    let ghost pv = chars_view(ps@);
    if i == 0 && (ps.len() == 0 || ps[0].len() == 0) {
        return;
    }
    let copy = crate::text::slice_range(repl, 0, repl.len());
    assert(copy@ =~= repl@);
    let n = ps.len();
    assert(2 * i <= n);
    if 2 * i < n {
        ps.set(2 * i, copy);
        assert(chars_view(ps@) =~= pv.update(2 * i as int, repl@));
    } else {
        ps.push(copy);
        assert(chars_view(ps@) =~= pv.push(repl@));
    }
}

/// `ver_rs range repl [range repl...] [version]` (see [`ver_rs_spec`]).
pub fn ver_rs(args: &Vec<String>, pv: &str) -> (r: Result<String, String>)
    ensures
        match ver_rs_spec(crate::util::strings_view(args@), pv@) {
            Ok(t) => r matches Ok(x) && x@ == t,
            Err(m) => r matches Err(x) && x@ == m,
        },
{
    let ghost av = crate::util::strings_view(args@);
    let odd = args.len() % 2 == 1;
    let version: &str = if odd {
        args[args.len() - 1].as_str()
    } else {
        pv
    };
    assert(version@ == (if av.len() % 2 == 1 {
        av.last()
    } else {
        pv@
    }));
    let ghost pairs = arg_pairs(av);
    let mut ps = ver_split(chars_of(version).as_slice());
    let mut k: usize = 0;
    let mut j: usize = 0;
    let npairs = args.len() / 2;
    assert(pairs.skip(0) =~= pairs);
    while k < npairs
        invariant
            npairs == av.len() / 2,
            pairs == arg_pairs(av),
            av == crate::util::strings_view(args@),
            k <= npairs,
            j == 2 * k,
            j <= args@.len(),
            version@ == (if av.len() % 2 == 1 {
                av.last()
            } else {
                pv@
            }),
            rs_pairs(ver_parts(version@), pairs) == rs_pairs(chars_view(ps@), pairs.skip(k as int)),
        decreases npairs - k,
    {
        let ghost before = chars_view(ps@);
        let ghost rest = pairs.skip(k as int);
        assert(rest[0] == (av[2 * k as int], av[2 * k + 1]));
        assert(rest.drop_first() =~= pairs.skip(k + 1));
        let nargs = args.len();
        assert(j + 1 < nargs) by (nonlinear_arith)
            requires
                k < npairs,
                npairs == nargs / 2,
                j == 2 * k,
        ;
        let next_j = j + 2;
        let range = args[j].as_str();
        let repl = chars_of(args[j + 1].as_str());
        let max = ps.len() / 2;
        proof {
            assert(rest.len() > 0);
            assert(range@ == rest[0].0);
            assert(repl@ == rest[0].1);
            assert(max == before.len() / 2);
        }
        match parse_range(range, max) {
            Err(m) => {
                assert(rs_pairs(before, rest) == Err::<Seq<Seq<char>>, Seq<char>>(m@));
                return Err(m);
            },
            Ok((s, e)) => {
                if (s as u128) <= (e as u128) {
                    assert(e < usize::MAX);
                    let mut i: usize = s as usize;
                    while i <= e
                        invariant
                            s <= i <= e + 1,
                            e <= max,
                            e < usize::MAX,
                            max == before.len() / 2,
                            chars_view(ps@).len() <= before.len() + 1,
                            chars_view(ps@).len() >= before.len(),
                            set_separators(before, s as nat, e as nat, repl@) == set_separators(
                                chars_view(ps@),
                                i as nat,
                                e as nat,
                                repl@,
                            ),
                        decreases e + 1 - i,
                    {
                        set_separator_exec(&mut ps, i, repl.as_slice());
                        i += 1;
                    }
                } else {
                    assert(set_separators(before, s as nat, e as nat, repl@) == before);
                }
                k += 1;
                j = next_j;
            },
        }
    }
    assert(pairs.skip(k as int) =~= Seq::<(Seq<char>, Seq<char>)>::empty());
    let out = join_all(&ps, 0, ps.len());
    assert(chars_view(ps@).subrange(0, ps@.len() as int) =~= chars_view(ps@));
    Ok(string_of(out.as_slice()))
}

// ───────────────────────────── ver_test ─────────────────────────────────────

/// Whether `portage_atom::Version::parse` accepts a version.
pub uninterp spec fn version_valid(v: Seq<char>) -> bool;

/// Calls `portage_atom::Version::parse`; claims that it succeeds exactly on
/// the versions named by [`version_valid`].
#[verifier::external_body]
fn is_version(v: &str) -> (r: bool)
    ensures
        r == version_valid(v@),
{
    portage_atom::Version::parse(v).is_ok()
}

/// How `portage_atom`'s version order (PMS algorithm 3) places `a` against
/// `b`: whether it comes before and whether it is equal; `None` when either
/// does not parse.
pub uninterp spec fn version_order(a: Seq<char>, b: Seq<char>) -> Option<(bool, bool)>;

/// Parses both versions with `portage_atom::Version::parse` and compares them
/// (`<` and `==`). Claims the result named by [`version_order`], present
/// exactly when both versions parse.
#[verifier::external_body]
fn order_versions(a: &str, b: &str) -> (r: Option<(bool, bool)>)
    ensures
        r == version_order(a@, b@),
        r is Some == (version_valid(a@) && version_valid(b@)),
{
    match (portage_atom::Version::parse(a), portage_atom::Version::parse(b)) {
        (Ok(x), Ok(y)) => Some((x < y, x == y)),
        _ => None,
    }
}

/// What an operator of `ver_test` answers for an order `(before, equal)`;
/// `None` for an unknown operator.
pub open spec fn op_holds(op: Seq<char>, o: (bool, bool)) -> Option<bool> {
    if op == "-eq"@ {
        Some(o.1)
    } else if op == "-ne"@ {
        Some(!o.1)
    } else if op == "-lt"@ {
        Some(o.0)
    } else if op == "-le"@ {
        Some(o.0 || o.1)
    } else if op == "-gt"@ {
        Some(!o.0 && !o.1)
    } else if op == "-ge"@ {
        Some(!o.0)
    } else {
        None
    }
}

/// `ver_test [v1] op v2`: with two arguments `v1` is `pv`; the versions
/// must be valid and the operator known; then whether the operator holds.
pub open spec fn ver_test_spec(args: Seq<Seq<char>>, pv: Seq<char>) -> Result<bool, Seq<char>> {
    if args.len() != 2 && args.len() != 3 {
        Err("bad number of arguments"@)
    } else {
        let va = if args.len() == 2 {
            pv
        } else {
            args[0]
        };
        let op = args[args.len() - 2];
        let vb = args[args.len() - 1];
        if !version_valid(va) {
            Err("invalid version: "@ + va)
        } else if !version_valid(vb) {
            Err("invalid version: "@ + vb)
        } else {
            match op_holds(op, version_order(va, vb)->0) {
                Some(b) => Ok(b),
                None => Err("invalid operator: "@ + op),
            }
        }
    }
}

fn op_result(op: &str, o: (bool, bool)) -> (r: Option<bool>)
    ensures
        r == op_holds(op@, o),
{
    let v = chars_of(op);
    let b = o.0;
    let q = o.1;
    if eq_str(v.as_slice(), "-eq") {
        Some(q)
    } else if eq_str(v.as_slice(), "-ne") {
        Some(!q)
    } else if eq_str(v.as_slice(), "-lt") {
        Some(b)
    } else if eq_str(v.as_slice(), "-le") {
        Some(b || q)
    } else if eq_str(v.as_slice(), "-gt") {
        Some(!b && !q)
    } else if eq_str(v.as_slice(), "-ge") {
        Some(!b)
    } else {
        None
    }
}

fn error_with(prefix: &str, what: &str) -> (r: Result<bool, String>)
    ensures
        r matches Err(x) && x@ == prefix@ + what@,
{
    let mut m = prefix.to_owned();
    crate::text::push_str(&mut m, what);
    Err(m)
}

/// `ver_test [v1] op v2` (see [`ver_test_spec`]).
pub fn ver_test(args: &Vec<String>, pv: &str) -> (r: Result<bool, String>)
    ensures
        match ver_test_spec(crate::util::strings_view(args@), pv@) {
            Ok(b) => r == Ok::<bool, String>(b),
            Err(m) => r matches Err(x) && x@ == m,
        },
{
    let ghost av = crate::util::strings_view(args@);
    proof {
        reveal_strlit("bad number of arguments");
    }
    if args.len() != 2 && args.len() != 3 {
        return Err("bad number of arguments".to_owned());
    }
    let va: &str = if args.len() == 2 {
        pv
    } else {
        args[0].as_str()
    };
    let op = args[args.len() - 2].as_str();
    let vb = args[args.len() - 1].as_str();
    assert(op@ == av[av.len() - 2] && vb@ == av[av.len() - 1]);
    if !is_version(va) {
        return error_with("invalid version: ", va);
    }
    if !is_version(vb) {
        return error_with("invalid version: ", vb);
    }
    let o = match order_versions(va, vb) {
        Some(o) => o,
        None => {
            return error_with("invalid version: ", va);
        },
    };
    match op_result(op, o) {
        Some(b) => Ok(b),
        None => error_with("invalid operator: ", op),
    }
}

} // verus!
