//! The active USE flags of a shell session: a set of flag names kept as a
//! strictly sorted list, so that `USE` lists each flag once, in order.
use vstd::prelude::*;

use crate::pms::join_spaces;
use crate::text::{chars_eq, chars_of, string_of, trim, trim_chars};
use crate::util::{lemma_lex_antisym, lemma_lex_total, lemma_lex_trans, lex_le, str_le, strings_view};

verus! {

/// `a` comes strictly before `b`.
pub open spec fn lex_lt(a: Seq<char>, b: Seq<char>) -> bool {
    lex_le(a, b) && a != b
}

/// Every name comes strictly before the names after it.
pub open spec fn strictly_sorted(s: Seq<Seq<char>>) -> bool {
    forall|i: int, j: int| 0 <= i < j < s.len() ==> lex_lt(#[trigger] s[i], #[trigger] s[j])
}

/// The set that `set_use_flags` makes of its arguments, read in order: each
/// trimmed, empty ones skipped, `-flag` removes `flag`, `+flag` and `flag`
/// add `flag`.
pub open spec fn use_set_spec(flags: Seq<Seq<char>>) -> Set<Seq<char>>
    decreases flags.len(),
{
    if flags.len() == 0 {
        Set::empty()
    } else {
        let s = use_set_spec(flags.drop_last());
        let f = trim(flags.last());
        if f.len() == 0 {
            s
        } else if f[0] == '-' {
            s.remove(f.drop_first())
        } else if f[0] == '+' {
            s.insert(f.drop_first())
        } else {
            s.insert(f)
        }
    }
}

/// The enabled USE flags of a shell session.
pub struct UseFlags {
    flags: Vec<String>,
}

impl UseFlags {
    /// The flags, in sorted order.
    pub closed spec fn listing(&self) -> Seq<Seq<char>> {
        strings_view(self.flags@)
    }

    /// The listing is strictly sorted: every flag occurs once.
    #[verifier::type_invariant]
    spec fn wf(self) -> bool {
        strictly_sorted(strings_view(self.flags@))
    }

    /// No flag enabled.
    pub fn new() -> (r: Self)
        ensures
            r.listing() == Seq::<Seq<char>>::empty(),
    {
        let r = UseFlags { flags: Vec::new() };
        assert(r.listing() =~= Seq::<Seq<char>>::empty());
        r
    }
}

/// Enable `f` in a strictly sorted list of flags.
fn insert_flag(flags: &mut Vec<String>, f: &[char])
    requires
        strictly_sorted(strings_view(old(flags)@)),
    ensures
        strictly_sorted(strings_view(final(flags)@)),
        strings_view(final(flags)@).to_set() == strings_view(old(flags)@).to_set().insert(f@),
{
    let ghost old_l = strings_view(flags@);
    let mut i: usize = 0;
    while i < flags.len() && !str_le(f, chars_of(flags[i].as_str()).as_slice())
        invariant
            strings_view(flags@) == old_l,
            strictly_sorted(old_l),
            i <= flags@.len(),
            forall|k: int| 0 <= k < i ==> lex_lt(#[trigger] old_l[k], f@),
        decreases flags@.len() - i,
    {
        proof {
            lemma_lex_total(f@, old_l[i as int]);
        }
        i += 1;
    }
    if i < flags.len() && chars_eq(chars_of(flags[i].as_str()).as_slice(), f) {
        assert(old_l.to_set().insert(f@) =~= old_l.to_set()) by {
            assert(old_l[i as int] == f@);
        }
        return;
    }
    let name = string_of(f);
    flags.insert(i, name);
    proof {
        let nl = strings_view(flags@);
        assert(nl =~= old_l.insert(i as int, f@));
        if i < old_l.len() {
            assert(lex_le(f@, old_l[i as int]));
            assert(old_l[i as int] != f@);
        }
        assert forall|a: int, b: int| 0 <= a < b < nl.len() implies lex_lt(
            #[trigger] nl[a],
            #[trigger] nl[b],
        ) by {
            if a == i {
                let ob = b - 1;
                assert(nl[b] == old_l[ob]);
                if ob > i {
                    assert(lex_lt(old_l[i as int], old_l[ob]));
                    lemma_lex_trans(f@, old_l[i as int], old_l[ob]);
                    if f@ == old_l[ob] {
                        lemma_lex_antisym(old_l[i as int], old_l[ob]);
                    }
                }
            } else if b == i {
                assert(nl[a] == old_l[a]);
            } else {
                let oa = if a < i { a } else { a - 1 };
                let ob = if b < i { b } else { b - 1 };
                assert(nl[a] == old_l[oa]);
                assert(nl[b] == old_l[ob]);
            }
        }
        assert(nl.to_set() =~= old_l.to_set().insert(f@)) by {
            assert forall|x: Seq<char>| nl.to_set().contains(x) implies old_l.to_set().insert(
                f@,
            ).contains(x) by {
                let k = choose|k: int| 0 <= k < nl.len() && nl[k] == x;
                if k < i {
                    assert(old_l[k] == x);
                } else if k > i {
                    assert(old_l[k - 1] == x);
                }
            }
            assert forall|x: Seq<char>| old_l.to_set().insert(f@).contains(x) implies nl.to_set().contains(
                x,
            ) by {
                if x == f@ {
                    assert(nl[i as int] == x);
                } else {
                    let k = choose|k: int| 0 <= k < old_l.len() && old_l[k] == x;
                    if k < i {
                        assert(nl[k] == x);
                    } else {
                        assert(nl[k + 1] == x);
                    }
                }
            }
        }
    }
}

/// Disable `f` in a strictly sorted list of flags.
fn remove_flag(flags: &mut Vec<String>, f: &[char])
    requires
        strictly_sorted(strings_view(old(flags)@)),
    ensures
        strictly_sorted(strings_view(final(flags)@)),
        strings_view(final(flags)@).to_set() == strings_view(old(flags)@).to_set().remove(f@),
{
    let ghost old_l = strings_view(flags@);
    let mut i: usize = 0;
    while i < flags.len() && !chars_eq(chars_of(flags[i].as_str()).as_slice(), f)
        invariant
            strings_view(flags@) == old_l,
            strictly_sorted(old_l),
            i <= flags@.len(),
            forall|k: int| 0 <= k < i ==> #[trigger] old_l[k] != f@,
        decreases flags@.len() - i,
    {
        i += 1;
    }
    if i == flags.len() {
        assert(old_l.to_set().remove(f@) =~= old_l.to_set());
        return;
    }
    flags.remove(i);
    proof {
        let nl = strings_view(flags@);
        assert(nl =~= old_l.remove(i as int));
        assert(old_l[i as int] == f@);
        assert forall|a: int, b: int| 0 <= a < b < nl.len() implies lex_lt(
            #[trigger] nl[a],
            #[trigger] nl[b],
        ) by {
            let oa = if a < i { a } else { a + 1 };
            let ob = if b < i { b } else { b + 1 };
            assert(nl[a] == old_l[oa]);
            assert(nl[b] == old_l[ob]);
        }
        assert(nl.to_set() =~= old_l.to_set().remove(f@)) by {
            assert forall|x: Seq<char>| nl.to_set().contains(x) implies old_l.to_set().remove(
                f@,
            ).contains(x) by {
                let k = choose|k: int| 0 <= k < nl.len() && nl[k] == x;
                let ok = if k < i { k } else { k + 1 };
                assert(old_l[ok] == x);
                assert(ok != i);
                assert(lex_lt(old_l[if ok < i { ok } else { i as int }], old_l[if ok < i { i as int } else { ok }]));
            }
            assert forall|x: Seq<char>| old_l.to_set().remove(f@).contains(x) implies nl.to_set().contains(
                x,
            ) by {
                let k = choose|k: int| 0 <= k < old_l.len() && old_l[k] == x;
                assert(k != i);
                if k < i {
                    assert(nl[k] == x);
                } else {
                    assert(nl[k - 1] == x);
                }
            }
        }
    }
}

impl UseFlags {
    /// Replace the flags with those the arguments give (see [`use_set_spec`]),
    /// listed in strictly increasing order.
    pub fn set_use_flags(&mut self, flags: &Vec<String>)
        ensures
            strictly_sorted(final(self).listing()),
            final(self).listing().to_set() == use_set_spec(strings_view(flags@)),
    {
        let mut cur: Vec<String> = Vec::new();
        assert(strings_view(cur@) =~= Seq::<Seq<char>>::empty());
        let mut i: usize = 0;
        while i < flags.len()
            invariant
                i <= flags@.len(),
                strictly_sorted(strings_view(cur@)),
                strings_view(cur@).to_set() == use_set_spec(strings_view(flags@).take(i as int)),
            decreases flags@.len() - i,
        {
            proof {
                assert(strings_view(flags@).take(i + 1).drop_last() =~= strings_view(flags@).take(i as int));
                assert(strings_view(flags@).take(i + 1).last() == flags@[i as int]@);
            }
            let t = trim_chars(chars_of(flags[i].as_str()).as_slice());
            if t.len() == 0 {
            } else if t[0] == '-' {
                let name = crate::text::slice_range(t.as_slice(), 1, t.len());
                assert(name@ =~= t@.drop_first());
                remove_flag(&mut cur, name.as_slice());
            } else if t[0] == '+' {
                let name = crate::text::slice_range(t.as_slice(), 1, t.len());
                assert(name@ =~= t@.drop_first());
                insert_flag(&mut cur, name.as_slice());
            } else {
                insert_flag(&mut cur, t.as_slice());
            }
            i += 1;
        }
        assert(strings_view(flags@).take(i as int) =~= strings_view(flags@));
        *self = UseFlags { flags: cur };
    }

    /// The flags, in strictly increasing order and separated by single spaces
    /// (the value of `USE`).
    pub fn use_flags_string(&self) -> (r: String)
        ensures
            strictly_sorted(self.listing()),
            r@ == join_spaces(self.listing()),
    {
        proof {
            use_type_invariant(self);
        }
        crate::pms::join_with_spaces(&self.flags)
    }

    /// Whether `flag` is enabled.
    pub fn contains(&self, flag: &str) -> (r: bool)
        ensures
            r == self.listing().contains(flag@),
    {
        crate::pms::has(flag, &self.flags)
    }
}

/// The listing of a well-formed set is the one strictly sorted sequence of
/// its flags: two strictly sorted lists with the same flags are equal.
pub proof fn lemma_sorted_listing_unique(a: Seq<Seq<char>>, b: Seq<Seq<char>>)
    requires
        strictly_sorted(a),
        strictly_sorted(b),
        a.to_set() == b.to_set(),
    ensures
        a == b,
    decreases a.len() + b.len(),
{
    if a.len() == 0 || b.len() == 0 {
        if a.len() > 0 {
            assert(a.to_set().contains(a[0]));
        }
        if b.len() > 0 {
            assert(b.to_set().contains(b[0]));
        }
        assert(a =~= b);
    } else {
        // The first elements are the least of the set, so they agree.
        assert(a.to_set().contains(a[0]));
        assert(b.to_set().contains(b[0]));
        let ka = choose|k: int| 0 <= k < b.len() && b[k] == a[0];
        let kb = choose|k: int| 0 <= k < a.len() && a[k] == b[0];
        if ka > 0 {
            assert(lex_lt(b[0], b[ka]));
            if kb > 0 {
                assert(lex_lt(a[0], a[kb]));
                lemma_lex_antisym(a[0], b[0]);
            }
        }
        if kb > 0 && ka == 0 {
            assert(lex_lt(a[0], a[kb]));
        }
        assert(a[0] == b[0]);
        let ra = a.drop_first();
        let rb = b.drop_first();
        assert(strictly_sorted(ra)) by {
            assert forall|i: int, j: int| 0 <= i < j < ra.len() implies lex_lt(#[trigger] ra[i], #[trigger] ra[j]) by {
                assert(ra[i] == a[i + 1] && ra[j] == a[j + 1]);
            }
        }
        assert(strictly_sorted(rb)) by {
            assert forall|i: int, j: int| 0 <= i < j < rb.len() implies lex_lt(#[trigger] rb[i], #[trigger] rb[j]) by {
                assert(rb[i] == b[i + 1] && rb[j] == b[j + 1]);
            }
        }
        assert(ra.to_set() =~= rb.to_set()) by {
            assert forall|x: Seq<char>| ra.to_set().contains(x) implies rb.to_set().contains(x) by {
                let k = choose|k: int| 0 <= k < ra.len() && ra[k] == x;
                assert(a[k + 1] == x);
                assert(lex_lt(a[0], a[k + 1]));
                assert(b.to_set().contains(x));
                let m = choose|m: int| 0 <= m < b.len() && b[m] == x;
                assert(m != 0);
                assert(rb[m - 1] == x);
            }
            assert forall|x: Seq<char>| rb.to_set().contains(x) implies ra.to_set().contains(x) by {
                let k = choose|k: int| 0 <= k < rb.len() && rb[k] == x;
                assert(b[k + 1] == x);
                assert(lex_lt(b[0], b[k + 1]));
                assert(a.to_set().contains(x));
                let m = choose|m: int| 0 <= m < a.len() && a[m] == x;
                assert(m != 0);
                assert(ra[m - 1] == x);
            }
        }
        lemma_sorted_listing_unique(ra, rb);
        assert(a =~= seq![a[0]] + ra);
        assert(b =~= seq![b[0]] + rb);
    }
}


/// A word: not empty and without whitespace.
pub open spec fn is_word(w: Seq<char>) -> bool {
    w.len() > 0 && forall|k: int| 0 <= k < w.len() ==> !crate::text::is_unicode_ws(#[trigger] w[k])
}

/// A word followed by nothing or by whitespace splits off as the first word.
proof fn lemma_words_word_first(w: Seq<char>, t: Seq<char>)
    requires
        is_word(w),
        t.len() == 0 || crate::text::is_unicode_ws(t[0]),
    ensures
        crate::text::words(w + t, true) == seq![w] + crate::text::words(t, true),
{
    let s = w + t;
    crate::text::lemma_token_len(s, true, w.len() as int);
    assert(s.take(w.len() as int) =~= w);
    assert(s.skip(w.len() as int) =~= t);
}

/// `a b c` is `a` followed by a space and `b c`.
proof fn lemma_join_front(ws: Seq<Seq<char>>)
    requires
        ws.len() >= 2,
    ensures
        join_spaces(ws) == ws[0] + (seq![' '] + join_spaces(ws.drop_first())),
    decreases ws.len(),
{
    if ws.len() == 2 {
        assert(ws.drop_last() =~= seq![ws[0]]);
        assert(ws.drop_first() =~= seq![ws[1]]);
        assert(join_spaces(ws.drop_last()) == ws[0]);
        assert(join_spaces(ws.drop_first()) == ws[1]);
        assert(ws.last() == ws[1]);
        assert(join_spaces(ws) == join_spaces(ws.drop_last()) + seq![' '] + ws.last());
        assert(join_spaces(ws) =~= ws[0] + (seq![' '] + join_spaces(ws.drop_first())));
    } else {
        let init = ws.drop_last();
        let tail = ws.drop_first();
        lemma_join_front(init);
        assert(init.drop_first() =~= tail.drop_last());
        assert(tail.last() == ws.last());
        assert(init[0] == ws[0]);
        let mid = join_spaces(init.drop_first());
        assert(join_spaces(tail) == join_spaces(tail.drop_last()) + seq![' '] + tail.last());
        assert(join_spaces(tail) == mid + seq![' '] + ws.last());
        assert(join_spaces(ws) == join_spaces(init) + seq![' '] + ws.last());
        assert(join_spaces(init) == ws[0] + (seq![' '] + mid));
        assert(join_spaces(ws) =~= ws[0] + (seq![' '] + join_spaces(tail)));
    }
}

/// Splitting words joined by single spaces gives back the words.
pub proof fn lemma_words_of_join(ws: Seq<Seq<char>>)
    requires
        forall|i: int| 0 <= i < ws.len() ==> is_word(#[trigger] ws[i]),
    ensures
        crate::text::words(join_spaces(ws), true) == ws,
    decreases ws.len(),
{
    if ws.len() == 0 {
    } else if ws.len() == 1 {
        assert(is_word(ws[0]));
        lemma_words_word_first(ws[0], seq![]);
        assert(ws[0] + seq![] =~= ws[0]);
        assert(seq![ws[0]] + seq![] =~= ws);
    } else {
        let rest = ws.drop_first();
        assert forall|i: int| 0 <= i < rest.len() implies is_word(#[trigger] rest[i]) by {
            assert(rest[i] == ws[i + 1]);
        }
        lemma_words_of_join(rest);
        lemma_join_front(ws);
        let t = seq![' '] + join_spaces(rest);
        assert(is_word(ws[0]));
        lemma_words_word_first(ws[0], t);
        assert(t.drop_first() =~= join_spaces(rest));
        assert(seq![ws[0]] + rest =~= ws);
    }
}

/// What `use flag` answers for the `USE` value a session sets is exactly
/// whether the flag was enabled, when every enabled flag is a word.
pub proof fn lemma_use_answers_enabled(u: UseFlags, f: Seq<char>)
    requires
        forall|i: int| 0 <= i < u.listing().len() ==> is_word(#[trigger] u.listing()[i]),
    ensures
        crate::pms::use_enabled(Some(join_spaces(u.listing())), f) <==> u.listing().to_set().contains(f),
{
    lemma_words_of_join(u.listing());
}

} // verus!
