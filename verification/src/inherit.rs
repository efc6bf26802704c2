//! The decisions of `inherit` (PMS 10): which eclasses are sourced, how the
//! accumulating metadata variables combine, what `INHERITED` and the
//! nesting depth become, and where an eclass file is looked for.
use vstd::prelude::*;

use crate::pms::{contains, contains_spec, eapi_number};
use crate::text::{chars_of, join_with, pieces, push_str, split_char, string_of};
use crate::util::{join, join_path, strings_view};

verus! {

// ───────────────────────────── accumulating variables ───────────────────────

/// The metadata variables whose eclass values accumulate (PMS 10.2): seven in
/// every EAPI, and `PROPERTIES` and `RESTRICT` too from EAPI 8 on.
pub open spec fn accum_vars_spec(eapi: u32) -> Seq<Seq<char>> {
    seq![
        "IUSE"@,
        "REQUIRED_USE"@,
        "DEPEND"@,
        "BDEPEND"@,
        "RDEPEND"@,
        "PDEPEND"@,
        "IDEPEND"@,
    ] + if eapi >= 8 {
        seq!["PROPERTIES"@, "RESTRICT"@]
    } else {
        seq![]
    }
}

/// The accumulating metadata variables of an EAPI.
pub fn accum_vars(eapi: u32) -> (r: Vec<&'static str>)
    ensures
        r@.len() == accum_vars_spec(eapi).len(),
        forall|i: int| 0 <= i < r@.len() ==> #[trigger] r@[i]@ == accum_vars_spec(eapi)[i],
{
    let mut v: Vec<&'static str> = Vec::new();
    v.push("IUSE");
    v.push("REQUIRED_USE");
    v.push("DEPEND");
    v.push("BDEPEND");
    v.push("RDEPEND");
    v.push("PDEPEND");
    v.push("IDEPEND");
    if eapi >= 8 {
        v.push("PROPERTIES");
        v.push("RESTRICT");
    }
    v
}

/// The variable that holds the total of the eclasses' contributions to `var`
/// once the outermost `inherit` has returned.
pub open spec fn eclass_total_var_spec(var: Seq<char>) -> Seq<char> {
    "__ECLASS_"@ + var
}

/// The name of the variable holding the eclass total of `var`.
pub fn eclass_total_var(var: &str) -> (r: String)
    ensures
        r@ == eclass_total_var_spec(var@),
{
    let mut s = String::new();
    push_str(&mut s, "__ECLASS_");
    push_str(&mut s, var);
    s
}

/// A value saved before an eclass was sourced combined with what the eclass
/// set: the two joined by a space, or whichever is not empty.
pub open spec fn combine_spec(saved: Seq<char>, contribution: Seq<char>) -> Seq<char> {
    if saved.len() == 0 {
        contribution
    } else if contribution.len() == 0 {
        saved
    } else {
        saved + " "@ + contribution
    }
}

/// Combine a saved accumulating value with an eclass's contribution.
pub fn combine(saved: &str, contribution: &str) -> (r: String)
    ensures
        r@ == combine_spec(saved@, contribution@),
{
    if saved.is_empty() {
        contribution.to_owned()
    } else if contribution.is_empty() {
        saved.to_owned()
    } else {
        let mut s = String::new();
        push_str(&mut s, saved);
        push_str(&mut s, " ");
        push_str(&mut s, contribution);
        s
    }
}

// ───────────────────────────── INHERITED ────────────────────────────────────

/// A word list padded with one space on each side.
pub open spec fn padded(s: Seq<char>) -> Seq<char> {
    " "@ + s + " "@
}

/// Whether `eclass` is already one of the words of `INHERITED`.
pub open spec fn already_inherited_spec(inherited: Seq<char>, eclass: Seq<char>) -> bool {
    contains_spec(padded(inherited), padded(eclass))
}

/// `INHERITED` after `eclass` was sourced.
pub open spec fn append_inherited_spec(inherited: Seq<char>, eclass: Seq<char>) -> Seq<char> {
    if inherited.len() == 0 {
        eclass
    } else {
        inherited + " "@ + eclass
    }
}

/// The padded form of a string.
fn padded_of(s: &str) -> (r: String)
    ensures
        r@ == padded(s@),
{
    let mut p = String::new();
    push_str(&mut p, " ");
    push_str(&mut p, s);
    push_str(&mut p, " ");
    p
}

/// Whether `eclass` is a word of `inherited`.
pub fn already_inherited(inherited: &str, eclass: &str) -> (r: bool)
    ensures
        r == already_inherited_spec(inherited@, eclass@),
{
    let hay = padded_of(inherited);
    let needle = padded_of(eclass);
    contains(hay.as_str(), needle.as_str())
}

/// `INHERITED` with `eclass` appended.
pub fn append_inherited(inherited: &str, eclass: &str) -> (r: String)
    ensures
        r@ == append_inherited_spec(inherited@, eclass@),
{
    if inherited.is_empty() {
        eclass.to_owned()
    } else {
        let mut s = String::new();
        push_str(&mut s, inherited);
        push_str(&mut s, " ");
        push_str(&mut s, eclass);
        s
    }
}

/// Once an eclass is appended to `INHERITED` it counts as inherited, so a
/// second `inherit` of it within the same list is skipped.
pub proof fn lemma_appended_is_inherited(inherited: Seq<char>, eclass: Seq<char>)
    ensures
        already_inherited_spec(append_inherited_spec(inherited, eclass), eclass),
{
    reveal_strlit(" ");
    let hay = padded(append_inherited_spec(inherited, eclass));
    let needle = padded(eclass);
    if inherited.len() == 0 {
        assert(hay.subrange(0, needle.len() as int) =~= needle);
        assert(crate::text::occurs_at(hay, needle, 0));
    } else {
        let at: int = inherited.len() as int + 1;
        assert(hay.subrange(at, at + needle.len() as int) =~= needle);
        assert(crate::text::occurs_at(hay, needle, at));
    }
}

/// An eclass already inherited stays inherited when another is appended
/// (for a non-empty eclass name: the empty name is found in an empty
/// `INHERITED` but not after `x` is appended).
pub proof fn lemma_inherited_stays(inherited: Seq<char>, other: Seq<char>, eclass: Seq<char>)
    requires
        eclass.len() > 0,
        already_inherited_spec(inherited, eclass),
    ensures
        already_inherited_spec(append_inherited_spec(inherited, other), eclass),
{
    reveal_strlit(" ");
    let hay = padded(inherited);
    let needle = padded(eclass);
    let i = choose|i: int| crate::text::occurs_at(hay, needle, i);
    let big = padded(append_inherited_spec(inherited, other));
    assert(inherited.len() > 0);
    assert(big.subrange(0, hay.len() as int) =~= hay);
    assert(big.subrange(i, i + needle.len() as int) =~= hay.subrange(i, i + needle.len() as int));
    assert(crate::text::occurs_at(big, needle, i));
}

// ───────────────────────────── the inherit loop ─────────────────────────────

/// A number read from an optional variable, `0` when unset or unparsable.
pub open spec fn opt_number(v: Option<Seq<char>>) -> u32 {
    match v {
        Some(s) => eapi_number(s),
        None => 0,
    }
}

/// The first position at or after `pos` whose eclass is not yet inherited,
/// or the length of the list when there is none.
pub open spec fn next_index(eclasses: Seq<Seq<char>>, pos: int, inherited: Seq<char>) -> int
    decreases eclasses.len() - pos,
{
    if pos >= eclasses.len() || pos < 0 {
        eclasses.len() as int
    } else if !already_inherited_spec(inherited, eclasses[pos]) {
        pos
    } else {
        next_index(eclasses, pos + 1, inherited)
    }
}

/// `next_index` lies between `pos` and the length, and every eclass it
/// passes over is already inherited.
pub proof fn lemma_next_index(eclasses: Seq<Seq<char>>, pos: int, inherited: Seq<char>)
    requires
        0 <= pos <= eclasses.len(),
    ensures
        pos <= next_index(eclasses, pos, inherited) <= eclasses.len(),
        forall|k: int|
            pos <= k < next_index(eclasses, pos, inherited) ==> already_inherited_spec(
                inherited,
                #[trigger] eclasses[k],
            ),
        next_index(eclasses, pos, inherited) < eclasses.len() ==> !already_inherited_spec(
            inherited,
            eclasses[next_index(eclasses, pos, inherited)],
        ),
    decreases eclasses.len() - pos,
{
    if pos < eclasses.len() && already_inherited_spec(inherited, eclasses[pos]) {
        lemma_next_index(eclasses, pos + 1, inherited);
    }
}

/// One run of `inherit eclass...`: the eclasses still to consider, the
/// `INHERITED` value read when the run began and grown as eclasses are
/// sourced, and the nesting depth of this run.
pub struct InheritRun {
    eclasses: Vec<String>,
    pos: usize,
    inherited: String,
    depth: u32,
}

/// The state of a run as plain values.
pub struct InheritModel {
    pub eclasses: Seq<Seq<char>>,
    pub pos: int,
    pub inherited: Seq<char>,
    pub depth: u32,
}

impl View for InheritRun {
    type V = InheritModel;

    closed spec fn view(&self) -> InheritModel {
        InheritModel {
            eclasses: strings_view(self.eclasses@),
            pos: self.pos as int,
            inherited: self.inherited@,
            depth: self.depth,
        }
    }
}

impl InheritRun {
    /// The position never passes the end of the list.
    pub closed spec fn wf(&self) -> bool {
        self.pos <= self.eclasses@.len()
    }

    /// Begin a run: `__INHERIT_DEPTH` (unset or unparsable reads as `0`)
    /// goes one deeper, and `INHERITED` (unset reads as empty) is read once.
    pub fn start(depth_var: Option<&str>, inherited: Option<&str>, eclasses: Vec<String>) -> (r: Self)
        requires
            opt_number(crate::util::opt_view(depth_var)) < u32::MAX,
        ensures
            r.wf(),
            r@.eclasses == strings_view(eclasses@),
            r@.pos == 0,
            r@.inherited == (match crate::util::opt_view(inherited) {
                Some(s) => s,
                None => seq![],
            }),
            r@.depth == opt_number(crate::util::opt_view(depth_var)) + 1,
    {
        let d = match depth_var {
            Some(s) => crate::pms::eapi_number_of(s),
            None => 0,
        };
        let inh = match inherited {
            Some(s) => s.to_owned(),
            None => String::new(),
        };
        InheritRun { eclasses, pos: 0, inherited: inh, depth: d + 1 }
    }

    /// The value `__INHERIT_DEPTH` has while this run sources eclasses.
    pub fn depth(&self) -> (r: u32)
        ensures
            r == self@.depth,
    {
        self.depth
    }

    /// The current value of `INHERITED`.
    pub fn inherited(&self) -> (r: &str)
        ensures
            r@ == self@.inherited,
    {
        self.inherited.as_str()
    }

    /// The next eclass to source: the first one left that is not yet in
    /// `INHERITED`, which it is appended to; `None` when the list is done.
    pub fn next_eclass(&mut self) -> (r: Option<String>)
        requires
            old(self).wf(),
        ensures
            final(self).wf(),
            final(self)@.eclasses == old(self)@.eclasses,
            final(self)@.depth == old(self)@.depth,
            ({
                let j = next_index(old(self)@.eclasses, old(self)@.pos, old(self)@.inherited);
                if j < old(self)@.eclasses.len() {
                    &&& r matches Some(e) && e@ == old(self)@.eclasses[j]
                    &&& final(self)@.pos == j + 1
                    &&& final(self)@.inherited == append_inherited_spec(
                        old(self)@.inherited,
                        old(self)@.eclasses[j],
                    )
                } else {
                    &&& r is None
                    &&& final(self)@.pos == old(self)@.eclasses.len()
                    &&& final(self)@.inherited == old(self)@.inherited
                }
            }),
    {
        let ghost es = strings_view(self.eclasses@);
        let ghost inh0 = self.inherited@;
        let ghost p0 = self.pos as int;
        while self.pos < self.eclasses.len()
            invariant
                self.pos <= self.eclasses@.len(),
                es == old(self)@.eclasses,
                inh0 == old(self)@.inherited,
                p0 == old(self)@.pos,
                self.depth == old(self)@.depth,
                strings_view(self.eclasses@) == es,
                self.inherited@ == inh0,
                p0 <= self.pos,
                0 <= p0 <= es.len(),
                next_index(es, p0, inh0) == next_index(es, self.pos as int, inh0),
            decreases self.eclasses@.len() - self.pos,
        {
            let i = self.pos;
            assert(es[i as int] == self.eclasses@[i as int]@);
            if !already_inherited(self.inherited.as_str(), self.eclasses[i].as_str()) {
                let e = string_of(chars_of(self.eclasses[i].as_str()).as_slice());
                let inh = append_inherited(self.inherited.as_str(), e.as_str());
                self.inherited = inh;
                self.pos = i + 1;
                return Some(e);
            }
            self.pos = i + 1;
        }
        None
    }

    /// End the run: the depth `__INHERIT_DEPTH` returns to, and whether this
    /// was the outermost run, whose accumulated values move to their
    /// `__ECLASS_*` variables.
    pub fn finish(&self) -> (r: (u32, bool))
        requires
            self@.depth >= 1,
        ensures
            r.0 == self@.depth - 1,
            r.1 == (self@.depth == 1),
    {
        let d = self.depth - 1;
        (d, d == 0)
    }
}

// ───────────────────────────── eclass files ─────────────────────────────────

/// The files an eclass is looked for in, in order: `name.eclass` under each
/// directory of the `:`-separated list; none when the list is unset.
pub open spec fn eclass_candidates_spec(dirs: Option<Seq<char>>, name: Seq<char>) -> Seq<Seq<char>> {
    match dirs {
        Some(d) => pieces(d, ':').map_values(|dir: Seq<char>| join_path(dir, name + ".eclass"@)),
        None => seq![],
    }
}

/// The candidate files for an eclass, given `__PORTAGE_ECLASS_DIRS`.
pub fn eclass_candidates(dirs: Option<&str>, name: &str) -> (r: Vec<String>)
    ensures
        strings_view(r@) == eclass_candidates_spec(crate::util::opt_view(dirs), name@),
{
    let mut out: Vec<String> = Vec::new();
    match dirs {
        None => {
            assert(strings_view(out@) =~= eclass_candidates_spec(crate::util::opt_view(dirs), name@));
        },
        Some(d) => {
            let mut file = String::new();
            push_str(&mut file, name);
            push_str(&mut file, ".eclass");
            let dv = chars_of(d);
            let parts = split_char(dv.as_slice(), ':');
            let ghost want = pieces(d@, ':').map_values(|dir: Seq<char>| join_path(dir, name@ + ".eclass"@));
            let mut i: usize = 0;
            while i < parts.len()
                invariant
                    crate::util::opt_view(dirs) == Some(d@),
                    dv@ == d@,
                    file@ == name@ + ".eclass"@,
                    want == pieces(d@, ':').map_values(|dir: Seq<char>| join_path(dir, name@ + ".eclass"@)),
                    i <= parts@.len(),
                    parts@.len() == pieces(d@, ':').len(),
                    forall|k: int| 0 <= k < parts@.len() ==> #[trigger] parts@[k]@ == pieces(d@, ':')[k],
                    strings_view(out@) == want.take(i as int),
                decreases parts@.len() - i,
            {
                let dir = string_of(parts[i].as_slice());
                let f = join(dir.as_str(), file.as_str());
                let ghost pre = out@;
                assert(parts@[i as int]@ == pieces(d@, ':')[i as int]);
                out.push(f);
                proof {
                    assert(strings_view(out@) =~= strings_view(pre).push(want[i as int]));
                    assert(want.take(i + 1) =~= want.take(i as int).push(want[i as int]));
                }
                i += 1;
            }
            assert(want.take(i as int) =~= want);
        },
    }
    out
}

/// The value of `__PORTAGE_ECLASS_DIRS` for a list of directories: the
/// directories joined with `:`.
pub fn eclass_dirs_value(dirs: &Vec<String>) -> (r: String)
    ensures
        r@ == join_with(strings_view(dirs@), ':'),
{
    crate::text::join_strings(dirs, ':')
}

/// Looking an eclass up through `__PORTAGE_ECLASS_DIRS` searches exactly
/// the directories the value was made from, in the same order, when there is
/// at least one and none holds a `:`.
pub proof fn lemma_eclass_dirs_round_trip(dirs: Seq<Seq<char>>, name: Seq<char>)
    requires
        dirs.len() > 0,
        forall|i: int| 0 <= i < dirs.len() ==> !(#[trigger] dirs[i]).contains(':'),
    ensures
        eclass_candidates_spec(Some(join_with(dirs, ':')), name) == dirs.map_values(
            |dir: Seq<char>| join_path(dir, name + ".eclass"@),
        ),
{
    crate::text::lemma_split_join(dirs, ':');
}

} // verus!
