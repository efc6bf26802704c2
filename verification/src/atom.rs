//! Package names parsed by `portage_atom`, and the contracts this crate
//! relies on for its parsers.
use vstd::prelude::*;

verus! {

/// `portage_atom::Error`, the error of the atom parsers.
#[verifier::external_type_specification]
#[verifier::external_body]
pub struct ExAtomError(portage_atom::Error);

/// `portage_atom::Dep`, a parsed dependency atom; carried through opaquely.
#[verifier::external_type_specification]
#[verifier::external_body]
pub struct ExDep(portage_atom::Dep);

/// The text that `portage_atom::Dep::parse` followed by its `Display` makes of
/// a string, or `None` when the parser rejects the string.
pub uninterp spec fn dep_text(s: Seq<char>) -> Option<Seq<char>>;

/// Whether `portage_atom::Dep::parse` accepts a string.
pub open spec fn dep_parses(s: Seq<char>) -> bool {
    dep_text(s) is Some
}

/// A dependency atom: the parsed `portage_atom::Dep` together with its text
/// as the parser prints it back. Only [`parse_dep`] makes one.
#[derive(Debug)]
pub struct Atom {
    dep: portage_atom::Dep,
    text: String,
}

impl View for Atom {
    type V = Seq<char>;

    /// The atom's printed text.
    closed spec fn view(&self) -> Seq<char> {
        self.text@
    }
}

impl Atom {
    /// The parsed atom held with the text.
    pub closed spec fn spec_dep(&self) -> portage_atom::Dep {
        self.dep
    }

    /// The parsed atom, the one [`parse_dep`] made along with the text.
    pub fn dep(&self) -> (r: &portage_atom::Dep)
        ensures
            *r == self.spec_dep(),
    {
        &self.dep
    }

    /// The atom's printed text (e.g. `>=dev-lang/rust-1.75.0:0`).
    pub fn as_str(&self) -> (r: &str)
        ensures
            r@ == self@,
    {
        self.text.as_str()
    }
}

/// Calls `portage_atom::Dep::parse` and prints the parsed atom back with its
/// `Display`. Claims that it succeeds exactly where [`dep_text`] is `Some`,
/// and that the text kept is that value.
#[verifier::external_body]
pub(crate) fn parse_dep(s: &str) -> (r: Result<Atom, portage_atom::Error>)
    ensures
        match dep_text(s@) {
            Some(t) => r is Ok && r->Ok_0@ == t,
            None => r is Err,
        },
{
    match portage_atom::Dep::parse(s) {
        Ok(d) => {
            let text = d.to_string();
            Ok(Atom { dep: d, text })
        },
        Err(e) => Err(e),
    }
}

/// An unversioned package name, `category/package`.
#[derive(Debug, Clone, PartialEq, Eq)]
pub struct Cpn {
    /// The category (e.g. `dev-lang`).
    pub category: String,
    /// The package name (e.g. `rust`).
    pub package: String,
}

/// What `portage_atom::Cpn::parse` makes of a string: its category and
/// package, or `None` when it rejects the string.
pub uninterp spec fn cpn_split(s: Seq<char>) -> Option<(Seq<char>, Seq<char>)>;

/// Calls `portage_atom::Cpn::parse` and copies out the category and package
/// names. Claims that the result is the one named by [`cpn_split`].
#[verifier::external_body]
pub(crate) fn parse_cpn(s: &str) -> (r: Result<Cpn, portage_atom::Error>)
    ensures
        match cpn_split(s@) {
            Some((c, p)) => r is Ok && r->Ok_0.category@ == c && r->Ok_0.package@ == p,
            None => r is Err,
        },
{
    match portage_atom::Cpn::parse(s) {
        Ok(c) => Ok(Cpn { category: c.category.to_string(), package: c.package.to_string() }),
        Err(e) => Err(e),
    }
}

impl Cpn {
    /// A name from its two parts (not validated).
    pub fn new(category: &str, package: &str) -> (r: Cpn)
        ensures
            r.category@ == category@,
            r.package@ == package@,
    {
        Cpn { category: category.to_owned(), package: package.to_owned() }
    }

    /// `category/package`.
    pub fn to_string(&self) -> (r: String)
        ensures
            r@ == self.category@ + seq!['/'] + self.package@,
    {
        let mut s = crate::text::concat2(self.category.as_str(), "/");
        crate::text::push_str(&mut s, self.package.as_str());
        proof {
            reveal_strlit("/");
        }
        assert(s@ =~= self.category@ + seq!['/'] + self.package@);
        s
    }
}

} // verus!
