//! `metadata/layout.conf`.
use vstd::prelude::*;

use crate::text::{chars_of, eq_str, split_once, split_once_spec, split_words, string_of, trim, trim_chars, words};
use crate::util::{file_line_chars, file_lines, opt_view, strings_view};

verus! {

/// The parsed `metadata/layout.conf`.
#[derive(Debug, Clone)]
pub struct LayoutConf {
    /// The master repositories, in the order listed.
    pub masters: Vec<String>,
}

/// A `key = value` line, both sides trimmed.
pub open spec fn key_value(line: Seq<char>) -> Option<(Seq<char>, Seq<char>)> {
    match split_once_spec(line, "="@) {
        Some((k, v)) => Some((trim(k), trim(v))),
        None => None,
    }
}

/// The masters named by the last `masters = ...` line, or none.
pub open spec fn layout_masters(ls: Seq<Seq<char>>) -> Seq<Seq<char>>
    decreases ls.len(),
{
    if ls.len() == 0 {
        seq![]
    } else {
        match key_value(ls.last()) {
            Some((k, v)) => if k == "masters"@ {
                words(v, true)
            } else {
                layout_masters(ls.drop_last())
            },
            None => layout_masters(ls.drop_last()),
        }
    }
}

impl LayoutConf {
    /// Parse the text of `metadata/layout.conf`: `key = value` lines, of which
    /// `masters` lists the master repositories.
    pub fn parse(text: &str) -> (r: LayoutConf)
        ensures
            strings_view(r.masters@) == layout_masters(file_lines(Some(text@))),
    {
        let ls = file_line_chars(Some(text));
        let ghost fl = file_lines(Some(text@));
        assert(opt_view(Some(text)) == Some(text@));
        let eq = chars_of("=");
        proof {
            reveal_strlit("=");
        }
        let mut masters: Vec<String> = Vec::new();
        let mut i: usize = 0;
        while i < ls.len()
            invariant
                i <= ls@.len(),
                eq@ == "="@,
                eq@.len() == 1,
                Seq::new(ls@.len(), |k: int| ls@[k]@) == fl,
                strings_view(masters@) == layout_masters(fl.take(i as int)),
            decreases ls@.len() - i,
        {
            assert(fl.take(i + 1).drop_last() =~= fl.take(i as int));
            assert(fl.take(i + 1).last() == ls@[i as int]@);
            match split_once(ls[i].as_slice(), eq.as_slice()) {
                Some((k, v)) => {
                    let key = trim_chars(k.as_slice());
                    if eq_str(key.as_slice(), "masters") {
                        let value = trim_chars(v.as_slice());
                        let ws = split_words(value.as_slice(), true);
                        let mut m: Vec<String> = Vec::new();
                        let mut j: usize = 0;
                        while j < ws.len()
                            invariant
                                j <= ws@.len(),
                                m@.len() == j,
                                forall|q: int| 0 <= q < j ==> #[trigger] m@[q]@ == ws@[q]@,
                            decreases ws@.len() - j,
                        {
                            m.push(string_of(ws[j].as_slice()));
                            j += 1;
                        }
                        assert(strings_view(m@) =~= words(value@, true));
                        masters = m;
                    }
                },
                None => {},
            }
            i += 1;
        }
        assert(fl.take(i as int) =~= fl);
        LayoutConf { masters }
    }
}

} // verus!
