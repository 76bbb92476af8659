//! Navigation entries for the rendered link pages, and the template context
//! they become.

use vstd::prelude::*;

verus! {

/// One navigation entry: where it points and what it reads.
#[derive(Clone, Debug)]
pub struct Nav {
    pub href: String,
    pub text: String,
}

impl Nav {
    /// A navigation entry.
    pub fn new(href: String, text: String) -> (r: Nav)
        ensures
            r.href@ == href@,
            r.text@ == text@,
    {
        Nav { href, text }
    }
}

/// The template context of the link page: each entry's href put under the
/// playlist path, paired with its text, in order.
pub fn nav_entries(navs: &Vec<Nav>) -> (r: Vec<(String, String)>)
    ensures
        r@.len() == navs@.len(),
        forall|i: int|
            0 <= i < r@.len() ==> ((#[trigger] r@[i]).0@ == "playlist/"@ + navs@[i].href@
                && r@[i].1@ == navs@[i].text@),
{
    let len = navs.len();
    let mut r: Vec<(String, String)> = Vec::new();
    let mut i: usize = 0;
    while i < len
        invariant
            0 <= i <= len,
            len == navs@.len(),
            r@.len() == i,
            forall|j: int|
                0 <= j < i ==> ((#[trigger] r@[j]).0@ == "playlist/"@ + navs@[j].href@
                    && r@[j].1@ == navs@[j].text@),
        decreases len - i,
    {
        let mut href = String::from_str("playlist/");
        href.append(navs[i].href.as_str());
        r.push((href, navs[i].text.clone()));
        i = i + 1;
    }
    r
}

} // verus!
