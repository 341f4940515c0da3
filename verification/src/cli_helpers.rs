//! Small helpers for what is shown to the user.

use vstd::prelude::*;
use vstd::string::*;
use crate::objects::Mod;

verus! {

/// The upper-case form of a character, as `char::to_uppercase` yields it;
/// it may be several characters.
pub uninterp spec fn uppercase_of(c: char) -> Seq<char>;

/// Calls `char::to_uppercase` and collects what it yields; the result is
/// the text named by [`uppercase_of`].
#[verifier::external_body]
fn to_upper(c: char) -> (r: String)
    ensures
        r@ == uppercase_of(c),
{
    c.to_uppercase().collect::<String>()
}

/// A text with its first character in upper case.
pub open spec fn capitalized(s: Seq<char>) -> Seq<char> {
    if s.len() == 0 {
        s
    } else {
        uppercase_of(s[0]) + s.subrange(1, s.len() as int)
    }
}

/// Puts an upper-cased first character before the rest of a text.
pub fn with_first(upper: String, text: &str) -> (r: String)
    requires
        text@.len() > 0,
    ensures
        r@ == upper@ + text@.subrange(1, text@.len() as int),
{
    let n = text.unicode_len();
    let rest = text.substring_char(1, n);
    let mut out = upper;
    out.append(rest);
    out
}

/// Texts that can be shown with their first character in upper case.
pub trait Capitalizer {
    /// The text with its first character in upper case.
    fn capitalize(self) -> String;
}

impl Capitalizer for String {
    fn capitalize(self) -> (r: String)
        ensures
            r@ == capitalized(self@),
    {
        if self.as_str().unicode_len() == 0 {
            return self;
        }
        let first = self.as_str().get_char(0);
        with_first(to_upper(first), self.as_str())
    }
}

/// The lines that list the loaders of a mod, one line each.
pub open spec fn loader_lines(loaders: Seq<String>) -> Seq<char>
    decreases loaders.len(),
{
    if loaders.len() == 0 {
        Seq::empty()
    } else {
        loader_lines(loaders.drop_last()) + "\n\t  - "@ + loaders.last()@
    }
}

/// What is shown of the loaders of a mod.
pub open spec fn loaders_shown(loaders: Option<Vec<String>>) -> Seq<char> {
    match loaders {
        Some(l) => loader_lines(l@),
        None => "No information"@,
    }
}

/// What is shown of the loaders of a mod: one line for each, or a note
/// that nothing is known.
pub fn dump_mod_loaders(modification: &Mod) -> (r: String)
    ensures
        r@ == loaders_shown(modification.mod_loaders),
{
    match &modification.mod_loaders {
        Some(l) => {
            let mut out = String::new();
            let mut i: usize = 0;
            assert(l@.take(0) =~= Seq::<String>::empty());
            while i < l.len()
                invariant
                    i <= l.len(),
                    out@ == loader_lines(l@.take(i as int)),
                decreases l.len() - i,
            {
                proof {
                    assert(l@.take(i + 1).drop_last() =~= l@.take(i as int));
                }
                out.append("\n\t  - ");
                out.append(l[i].as_str());
                i = i + 1;
            }
            assert(l@.take(l@.len() as int) =~= l@);
            out
        },
        None => "No information".to_owned(),
    }
}

} // verus!
