//! What is computed for the terminal: file names with their extension,
//! summaries cut to the terminal's width, and the reading of a choice.

use vstd::prelude::*;
use vstd::string::*;
use vstd::utf8::{decode_utf8, encode_utf8, encode_utf8_decode_utf8, is_char_boundary};

verus! {

/// Calls `Path::extension` and hands the extension out as text. What
/// counts as an extension depends on the platform's path syntax, so nothing
/// is claimed of the answer.
#[verifier::external_body]
fn extension_of(src: &str) -> (r: Option<String>) {
    std::path::Path::new(src).extension().map(|e| e.to_string_lossy().into_owned())
}

/// The name of a pack's description file: the name itself where it has an
/// extension, and else the name with `.yaml` behind it.
pub open spec fn yaml_name(src: Seq<char>, has_ext: bool) -> Seq<char> {
    if has_ext {
        src
    } else {
        src + ".yaml"@
    }
}

/// The name of a pack's description file, given whether `src` has an
/// extension.
pub fn with_yaml_ext(src: &str, has_ext: bool) -> (r: String)
    ensures
        r@ == yaml_name(src@, has_ext),
{
    let mut out = src.to_owned();
    if !has_ext {
        out.append(".yaml");
    }
    out
}

/// The name of a pack's description file: `src`, with `.yaml` behind it
/// unless the platform finds an extension in it.
pub fn to_yaml_ext(src: &str) -> (r: String)
    ensures
        r@ == src@ || r@ == src@ + ".yaml"@,
{
    let extension = extension_of(src);
    with_yaml_ext(src, extension.is_some())
}

/// A summary as it is shown in a terminal of `cols` columns. One of up to
/// `cols + 13` bytes is shown whole. A longer one is cut after `cols - 17`
/// bytes and marked with three dots; where that is no place to cut, because
/// the terminal is too narrow or the place is inside a character, nothing
/// can be shown.
pub open spec fn shortened(summary: Seq<char>, cols: int) -> Option<Seq<char>> {
    let bytes = encode_utf8(summary);
    if bytes.len() <= cols + 13 {
        Some(summary)
    } else if cols >= 17 && is_char_boundary(bytes, cols - 17) {
        Some(decode_utf8(bytes.subrange(0, cols - 17)) + "..."@)
    } else {
        None
    }
}

/// Cuts a summary to a terminal of `cols` columns; `None` where it is too
/// long to show whole and cannot be cut.
pub fn shorten(summary: &str, cols: u16) -> (r: Option<String>)
    ensures
        match r {
            Some(s) => shortened(summary@, cols as int) == Some(s@),
            None => shortened(summary@, cols as int) is None,
        },
{
    let width: usize = cols as usize;
    let length: usize = summary.as_bytes().len();
    assert(summary.spec_bytes() == encode_utf8(summary@));
    if length <= width + 13 {
        return Some(summary.to_owned());
    }
    if width < 17 {
        return None;
    }
    let cut: usize = width - 17;
    if !summary.is_char_boundary(cut) {
        return None;
    }
    let (head, _) = summary.split_at(cut);
    proof {
        encode_utf8_decode_utf8(head@);
        assert(head.spec_bytes() == encode_utf8(head@));
    }
    let mut out = head.to_owned();
    out.append("...");
    Some(out)
}

/// A line of `n` dashes.
pub open spec fn dashes(n: nat) -> Seq<char> {
    Seq::new(n, |i: int| '-')
}

/// The rule drawn above a mod in a terminal of `cols` columns: one dash
/// less than there are columns. A terminal without columns has none.
pub fn separator(cols: u16) -> (r: Option<String>)
    ensures
        match r {
            Some(s) => cols > 0 && s@ == dashes((cols - 1) as nat),
            None => cols == 0,
        },
{
    if cols == 0 {
        return None;
    }
    let n: u16 = cols - 1;
    let mut out = String::new();
    let mut i: u16 = 0;
    assert(out@ =~= dashes(0));
    proof {
        reveal_strlit("-");
    }
    while i < n
        invariant
            i <= n,
            out@ == dashes(i as nat),
            "-"@ == seq!['-'],
        decreases n - i,
    {
        out.append("-");
        i = i + 1;
        assert(out@ =~= dashes(i as nat));
    }
    Some(out)
}

/// The value of a decimal digit; `None` for any other character.
pub open spec fn digit_value(c: char) -> Option<int> {
    if '0' <= c <= '9' {
        Some(c as int - '0' as int)
    } else {
        None
    }
}

/// The number that a text of decimal digits writes; `None` where the text
/// is empty or holds another character.
pub open spec fn digits_value(s: Seq<char>) -> Option<int>
    decreases s.len(),
{
    if s.len() == 0 {
        None
    } else if s.len() == 1 {
        digit_value(s[0])
    } else {
        match (digits_value(s.drop_last()), digit_value(s.last())) {
            (Some(front), Some(last)) => Some(front * 10 + last),
            _ => None,
        }
    }
}

/// The number that a line of input stands for: an optional `+` or `-`
/// followed by decimal digits only, whose value an `i32` can hold. Any other
/// line, one with blanks among them, stands for none.
pub open spec fn parsed_i32(line: Seq<char>) -> Option<i32> {
    let negative = line.len() > 0 && line[0] == '-';
    let signed = line.len() > 0 && (line[0] == '-' || line[0] == '+');
    let body = if signed {
        line.subrange(1, line.len() as int)
    } else {
        line
    };
    match digits_value(body) {
        Some(v) => {
            let n = if negative {
                -v
            } else {
                v
            };
            if i32::MIN <= n <= i32::MAX {
                Some(n as i32)
            } else {
                None
            }
        },
        None => None,
    }
}

/// Calls `str::parse::<i32>`, which reads an optional sign followed by
/// decimal digits and fails on anything else, and on a number that an `i32`
/// cannot hold.
#[verifier::external_body]
fn parse_number(line: &str) -> (r: Option<i32>)
    ensures
        r == parsed_i32(line@),
{
    line.parse::<i32>().ok()
}

/// The choice that a number stands for among `choices` choices, which
/// are numbered from one: its position, counted from zero.
pub open spec fn selection(number: Option<i32>, choices: nat) -> Option<usize> {
    match number {
        Some(n) => if 1 <= n <= choices {
            Some((n - 1) as usize)
        } else {
            None
        },
        None => None,
    }
}

/// The position of the choice that a number stands for, if it stands for
/// one.
pub fn selected(number: Option<i32>, choices: usize) -> (r: Option<usize>)
    ensures
        r == selection(number, choices as nat),
{
    match number {
        Some(n) => {
            if n >= 1 && ((n - 1) as usize) < choices {
                Some((n - 1) as usize)
            } else {
                None
            }
        },
        None => None,
    }
}

/// The position of the choice that a line of input stands for, if it
/// stands for one; the caller asks again where it does not.
pub fn choice(line: &str, choices: usize) -> (r: Option<usize>)
    ensures
        r == selection(parsed_i32(line@), choices as nat),
{
    selected(parse_number(line), choices)
}

} // verus!
