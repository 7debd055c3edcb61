//! Command-line value parsing.

use vstd::prelude::*;
use crate::writer::EditKind;

verus! {

/// True when `c` is an ASCII decimal digit.
pub open spec fn is_decimal_digit(c: char) -> bool {
    '0' <= c && c <= '9'
}

/// The value of an ASCII decimal digit.
pub open spec fn digit_value(c: char) -> nat {
    (c as int - '0' as int) as nat
}

/// The number written by a sequence of decimal digits, most significant first.
pub open spec fn decimal_value(digits: Seq<char>) -> nat
    decreases digits.len(),
{
    if digits.len() == 0 {
        0
    } else {
        decimal_value(digits.drop_last()) * 10 + digit_value(digits.last())
    }
}

/// The digits of an unsigned integer literal: the text without its optional leading `+`.
pub open spec fn unsigned_digits(s: Seq<char>) -> Seq<char> {
    if s.len() > 0 && s[0] == '+' {
        s.drop_first()
    } else {
        s
    }
}

/// Text that `usize::from_str` accepts: an optional `+` followed by at least one
/// ASCII digit and nothing else, whose value fits in a `usize`.
pub open spec fn usize_text_valid(s: Seq<char>) -> bool {
    let d = unsigned_digits(s);
    &&& d.len() > 0
    &&& forall|i: int| 0 <= i < d.len() ==> is_decimal_digit(#[trigger] d[i])
    &&& decimal_value(d) <= usize::MAX
}

/// The value of text accepted by `usize_text_valid`.
pub open spec fn usize_text_value(s: Seq<char>) -> nat {
    decimal_value(unsigned_digits(s))
}

/// The message given when `-n` is zero.
pub open spec fn positive_message() -> Seq<char> {
    "-n expects a positive integer"@
}

/// The text of the `ParseIntError` that `usize::from_str` gives for `s`, rendered
/// with `to_string`.
pub uninterp spec fn usize_parse_error_text(s: Seq<char>) -> Seq<char>;

/// `usize::from_str` (std's `str::parse::<usize>`): per its documentation the text
/// must be an optional `+` followed by digits only, and the value must fit in the
/// type. The error comes back as its text.
#[verifier::external_body]
fn parse_usize(s: &str) -> (r: Result<usize, String>)
    ensures
        r is Ok <==> usize_text_valid(s@),
        r matches Ok(n) ==> n == usize_text_value(s@),
        r matches Err(m) ==> m@ == usize_parse_error_text(s@),
{
    s.parse::<usize>().map_err(|e| e.to_string())
}

/// Parses the argument of `-n`: a decimal integer that must not be zero.
pub fn parse_positive_usize(s: &str) -> (r: Result<usize, String>)
    ensures
        r is Ok <==> usize_text_valid(s@) && usize_text_value(s@) > 0,
        r matches Ok(n) ==> n == usize_text_value(s@),
        usize_text_valid(s@) && usize_text_value(s@) == 0 ==> (r matches Err(m)
            && m@ == positive_message()),
        !usize_text_valid(s@) ==> (r matches Err(m) && m@ == usize_parse_error_text(s@)),
{
    let n = parse_usize(s)?;
    if n == 0 {
        proof {
            reveal_strlit("-n expects a positive integer");
        }
        return Err("-n expects a positive integer".to_owned());
    }
    Ok(n)
}

/// What the program does: `-D` deletes everything, `-d` deletes, else rename.
pub fn edit_kind(delete: bool, delete_all: bool) -> (k: EditKind)
    ensures
        delete_all ==> k is DeleteAll,
        !delete_all && delete ==> k is Delete,
        !delete_all && !delete ==> k is Replace,
{
    if delete_all {
        EditKind::DeleteAll
    } else if delete {
        EditKind::Delete
    } else {
        EditKind::Replace
    }
}

/// Whether to color the preview: asked for, or not refused and the output is a
/// terminal.
pub fn use_color(color: bool, no_color: bool, stdout_is_terminal: bool) -> (b: bool)
    ensures
        b == (color || (!no_color && stdout_is_terminal)),
{
    color || (!no_color && stdout_is_terminal)
}

/// What the positional arguments ask for.
#[derive(Debug)]
pub enum Command {
    /// Rename with the given pattern and replacement.
    Rename { find: String, replace_with: String },
    /// Delete the paths (no pattern given).
    DeleteOnly,
    /// A pattern without a replacement.
    MissingReplacement,
    /// Neither a rename nor a deletion.
    MissingArguments,
}

/// Reads the positional arguments and the deletion flags.
pub fn command(
    find: Option<String>,
    replace_with: Option<String>,
    delete: bool,
    delete_all: bool,
) -> (c: Command)
    ensures
        (find, replace_with) matches (Some(f), Some(w)) ==> (c matches Command::Rename {
            find: cf,
            replace_with: cw,
        } && cf == f && cw == w),
        find is None && replace_with is None && (delete || delete_all) ==> c is DeleteOnly,
        find is Some && replace_with is None ==> c is MissingReplacement,
        find is None && (replace_with is Some || !(delete || delete_all)) ==> c is MissingArguments,
{
    match (find, replace_with) {
        (Some(find), Some(replace_with)) => Command::Rename { find, replace_with },
        (None, None) if delete || delete_all => Command::DeleteOnly,
        (Some(_), None) => Command::MissingReplacement,
        _ => Command::MissingArguments,
    }
}

} // verus!
