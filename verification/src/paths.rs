//! Paths as text: the parts that `std::path` computes (file name, parent, join,
//! components), and the path under which an input line is renamed.

use vstd::prelude::*;
use vstd::string::StrSliceExecFns;

verus! {

/// The final component of `path` as `std::path::Path::file_name` gives it
/// (`None` when the path ends in `..`, is a root, or is empty).
pub uninterp spec fn std_file_name(path: Seq<char>) -> Option<Seq<char>>;

/// The path without its final component as `std::path::Path::parent` gives it
/// (`None` when the path is a root or empty).
pub uninterp spec fn std_parent(path: Seq<char>) -> Option<Seq<char>>;

/// The text views of a list of strings.
pub open spec fn texts(v: Seq<String>) -> Seq<Seq<char>> {
    v.map_values(|s: String| s@)
}

/// The text view of an optional string.
pub open spec fn opt_text(o: Option<String>) -> Option<Seq<char>> {
    match o {
        Some(s) => Some(s@),
        None => None,
    }
}

/// `std::path::Path::file_name`, converted back to text. The path comes from a
/// `&str`, so the conversion of the component to text loses nothing.
#[verifier::external_body]
pub(crate) fn file_name_of(path: &str) -> (r: Option<String>)
    ensures
        opt_text(r) == std_file_name(path@),
{
    std::path::Path::new(path).file_name().map(|f| f.to_string_lossy().into_owned())
}

/// `std::path::Path::parent`, converted back to text. The path comes from a
/// `&str`, so the conversion to text loses nothing.
#[verifier::external_body]
pub(crate) fn parent_of(path: &str) -> (r: Option<String>)
    ensures
        opt_text(r) == std_parent(path@),
{
    std::path::Path::new(path).parent().map(|p| p.to_string_lossy().into_owned())
}

/// True when the text ends with the separator `/`.
pub open spec fn ends_with_separator(s: Seq<char>) -> bool {
    s.len() > 0 && s.last() == '/'
}

/// The path that `std::path::Path::join` makes of `base` and `rel` (`base` with
/// `rel` pushed onto it), as text.
pub uninterp spec fn std_join(base: Seq<char>, rel: Seq<char>) -> Seq<char>;

/// The text of the path rebuilt from its components (`Path::components`
/// collected into a `PathBuf`): the spelling under which paths that compare
/// equal as `Path`s are kept as one key.
pub uninterp spec fn std_path_key(path: Seq<char>) -> Seq<char>;

/// `std::path::Path::join`, as text. The parts come from `&str`s, so the
/// conversion of the result back to text loses nothing.
#[verifier::external_body]
pub(crate) fn join_path(base: &str, rel: &str) -> (r: String)
    ensures
        r@ == std_join(base@, rel@),
{
    std::path::Path::new(base).join(rel).to_string_lossy().into_owned()
}

/// `std::path::Path::components` collected into a `PathBuf`, as text.
#[verifier::external_body]
pub(crate) fn path_key(path: &str) -> (r: String)
    ensures
        r@ == std_path_key(path@),
{
    std::path::Path::new(path).components().collect::<std::path::PathBuf>().to_string_lossy().into_owned()
}

/// The path with a separator pushed back on when `slash` holds (`push("")`,
/// which is what joining the empty path does).
pub open spec fn with_trailing_separator(p: Seq<char>, slash: bool) -> Seq<char> {
    if slash {
        std_join(p, Seq::empty())
    } else {
        p
    }
}

/// Whether the text ends with `/`.
pub fn has_trailing_separator(s: &str) -> (b: bool)
    ensures
        b == ends_with_separator(s@),
{
    let n = s.unicode_len();
    n > 0 && s.get_char(n - 1) == '/'
}

/// Pushes a separator back onto the path when `slash` holds.
pub fn add_trailing_separator(p: String, slash: bool) -> (r: String)
    ensures
        r@ == with_trailing_separator(p@, slash),
{
    if slash {
        proof {
            reveal_strlit("");
        }
        let nothing = "";
        assert(nothing@ =~= Seq::<char>::empty());
        join_path(p.as_str(), nothing)
    } else {
        p
    }
}

/// The key of an input line, given its file name and parent: the parent joined
/// with the file name, with the trailing `/` of the line kept.
pub open spec fn key_of_parts(
    line: Seq<char>,
    file_name: Option<Seq<char>>,
    parent: Option<Seq<char>>,
) -> Option<Seq<char>> {
    match (file_name, parent) {
        (Some(f), Some(d)) => Some(
            with_trailing_separator(std_join(d, f), ends_with_separator(line)),
        ),
        _ => None,
    }
}

/// A line has a key exactly when it has both a file name and a parent; the key
/// joins the parent with the file name and pushes the separator back exactly
/// when the line ends with one.
pub proof fn lemma_key_of_parts(
    line: Seq<char>,
    file_name: Option<Seq<char>>,
    parent: Option<Seq<char>>,
)
    ensures
        key_of_parts(line, file_name, parent) is Some <==> file_name is Some && parent is Some,
        file_name is Some && parent is Some && ends_with_separator(line) ==> key_of_parts(
            line,
            file_name,
            parent,
        ) == Some(std_join(std_join(parent->0, file_name->0), Seq::empty())),
        file_name is Some && parent is Some && !ends_with_separator(line) ==> key_of_parts(
            line,
            file_name,
            parent,
        ) == Some(std_join(parent->0, file_name->0)),
{
}

/// The key of an input line: `None` for a line without a file name or parent.
pub open spec fn input_key_spec(line: Seq<char>) -> Option<Seq<char>> {
    key_of_parts(line, std_file_name(line), std_parent(line))
}

/// Builds the key of `line` from its file name and parent, as computed by std.
pub fn key_from_parts(line: &str, file_name: Option<String>, parent: Option<String>) -> (r: Option<
    String,
>)
    ensures
        opt_text(r) == key_of_parts(line@, opt_text(file_name), opt_text(parent)),
{
    match (file_name, parent) {
        (Some(f), Some(d)) => {
            let key = join_path(d.as_str(), f.as_str());
            Some(add_trailing_separator(key, has_trailing_separator(line)))
        },
        _ => None,
    }
}

/// The key of an input line: the trailing separators are dropped by taking the
/// file name and parent apart, and a single one is put back when the line had one.
pub fn input_key(line: &str) -> (r: Option<String>)
    ensures
        opt_text(r) == input_key_spec(line@),
{
    let f = file_name_of(line);
    let d = parent_of(line);
    key_from_parts(line, f, d)
}

} // verus!
