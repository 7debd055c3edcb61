//! Renaming paths: the new path of each path under a find/replace rule.

use vstd::prelude::*;
use vstd::utf8::{decode_utf8, encode_utf8, valid_utf8};
use crate::path_map::{path_map_contents, path_map_insert, path_map_keys, path_map_new, PathMap};
use crate::paths::{
    add_trailing_separator, ends_with_separator, file_name_of, has_trailing_separator, join_path,
    opt_text, parent_of, path_key, std_file_name, std_join, std_parent, std_path_key, texts,
    with_trailing_separator,
};
use crate::replacer::Replacer;
use std::str::Utf8Error;

verus! {

/// Why a path could not be renamed.
#[derive(Debug)]
pub enum Error {
    /// The replaced file name is not valid UTF-8.
    ReplaceError(Utf8Error),
    /// The path has no file name or no parent.
    InvalidPath(String),
    /// The replaced file name is empty.
    EmptyFilename(String),
}

/// The text of the error.
pub open spec fn error_message(e: Error) -> Seq<char> {
    match e {
        Error::ReplaceError(_) => "Replace failed"@,
        Error::InvalidPath(p) => "invalid path: "@ + p@,
        Error::EmptyFilename(p) => "replacement produces empty filename for '"@ + p@ + "'"@,
    }
}

impl Error {
    /// The text of the error, as shown to the user.
    pub fn message(&self) -> (m: String)
        ensures
            m@ == error_message(*self),
    {
        match self {
            Error::ReplaceError(_) => "Replace failed".to_owned(),
            Error::InvalidPath(p) => {
                let mut m = "invalid path: ".to_owned();
                m.append(p.as_str());
                m
            },
            Error::EmptyFilename(p) => {
                let mut m = "replacement produces empty filename for '".to_owned();
                m.append(p.as_str());
                m.append("'");
                m
            },
        }
    }
}

/// What renaming a path comes to, as plain values.
pub enum PathOutcome {
    Renamed(Seq<char>),
    NotUtf8,
    InvalidPath(Seq<char>),
    EmptyFilename(Seq<char>),
}

/// The outcome that an error stands for.
pub open spec fn error_outcome(e: Error) -> PathOutcome {
    match e {
        Error::ReplaceError(_) => PathOutcome::NotUtf8,
        Error::InvalidPath(p) => PathOutcome::InvalidPath(p@),
        Error::EmptyFilename(p) => PathOutcome::EmptyFilename(p@),
    }
}

/// The outcome that a result stands for.
pub open spec fn result_outcome(r: Result<String, Error>) -> PathOutcome {
    match r {
        Ok(d) => PathOutcome::Renamed(d@),
        Err(e) => error_outcome(e),
    }
}

/// The new path, given the path, its replaced file name as bytes and its parent:
/// the bytes must be UTF-8 and not empty, the parent must exist; the new name is
/// joined to the parent and a trailing separator of the path is pushed back.
pub open spec fn outcome_of_parts(
    path: Seq<char>,
    replaced: Seq<u8>,
    parent: Option<Seq<char>>,
) -> PathOutcome {
    if !valid_utf8(replaced) {
        PathOutcome::NotUtf8
    } else if decode_utf8(replaced).len() == 0 {
        PathOutcome::EmptyFilename(path)
    } else {
        match parent {
            None => PathOutcome::InvalidPath(path),
            Some(d) => PathOutcome::Renamed(
                with_trailing_separator(std_join(d, decode_utf8(replaced)), ends_with_separator(path)),
            ),
        }
    }
}

/// What decides the new path of a path from its parts: a replaced name that is
/// not UTF-8 fails, an empty one fails with the path, a missing parent fails with
/// the path, and otherwise the name is joined to the parent, with the trailing
/// separator pushed back exactly when the path has one.
pub proof fn lemma_outcome_of_parts(
    path: Seq<char>,
    replaced: Seq<u8>,
    parent: Option<Seq<char>>,
)
    ensures
        outcome_of_parts(path, replaced, parent) is NotUtf8 <==> !valid_utf8(replaced),
        outcome_of_parts(path, replaced, parent) == PathOutcome::EmptyFilename(path) <==> valid_utf8(
            replaced,
        ) && decode_utf8(replaced).len() == 0,
        outcome_of_parts(path, replaced, parent) == PathOutcome::InvalidPath(path) <==> valid_utf8(
            replaced,
        ) && decode_utf8(replaced).len() > 0 && parent is None,
        valid_utf8(replaced) && decode_utf8(replaced).len() > 0 && parent is Some ==> {
            let joined = std_join(parent->0, decode_utf8(replaced));
            &&& ends_with_separator(path) ==> outcome_of_parts(path, replaced, parent)
                == PathOutcome::Renamed(std_join(joined, Seq::empty()))
            &&& !ends_with_separator(path) ==> outcome_of_parts(path, replaced, parent)
                == PathOutcome::Renamed(joined)
        },
{
}

/// The new path of `path` under the rule: its file name is replaced (as UTF-8
/// bytes) and put back in the same directory.
pub open spec fn rename_outcome(rep: Replacer, path: Seq<char>) -> PathOutcome {
    match std_file_name(path) {
        None => PathOutcome::InvalidPath(path),
        Some(f) => outcome_of_parts(path, rep.replaced(encode_utf8(f)), std_parent(path)),
    }
}

/// `std::str::from_utf8`, copied into a `String`: it succeeds exactly on UTF-8.
#[verifier::external_body]
fn utf8_text(bytes: &[u8]) -> (r: Result<String, Utf8Error>)
    ensures
        r is Ok <==> valid_utf8(bytes@),
        r matches Ok(s) ==> s@ == decode_utf8(bytes@),
{
    std::str::from_utf8(bytes).map(|s| s.to_owned())
}

/// The new path, given the replaced file name and the parent of the path.
pub fn destination_from_parts(path: &str, replaced: &[u8], parent: Option<String>) -> (r: Result<
    String,
    Error,
>)
    ensures
        result_outcome(r) == outcome_of_parts(path@, replaced@, opt_text(parent)),
{
    let name = match utf8_text(replaced) {
        Ok(s) => s,
        Err(e) => {
            return Err(Error::ReplaceError(e));
        },
    };
    if name.as_str().is_empty() {
        return Err(Error::EmptyFilename(path.to_owned()));
    }
    let dir = match parent {
        Some(d) => d,
        None => {
            return Err(Error::InvalidPath(path.to_owned()));
        },
    };
    let dst = join_path(dir.as_str(), name.as_str());
    Ok(add_trailing_separator(dst, has_trailing_separator(path)))
}

/// True when every path is renamed.
pub open spec fn all_renamed(rep: Replacer, paths: Seq<Seq<char>>) -> bool {
    forall|i: int| 0 <= i < paths.len() ==> rename_outcome(rep, #[trigger] paths[i]) is Renamed
}

/// The error is that of the first path that is not renamed.
pub open spec fn first_failure(rep: Replacer, paths: Seq<Seq<char>>, e: Error) -> bool {
    exists|i: int|
        0 <= i < paths.len() && all_renamed(rep, paths.take(i)) && error_outcome(e)
            == rename_outcome(rep, #[trigger] paths[i])
}

/// The new path of a path that is renamed.
pub open spec fn renamed_path(rep: Replacer, path: Seq<char>) -> Seq<char> {
    match rename_outcome(rep, path) {
        PathOutcome::Renamed(d) => d,
        _ => Seq::empty(),
    }
}

/// The map that inserting each path, in order, under its key with its new path
/// gives: paths that are equal as `Path`s share one key, which holds the new
/// path of the last of them.
pub open spec fn renames_map(rep: Replacer, paths: Seq<Seq<char>>) -> Map<Seq<char>, Seq<char>>
    decreases paths.len(),
{
    if paths.len() == 0 {
        Map::empty()
    } else {
        renames_map(rep, paths.drop_last()).insert(
            std_path_key(paths.last()),
            renamed_path(rep, paths.last()),
        )
    }
}

/// The keys of the paths, each once, in order of first occurrence.
pub open spec fn distinct_keys(paths: Seq<Seq<char>>) -> Seq<Seq<char>>
    decreases paths.len(),
{
    if paths.len() == 0 {
        Seq::empty()
    } else {
        let rest = distinct_keys(paths.drop_last());
        let k = std_path_key(paths.last());
        if rest.contains(k) {
            rest
        } else {
            rest.push(k)
        }
    }
}

/// Every path has an entry under its key.
pub proof fn lemma_renames_map_has_every_path(rep: Replacer, paths: Seq<Seq<char>>)
    ensures
        forall|i: int|
            0 <= i < paths.len() ==> renames_map(rep, paths).contains_key(
                std_path_key(#[trigger] paths[i]),
            ),
    decreases paths.len(),
{
    if paths.len() > 0 {
        lemma_renames_map_has_every_path(rep, paths.drop_last());
        assert forall|i: int| 0 <= i < paths.len() implies renames_map(rep, paths).contains_key(
            std_path_key(#[trigger] paths[i]),
        ) by {
            if i < paths.len() - 1 {
                assert(paths.drop_last()[i] == paths[i]);
            }
        }
    }
}

/// A path whose key no later path shares gets its own new path.
pub proof fn lemma_renames_map_entry(rep: Replacer, paths: Seq<Seq<char>>, i: int)
    requires
        0 <= i < paths.len(),
        forall|j: int| i < j < paths.len() ==> std_path_key(#[trigger] paths[j]) != std_path_key(paths[i]),
    ensures
        renames_map(rep, paths)[std_path_key(paths[i])] == renamed_path(rep, paths[i]),
    decreases paths.len(),
{
    if i < paths.len() - 1 {
        let rest = paths.drop_last();
        assert forall|j: int| i < j < rest.len() implies std_path_key(#[trigger] rest[j])
            != std_path_key(rest[i]) by {
            assert(rest[j] == paths[j]);
        }
        lemma_renames_map_entry(rep, rest, i);
        assert(std_path_key(paths[paths.len() - 1]) != std_path_key(paths[i]));
    }
}

/// The renaming of paths under a rule.
pub struct Edit<'a> {
    replacer: &'a Replacer,
}

impl<'a> Edit<'a> {
    /// The rule.
    pub closed spec fn rule(self) -> Replacer {
        *self.replacer
    }

    pub fn new(replacer: &'a Replacer) -> (e: Self)
        ensures
            e.rule() == *replacer,
    {
        Self { replacer }
    }

    /// The new path of every path, kept under the path's key in the order in
    /// which the keys first come, or the error of the first path that cannot be
    /// renamed.
    pub fn parse(self, paths: &[String]) -> (r: Result<PathMap, Error>)
        ensures
            r is Ok <==> all_renamed(self.rule(), texts(paths@)),
            r matches Ok(m) ==> path_map_contents(m) == renames_map(self.rule(), texts(paths@)),
            r matches Ok(m) ==> path_map_keys(m) == distinct_keys(texts(paths@)),
            r matches Err(e) ==> first_failure(self.rule(), texts(paths@), e),
    {
        let ghost ps = texts(paths@);
        let mut src_to_dst = path_map_new();
        let n = paths.len();
        for i in 0..n
            invariant
                n == paths@.len(),
                ps == texts(paths@),
                all_renamed(self.rule(), ps.take(i as int)),
                path_map_contents(src_to_dst) == renames_map(self.rule(), ps.take(i as int)),
                path_map_keys(src_to_dst) == distinct_keys(ps.take(i as int)),
                forall|k: Seq<char>|
                    path_map_contents(src_to_dst).contains_key(k) <==> path_map_keys(
                        src_to_dst,
                    ).contains(k),
        {
            let path = &paths[i];
            assert(ps[i as int] == path@);
            let dst = match self.replace_path(path.as_str()) {
                Ok(d) => d,
                Err(e) => {
                    return Err(e);
                },
            };
            let key = path_key(path.as_str());
            let ghost old_keys = path_map_keys(src_to_dst);
            let ghost old_contents = path_map_contents(src_to_dst);
            let ghost k0 = key@;
            path_map_insert(&mut src_to_dst, key, dst);
            assert(ps.take(i + 1).drop_last() == ps.take(i as int));
            assert(ps.take(i + 1).last() == ps[i as int]);
            assert forall|k: Seq<char>|
                path_map_contents(src_to_dst).contains_key(k) <==> path_map_keys(
                    src_to_dst,
                ).contains(k) by {
                let new_keys = path_map_keys(src_to_dst);
                if old_contents.contains_key(k0) {
                    assert(new_keys == old_keys);
                } else {
                    assert(new_keys == old_keys.push(k0));
                    assert(new_keys[old_keys.len() as int] == k0);
                    if old_keys.contains(k) {
                        let w = choose|w: int| 0 <= w < old_keys.len() && old_keys[w] == k;
                        assert(new_keys[w] == k);
                    }
                    if new_keys.contains(k) && k != k0 {
                        let w = choose|w: int| 0 <= w < new_keys.len() && new_keys[w] == k;
                        assert(old_keys[w] == k);
                    }
                }
            }
            assert(ps.take(i + 1) == ps.take(i as int).push(ps[i as int]));
        }
        assert(ps.take(n as int) == ps);
        Ok(src_to_dst)
    }

    /// The new path of `path`: its file name goes through the rule and is put back
    /// in the directory of the path; a trailing `/` is kept.
    pub fn replace_path(&self, path: &str) -> (r: Result<String, Error>)
        ensures
            result_outcome(r) == rename_outcome(self.rule(), path@),
    {
        let filename = match file_name_of(path) {
            Some(f) => f,
            None => {
                return Err(Error::InvalidPath(path.to_owned()));
            },
        };
        let replaced = self.replacer.replace(filename.as_str().as_bytes());
        let parent = parent_of(path);
        destination_from_parts(path, replaced.as_slice(), parent)
    }
}

} // verus!
