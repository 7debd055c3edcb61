//! What is done with the renames: a diff preview of the path list, and the
//! list of filesystem operations to carry out.

use vstd::prelude::*;
use crate::error::{io_error_text, utf8_error_text};
use crate::path_map::{path_map_contents, path_map_get, PathMap};
use crate::paths::{ends_with_separator, path_key, std_path_key, texts};
use std::str::Utf8Error;

verus! {

/// What the program does to each path.
#[derive(Debug, Clone, Copy, PartialEq, Eq, Structural)]
pub enum EditKind {
    Replace,
    Delete,
    DeleteAll,
}

/// Why writing failed.
#[derive(Debug)]
pub enum Error {
    /// A filesystem operation failed.
    File(std::io::Error),
    /// Text was not UTF-8.
    String(Utf8Error),
    /// A rename was asked for without the map of new paths.
    MissingMapping,
    /// Some of the operations failed.
    PartialFailure,
}

/// The text of a writer error, where it does not depend on a carried std error.
pub open spec fn writer_error_message(e: Error) -> Option<Seq<char>> {
    match e {
        Error::MissingMapping => Some(
            "missing source to destination mapping for replace operation"@,
        ),
        Error::PartialFailure => Some("some operations failed"@),
        _ => None,
    }
}

impl Error {
    /// The text of the error, as shown to the user; a carried std error is shown
    /// as its own text.
    pub fn message(&self) -> (m: String)
        ensures
            writer_error_message(*self) matches Some(t) ==> m@ == t,
    {
        match self {
            Error::File(e) => io_error_text(e),
            Error::String(e) => utf8_error_text(e),
            Error::MissingMapping => {
                "missing source to destination mapping for replace operation".to_owned()
            },
            Error::PartialFailure => "some operations failed".to_owned(),
        }
    }
}

/// One filesystem operation, for the path at the same position.
#[derive(Debug)]
pub enum WriteOp {
    /// The path keeps its name.
    Keep,
    /// The path is removed; with `recursive`, a directory with all it holds.
    Remove { recursive: bool },
    /// The path is moved to `to`, when `to` does not exist yet and the path does.
    Rename { to: String },
}

/// Whether a move may be done, from what the filesystem says of its two ends.
#[derive(Debug, Clone, Copy, PartialEq, Eq, Structural)]
pub enum MoveCheck {
    /// The source exists and the destination does not.
    Clear,
    /// The source is neither a file nor a directory.
    SourceMissing,
    /// The destination is already a file or a directory.
    DestinationExists,
}

/// The check of a move: the source must be a file or a directory, and the
/// destination must be neither.
pub open spec fn move_check(
    src_is_file: bool,
    src_is_dir: bool,
    dst_is_file: bool,
    dst_is_dir: bool,
) -> MoveCheck {
    if !(src_is_file || src_is_dir) {
        MoveCheck::SourceMissing
    } else if dst_is_file || dst_is_dir {
        MoveCheck::DestinationExists
    } else {
        MoveCheck::Clear
    }
}

/// The text of a list of paths is each path followed by a newline, in order (an
/// empty list gives a single newline).
pub proof fn lemma_lines_text(ps: Seq<Seq<char>>, p: Seq<char>)
    ensures
        lines_text(Seq::empty()) == seq!['\n'],
        lines_text(seq![p]) == p + seq!['\n'],
        ps.len() > 0 ==> lines_text(ps.push(p)) == lines_text(ps) + p + seq!['\n'],
{
    assert(seq![p].len() == 1);
    if ps.len() > 0 {
        assert(ps.push(p).drop_last() == ps);
        assert(ps.push(p).last() == p);
        assert(lines_text(ps.push(p)) =~= lines_text(ps) + p + seq!['\n']);
    }
    assert(lines_text(seq![p]) =~= p + seq!['\n']);
}

/// A deletion removes every path, recursively for `-D` only, and never moves.
pub proof fn lemma_deletion_ops(
    op: WriteOp,
    p: Seq<char>,
    mapping: Option<Map<Seq<char>, Seq<char>>>,
)
    ensures
        op_is(op, EditKind::Delete, p, mapping) <==> (op == (WriteOp::Remove { recursive: false })),
        op_is(op, EditKind::DeleteAll, p, mapping) <==> (op == (WriteOp::Remove { recursive: true })),
{
}

/// In the preview a path keeps its own name unless its move is clear and goes
/// to another path, and then it shows its new path.
pub proof fn lemma_preview_targets(
    paths: Seq<Seq<char>>,
    m: Map<Seq<char>, Seq<char>>,
    clear: Seq<bool>,
    i: int,
)
    requires
        0 <= i < paths.len(),
    ensures
        preview_targets(paths, m, clear).len() == paths.len(),
        !clear[i] ==> preview_targets(paths, m, clear)[i] == paths[i],
        std_path_key(m[std_path_key(paths[i])]) == std_path_key(paths[i])
            ==> preview_targets(paths, m, clear)[i] == paths[i],
        clear[i] && std_path_key(m[std_path_key(paths[i])]) != std_path_key(paths[i])
            ==> preview_targets(paths, m, clear)[i] == m[std_path_key(paths[i])],
{
}

/// The check of a move says exactly what the filesystem shows: clear when the
/// source is a file or a directory and the destination is neither, the missing
/// source when the source is neither, and the taken destination otherwise.
pub proof fn lemma_check_decides(
    src_is_file: bool,
    src_is_dir: bool,
    dst_is_file: bool,
    dst_is_dir: bool,
)
    ensures
        move_check(src_is_file, src_is_dir, dst_is_file, dst_is_dir) is Clear <==> (src_is_file
            || src_is_dir) && !dst_is_file && !dst_is_dir,
        move_check(src_is_file, src_is_dir, dst_is_file, dst_is_dir) is SourceMissing <==> !src_is_file
            && !src_is_dir,
        move_check(src_is_file, src_is_dir, dst_is_file, dst_is_dir) is DestinationExists <==> (
        src_is_file || src_is_dir) && (dst_is_file || dst_is_dir),
{
}

/// Both deletions preview the same way, whatever the map and the checks: the
/// patch from the list of paths to the empty text, every path removed.
pub proof fn lemma_deletion_preview(
    paths: Seq<Seq<char>>,
    mapping: Option<Map<Seq<char>, Seq<char>>>,
    clear: Seq<bool>,
    other_mapping: Option<Map<Seq<char>, Seq<char>>>,
    other_clear: Seq<bool>,
    color: bool,
)
    ensures
        preview_spec(paths, mapping, EditKind::Delete, clear, color) == Some(
            patch_text(lines_text(paths), Seq::<char>::empty(), color),
        ),
        preview_spec(paths, mapping, EditKind::DeleteAll, clear, color) == preview_spec(
            paths,
            other_mapping,
            EditKind::Delete,
            other_clear,
            color,
        ),
{
}

/// Writing moves a path only to its new path, only when that is another path,
/// only when the path exists, and never onto an existing file or directory.
pub proof fn lemma_moves_only_into_free_destinations(
    p: Seq<char>,
    m: Map<Seq<char>, Seq<char>>,
    op: WriteOp,
    src_is_file: bool,
    src_is_dir: bool,
    dst_is_file: bool,
    dst_is_dir: bool,
)
    requires
        op_is(op, EditKind::Replace, p, Some(m)),
        op is Rename,
        move_check(src_is_file, src_is_dir, dst_is_file, dst_is_dir) is Clear,
    ensures
        !same_path(p, destination(m, p)),
        op matches WriteOp::Rename { to } && to@ == destination(m, p),
        src_is_file || src_is_dir,
        !dst_is_file && !dst_is_dir,
{
}

/// How a path is removed.
#[derive(Debug, Clone, Copy, PartialEq, Eq, Structural)]
pub enum Removal {
    /// A directory with everything it holds.
    DirectoryAndContents,
    /// A directory that must be empty.
    EmptyDirectory,
    /// Anything that is not a directory.
    File,
}

/// The texts joined with newlines.
pub open spec fn joined(ps: Seq<Seq<char>>) -> Seq<char>
    decreases ps.len(),
{
    if ps.len() == 0 {
        Seq::empty()
    } else if ps.len() == 1 {
        ps[0]
    } else {
        joined(ps.drop_last()) + seq!['\n'] + ps.last()
    }
}

/// The texts joined with newlines, with a final newline.
pub open spec fn lines_text(ps: Seq<Seq<char>>) -> Seq<char> {
    joined(ps) + seq!['\n']
}

/// The patch text that `diffy_fork_filenames::create_patch` and
/// `PatchFormatter::new().fmt_patch` give for two texts.
pub uninterp spec fn plain_patch_text(original: Seq<char>, modified: Seq<char>) -> Seq<char>;

/// The patch text that `diffy_fork_filenames::create_patch` and
/// `PatchFormatter::new().with_color().fmt_patch` give for two texts.
pub uninterp spec fn colored_patch_text(original: Seq<char>, modified: Seq<char>) -> Seq<char>;

/// The unified diff from `original` to `modified`, rendered without color. The
/// patch always names both sides, so the text starts with its `--- original`
/// header and is never empty.
#[verifier::external_body]
fn plain_patch(original: &str, modified: &str) -> (r: String)
    ensures
        r@ == plain_patch_text(original@, modified@),
        r@.len() > 0,
{
    let patch = diffy_fork_filenames::create_patch(original, modified);
    let formatter = diffy_fork_filenames::PatchFormatter::new();
    let text = formatter.fmt_patch(&patch).to_string();
    text
}

/// The unified diff from `original` to `modified`, rendered with terminal colors.
/// The patch always names both sides, so the text holds its `--- original` header
/// and is never empty.
#[verifier::external_body]
fn colored_patch(original: &str, modified: &str) -> (r: String)
    ensures
        r@ == colored_patch_text(original@, modified@),
        r@.len() > 0,
{
    let patch = diffy_fork_filenames::create_patch(original, modified);
    let formatter = diffy_fork_filenames::PatchFormatter::new().with_color();
    let text = formatter.fmt_patch(&patch).to_string();
    text
}

/// The patch text, with or without color.
pub open spec fn patch_text(original: Seq<char>, modified: Seq<char>, color: bool) -> Seq<char> {
    if color {
        colored_patch_text(original, modified)
    } else {
        plain_patch_text(original, modified)
    }
}

/// Renders the diff from `original` to `modified`.
pub fn render_patch(original: &str, modified: &str, color: bool) -> (r: String)
    ensures
        r@ == patch_text(original@, modified@, color),
        r@.len() > 0,
{
    if color {
        colored_patch(original, modified)
    } else {
        plain_patch(original, modified)
    }
}

/// Joins the texts with newlines and ends them with one.
pub fn join_lines(items: &Vec<String>) -> (r: String)
    ensures
        r@ == lines_text(texts(items@)),
{
    let ghost ps = texts(items@);
    let mut out = String::new();
    let n = items.len();
    for i in 0..n
        invariant
            n == items@.len(),
            ps == texts(items@),
            out@ == joined(ps.take(i as int)),
    {
        proof {
            reveal_strlit("\n");
        }
        if i > 0 {
            out.append("\n");
        }
        out.append(items[i].as_str());
        assert(ps[i as int] == items@[i as int]@);
        assert(ps.take(i + 1).drop_last() == ps.take(i as int));
        assert(ps.take(i + 1).last() == ps[i as int]);
    }
    assert(ps.take(n as int) == ps);
    proof {
        reveal_strlit("\n");
    }
    out.append("\n");
    out
}

/// Two paths are the same path: they have the same components.
pub open spec fn same_path(a: Seq<char>, b: Seq<char>) -> bool {
    std_path_key(a) == std_path_key(b)
}

/// The new path of a path, looked up under its key.
pub open spec fn destination(m: Map<Seq<char>, Seq<char>>, p: Seq<char>) -> Seq<char> {
    m[std_path_key(p)]
}

/// The name shown for a path in the preview: its new path when that is another
/// path and the move may be done (`clear`), else the path itself.
pub open spec fn preview_target(p: Seq<char>, d: Seq<char>, clear: bool) -> Seq<char> {
    if same_path(p, d) || !clear {
        p
    } else {
        d
    }
}

/// The names shown for all the paths in the preview.
pub open spec fn preview_targets(
    paths: Seq<Seq<char>>,
    m: Map<Seq<char>, Seq<char>>,
    clear: Seq<bool>,
) -> Seq<Seq<char>> {
    Seq::new(paths.len(), |i: int| preview_target(paths[i], destination(m, paths[i]), clear[i]))
}

/// Some path changes and may be moved.
pub open spec fn some_move(paths: Seq<Seq<char>>, m: Map<Seq<char>, Seq<char>>, clear: Seq<bool>) -> bool {
    exists|i: int|
        0 <= i < paths.len() && !same_path(paths[i], destination(m, paths[i])) && #[trigger] clear[i]
}

/// The preview text (`None` when a rename is asked for without a map): for a
/// rename, the diff from the list of paths to the list of names they get, or
/// nothing when no path moves; for a deletion, the diff from the list to nothing.
pub open spec fn preview_spec(
    paths: Seq<Seq<char>>,
    mapping: Option<Map<Seq<char>, Seq<char>>>,
    kind: EditKind,
    clear: Seq<bool>,
    color: bool,
) -> Option<Seq<char>> {
    match kind {
        EditKind::Replace => match mapping {
            None => None,
            Some(m) => if some_move(paths, m, clear) {
                Some(
                    patch_text(
                        lines_text(paths),
                        lines_text(preview_targets(paths, m, clear)),
                        color,
                    ),
                )
            } else {
                Some(Seq::empty())
            },
        },
        _ => Some(patch_text(lines_text(paths), Seq::empty(), color)),
    }
}

/// The operation for a path: removal for a deletion; for a rename, a move to
/// its new path unless that is the path itself.
pub open spec fn op_is(
    op: WriteOp,
    kind: EditKind,
    p: Seq<char>,
    mapping: Option<Map<Seq<char>, Seq<char>>>,
) -> bool {
    match kind {
        EditKind::Delete => op == WriteOp::Remove { recursive: false },
        EditKind::DeleteAll => op == WriteOp::Remove { recursive: true },
        EditKind::Replace => match mapping {
            Some(m) => if same_path(p, destination(m, p)) {
                op is Keep
            } else {
                op matches WriteOp::Rename { to } && to@ == destination(m, p)
            },
            None => false,
        },
    }
}

/// When no path gets a new name, the preview is empty and nothing is moved,
/// whatever the filesystem checks say.
pub proof fn lemma_unchanged_paths(
    paths: Seq<Seq<char>>,
    m: Map<Seq<char>, Seq<char>>,
    clear: Seq<bool>,
    color: bool,
    ops: Seq<WriteOp>,
)
    requires
        forall|i: int| 0 <= i < paths.len() ==> same_path(#[trigger] paths[i], destination(m, paths[i])),
        ops.len() == paths.len(),
        forall|i: int|
            0 <= i < ops.len() ==> op_is(#[trigger] ops[i], EditKind::Replace, paths[i], Some(m)),
    ensures
        preview_spec(paths, Some(m), EditKind::Replace, clear, color) == Some(Seq::<char>::empty()),
        forall|i: int| 0 <= i < ops.len() ==> #[trigger] ops[i] is Keep,
{
    assert forall|i: int| 0 <= i < ops.len() implies #[trigger] ops[i] is Keep by {
        assert(same_path(paths[i], destination(m, paths[i])));
    }
}

/// When no move may be done (every path is missing or its new path exists),
/// the preview of a rename is empty.
pub proof fn lemma_nothing_clear_empty_preview(
    paths: Seq<Seq<char>>,
    m: Map<Seq<char>, Seq<char>>,
    clear: Seq<bool>,
    color: bool,
)
    requires
        clear.len() == paths.len(),
        forall|i: int| 0 <= i < clear.len() ==> !#[trigger] clear[i],
    ensures
        preview_spec(paths, Some(m), EditKind::Replace, clear, color) == Some(Seq::<char>::empty()),
{
}

/// The preview and the writing agree: given the same filesystem checks, a path
/// is shown with a new name exactly when writing moves it there.
pub proof fn lemma_preview_matches_plan(
    paths: Seq<Seq<char>>,
    m: Map<Seq<char>, Seq<char>>,
    clear: Seq<bool>,
    ops: Seq<WriteOp>,
)
    requires
        clear.len() == paths.len(),
        ops.len() == paths.len(),
        forall|i: int|
            0 <= i < ops.len() ==> op_is(#[trigger] ops[i], EditKind::Replace, paths[i], Some(m)),
    ensures
        forall|i: int|
            0 <= i < paths.len() ==> ((#[trigger] preview_targets(paths, m, clear)[i] != paths[i])
                <==> (ops[i] is Rename && clear[i])),
        forall|i: int|
            0 <= i < paths.len() && clear[i] ==> (#[trigger] ops[i] matches WriteOp::Rename { to }
                ==> to@ == preview_targets(paths, m, clear)[i]),
{
    assert forall|i: int| 0 <= i < paths.len() implies ((#[trigger] preview_targets(
        paths,
        m,
        clear,
    )[i] != paths[i]) <==> (ops[i] is Rename && clear[i])) by {
        assert(op_is(ops[i], EditKind::Replace, paths[i], Some(m)));
    }
    assert forall|i: int| 0 <= i < paths.len() && clear[i] implies (#[trigger] ops[i] matches WriteOp::Rename {
        to,
    } ==> to@ == preview_targets(paths, m, clear)[i]) by {
        assert(op_is(ops[i], EditKind::Replace, paths[i], Some(m)));
    }
}

/// The filesystem after the first `n` operations of a plan, taken as the set of
/// paths (by key) that exist, where a move takes its source's entry to its
/// destination when the source exists and the destination does not.
pub open spec fn after_moves(
    paths: Seq<Seq<char>>,
    ops: Seq<WriteOp>,
    fs: Set<Seq<char>>,
    n: nat,
) -> Set<Seq<char>>
    decreases n,
{
    if n == 0 {
        fs
    } else {
        let f = after_moves(paths, ops, fs, (n - 1) as nat);
        let p = paths[n - 1];
        match ops[n - 1] {
            WriteOp::Rename { to } => if f.contains(std_path_key(p)) && !f.contains(
                std_path_key(to@),
            ) {
                f.remove(std_path_key(p)).insert(std_path_key(to@))
            } else {
                f
            },
            _ => f,
        }
    }
}

/// Whether writing moves the `i`-th path: its operation is a move, and at that
/// point of the run its source exists and its destination does not.
pub open spec fn moved_at(paths: Seq<Seq<char>>, ops: Seq<WriteOp>, fs: Set<Seq<char>>, i: int) -> bool {
    let f = after_moves(paths, ops, fs, i as nat);
    match ops[i] {
        WriteOp::Rename { to } => f.contains(std_path_key(paths[i])) && !f.contains(
            std_path_key(to@),
        ),
        _ => false,
    }
}

/// The checks that the preview makes on a filesystem: the path exists and its
/// new path does not.
pub open spec fn clear_on(fs: Set<Seq<char>>, paths: Seq<Seq<char>>, m: Map<Seq<char>, Seq<char>>) -> Seq<bool> {
    Seq::new(
        paths.len(),
        |i: int|
            fs.contains(std_path_key(paths[i])) && !fs.contains(
                std_path_key(destination(m, paths[i])),
            ),
    )
}

/// Before the `n`-th operation, the paths from `n` on and their new paths exist
/// exactly when they did at the start.
proof fn lemma_later_paths_untouched(
    paths: Seq<Seq<char>>,
    m: Map<Seq<char>, Seq<char>>,
    fs: Set<Seq<char>>,
    ops: Seq<WriteOp>,
    n: nat,
)
    requires
        n <= paths.len(),
        ops.len() == paths.len(),
        forall|i: int|
            0 <= i < ops.len() ==> op_is(#[trigger] ops[i], EditKind::Replace, paths[i], Some(m)),
        forall|i: int, j: int|
            0 <= i < j < paths.len() ==> std_path_key(#[trigger] paths[i]) != std_path_key(
                #[trigger] paths[j],
            ),
        forall|i: int, j: int|
            0 <= i < paths.len() && 0 <= j < paths.len() && !same_path(
                #[trigger] paths[i],
                destination(m, paths[i]),
            ) ==> std_path_key(destination(m, paths[i])) != std_path_key(#[trigger] paths[j]),
        forall|i: int, j: int|
            0 <= i < j < paths.len() && !same_path(#[trigger] paths[i], destination(m, paths[i]))
                && !same_path(#[trigger] paths[j], destination(m, paths[j])) ==> std_path_key(
                destination(m, paths[i]),
            ) != std_path_key(destination(m, paths[j])),
    ensures
        forall|j: int|
            n <= j < paths.len() ==> (after_moves(paths, ops, fs, n).contains(
                std_path_key(#[trigger] paths[j]),
            ) == fs.contains(std_path_key(paths[j])) && after_moves(paths, ops, fs, n).contains(
                std_path_key(destination(m, paths[j])),
            ) == fs.contains(std_path_key(destination(m, paths[j])))),
    decreases n,
{
    if n > 0 {
        lemma_later_paths_untouched(paths, m, fs, ops, (n - 1) as nat);
        let k = n - 1;
        let f = after_moves(paths, ops, fs, (n - 1) as nat);
        assert(op_is(ops[k], EditKind::Replace, paths[k], Some(m)));
        assert forall|j: int| n <= j < paths.len() implies (after_moves(paths, ops, fs, n).contains(
            std_path_key(#[trigger] paths[j]),
        ) == fs.contains(std_path_key(paths[j])) && after_moves(paths, ops, fs, n).contains(
            std_path_key(destination(m, paths[j])),
        ) == fs.contains(std_path_key(destination(m, paths[j])))) by {
            assert(std_path_key(paths[k]) != std_path_key(paths[j]));
            if !same_path(paths[k], destination(m, paths[k])) {
                assert(std_path_key(destination(m, paths[k])) != std_path_key(paths[j]));
                if !same_path(paths[j], destination(m, paths[j])) {
                    assert(std_path_key(destination(m, paths[j])) != std_path_key(paths[k]));
                    assert(std_path_key(destination(m, paths[k])) != std_path_key(
                        destination(m, paths[j]),
                    ));
                } else {
                    assert(std_path_key(destination(m, paths[j])) == std_path_key(paths[j]));
                }
            }
        }
    }
}

/// `q` lies strictly below `d`: the key of `d`, followed by a separator, begins
/// the key of `q`.
pub open spec fn lies_under(q: Seq<char>, d: Seq<char>) -> bool {
    let kq = std_path_key(q);
    let kd = std_path_key(d);
    &&& kd.len() < kq.len()
    &&& kq.take(kd.len() as int) == kd
    &&& (ends_with_separator(kd) || kq[kd.len() as int] == '/')
}

/// The preview shows what writing does. The filesystem is taken as the set of
/// paths that exist, where a move takes its source's entry to its destination.
/// A real move also carries what lies below the source, so the law asks that no
/// later path of the list, nor its new path, lies below an earlier path that is
/// moved or below that path's new path: what a move carries is then nothing the
/// later checks look at. (Sorting longest first puts what a directory holds
/// before the directory, which is what the first of these needs.) With the paths
/// distinct and every new path a path of its own (no path of the list, and no
/// other new path), writing moves exactly the paths that the preview, made on the
/// same filesystem, shows with a new name.
pub proof fn lemma_writing_does_what_preview_shows(
    paths: Seq<Seq<char>>,
    m: Map<Seq<char>, Seq<char>>,
    fs: Set<Seq<char>>,
    ops: Seq<WriteOp>,
)
    requires
        ops.len() == paths.len(),
        forall|i: int|
            0 <= i < ops.len() ==> op_is(#[trigger] ops[i], EditKind::Replace, paths[i], Some(m)),
        forall|i: int, j: int|
            0 <= i < j < paths.len() ==> std_path_key(#[trigger] paths[i]) != std_path_key(
                #[trigger] paths[j],
            ),
        forall|i: int, j: int|
            0 <= i < paths.len() && 0 <= j < paths.len() && !same_path(
                #[trigger] paths[i],
                destination(m, paths[i]),
            ) ==> std_path_key(destination(m, paths[i])) != std_path_key(#[trigger] paths[j]),
        forall|i: int, j: int|
            0 <= i < j < paths.len() && !same_path(#[trigger] paths[i], destination(m, paths[i]))
                && !same_path(#[trigger] paths[j], destination(m, paths[j])) ==> std_path_key(
                destination(m, paths[i]),
            ) != std_path_key(destination(m, paths[j])),
        forall|i: int, j: int|
            0 <= i < j < paths.len() && !same_path(#[trigger] paths[i], destination(m, paths[i]))
                ==> {
                &&& !lies_under(#[trigger] paths[j], paths[i])
                &&& !lies_under(paths[j], destination(m, paths[i]))
                &&& !lies_under(destination(m, paths[j]), paths[i])
                &&& !lies_under(destination(m, paths[j]), destination(m, paths[i]))
            },
    ensures
        forall|i: int|
            0 <= i < paths.len() ==> (moved_at(paths, ops, fs, i) <==> #[trigger] preview_targets(
                paths,
                m,
                clear_on(fs, paths, m),
            )[i] != paths[i]),
{
    assert forall|i: int| 0 <= i < paths.len() implies (moved_at(paths, ops, fs, i)
        <==> #[trigger] preview_targets(paths, m, clear_on(fs, paths, m))[i] != paths[i]) by {
        lemma_later_paths_untouched(paths, m, fs, ops, i as nat);
        assert(op_is(ops[i], EditKind::Replace, paths[i], Some(m)));
        if !same_path(paths[i], destination(m, paths[i])) {
            assert(destination(m, paths[i]) != paths[i]);
        }
    }
}

/// The paths, and optionally the new path of each.
pub struct Writer {
    paths: Vec<String>,
    src_to_dst: Option<PathMap>,
}

impl Writer {
    /// The paths, in order.
    pub closed spec fn paths(self) -> Seq<Seq<char>> {
        texts(self.paths@)
    }

    /// The new paths, when there are any.
    pub closed spec fn mapping(self) -> Option<Map<Seq<char>, Seq<char>>> {
        match self.src_to_dst {
            Some(m) => Some(path_map_contents(m)),
            None => None,
        }
    }

    /// Every path has a new path in the map, under its key (when there is a map).
    pub open spec fn covers(self) -> bool {
        self.mapping() matches Some(m) ==> forall|i: int|
            0 <= i < self.paths().len() ==> m.contains_key(std_path_key(#[trigger] self.paths()[i]))
    }

    pub fn new(paths: Vec<String>, src_to_dst: Option<PathMap>) -> (w: Self)
        ensures
            w.paths() == texts(paths@),
            w.mapping() == match src_to_dst {
                Some(m) => Some(path_map_contents(m)),
                None => None,
            },
    {
        Self { paths, src_to_dst }
    }

    /// Whether every path has a new path in the map (when there is a map).
    pub fn maps_every_path(&self) -> (b: bool)
        ensures
            b == self.covers(),
    {
        match &self.src_to_dst {
            None => true,
            Some(m) => {
                let n = self.paths.len();
                for i in 0..n
                    invariant
                        n == self.paths@.len(),
                        self.src_to_dst == Some(*m),
                        forall|j: int|
                            0 <= j < i ==> path_map_contents(*m).contains_key(
                                std_path_key(#[trigger] self.paths()[j]),
                            ),
                {
                    assert(self.paths()[i as int] == self.paths@[i as int]@);
                    let key = path_key(self.paths[i].as_str());
                    if path_map_get(m, key.as_str()).is_none() {
                        return false;
                    }
                }
                true
            },
        }
    }

    /// The diff preview. `clear[i]` tells whether the move of the `i`-th path may
    /// be done (the path exists and its new path does not); it is read only for
    /// paths that change.
    pub fn patch_preview(&self, color: bool, delete_kind: EditKind, clear: &[bool]) -> (r: Result<
        String,
        Error,
    >)
        requires
            clear@.len() == self.paths().len(),
            delete_kind is Replace ==> self.covers(),
        ensures
            match r {
                Ok(s) => preview_spec(self.paths(), self.mapping(), delete_kind, clear@, color)
                    == Some(s@),
                Err(e) => preview_spec(self.paths(), self.mapping(), delete_kind, clear@, color)
                    is None && e is MissingMapping,
            },
            delete_kind is Replace && self.mapping() is Some ==> (r matches Ok(s) && (s@.len() == 0
                <==> !some_move(self.paths(), self.mapping()->0, clear@))),
            !(delete_kind is Replace) ==> (r matches Ok(s) && s@.len() > 0),
    {
        let ghost ps = self.paths();
        let original = join_lines(&self.paths);
        match delete_kind {
            EditKind::Replace => {
                let m = match &self.src_to_dst {
                    Some(m) => m,
                    None => {
                        return Err(Error::MissingMapping);
                    },
                };
                let ghost mv = path_map_contents(*m);
                let mut modified_paths: Vec<String> = Vec::new();
                let mut print_diff = false;
                let n = self.paths.len();
                for i in 0..n
                    invariant
                        n == self.paths@.len(),
                        ps == self.paths(),
                        clear@.len() == n,
                        self.src_to_dst == Some(*m),
                        mv == path_map_contents(*m),
                        self.covers(),
                        modified_paths.len() == i,
                        forall|j: int|
                            0 <= j < i ==> (#[trigger] modified_paths@[j])@ == preview_target(
                                ps[j],
                                destination(mv, ps[j]),
                                clear@[j],
                            ),
                        print_diff <==> exists|j: int|
                            0 <= j < i && !same_path(ps[j], destination(mv, ps[j]))
                                && #[trigger] clear@[j],
                {
                    let path = &self.paths[i];
                    assert(ps[i as int] == path@);
                    let key = path_key(path.as_str());
                    let dst = path_map_get(m, key.as_str()).unwrap();
                    if key == path_key(dst.as_str()) || !clear[i] {
                        modified_paths.push(path.clone());
                    } else {
                        print_diff = true;
                        modified_paths.push(dst.clone());
                    }
                }
                if !print_diff {
                    return Ok(String::new());
                }
                let modified = join_lines(&modified_paths);
                assert(texts(modified_paths@) =~= preview_targets(ps, mv, clear@));
                Ok(render_patch(original.as_str(), modified.as_str(), color))
            },
            _ => {
                proof {
                    reveal_strlit("");
                }
                let nothing = "";
                assert(nothing@ =~= Seq::<char>::empty());
                Ok(render_patch(original.as_str(), nothing, color))
            },
        }
    }

    /// The operation for each path, in order; a rename without a map of new paths
    /// fails as soon as there is a path.
    pub fn write_plan(&self, delete_kind: EditKind) -> (r: Result<Vec<WriteOp>, Error>)
        requires
            delete_kind is Replace ==> self.covers(),
        ensures
            r is Err <==> delete_kind is Replace && self.mapping() is None && self.paths().len()
                > 0,
            r matches Err(e) ==> e is MissingMapping,
            r matches Ok(ops) ==> ops.len() == self.paths().len() && forall|i: int|
                0 <= i < ops.len() ==> op_is(
                    #[trigger] ops@[i],
                    delete_kind,
                    self.paths()[i],
                    self.mapping(),
                ),
    {
        let ghost ps = self.paths();
        let n = self.paths.len();
        let mut ops: Vec<WriteOp> = Vec::new();
        for i in 0..n
            invariant
                n == self.paths@.len(),
                ps == self.paths(),
                delete_kind is Replace ==> self.covers(),
                ops.len() == i,
                i > 0 && delete_kind is Replace ==> self.mapping() is Some,
                forall|j: int|
                    0 <= j < i ==> op_is(#[trigger] ops@[j], delete_kind, ps[j], self.mapping()),
        {
            let path = &self.paths[i];
            assert(ps[i as int] == path@);
            match delete_kind {
                EditKind::Delete => {
                    ops.push(WriteOp::Remove { recursive: false });
                },
                EditKind::DeleteAll => {
                    ops.push(WriteOp::Remove { recursive: true });
                },
                EditKind::Replace => {
                    let m = match &self.src_to_dst {
                        Some(m) => m,
                        None => {
                            return Err(Error::MissingMapping);
                        },
                    };
                    let key = path_key(path.as_str());
                    let dst = path_map_get(m, key.as_str()).unwrap();
                    if key == path_key(dst.as_str()) {
                        ops.push(WriteOp::Keep);
                    } else {
                        ops.push(WriteOp::Rename { to: dst.clone() });
                    }
                },
            }
        }
        Ok(ops)
    }

    /// Whether a move may be done: the source must be a file or a directory, and
    /// the destination must be neither.
    pub fn check(src_is_file: bool, src_is_dir: bool, dst_is_file: bool, dst_is_dir: bool) -> (c:
        MoveCheck)
        ensures
            c == move_check(src_is_file, src_is_dir, dst_is_file, dst_is_dir),
    {
        if !src_is_file && !src_is_dir {
            return MoveCheck::SourceMissing;
        }
        if dst_is_file || dst_is_dir {
            return MoveCheck::DestinationExists;
        }
        MoveCheck::Clear
    }

    /// Whether writing carries out the operation: only a move, and only when its
    /// check found it clear.
    pub fn attempts_move(op: &WriteOp, check: MoveCheck) -> (b: bool)
        ensures
            b == (*op is Rename && check is Clear),
    {
        match op {
            WriteOp::Rename { .. } => match check {
                MoveCheck::Clear => true,
                _ => false,
            },
            _ => false,
        }
    }

    /// How a path is removed: a directory recursively or only when empty, any
    /// other path as a file.
    pub fn delete_path(is_dir: bool, recursive: bool) -> (r: Removal)
        ensures
            is_dir && recursive ==> r is DirectoryAndContents,
            is_dir && !recursive ==> r is EmptyDirectory,
            !is_dir ==> r is File,
    {
        if is_dir {
            if recursive {
                Removal::DirectoryAndContents
            } else {
                Removal::EmptyDirectory
            }
        } else {
            Removal::File
        }
    }

    /// The result of carrying out the operations: a failure of any of them makes
    /// the whole write fail.
    pub fn write_result(had_error: bool) -> (r: Result<(), Error>)
        ensures
            r is Err <==> had_error,
            r matches Err(e) ==> e is PartialFailure,
    {
        if had_error {
            Err(Error::PartialFailure)
        } else {
            Ok(())
        }
    }
}

} // verus!
