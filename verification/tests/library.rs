use ren_find::cli::{command, edit_kind, parse_positive_usize, use_color, Command};
use ren_find::edit::{destination_from_parts, Edit, Error as EditError};
use ren_find::error::Error;
use ren_find::input::{input_keys, App};
use ren_find::order::sort_longest_first;
use ren_find::paths::{add_trailing_separator, has_trailing_separator, input_key, key_from_parts};
use ren_find::replacer::{regex_settings, Replacer};
use ren_find::writer::{
    join_lines, render_patch, EditKind, Error as WriterError, MoveCheck, Removal, WriteOp, Writer,
};

fn strings(items: &[&str]) -> Vec<String> {
    items.iter().map(|s| s.to_string()).collect()
}

fn rule(find: &str, replace: &str, literal: bool, flags: Option<&str>, n: Option<usize>) -> Replacer {
    Replacer::new(find.to_string(), replace.to_string(), literal, flags.map(|f| f.to_string()), n)
        .unwrap()
}

fn rename(rep: &Replacer, path: &str) -> Result<String, EditError> {
    Edit::new(rep).replace_path(path)
}

#[test]
fn positive_usize_values() {
    assert_eq!(parse_positive_usize("12"), Ok(12));
    assert_eq!(parse_positive_usize("+7"), Ok(7));
    assert_eq!(parse_positive_usize("0"), Err("-n expects a positive integer".to_string()));
    assert_eq!(
        parse_positive_usize(""),
        Err("cannot parse integer from empty string".to_string())
    );
    assert_eq!(parse_positive_usize("-1"), Err("invalid digit found in string".to_string()));
    assert!(parse_positive_usize("-3").is_err());
    assert!(parse_positive_usize("1x").is_err());
    assert!(parse_positive_usize(" 1").is_err());
    assert!(parse_positive_usize("99999999999999999999999").is_err());
}

#[test]
fn join_and_trailing_separator() {
    let join = |d: &str, f: &str| key_from_parts("x", Some(f.to_string()), Some(d.to_string())).unwrap();
    assert_eq!(join("", "a"), "a");
    assert_eq!(join("a", "b"), "a/b");
    assert_eq!(join("a/", "b"), "a/b");
    assert_eq!(join("a", "/b"), "/b");
    assert_eq!(join("/", "b"), "/b");
    assert_eq!(add_trailing_separator("dir".to_string(), true), "dir/");
    assert_eq!(add_trailing_separator("dir/".to_string(), true), "dir/");
    assert_eq!(add_trailing_separator("dir".to_string(), false), "dir");
    assert_eq!(add_trailing_separator(String::new(), true), "");
    assert!(has_trailing_separator("a/"));
    assert!(!has_trailing_separator("a"));
    assert!(!has_trailing_separator(""));
}

#[test]
fn keys_of_lines() {
    assert_eq!(input_key("foo"), Some("foo".to_string()));
    assert_eq!(input_key("foo/bar"), Some("foo/bar".to_string()));
    assert_eq!(input_key("foo/bar/"), Some("foo/bar/".to_string()));
    assert_eq!(input_key("foo/bar//"), Some("foo/bar/".to_string()));
    assert_eq!(input_key("foo//bar"), Some("foo/bar".to_string()));
    assert_eq!(input_key("./foo"), Some("./foo".to_string()));
    assert_eq!(input_key("/foo"), Some("/foo".to_string()));
    assert_eq!(input_key("/"), None);
    assert_eq!(input_key(""), None);
    assert_eq!(input_key("foo/.."), None);
    assert_eq!(
        key_from_parts("x/", Some("name".to_string()), Some("dir".to_string())),
        Some("dir/name/".to_string())
    );
    assert_eq!(key_from_parts("x", None, Some("dir".to_string())), None);
    assert_eq!(key_from_parts("x", Some("name".to_string()), None), None);
    let keys = input_keys(&strings(&["a/b/", "/", "c", ".."]));
    assert_eq!(keys, strings(&["a/b/", "c"]));
}

#[test]
fn sort_is_stable_and_longest_first() {
    let mut paths = strings(&["a", "ccc", "bb", "dd", "e", "changes/stays"]);
    sort_longest_first(&mut paths);
    assert_eq!(paths, strings(&["changes/stays", "ccc", "bb", "dd", "a", "e"]));
    let mut bytes = strings(&["éé", "abc"]);
    sort_longest_first(&mut bytes);
    assert_eq!(bytes, strings(&["éé", "abc"]));
    let mut empty: Vec<String> = Vec::new();
    sort_longest_first(&mut empty);
    assert!(empty.is_empty());
}

#[test]
fn flag_settings() {
    let s = regex_settings("foo", None);
    assert_eq!((s.pattern.as_str(), s.case_insensitive, s.multi_line, s.dot_matches_new_line), ("foo", false, true, false));
    let s = regex_settings("foo", Some("i"));
    assert!(s.case_insensitive);
    let s = regex_settings("foo", Some("ic"));
    assert!(!s.case_insensitive);
    let s = regex_settings("foo", Some("e"));
    assert!(!s.multi_line);
    let s = regex_settings("foo", Some("s"));
    assert!(!s.multi_line && s.dot_matches_new_line);
    let s = regex_settings("foo", Some("ms"));
    assert!(s.multi_line && s.dot_matches_new_line);
    let s = regex_settings("foo", Some("iw"));
    assert_eq!(s.pattern, "\\bfoo\\b");
    assert!(!s.case_insensitive && !s.multi_line && !s.dot_matches_new_line);
    let s = regex_settings("foo", Some("wi"));
    assert_eq!(s.pattern, "\\bfoo\\b");
    assert!(s.case_insensitive);
    let s = regex_settings("foo", Some("xyz"));
    assert_eq!((s.case_insensitive, s.multi_line, s.dot_matches_new_line), (false, true, false));
}

#[test]
fn replacer_modes() {
    let literal = rule(".", "_", true, None, None);
    assert_eq!(rename(&literal, "a.b.c").unwrap(), "a_b_c");
    let regex = rule(".", "_", false, None, None);
    assert_eq!(rename(&regex, "a.b").unwrap(), "___");
    let limited = rule(".", "_", true, None, Some(1));
    assert_eq!(rename(&limited, "a.b.c").unwrap(), "a_b.c");
    let groups = rule("(\\w+)\\.txt", "$1.md", false, None, None);
    assert_eq!(rename(&groups, "dir/notes.txt").unwrap(), "dir/notes.md");
    let verbatim = rule("notes", "$1", true, None, None);
    assert_eq!(rename(&verbatim, "notes.txt").unwrap(), "$1.txt");
    let insensitive = rule("foo", "bar", false, Some("i"), None);
    assert_eq!(rename(&insensitive, "FOO.txt").unwrap(), "bar.txt");
    let sensitive = rule("foo", "bar", false, None, None);
    assert_eq!(rename(&sensitive, "FOO.txt").unwrap(), "FOO.txt");
    let words = rule("foo", "bar", false, Some("w"), None);
    assert_eq!(rename(&words, "foo foobar").unwrap(), "bar foobar");
    let only_dir_kept = rule("changes", "altered", false, None, None);
    assert_eq!(rename(&only_dir_kept, "changes/changes").unwrap(), "changes/altered");
    assert_eq!(rename(&only_dir_kept, "changes/").unwrap(), "altered/");
}

#[test]
fn replacer_errors() {
    assert!(matches!(
        Replacer::new("(".to_string(), "x".to_string(), false, None, None),
        Err(Error::Regex(_))
    ));
    assert!(Replacer::new("(".to_string(), "x".to_string(), true, None, None).is_ok());
    match Replacer::new("a".to_string(), "b/c".to_string(), true, None, None) {
        Err(Error::InvalidArguments(m)) => {
            assert_eq!(m, "the replacement cannot be used: filenames containing '/' are not allowed")
        }
        other => panic!("unexpected {:?}", other),
    }
}

#[test]
fn rename_errors() {
    let r = rule("a", "b", false, None, None);
    assert!(matches!(rename(&r, "/"), Err(EditError::InvalidPath(p)) if p == "/"));
    assert!(matches!(rename(&r, "a/.."), Err(EditError::InvalidPath(p)) if p == "a/.."));
    let all = rule(".*", "", false, None, None);
    match rename(&all, "dir/file") {
        Err(e) => {
            assert!(matches!(&e, EditError::EmptyFilename(p) if p == "dir/file"));
            assert_eq!(e.message(), "replacement produces empty filename for 'dir/file'");
        }
        Ok(d) => panic!("unexpected {}", d),
    }
    assert!(matches!(
        destination_from_parts("p", &[0xff], Some("d".to_string())),
        Err(EditError::ReplaceError(_))
    ));
    assert!(matches!(
        destination_from_parts("p", b"", Some("d".to_string())),
        Err(EditError::EmptyFilename(_))
    ));
    assert!(matches!(
        destination_from_parts("p", b"n", None),
        Err(EditError::InvalidPath(_))
    ));
    assert_eq!(destination_from_parts("p/", b"n", Some("d".to_string())).unwrap(), "d/n/");
    assert_eq!(EditError::InvalidPath("x".to_string()).message(), "invalid path: x");
}

#[test]
fn parse_maps_every_path() {
    let r = rule("changes", "altered", false, None, None);
    let paths = strings(&["changes/changes", "changes", "stays", "changes"]);
    let map = Edit::new(&r).parse(&paths).unwrap();
    assert_eq!(map.len(), 3);
    let keys: Vec<&String> = map.keys().collect();
    assert_eq!(keys, vec!["changes/changes", "changes", "stays"]);
    assert_eq!(map.get("changes/changes").unwrap(), "changes/altered");
    assert_eq!(map.get("changes").unwrap(), "altered");
    assert_eq!(map.get("stays").unwrap(), "stays");
    let failing = strings(&["ok", "/", "also"]);
    assert!(matches!(Edit::new(&r).parse(&failing), Err(EditError::InvalidPath(p)) if p == "/"));
}

#[test]
fn prepare_sorts_and_maps() {
    let r = rule("changes", "altered", false, None, None);
    let app = App::new(Some(r));
    let lines = strings(&["changes/", "stays", "changes/stays", "/", ".."]);
    let (paths, map) = app.prepare(&lines).unwrap();
    assert_eq!(paths, strings(&["changes/stays", "changes/", "stays"]));
    let map = map.unwrap();
    assert_eq!(map.get("changes").unwrap(), "altered/");
    assert_eq!(map.get("changes/stays").unwrap(), "changes/stays");
    let plain = App::new(None);
    let (paths, map) = plain.prepare(&lines).unwrap();
    assert_eq!(paths.len(), 3);
    assert!(map.is_none());
}

#[test]
fn lines_and_patches() {
    assert_eq!(join_lines(&strings(&["a", "b"])), "a\nb\n");
    assert_eq!(join_lines(&Vec::new()), "\n");
    assert_eq!(render_patch("a\n", "a\n", false), "--- original\n+++ modified\n");
    assert_eq!(
        render_patch("a\nb\n", "", false),
        "--- original\n+++ modified\n@@ -1,2 +0,0 @@\n-a\n-b\n"
    );
    assert!(render_patch("a\n", "b\n", true).contains('\u{1b}'));
}

fn writer_for(paths: &[&str], rep: Option<Replacer>) -> Writer {
    let (paths, map) = App::new(rep).prepare(&strings(paths)).unwrap();
    Writer::new(paths, map)
}

#[test]
fn preview_of_renames() {
    let w = writer_for(&["changes"], Some(rule("changes", "altered", false, None, None)));
    assert!(w.maps_every_path());
    assert_eq!(
        w.patch_preview(false, EditKind::Replace, &[true]).unwrap(),
        "--- original\n+++ modified\n@@ -1 +1 @@\n-changes\n+altered\n"
    );
    assert_eq!(w.patch_preview(false, EditKind::Replace, &[false]).unwrap(), "");
    let same = writer_for(&["stays"], Some(rule("changes", "altered", false, None, None)));
    assert_eq!(same.patch_preview(false, EditKind::Replace, &[true]).unwrap(), "");
    let none = writer_for(&["stays"], None);
    assert!(matches!(
        none.patch_preview(false, EditKind::Replace, &[true]),
        Err(WriterError::MissingMapping)
    ));
    assert_eq!(
        none.patch_preview(false, EditKind::Delete, &[true]).unwrap(),
        "--- original\n+++ modified\n@@ -1 +0,0 @@\n-stays\n"
    );
}

#[test]
fn write_plans() {
    let w = writer_for(&["changes", "stays"], Some(rule("changes", "altered", false, None, None)));
    let ops = w.write_plan(EditKind::Replace).unwrap();
    assert!(matches!(&ops[0], WriteOp::Rename { to } if to == "altered"));
    assert!(matches!(&ops[1], WriteOp::Keep));
    let ops = w.write_plan(EditKind::DeleteAll).unwrap();
    assert!(ops.iter().all(|op| matches!(op, WriteOp::Remove { recursive: true })));
    let ops = w.write_plan(EditKind::Delete).unwrap();
    assert!(ops.iter().all(|op| matches!(op, WriteOp::Remove { recursive: false })));
    let none = writer_for(&["a"], None);
    assert!(matches!(none.write_plan(EditKind::Replace), Err(WriterError::MissingMapping)));
    let empty = writer_for(&[], None);
    assert!(empty.write_plan(EditKind::Replace).unwrap().is_empty());
    assert!(matches!(Writer::write_result(true), Err(WriterError::PartialFailure)));
    assert!(Writer::write_result(false).is_ok());
}

#[test]
fn command_choices() {
    assert_eq!(edit_kind(true, true), EditKind::DeleteAll);
    assert_eq!(edit_kind(true, false), EditKind::Delete);
    assert_eq!(edit_kind(false, false), EditKind::Replace);
    assert!(use_color(true, true, false));
    assert!(use_color(false, false, true));
    assert!(!use_color(false, true, true));
    assert!(matches!(
        command(Some("a".into()), Some("b".into()), false, false),
        Command::Rename { find, replace_with } if find == "a" && replace_with == "b"
    ));
    assert!(matches!(command(None, None, true, false), Command::DeleteOnly));
    assert!(matches!(command(Some("a".into()), None, true, false), Command::MissingReplacement));
    assert!(matches!(command(None, None, false, false), Command::MissingArguments));
    assert!(matches!(command(None, Some("b".into()), true, false), Command::MissingArguments));
}

#[test]
fn preview_and_plan_agree() {
    let rep = rule("changes", "altered", false, None, None);
    let w = writer_for(&["stays", "changes", "changes/changes"], Some(rep));
    let ops = w.write_plan(EditKind::Replace).unwrap();
    assert!(matches!(&ops[0], WriteOp::Rename { to } if to == "changes/altered"));
    assert!(matches!(&ops[1], WriteOp::Rename { to } if to == "altered"));
    assert!(matches!(&ops[2], WriteOp::Keep));
    assert_eq!(
        w.patch_preview(false, EditKind::Replace, &[true, true, true]).unwrap(),
        "--- original\n+++ modified\n@@ -1,3 +1,3 @@\n-changes/changes\n-changes\n+changes/altered\n+altered\n stays\n"
    );
    assert_eq!(
        w.patch_preview(false, EditKind::Replace, &[false, true, true]).unwrap(),
        "--- original\n+++ modified\n@@ -1,3 +1,3 @@\n changes/changes\n-changes\n+altered\n stays\n"
    );
}

#[test]
fn one_key_for_one_path() {
    let r = rule("a", "b", false, None, None);
    let paths = strings(&["a/", "a", "c//d"]);
    let map = Edit::new(&r).parse(&paths).unwrap();
    assert_eq!(map.len(), 2);
    assert_eq!(map.get("a").unwrap(), "b");
    assert_eq!(map.get("c/d").unwrap(), "c/d");
    let w = writer_for(&["a/", "a"], Some(r));
    assert_eq!(
        w.patch_preview(false, EditKind::Replace, &[true, true]).unwrap(),
        "--- original\n+++ modified\n@@ -1,2 +1,2 @@\n-a/\n-a\n+b\n+b\n"
    );
}

#[test]
fn filesystem_decisions() {
    assert_eq!(Writer::check(false, false, false, false), MoveCheck::SourceMissing);
    assert_eq!(Writer::check(true, false, false, true), MoveCheck::DestinationExists);
    assert_eq!(Writer::check(false, true, false, false), MoveCheck::Clear);
    assert_eq!(Writer::delete_path(true, true), Removal::DirectoryAndContents);
    assert_eq!(Writer::delete_path(true, false), Removal::EmptyDirectory);
    assert_eq!(Writer::delete_path(false, true), Removal::File);
}

#[test]
fn error_messages() {
    assert_eq!(
        WriterError::MissingMapping.message(),
        "missing source to destination mapping for replace operation"
    );
    assert_eq!(WriterError::PartialFailure.message(), "some operations failed");
    assert_eq!(Error::InvalidArguments("bad".to_string()).message(), "bad");
    assert_eq!(
        Error::Edit(EditError::EmptyFilename("f".to_string())).message(),
        "replacement produces empty filename for 'f'"
    );
    assert_eq!(
        Error::Writer(WriterError::PartialFailure).message(),
        "some operations failed"
    );
    match Replacer::new("(".to_string(), "x".to_string(), false, None, None) {
        Err(e) => assert!(e.message().starts_with("invalid regex ") && e.message().len() > 14),
        Ok(_) => panic!("the pattern should not compile"),
    }
    let io = std::io::Error::new(std::io::ErrorKind::Other, "disk full");
    assert_eq!(Error::File(io).message(), "disk full");
}

#[test]
fn moves_are_attempted_only_when_clear() {
    let to = WriteOp::Rename { to: "b".to_string() };
    assert!(Writer::attempts_move(&to, MoveCheck::Clear));
    assert!(!Writer::attempts_move(&to, MoveCheck::SourceMissing));
    assert!(!Writer::attempts_move(&to, MoveCheck::DestinationExists));
    assert!(!Writer::attempts_move(&WriteOp::Keep, MoveCheck::Clear));
    assert!(!Writer::attempts_move(&WriteOp::Remove { recursive: false }, MoveCheck::Clear));
}
