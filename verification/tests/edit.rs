use indexmap::IndexMap;
use ren_find::edit::{Edit, Error};
use ren_find::replacer::Replacer;
use std::path::{Path, PathBuf};

fn parse(
    look_for: impl Into<String>,
    replace_with: impl Into<String>,
    paths: &[PathBuf],
    str_to_dst: IndexMap<PathBuf, PathBuf>,
) {
    let replacer = Replacer::new(look_for.into(), replace_with.into(), false, None, None).unwrap();
    let edit = Edit::new(&replacer);
    let texts: Vec<String> = paths.iter().map(|p| p.to_str().unwrap().to_string()).collect();
    let parsed = edit.parse(&texts).unwrap();
    let parsed: IndexMap<PathBuf, PathBuf> = parsed
        .iter()
        .map(|(k, v)| (PathBuf::from(k), PathBuf::from(v)))
        .collect();
    assert_eq!(parsed, str_to_dst);
}

fn replace_path(look_for: impl Into<String>, replace_with: impl Into<String>, src: &Path, dst: &Path) {
    let replacer = Replacer::new(look_for.into(), replace_with.into(), false, None, None).unwrap();
    let edit = Edit::new(&replacer);
    let replaced = PathBuf::from(edit.replace_path(src.to_str().unwrap()).unwrap());
    assert_eq!(&replaced, dst);
}

#[test]
fn dirs_replace() {
    let expected = IndexMap::from([
        (PathBuf::from("changes"), PathBuf::from("altered")),
        (PathBuf::from("changes/stays"), PathBuf::from("changes/stays")),
        (PathBuf::from("stays"), PathBuf::from("stays")),
    ]);
    let mut paths: Vec<PathBuf> =
        ["changes", "changes/stays", "stays"].iter().map(|a| PathBuf::from(a)).collect();
    // Input needs to be sorted
    paths.sort_by(|a, b| b.to_str().unwrap().len().cmp(&a.to_str().unwrap().len()));
    parse("changes", "altered", &paths, expected);
}

#[test]
fn replace_path_slashes() {
    replace_path("changes", "altered", &PathBuf::from("stays/"), &PathBuf::from("stays"))
}

#[test]
fn edit_reject_empty_filename() {
    let replacer = Replacer::new(".*".into(), "".into(), false, None, None).unwrap();
    let edit = Edit::new(&replacer);
    let result = edit.replace_path("foo.txt");
    assert!(result.is_err());
    let err = result.unwrap_err();
    assert!(matches!(err, Error::EmptyFilename(_)));
}
