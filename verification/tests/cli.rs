use ren_find::cli::parse_positive_usize;
use ren_find::error::Error;
use ren_find::input::App;
use ren_find::replacer::Replacer;

#[test]
fn reject_slash_in_filename() {
    let result = Replacer::new("foo".to_string(), "bar/foo".to_string(), false, None, None);
    match result {
        Err(Error::InvalidArguments(message)) => assert!(message.contains("containing '/'")),
        other => panic!("expected an argument error, got {:?}", other),
    }
}

#[test]
fn cli_reject_empty_filename() {
    let replacer = Replacer::new(".*".to_string(), "".to_string(), false, None, None).unwrap();
    let app = App::new(Some(replacer));
    let lines = vec!["foo.txt".to_string()];
    match app.prepare(&lines) {
        Err(Error::Edit(e)) => assert!(e.message().contains("empty filename")),
        other => panic!("expected an edit error, got {:?}", other.map(|_| ())),
    }
}

#[test]
fn reject_n_zero() {
    let result = parse_positive_usize("0");
    assert!(result.unwrap_err().contains("-n expects a positive integer"));
}
