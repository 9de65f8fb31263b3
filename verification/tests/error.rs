use bterm::error::{did_you_mean, levenshtein, ShellError, Span};

#[test]
fn levenshtein_basics() {
    assert_eq!(levenshtein("depth", "dpth"), 1);
    assert_eq!(levenshtein("", "abc"), 3);
    assert_eq!(levenshtein("same", "same"), 0);
}

#[test]
fn did_you_mean_picks_closest() {
    let names: Vec<String> = ["first", "last", "length"].iter().map(|s| s.to_string()).collect();
    assert_eq!(
        did_you_mean("frist", &names),
        Some("first".to_string())
    );
    assert_eq!(did_you_mean("zzzzzz", &names), None);
}

#[test]
fn render_points_at_span() {
    let err = ShellError::parse("unknown flag `--dpth`", Span::new(3, 9))
        .with_help("did you mean `--depth`?");
    let rendered = err.render("ls --dpth 2");
    assert!(rendered.contains("error:"));
    assert!(rendered.contains("ls --dpth 2"));
    assert!(rendered.contains("^^^^^^"));
    assert!(rendered.contains("did you mean `--depth`?"));
}
