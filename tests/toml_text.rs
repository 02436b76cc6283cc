use duvet::{annotations_from_text, AnnotationKind, AnnotationLevel, Error, Format};

fn parse(text: &str) -> Result<Vec<duvet::Annotation>, Error> {
    annotations_from_text(text, &"decl.toml".to_string())
        .map(|s| s.items().iter().map(|a| a.clone_annotation()).collect())
}

#[test]
fn toml_citation_with_default_target() {
    let annos = parse("target = \"spec#A\"\n\n[[spec]]\nquote = '''\n  Foo\n  Bar  '''\n").unwrap();
    assert_eq!(annos.len(), 1);
    assert_eq!(annos[0].target, "spec#A");
    assert_eq!(annos[0].quote, "Foo Bar");
    assert_eq!(
        annos[0].kind,
        AnnotationKind::Citation { level: AnnotationLevel::Auto, format: Format::Auto }
    );
}

#[test]
fn toml_exception_with_own_target() {
    let text = "[[exception]]\ntarget = \"spec#B\"\nquote = \"X\"\nreason = \"not applicable\"\n";
    let annos = parse(text).unwrap();
    assert_eq!(annos[0].target, "spec#B");
    assert_eq!(annos[0].comment, "not applicable");
}

#[test]
fn toml_todo_tags_and_aliases() {
    let text = "target = \"t\"\n[[TODO]]\nquote = \"Q\"\ntags = [\"a\", \"b\", \"a\"]\ntracking-issue = \"#7\"\n";
    let annos = parse(text).unwrap();
    match &annos[0].kind {
        AnnotationKind::Todo { tags, tracking_issue, .. } => {
            assert_eq!(tags.len(), 2);
            assert_eq!(tracking_issue, "#7");
        }
        other => panic!("unexpected kind {:?}", other),
    }
}

#[test]
fn toml_unknown_field_and_missing_target() {
    let unknown = "target = \"t\"\n[[spec]]\nquote = \"Q\"\nsource = \"x\"\n";
    assert_eq!(parse(unknown).unwrap_err(), Error::UnknownField("source".to_string()));
    let no_target = "[[todo]]\nquote = \"Q\"\n";
    assert_eq!(parse(no_target).unwrap_err(), Error::MissingTarget);
    let number = "target = 3\n";
    assert_eq!(parse(number).unwrap_err(), Error::InvalidType(duvet::Field::Target));
}

#[test]
fn toml_syntax_error() {
    assert!(matches!(parse("[[spec]\nquote = "), Err(Error::Syntax(_))));
}

#[test]
fn toml_empty_document_yields_nothing() {
    assert_eq!(parse("").unwrap().len(), 0);
}

#[test]
fn toml_unknown_field_in_later_list_fails_document() {
    let text = "target = \"t\"\n[[spec]]\nquote = \"A\"\n[[todo]]\nquote = \"B\"\ncolour = \"red\"\n";
    assert_eq!(parse(text).unwrap_err(), Error::UnknownField("colour".to_string()));
}

#[test]
fn toml_blank_exception_quote_rejected() {
    let text = "target = \"t\"\n[[exception]]\nquote = \"   \"\nreason = \"r\"\n";
    assert_eq!(parse(text).unwrap_err(), Error::EmptyQuote);
}
