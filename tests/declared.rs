use duvet::{
    declared_annotations, Pattern, SourceFile, Annotation, AnnotationKind, AnnotationLevel, AnnotationSet, Error,
    Exception, Field, Format, Spec, Specs, Todo, TomlValue,
};

fn text(s: &str) -> TomlValue {
    TomlValue::Str(s.to_string())
}

fn table(pairs: Vec<(&str, TomlValue)>) -> TomlValue {
    TomlValue::Table(pairs.into_iter().map(|(k, v)| (k.to_string(), v)).collect())
}

fn run(doc: TomlValue) -> Result<Vec<Annotation>, Error> {
    declared_annotations(&doc, &"decl.toml".to_string()).map(|s: AnnotationSet| s.items().iter().map(|a| a.clone_annotation()).collect())
}

#[test]
fn citation_inherits_document_target_and_normalizes_quote() {
    let doc = table(vec![
        ("target", text("spec#A")),
        ("spec", TomlValue::Array(vec![table(vec![("quote", text("  Foo\n  Bar  "))])])),
    ]);
    let annos = run(doc).unwrap();
    assert_eq!(annos.len(), 1);
    let a = &annos[0];
    assert_eq!(a.target, "spec#A");
    assert_eq!(a.quote, "Foo Bar");
    assert_eq!(a.comment, "  Foo\n  Bar  ");
    assert_eq!(
        a.kind,
        AnnotationKind::Citation { level: AnnotationLevel::Auto, format: Format::Auto }
    );
}

#[test]
fn exception_with_own_target_keeps_reason() {
    let doc = table(vec![(
        "exception",
        TomlValue::Array(vec![table(vec![
            ("target", text("spec#B")),
            ("quote", text("X")),
            ("reason", text("not applicable")),
        ])]),
    )]);
    let annos = run(doc).unwrap();
    assert_eq!(annos.len(), 1);
    assert_eq!(annos[0].target, "spec#B");
    assert_eq!(annos[0].comment, "not applicable");
    assert_eq!(annos[0].kind, AnnotationKind::Exception);
}

#[test]
fn todo_tags_collapse_duplicates() {
    let doc = table(vec![
        ("target", text("t")),
        (
            "todo",
            TomlValue::Array(vec![table(vec![
                ("quote", text("Q")),
                ("tags", TomlValue::Array(vec![text("a"), text("b"), text("a")])),
            ])]),
        ),
    ]);
    let annos = run(doc).unwrap();
    match &annos[0].kind {
        AnnotationKind::Todo { feature, tracking_issue, tags } => {
            assert_eq!(tags.len(), 2);
            assert!(tags.contains(&"a".to_string()));
            assert!(tags.contains(&"b".to_string()));
            assert_eq!(feature, "");
            assert_eq!(tracking_issue, "");
        }
        other => panic!("unexpected kind {:?}", other),
    }
    assert_eq!(annos[0].comment, "");
}

#[test]
fn own_target_overrides_default() {
    let doc = table(vec![
        ("target", text("doc.txt")),
        (
            "specs",
            TomlValue::Array(vec![
                table(vec![("quote", text("A"))]),
                table(vec![("target", text("x")), ("quote", text("B"))]),
            ]),
        ),
    ]);
    let annos = run(doc).unwrap();
    assert_eq!(annos.len(), 2);
    assert_eq!(annos[0].target, "doc.txt");
    assert_eq!(annos[1].target, "x");
}

#[test]
fn missing_target_rejected_for_every_kind() {
    let entries = [
        ("spec", table(vec![("quote", text("A"))])),
        ("exception", table(vec![("quote", text("A")), ("reason", text("r"))])),
        ("TODO", table(vec![("quote", text("A"))])),
    ];
    for (key, entry) in entries {
        let doc = table(vec![(key, TomlValue::Array(vec![entry]))]);
        assert_eq!(run(doc).unwrap_err(), Error::MissingTarget);
    }
}

#[test]
fn empty_target_counts_as_missing() {
    let doc = table(vec![
        ("target", text("")),
        ("spec", TomlValue::Array(vec![table(vec![("quote", text("A"))])])),
    ]);
    assert_eq!(run(doc).unwrap_err(), Error::MissingTarget);
}

#[test]
fn unknown_entry_field_rejected() {
    let doc = table(vec![
        ("target", text("t")),
        (
            "spec",
            TomlValue::Array(vec![table(vec![("quote", text("A")), ("bogus", text("x"))])]),
        ),
    ]);
    assert_eq!(run(doc).unwrap_err(), Error::UnknownField("bogus".to_string()));
    let entry = table(vec![("quote", text("A")), ("feature", text("f"))]);
    assert_eq!(Spec::from_entry(&entry).unwrap_err(), Error::UnknownField("feature".to_string()));
}

#[test]
fn unknown_document_field_rejected() {
    let doc = table(vec![("targets", text("t"))]);
    assert_eq!(run(doc).unwrap_err(), Error::UnknownField("targets".to_string()));
}

#[test]
fn alias_and_name_together_are_a_duplicate() {
    let doc = table(vec![
        ("spec", TomlValue::Array(vec![])),
        ("specs", TomlValue::Array(vec![])),
    ]);
    assert_eq!(run(doc).unwrap_err(), Error::DuplicateField("specs".to_string()));
}

#[test]
fn missing_quote_and_reason_rejected() {
    let e = table(vec![("quote", text("A"))]);
    assert_eq!(Exception::from_entry(&e).unwrap_err(), Error::MissingField(Field::Reason));
    let s = table(vec![("target", text("t"))]);
    assert_eq!(Spec::from_entry(&s).unwrap_err(), Error::MissingField(Field::Quote));
}

#[test]
fn wrong_types_rejected() {
    let s = table(vec![("quote", TomlValue::Other)]);
    assert_eq!(Spec::from_entry(&s).unwrap_err(), Error::InvalidType(Field::Quote));
    let t = table(vec![("quote", text("Q")), ("tags", TomlValue::Array(vec![TomlValue::Other]))]);
    assert_eq!(Todo::from_entry(&t).unwrap_err(), Error::InvalidType(Field::Tags));
    let doc = table(vec![("todos", text("x"))]);
    assert_eq!(run(doc).unwrap_err(), Error::InvalidType(Field::Todos));
    assert_eq!(Spec::from_entry(&text("x")).unwrap_err(), Error::NotATable);
    assert_eq!(Specs::from_document(&TomlValue::Other).unwrap_err(), Error::NotATable);
}

#[test]
fn level_and_format_labels() {
    let entry = table(vec![
        ("quote", text("Q")),
        ("level", text("MUST")),
        ("format", text("ietf")),
    ]);
    let spec = Spec::from_entry(&entry).unwrap();
    let a = spec.into_annotation("f.toml".to_string(), &Some("t".to_string())).unwrap();
    assert_eq!(
        a.kind,
        AnnotationKind::Citation { level: AnnotationLevel::Must, format: Format::Ietf }
    );
    let bad_level = Spec {
        target: Some("t".to_string()),
        level: Some("MAYBE".to_string()),
        format: None,
        quote: "Q".to_string(),
    };
    assert_eq!(bad_level.into_annotation("f".to_string(), &None).unwrap_err(), Error::InvalidLevel);
    let bad_format = Spec {
        target: Some("t".to_string()),
        level: None,
        format: Some("html".to_string()),
        quote: "Q".to_string(),
    };
    assert_eq!(
        bad_format.into_annotation("f".to_string(), &None).unwrap_err(),
        Error::InvalidFormat
    );
}

#[test]
fn todo_fields_carried_through() {
    let todo = Todo {
        target: None,
        quote: " q \n r ".to_string(),
        feature: Some("feat".to_string()),
        tracking_issue: Some("#12".to_string()),
        reason: Some("later".to_string()),
        tags: vec!["x".to_string()],
    };
    let a = todo.into_annotation("d.toml".to_string(), &Some("spec".to_string())).unwrap();
    assert_eq!(a.quote, "q r");
    assert_eq!(a.comment, "later");
    assert_eq!(
        a.kind,
        AnnotationKind::Todo {
            feature: "feat".to_string(),
            tracking_issue: "#12".to_string(),
            tags: vec!["x".to_string()],
        }
    );
    let entry = table(vec![("quote", text("Q")), ("tracking-issue", text("#3"))]);
    match Todo::from_entry(&entry).unwrap().tracking_issue {
        Some(t) => assert_eq!(t, "#3"),
        None => panic!("tracking issue lost"),
    }
}

#[test]
fn declared_records_have_placeholders() {
    let doc = table(vec![
        ("target", text("t")),
        ("spec", TomlValue::Array(vec![table(vec![("quote", text("A"))])])),
        (
            "exception",
            TomlValue::Array(vec![table(vec![("quote", text("B")), ("reason", text("r"))])]),
        ),
        ("todo", TomlValue::Array(vec![table(vec![("quote", text("C"))])])),
    ]);
    let annos = run(doc).unwrap();
    assert_eq!(annos.len(), 3);
    for a in &annos {
        assert_eq!((a.anno_line, a.anno_column, a.item_line, a.item_column), (0, 0, 0, 0));
        assert_eq!(a.path, "");
        assert_eq!(a.source, "decl.toml");
        assert_eq!(a.manifest_dir, "decl.toml");
    }
}

#[test]
fn identical_entries_collapse_in_the_set() {
    let entry = || table(vec![("quote", text("A"))]);
    let doc = table(vec![
        ("target", text("t")),
        ("spec", TomlValue::Array(vec![entry(), entry()])),
    ]);
    assert_eq!(run(doc).unwrap().len(), 1);
}

#[test]
fn scanned_annotations_keep_their_positions() {
    let found = Annotation {
        source: "src/lib.rs".to_string(),
        anno_line: 4,
        anno_column: 2,
        item_line: 7,
        item_column: 1,
        path: "src/lib.rs".to_string(),
        target: "t".to_string(),
        quote: "Q".to_string(),
        comment: "Q".to_string(),
        manifest_dir: "src".to_string(),
        kind: AnnotationKind::Citation { level: AnnotationLevel::Auto, format: Format::Auto },
    };
    let set = AnnotationSet::from_scanned(vec![found.clone_annotation(), found.clone_annotation()]);
    assert_eq!(set.len(), 1);
    assert!(set.contains(&found));
    assert_eq!(set.items()[0].anno_line, 4);
    assert_eq!(set.items()[0].item_column, 1);
}

#[test]
fn source_file_path_and_set_union() {
    let unit = SourceFile::Text(
        Pattern { meta: "//=".to_string(), content: "//#".to_string() },
        "src/a.rs".to_string(),
    );
    assert_eq!(unit.path(), "src/a.rs");
    assert_eq!(SourceFile::Spec("d.toml".to_string()).path(), "d.toml");

    let doc = |q: &str| {
        table(vec![
            ("target", text("t")),
            ("spec", TomlValue::Array(vec![table(vec![("quote", text(q))])])),
        ])
    };
    let mut a = declared_annotations(&doc("A"), &"x.toml".to_string()).unwrap();
    let b = declared_annotations(&doc("B"), &"x.toml".to_string()).unwrap();
    let c = declared_annotations(&doc("A"), &"x.toml".to_string()).unwrap();
    a.extend(b);
    assert_eq!(a.len(), 2);
    a.extend(c);
    assert_eq!(a.len(), 2);
}

#[test]
fn blank_quotes_rejected_for_citations_and_exceptions() {
    let spec = Spec { target: Some("t".to_string()), level: None, format: None, quote: "".to_string() };
    assert_eq!(spec.into_annotation("f".to_string(), &None).unwrap_err(), Error::EmptyQuote);
    let exception = Exception {
        target: Some("t".to_string()),
        quote: "  \n \t ".to_string(),
        reason: "r".to_string(),
    };
    assert_eq!(exception.into_annotation("f".to_string(), &None).unwrap_err(), Error::EmptyQuote);
    let doc = table(vec![
        ("target", text("t")),
        ("spec", TomlValue::Array(vec![table(vec![("quote", text("\n\n"))])])),
    ]);
    assert_eq!(run(doc).unwrap_err(), Error::EmptyQuote);
}

#[test]
fn blank_quote_accepted_for_todos() {
    let todo = Todo {
        target: Some("t".to_string()),
        quote: " ".to_string(),
        feature: None,
        tracking_issue: None,
        reason: None,
        tags: vec![],
    };
    let a = todo.into_annotation("f".to_string(), &None).unwrap();
    assert_eq!(a.quote, "");
}
