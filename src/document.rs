use vstd::prelude::*;

verus! {

/// A parsed TOML value, as far as a declaration document reads it.
#[derive(Debug)]
pub enum TomlValue {
    Str(String),
    Array(Vec<TomlValue>),
    /// Key and value pairs, in the order the parser yields them: sorted by
    /// key for TOML text.
    Table(Vec<(String, TomlValue)>),
    /// An integer, float, boolean or date: never accepted by the schema.
    Other,
}

/// The fields that the schema knows, each under its canonical name.
#[derive(Clone, Copy, Debug, PartialEq, Eq, Structural)]
pub enum Field {
    Target,
    Citations,
    Exceptions,
    Todos,
    Level,
    Format,
    Quote,
    Reason,
    Feature,
    TrackingIssue,
    Tags,
}

/// Where a table stands in a declaration document.
#[derive(Clone, Copy, Debug, PartialEq, Eq, Structural)]
pub enum EntryKind {
    Document,
    Citation,
    Exception,
    Todo,
}

/// Why a declaration document was rejected.
#[derive(Debug, PartialEq, Eq)]
pub enum Error {
    /// The document or an entry is not a table.
    NotATable,
    /// A key that the schema does not know, as written.
    UnknownField(String),
    /// A key naming a field that an earlier key of the same table named.
    DuplicateField(String),
    /// A field holds a value of the wrong type.
    InvalidType(Field),
    /// A required field is absent.
    MissingField(Field),
    /// A `level` label outside the known set.
    InvalidLevel,
    /// A `format` label outside the known set.
    InvalidFormat,
    /// No target of its own, and no non-empty default to inherit.
    MissingTarget,
    /// A citation or exception whose quote is blank once normalized.
    EmptyQuote,
    /// The text is not TOML.
    Syntax(toml::de::Error),
}

/// The field that `key` names in a table of the given kind, aliases included.
pub open spec fn field_of(kind: EntryKind, key: Seq<char>) -> Option<Field> {
    if key == "target"@ {
        Some(Field::Target)
    } else {
        match kind {
            EntryKind::Document => {
                if key == "specs"@ || key == "spec"@ {
                    Some(Field::Citations)
                } else if key == "exceptions"@ || key == "exception"@ {
                    Some(Field::Exceptions)
                } else if key == "todos"@ || key == "todo"@ || key == "TODO"@ {
                    Some(Field::Todos)
                } else {
                    None
                }
            },
            EntryKind::Citation => {
                if key == "level"@ {
                    Some(Field::Level)
                } else if key == "format"@ {
                    Some(Field::Format)
                } else if key == "quote"@ {
                    Some(Field::Quote)
                } else {
                    None
                }
            },
            EntryKind::Exception => {
                if key == "quote"@ {
                    Some(Field::Quote)
                } else if key == "reason"@ {
                    Some(Field::Reason)
                } else {
                    None
                }
            },
            EntryKind::Todo => {
                if key == "quote"@ {
                    Some(Field::Quote)
                } else if key == "feature"@ {
                    Some(Field::Feature)
                } else if key == "tracking-issue"@ || key == "tracking_issue"@ {
                    Some(Field::TrackingIssue)
                } else if key == "reason"@ {
                    Some(Field::Reason)
                } else if key == "tags"@ {
                    Some(Field::Tags)
                } else {
                    None
                }
            },
        }
    }
}

/// The first key of `t`, in order, that names no field or a field named
/// before it.
pub open spec fn scan_error(kind: EntryKind, t: Seq<(String, TomlValue)>) -> Option<Error>
    decreases t.len(),
{
    if t.len() == 0 {
        None
    } else {
        let prev = scan_error(kind, t.drop_last());
        if prev is Some {
            prev
        } else {
            let key = t.last().0;
            match field_of(kind, key@) {
                None => Some(Error::UnknownField(key)),
                Some(f) => {
                    if exists|j: int| 0 <= j < t.len() - 1 && field_of(kind, t[j].0@) == Some(f) {
                        Some(Error::DuplicateField(key))
                    } else {
                        None
                    }
                },
            }
        }
    }
}

/// The value of the first key of `t` that names `f`.
pub open spec fn find(kind: EntryKind, t: Seq<(String, TomlValue)>, f: Field) -> Option<
    TomlValue,
>
    decreases t.len(),
{
    if t.len() == 0 {
        None
    } else {
        let prev = find(kind, t.drop_last(), f);
        if prev is Some {
            prev
        } else if field_of(kind, t.last().0@) == Some(f) {
            Some(t.last().1)
        } else {
            None
        }
    }
}

/// An optional text field: absent, a string, or of the wrong type.
pub open spec fn text_field(kind: EntryKind, t: Seq<(String, TomlValue)>, f: Field) -> Result<
    Option<Seq<char>>,
    Error,
> {
    match find(kind, t, f) {
        None => Ok(None),
        Some(TomlValue::Str(s)) => Ok(Some(s@)),
        Some(_) => Err(Error::InvalidType(f)),
    }
}

/// A text field that must be present.
pub open spec fn required_text(kind: EntryKind, t: Seq<(String, TomlValue)>, f: Field) -> Result<
    Seq<char>,
    Error,
> {
    match text_field(kind, t, f) {
        Ok(Some(s)) => Ok(s),
        Ok(None) => Err(Error::MissingField(f)),
        Err(e) => Err(e),
    }
}

pub open spec fn opt_view(o: Option<String>) -> Option<Seq<char>> {
    match o {
        Some(s) => Some(s@),
        None => None,
    }
}

pub open spec fn view_text(r: Result<Option<String>, Error>) -> Result<Option<Seq<char>>, Error> {
    match r {
        Ok(o) => Ok(opt_view(o)),
        Err(e) => Err(e),
    }
}

pub(crate) fn text_is(s: &String, lit: &str) -> (r: bool)
    ensures
        r == (s@ == lit@),
{
    let t = lit.to_owned();
    *s == t
}

fn field_for(kind: EntryKind, key: &String) -> (r: Option<Field>)
    ensures
        r == field_of(kind, key@),
{
    if text_is(key, "target") {
        return Some(Field::Target);
    }
    match kind {
        EntryKind::Document => {
            if text_is(key, "specs") || text_is(key, "spec") {
                Some(Field::Citations)
            } else if text_is(key, "exceptions") || text_is(key, "exception") {
                Some(Field::Exceptions)
            } else if text_is(key, "todos") || text_is(key, "todo") || text_is(key, "TODO") {
                Some(Field::Todos)
            } else {
                None
            }
        },
        EntryKind::Citation => {
            if text_is(key, "level") {
                Some(Field::Level)
            } else if text_is(key, "format") {
                Some(Field::Format)
            } else if text_is(key, "quote") {
                Some(Field::Quote)
            } else {
                None
            }
        },
        EntryKind::Exception => {
            if text_is(key, "quote") {
                Some(Field::Quote)
            } else if text_is(key, "reason") {
                Some(Field::Reason)
            } else {
                None
            }
        },
        EntryKind::Todo => {
            if text_is(key, "quote") {
                Some(Field::Quote)
            } else if text_is(key, "feature") {
                Some(Field::Feature)
            } else if text_is(key, "tracking-issue") || text_is(key, "tracking_issue") {
                Some(Field::TrackingIssue)
            } else if text_is(key, "reason") {
                Some(Field::Reason)
            } else if text_is(key, "tags") {
                Some(Field::Tags)
            } else {
                None
            }
        },
    }
}

fn names(kind: EntryKind, key: &String, f: Field) -> (r: bool)
    ensures
        r == (field_of(kind, key@) == Some(f)),
{
    match field_for(kind, key) {
        Some(g) => g == f,
        None => false,
    }
}

/// Checks that every key of `t` names a field, and no field twice.
pub fn check_keys(kind: EntryKind, t: &Vec<(String, TomlValue)>) -> (r: Result<(), Error>)
    ensures
        r is Ok <==> scan_error(kind, t@) is None,
        r matches Err(e) ==> scan_error(kind, t@) == Some(e),
{
    let mut i: usize = 0;
    while i < t.len()
        invariant
            i <= t.len(),
            scan_error(kind, t@.take(i as int)) is None,
        decreases t.len() - i,
    {
        let ghost pre = t@.take(i as int);
        let ghost cur = t@.take(i + 1);
        assert(cur.drop_last() =~= pre);
        let key = &t[i].0;
        match field_for(kind, key) {
            None => {
                assert(scan_error(kind, cur) == Some(Error::UnknownField(*key)));
                proof {
                    lemma_scan_error_sticks(kind, t@, i + 1);
                }
                return Err(Error::UnknownField(key.clone()));
            },
            Some(f) => {
                let mut j: usize = 0;
                while j < i
                    invariant
                        j <= i < t.len(),
                        cur == t@.take(i + 1),
                        pre == t@.take(i as int),
                        cur.drop_last() == pre,
                        scan_error(kind, pre) is None,
                        *key == t@[i as int].0,
                        field_of(kind, t@[i as int].0@) == Some(f),
                        forall|k: int| 0 <= k < j ==> field_of(kind, t@[k].0@) != Some(f),
                    decreases i - j,
                {
                    if names(kind, &t[j].0, f) {
                        assert(cur[j as int] == t@[j as int]);
                        assert(scan_error(kind, cur) == Some(Error::DuplicateField(*key)));
                        proof {
                            lemma_scan_error_sticks(kind, t@, i + 1);
                        }
                        return Err(Error::DuplicateField(key.clone()));
                    }
                    j = j + 1;
                }
                assert(!exists|k: int|
                    0 <= k < cur.len() - 1 && field_of(kind, cur[k].0@) == Some(f)) by {
                    assert forall|k: int| 0 <= k < cur.len() - 1 implies field_of(
                        kind,
                        cur[k].0@,
                    ) != Some(f) by {
                        assert(cur[k] == t@[k]);
                    }
                }
            },
        }
        i = i + 1;
    }
    assert(t@.take(t.len() as int) =~= t@);
    Ok(())
}

proof fn lemma_scan_error_sticks(kind: EntryKind, t: Seq<(String, TomlValue)>, n: int)
    requires
        0 <= n <= t.len(),
        scan_error(kind, t.take(n)) is Some,
    ensures
        scan_error(kind, t) == scan_error(kind, t.take(n)),
    decreases t.len() - n,
{
    if n == t.len() {
        assert(t.take(n) =~= t);
    } else {
        assert(t.take(n + 1).drop_last() =~= t.take(n));
        lemma_scan_error_sticks(kind, t, n + 1);
    }
}

/// The value that the first key of `t` naming `f` holds.
pub(crate) fn find_field(kind: EntryKind, t: &Vec<(String, TomlValue)>, f: Field) -> (r: Option<
    &TomlValue,
>)
    ensures
        match r {
            Some(v) => find(kind, t@, f) == Some(*v),
            None => find(kind, t@, f) is None,
        },
{
    let mut i: usize = 0;
    while i < t.len()
        invariant
            i <= t.len(),
            find(kind, t@.take(i as int), f) is None,
        decreases t.len() - i,
    {
        assert(t@.take(i + 1).drop_last() =~= t@.take(i as int));
        if names(kind, &t[i].0, f) {
            proof {
                lemma_find_sticks(kind, t@, f, i + 1);
            }
            return Some(&t[i].1);
        }
        i = i + 1;
    }
    assert(t@.take(t.len() as int) =~= t@);
    None
}

proof fn lemma_find_sticks(kind: EntryKind, t: Seq<(String, TomlValue)>, f: Field, n: int)
    requires
        0 <= n <= t.len(),
        find(kind, t.take(n), f) is Some,
    ensures
        find(kind, t, f) == find(kind, t.take(n), f),
    decreases t.len() - n,
{
    if n == t.len() {
        assert(t.take(n) =~= t);
    } else {
        assert(t.take(n + 1).drop_last() =~= t.take(n));
        lemma_find_sticks(kind, t, f, n + 1);
    }
}

pub(crate) fn read_text(kind: EntryKind, t: &Vec<(String, TomlValue)>, f: Field) -> (r: Result<
    Option<String>,
    Error,
>)
    ensures
        view_text(r) == text_field(kind, t@, f),
{
    match find_field(kind, t, f) {
        None => Ok(None),
        Some(TomlValue::Str(s)) => Ok(Some(s.clone())),
        Some(_) => Err(Error::InvalidType(f)),
    }
}

pub(crate) fn read_required(kind: EntryKind, t: &Vec<(String, TomlValue)>, f: Field) -> (r: Result<
    String,
    Error,
>)
    ensures
        match r {
            Ok(s) => required_text(kind, t@, f) == Ok::<Seq<char>, Error>(s@),
            Err(e) => required_text(kind, t@, f) == Err::<Seq<char>, Error>(e),
        },
{
    match read_text(kind, t, f) {
        Ok(Some(s)) => Ok(s),
        Ok(None) => Err(Error::MissingField(f)),
        Err(e) => Err(e),
    }
}

} // verus!
