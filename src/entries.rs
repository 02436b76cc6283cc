use vstd::prelude::*;
use crate::annotation::{
    contains_text, Annotation, AnnotationKind, AnnotationLevel, AnnotationView, Format, KindView,
};
use crate::document::{
    find, opt_view, read_required, read_text, required_text, text_field, check_keys, find_field,
    scan_error, text_is, EntryKind, Error, Field, TomlValue,
};
use crate::quote::{normalize_quote, normalized};

verus! {

/// A citation entry as declared.
#[derive(Debug)]
pub struct Spec {
    pub target: Option<String>,
    pub level: Option<String>,
    pub format: Option<String>,
    pub quote: String,
}

pub struct SpecView {
    pub target: Option<Seq<char>>,
    pub level: Option<Seq<char>>,
    pub format: Option<Seq<char>>,
    pub quote: Seq<char>,
}

impl View for Spec {
    type V = SpecView;

    open spec fn view(&self) -> SpecView {
        SpecView {
            target: opt_view(self.target),
            level: opt_view(self.level),
            format: opt_view(self.format),
            quote: self.quote@,
        }
    }
}

/// An exception entry as declared.
#[derive(Debug)]
pub struct Exception {
    pub target: Option<String>,
    pub quote: String,
    pub reason: String,
}

pub struct ExceptionView {
    pub target: Option<Seq<char>>,
    pub quote: Seq<char>,
    pub reason: Seq<char>,
}

impl View for Exception {
    type V = ExceptionView;

    open spec fn view(&self) -> ExceptionView {
        ExceptionView { target: opt_view(self.target), quote: self.quote@, reason: self.reason@ }
    }
}

/// A todo entry as declared; its tags hold each label once.
#[derive(Debug)]
pub struct Todo {
    pub target: Option<String>,
    pub quote: String,
    pub feature: Option<String>,
    pub tracking_issue: Option<String>,
    pub reason: Option<String>,
    pub tags: Vec<String>,
}

pub struct TodoView {
    pub target: Option<Seq<char>>,
    pub quote: Seq<char>,
    pub feature: Option<Seq<char>>,
    pub tracking_issue: Option<Seq<char>>,
    pub reason: Option<Seq<char>>,
    pub tags: Seq<Seq<char>>,
}

impl View for Todo {
    type V = TodoView;

    open spec fn view(&self) -> TodoView {
        TodoView {
            target: opt_view(self.target),
            quote: self.quote@,
            feature: opt_view(self.feature),
            tracking_issue: opt_view(self.tracking_issue),
            reason: opt_view(self.reason),
            tags: self.tags.deep_view(),
        }
    }
}

pub open spec fn level_of(l: Seq<char>) -> Option<AnnotationLevel> {
    if l == "AUTO"@ {
        Some(AnnotationLevel::Auto)
    } else if l == "MUST"@ {
        Some(AnnotationLevel::Must)
    } else if l == "SHOULD"@ {
        Some(AnnotationLevel::Should)
    } else if l == "MAY"@ {
        Some(AnnotationLevel::May)
    } else {
        None
    }
}

pub open spec fn format_of(l: Seq<char>) -> Option<Format> {
    if l == "AUTO"@ || l == "auto"@ {
        Some(Format::Auto)
    } else if l == "IETF"@ || l == "ietf"@ {
        Some(Format::Ietf)
    } else if l == "MARKDOWN"@ || l == "markdown"@ || l == "md"@ {
        Some(Format::Markdown)
    } else {
        None
    }
}

/// The entry's own target, else the default; absent or empty is no target.
pub open spec fn resolve_target(own: Option<Seq<char>>, default: Option<Seq<char>>) -> Option<
    Seq<char>,
> {
    let t = match own {
        Some(t) => Some(t),
        None => default,
    };
    match t {
        Some(t) => if t.len() > 0 {
            Some(t)
        } else {
            None
        },
        None => None,
    }
}

/// The record that a declaration file yields: its path as source and as
/// manifest directory, no position, and the quote normalized.
pub open spec fn declared(
    source: Seq<char>,
    target: Seq<char>,
    quote: Seq<char>,
    comment: Seq<char>,
    kind: KindView,
) -> AnnotationView {
    AnnotationView {
        source,
        anno_line: 0,
        anno_column: 0,
        item_line: 0,
        item_column: 0,
        path: Seq::empty(),
        target,
        quote: normalized(quote),
        comment,
        manifest_dir: source,
        kind,
    }
}

pub open spec fn citation_annotation(
    s: SpecView,
    source: Seq<char>,
    default: Option<Seq<char>>,
) -> Result<AnnotationView, Error> {
    match resolve_target(s.target, default) {
        None => Err(Error::MissingTarget),
        Some(target) => if normalized(s.quote).len() == 0 {
            Err(Error::EmptyQuote)
        } else {
            let level = match s.level {
                None => Some(AnnotationLevel::Auto),
                Some(l) => level_of(l),
            };
            let format = match s.format {
                None => Some(Format::Auto),
                Some(f) => format_of(f),
            };
            match level {
                None => Err(Error::InvalidLevel),
                Some(level) => match format {
                    None => Err(Error::InvalidFormat),
                    Some(format) => Ok(
                        declared(
                            source,
                            target,
                            s.quote,
                            s.quote,
                            KindView::Citation { level, format },
                        ),
                    ),
                },
            }
        },
    }
}

pub open spec fn exception_annotation(
    e: ExceptionView,
    source: Seq<char>,
    default: Option<Seq<char>>,
) -> Result<AnnotationView, Error> {
    match resolve_target(e.target, default) {
        None => Err(Error::MissingTarget),
        Some(target) => if normalized(e.quote).len() == 0 {
            Err(Error::EmptyQuote)
        } else {
            Ok(declared(source, target, e.quote, e.reason, KindView::Exception))
        },
    }
}

pub open spec fn or_empty(o: Option<Seq<char>>) -> Seq<char> {
    match o {
        Some(s) => s,
        None => Seq::empty(),
    }
}

pub open spec fn todo_annotation(
    t: TodoView,
    source: Seq<char>,
    default: Option<Seq<char>>,
) -> Result<AnnotationView, Error> {
    match resolve_target(t.target, default) {
        None => Err(Error::MissingTarget),
        Some(target) => Ok(
            declared(
                source,
                target,
                t.quote,
                or_empty(t.reason),
                KindView::Todo {
                    feature: or_empty(t.feature),
                    tracking_issue: or_empty(t.tracking_issue),
                    tags: t.tags.to_set(),
                },
            ),
        ),
    }
}

pub open spec fn view_annotation(r: Result<Annotation, Error>) -> Result<AnnotationView, Error> {
    match r {
        Ok(a) => Ok(a@),
        Err(e) => Err(e),
    }
}

fn resolve(own: Option<String>, default_target: &Option<String>) -> (r: Result<String, Error>)
    ensures
        match r {
            Ok(t) => resolve_target(opt_view(own), opt_view(*default_target)) == Some(t@),
            Err(e) => resolve_target(opt_view(own), opt_view(*default_target)) is None && e
                == Error::MissingTarget,
        },
{
    let t = match own {
        Some(t) => Some(t),
        None => match default_target {
            Some(d) => Some(d.clone()),
            None => None,
        },
    };
    match t {
        Some(t) => {
            if t.as_str().is_empty() {
                Err(Error::MissingTarget)
            } else {
                Ok(t)
            }
        },
        None => Err(Error::MissingTarget),
    }
}

/// Reads a compliance level label.
pub fn parse_level(l: &String) -> (r: Option<AnnotationLevel>)
    ensures
        r == level_of(l@),
{
    if text_is(l, "AUTO") {
        Some(AnnotationLevel::Auto)
    } else if text_is(l, "MUST") {
        Some(AnnotationLevel::Must)
    } else if text_is(l, "SHOULD") {
        Some(AnnotationLevel::Should)
    } else if text_is(l, "MAY") {
        Some(AnnotationLevel::May)
    } else {
        None
    }
}

/// Reads a quote format label.
pub fn parse_format(l: &String) -> (r: Option<Format>)
    ensures
        r == format_of(l@),
{
    if text_is(l, "AUTO") || text_is(l, "auto") {
        Some(Format::Auto)
    } else if text_is(l, "IETF") || text_is(l, "ietf") {
        Some(Format::Ietf)
    } else if text_is(l, "MARKDOWN") || text_is(l, "markdown") || text_is(l, "md") {
        Some(Format::Markdown)
    } else {
        None
    }
}

fn declared_record(
    source: String,
    target: String,
    raw: &String,
    quote: String,
    comment: String,
    kind: AnnotationKind,
) -> (r: Annotation)
    requires
        quote@ == normalized(raw@),
    ensures
        r@ == declared(source@, target@, raw@, comment@, kind@),
{
    let manifest_dir = source.clone();
    Annotation {
        source,
        anno_line: 0,
        anno_column: 0,
        item_line: 0,
        item_column: 0,
        path: String::new(),
        target,
        quote,
        comment,
        manifest_dir,
        kind,
    }
}

impl Spec {
    /// The citation this entry declares, in the file `source`.
    pub fn into_annotation(self, source: String, default_target: &Option<String>) -> (r: Result<
        Annotation,
        Error,
    >)
        ensures
            view_annotation(r) == citation_annotation(self@, source@, opt_view(*default_target)),
    {
        let target = match resolve(self.target, default_target) {
            Ok(t) => t,
            Err(e) => return Err(e),
        };
        let quote = normalize_quote(self.quote.as_str());
        if quote.as_str().is_empty() {
            return Err(Error::EmptyQuote);
        }
        let level = match &self.level {
            None => AnnotationLevel::Auto,
            Some(l) => match parse_level(l) {
                Some(l) => l,
                None => return Err(Error::InvalidLevel),
            },
        };
        let format = match &self.format {
            None => Format::Auto,
            Some(f) => match parse_format(f) {
                Some(f) => f,
                None => return Err(Error::InvalidFormat),
            },
        };
        let comment = self.quote.clone();
        Ok(
            declared_record(
                source,
                target,
                &self.quote,
                quote,
                comment,
                AnnotationKind::Citation { level, format },
            ),
        )
    }
}

impl Exception {
    /// The exception this entry declares, in the file `source`.
    pub fn into_annotation(self, source: String, default_target: &Option<String>) -> (r: Result<
        Annotation,
        Error,
    >)
        ensures
            view_annotation(r) == exception_annotation(self@, source@, opt_view(*default_target)),
    {
        let target = match resolve(self.target, default_target) {
            Ok(t) => t,
            Err(e) => return Err(e),
        };
        let quote = normalize_quote(self.quote.as_str());
        if quote.as_str().is_empty() {
            return Err(Error::EmptyQuote);
        }
        Ok(
            declared_record(
                source,
                target,
                &self.quote,
                quote,
                self.reason,
                AnnotationKind::Exception,
            ),
        )
    }
}

fn text_or_empty(o: Option<String>) -> (r: String)
    ensures
        r@ == or_empty(opt_view(o)),
{
    match o {
        Some(s) => s,
        None => String::new(),
    }
}

impl Todo {
    /// The todo this entry declares, in the file `source`.
    pub fn into_annotation(self, source: String, default_target: &Option<String>) -> (r: Result<
        Annotation,
        Error,
    >)
        ensures
            view_annotation(r) == todo_annotation(self@, source@, opt_view(*default_target)),
    {
        let target = match resolve(self.target, default_target) {
            Ok(t) => t,
            Err(e) => return Err(e),
        };
        let kind = AnnotationKind::Todo {
            feature: text_or_empty(self.feature),
            tracking_issue: text_or_empty(self.tracking_issue),
            tags: self.tags,
        };
        let quote = normalize_quote(self.quote.as_str());
        Ok(declared_record(source, target, &self.quote, quote, text_or_empty(self.reason), kind))
    }
}

/// The citation entry that `e` declares.
pub open spec fn citation_entry(e: TomlValue) -> Result<SpecView, Error> {
    match e {
        TomlValue::Table(tv) => {
            let k = EntryKind::Citation;
            let t = tv@;
            match scan_error(k, t) {
                Some(err) => Err(err),
                None => match text_field(k, t, Field::Target) {
                    Err(err) => Err(err),
                    Ok(target) => match text_field(k, t, Field::Level) {
                        Err(err) => Err(err),
                        Ok(level) => match text_field(k, t, Field::Format) {
                            Err(err) => Err(err),
                            Ok(format) => match required_text(k, t, Field::Quote) {
                                Err(err) => Err(err),
                                Ok(quote) => Ok(SpecView { target, level, format, quote }),
                            },
                        },
                    },
                },
            }
        },
        _ => Err(Error::NotATable),
    }
}

/// The exception entry that `e` declares.
pub open spec fn exception_entry(e: TomlValue) -> Result<ExceptionView, Error> {
    match e {
        TomlValue::Table(tv) => {
            let k = EntryKind::Exception;
            let t = tv@;
            match scan_error(k, t) {
                Some(err) => Err(err),
                None => match text_field(k, t, Field::Target) {
                    Err(err) => Err(err),
                    Ok(target) => match required_text(k, t, Field::Quote) {
                        Err(err) => Err(err),
                        Ok(quote) => match required_text(k, t, Field::Reason) {
                            Err(err) => Err(err),
                            Ok(reason) => Ok(ExceptionView { target, quote, reason }),
                        },
                    },
                },
            }
        },
        _ => Err(Error::NotATable),
    }
}

pub open spec fn text_of(v: TomlValue) -> Seq<char> {
    match v {
        TomlValue::Str(s) => s@,
        _ => Seq::empty(),
    }
}

/// `s` with each item after its first occurrence left out.
pub open spec fn dedup(s: Seq<Seq<char>>) -> Seq<Seq<char>>
    decreases s.len(),
{
    if s.len() == 0 {
        s
    } else {
        let d = dedup(s.drop_last());
        if d.contains(s.last()) {
            d
        } else {
            d.push(s.last())
        }
    }
}

/// The tags of a todo table: a list of strings, each kept once.
pub open spec fn tags_field(t: Seq<(String, TomlValue)>) -> Result<Seq<Seq<char>>, Error> {
    match find(EntryKind::Todo, t, Field::Tags) {
        None => Ok(Seq::empty()),
        Some(TomlValue::Array(v)) => if forall|i: int|
            0 <= i < v@.len() ==> v@[i] is Str {
            Ok(dedup(v@.map_values(|x: TomlValue| text_of(x))))
        } else {
            Err(Error::InvalidType(Field::Tags))
        },
        Some(_) => Err(Error::InvalidType(Field::Tags)),
    }
}

/// The todo entry that `e` declares.
pub open spec fn todo_entry(e: TomlValue) -> Result<TodoView, Error> {
    match e {
        TomlValue::Table(tv) => {
            let k = EntryKind::Todo;
            let t = tv@;
            match scan_error(k, t) {
                Some(err) => Err(err),
                None => match text_field(k, t, Field::Target) {
                    Err(err) => Err(err),
                    Ok(target) => match required_text(k, t, Field::Quote) {
                        Err(err) => Err(err),
                        Ok(quote) => match text_field(k, t, Field::Feature) {
                            Err(err) => Err(err),
                            Ok(feature) => match text_field(k, t, Field::TrackingIssue) {
                                Err(err) => Err(err),
                                Ok(tracking_issue) => match text_field(k, t, Field::Reason) {
                                    Err(err) => Err(err),
                                    Ok(reason) => match tags_field(t) {
                                        Err(err) => Err(err),
                                        Ok(tags) => Ok(
                                            TodoView {
                                                target,
                                                quote,
                                                feature,
                                                tracking_issue,
                                                reason,
                                                tags,
                                            },
                                        ),
                                    },
                                },
                            },
                        },
                    },
                },
            }
        },
        _ => Err(Error::NotATable),
    }
}

fn read_tags(t: &Vec<(String, TomlValue)>) -> (r: Result<Vec<String>, Error>)
    ensures
        match r {
            Ok(v) => tags_field(t@) == Ok::<Seq<Seq<char>>, Error>(v.deep_view()),
            Err(e) => tags_field(t@) == Err::<Seq<Seq<char>>, Error>(e),
        },
{
    match find_field(EntryKind::Todo, t, Field::Tags) {
        None => {
            let r: Vec<String> = Vec::new();
            assert(r.deep_view() =~= Seq::<Seq<char>>::empty());
            Ok(r)
        },
        Some(TomlValue::Array(v)) => {
            let ghost texts = v@.map_values(|x: TomlValue| text_of(x));
            let mut out: Vec<String> = Vec::new();
            let mut i: usize = 0;
            assert(out.deep_view() =~= dedup(texts.take(0)));
            while i < v.len()
                invariant
                    i <= v.len(),
                    find(EntryKind::Todo, t@, Field::Tags) == Some(TomlValue::Array(*v)),
                    texts == v@.map_values(|x: TomlValue| text_of(x)),
                    forall|k: int| 0 <= k < i ==> v@[k] is Str,
                    out.deep_view() == dedup(texts.take(i as int)),
                decreases v.len() - i,
            {
                assert(texts.take(i + 1).drop_last() =~= texts.take(i as int));
                match &v[i] {
                    TomlValue::Str(s) => {
                        assert(texts.take(i + 1).last() == s@);
                        if !contains_text(&out, s) {
                            out.push(s.clone());
                            assert(out.deep_view() =~= dedup(texts.take(i as int)).push(s@));
                        }
                    },
                    _ => {
                        assert(!(v@[i as int] is Str));
                        return Err(Error::InvalidType(Field::Tags));
                    },
                }
                i = i + 1;
            }
            assert(texts.take(v.len() as int) =~= texts);
            Ok(out)
        },
        Some(_) => Err(Error::InvalidType(Field::Tags)),
    }
}

impl Spec {
    /// Reads a citation entry, rejecting keys that it does not know.
    pub fn from_entry(e: &TomlValue) -> (r: Result<Spec, Error>)
        ensures
            match r {
                Ok(s) => citation_entry(*e) == Ok::<SpecView, Error>(s@),
                Err(err) => citation_entry(*e) == Err::<SpecView, Error>(err),
            },
    {
        let t = match e {
            TomlValue::Table(t) => t,
            _ => return Err(Error::NotATable),
        };
        let k = EntryKind::Citation;
        if let Err(err) = check_keys(k, t) {
            return Err(err);
        }
        let target = match read_text(k, t, Field::Target) {
            Ok(x) => x,
            Err(err) => return Err(err),
        };
        let level = match read_text(k, t, Field::Level) {
            Ok(x) => x,
            Err(err) => return Err(err),
        };
        let format = match read_text(k, t, Field::Format) {
            Ok(x) => x,
            Err(err) => return Err(err),
        };
        let quote = match read_required(k, t, Field::Quote) {
            Ok(x) => x,
            Err(err) => return Err(err),
        };
        Ok(Spec { target, level, format, quote })
    }
}

impl Exception {
    /// Reads an exception entry, rejecting keys that it does not know.
    pub fn from_entry(e: &TomlValue) -> (r: Result<Exception, Error>)
        ensures
            match r {
                Ok(x) => exception_entry(*e) == Ok::<ExceptionView, Error>(x@),
                Err(err) => exception_entry(*e) == Err::<ExceptionView, Error>(err),
            },
    {
        let t = match e {
            TomlValue::Table(t) => t,
            _ => return Err(Error::NotATable),
        };
        let k = EntryKind::Exception;
        if let Err(err) = check_keys(k, t) {
            return Err(err);
        }
        let target = match read_text(k, t, Field::Target) {
            Ok(x) => x,
            Err(err) => return Err(err),
        };
        let quote = match read_required(k, t, Field::Quote) {
            Ok(x) => x,
            Err(err) => return Err(err),
        };
        let reason = match read_required(k, t, Field::Reason) {
            Ok(x) => x,
            Err(err) => return Err(err),
        };
        Ok(Exception { target, quote, reason })
    }
}

impl Todo {
    /// Reads a todo entry, rejecting keys that it does not know.
    pub fn from_entry(e: &TomlValue) -> (r: Result<Todo, Error>)
        ensures
            match r {
                Ok(x) => todo_entry(*e) == Ok::<TodoView, Error>(x@),
                Err(err) => todo_entry(*e) == Err::<TodoView, Error>(err),
            },
    {
        let t = match e {
            TomlValue::Table(t) => t,
            _ => return Err(Error::NotATable),
        };
        let k = EntryKind::Todo;
        if let Err(err) = check_keys(k, t) {
            return Err(err);
        }
        let target = match read_text(k, t, Field::Target) {
            Ok(x) => x,
            Err(err) => return Err(err),
        };
        let quote = match read_required(k, t, Field::Quote) {
            Ok(x) => x,
            Err(err) => return Err(err),
        };
        let feature = match read_text(k, t, Field::Feature) {
            Ok(x) => x,
            Err(err) => return Err(err),
        };
        let tracking_issue = match read_text(k, t, Field::TrackingIssue) {
            Ok(x) => x,
            Err(err) => return Err(err),
        };
        let reason = match read_text(k, t, Field::Reason) {
            Ok(x) => x,
            Err(err) => return Err(err),
        };
        let tags = match read_tags(t) {
            Ok(x) => x,
            Err(err) => return Err(err),
        };
        Ok(Todo { target, quote, feature, tracking_issue, reason, tags })
    }
}

proof fn lemma_dedup(s: Seq<Seq<char>>)
    ensures
        dedup(s).no_duplicates(),
        dedup(s).to_set() == s.to_set(),
    decreases s.len(),
{
    if s.len() > 0 {
        let p = s.drop_last();
        lemma_dedup(p);
        let d = dedup(p);
        d.lemma_push_to_set_commute(s.last());
        p.lemma_push_to_set_commute(s.last());
        assert(p.push(s.last()) =~= s);
        if d.contains(s.last()) {
            assert(d.to_set().contains(s.last()));
            assert(p.to_set().insert(s.last()) =~= p.to_set());
        }
    } else {
        assert(s.to_set() =~= Set::<Seq<char>>::empty());
    }
}

/// A todo keeps each label of its tag list once: its tags hold no
/// duplicate, and as a set they are the labels listed.
pub proof fn lemma_todo_tags(e: TomlValue)
    ensures
        todo_entry(e) is Ok ==> todo_entry(e)->Ok_0.tags.no_duplicates(),
        todo_entry(e) is Ok && find(EntryKind::Todo, e->Table_0@, Field::Tags) is None
            ==> todo_entry(e)->Ok_0.tags.len() == 0,
        todo_entry(e) is Ok && find(EntryKind::Todo, e->Table_0@, Field::Tags) is Some && find(
            EntryKind::Todo,
            e->Table_0@,
            Field::Tags,
        )->0 is Array ==> todo_entry(e)->Ok_0.tags.to_set() == find(
            EntryKind::Todo,
            e->Table_0@,
            Field::Tags,
        )->0->Array_0@.map_values(|x: TomlValue| text_of(x)).to_set(),
{
    if todo_entry(e) is Ok {
        if let Some(TomlValue::Array(v)) = find(EntryKind::Todo, e->Table_0@, Field::Tags) {
            lemma_dedup(v@.map_values(|x: TomlValue| text_of(x)));
        }
    }
}

} // verus!
