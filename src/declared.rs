use vstd::prelude::*;
use crate::annotation::{is_unplaced, AnnotationSet, AnnotationView};
use crate::quote::{lemma_normalize_idempotent, normalized};
use crate::document::{
    check_keys, field_of, find, find_field, opt_view, read_text, scan_error, text_field, EntryKind,
    Error, Field, TomlValue,
};
use crate::entries::{
    citation_annotation, citation_entry, exception_annotation, exception_entry, or_empty,
    resolve_target, todo_annotation, todo_entry, Exception, ExceptionView, Spec, SpecView, Todo,
    TodoView,
};

verus! {

/// A declaration document: an optional default target and three lists of
/// entries.
#[derive(Debug)]
pub struct Specs {
    pub target: Option<String>,
    pub specs: Vec<Spec>,
    pub exceptions: Vec<Exception>,
    pub todos: Vec<Todo>,
}

pub struct SpecsView {
    pub target: Option<Seq<char>>,
    pub specs: Seq<SpecView>,
    pub exceptions: Seq<ExceptionView>,
    pub todos: Seq<TodoView>,
}

impl View for Specs {
    type V = SpecsView;

    open spec fn view(&self) -> SpecsView {
        SpecsView {
            target: opt_view(self.target),
            specs: self.specs@.map_values(|s: Spec| s@),
            exceptions: self.exceptions@.map_values(|x: Exception| x@),
            todos: self.todos@.map_values(|x: Todo| x@),
        }
    }
}

pub enum EntryView {
    Citation(SpecView),
    Exception(ExceptionView),
    Todo(TodoView),
}

/// Every entry of a document: citations, then exceptions, then todos.
pub open spec fn entries_of(d: SpecsView) -> Seq<EntryView> {
    d.specs.map_values(|s: SpecView| EntryView::Citation(s)) + d.exceptions.map_values(
        |x: ExceptionView| EntryView::Exception(x),
    ) + d.todos.map_values(|x: TodoView| EntryView::Todo(x))
}

pub open spec fn entry_annotation(
    e: EntryView,
    source: Seq<char>,
    default: Option<Seq<char>>,
) -> Result<AnnotationView, Error> {
    match e {
        EntryView::Citation(s) => citation_annotation(s, source, default),
        EntryView::Exception(x) => exception_annotation(x, source, default),
        EntryView::Todo(x) => todo_annotation(x, source, default),
    }
}

/// The records of all entries, or the error of the first entry that fails.
pub open spec fn annotate_all(
    es: Seq<EntryView>,
    source: Seq<char>,
    default: Option<Seq<char>>,
) -> Result<Set<AnnotationView>, Error>
    decreases es.len(),
{
    if es.len() == 0 {
        Ok(Set::empty())
    } else {
        match annotate_all(es.drop_last(), source, default) {
            Err(e) => Err(e),
            Ok(s) => match entry_annotation(es.last(), source, default) {
                Err(e) => Err(e),
                Ok(a) => Ok(s.insert(a)),
            },
        }
    }
}

/// A list field of the document: absent (no entries) or an array.
pub open spec fn list_field(t: Seq<(String, TomlValue)>, f: Field) -> Result<Seq<TomlValue>, Error> {
    match find(EntryKind::Document, t, f) {
        None => Ok(Seq::empty()),
        Some(TomlValue::Array(v)) => Ok(v@),
        Some(_) => Err(Error::InvalidType(f)),
    }
}

pub open spec fn citation_entries(v: Seq<TomlValue>) -> Result<Seq<SpecView>, Error>
    decreases v.len(),
{
    if v.len() == 0 {
        Ok(Seq::empty())
    } else {
        match citation_entries(v.drop_last()) {
            Err(e) => Err(e),
            Ok(s) => match citation_entry(v.last()) {
                Err(e) => Err(e),
                Ok(x) => Ok(s.push(x)),
            },
        }
    }
}

pub open spec fn exception_entries(v: Seq<TomlValue>) -> Result<Seq<ExceptionView>, Error>
    decreases v.len(),
{
    if v.len() == 0 {
        Ok(Seq::empty())
    } else {
        match exception_entries(v.drop_last()) {
            Err(e) => Err(e),
            Ok(s) => match exception_entry(v.last()) {
                Err(e) => Err(e),
                Ok(x) => Ok(s.push(x)),
            },
        }
    }
}

pub open spec fn todo_entries(v: Seq<TomlValue>) -> Result<Seq<TodoView>, Error>
    decreases v.len(),
{
    if v.len() == 0 {
        Ok(Seq::empty())
    } else {
        match todo_entries(v.drop_last()) {
            Err(e) => Err(e),
            Ok(s) => match todo_entry(v.last()) {
                Err(e) => Err(e),
                Ok(x) => Ok(s.push(x)),
            },
        }
    }
}

/// The declaration document that `doc` holds.
pub open spec fn document(doc: TomlValue) -> Result<SpecsView, Error> {
    match doc {
        TomlValue::Table(tv) => {
            let k = EntryKind::Document;
            let t = tv@;
            match scan_error(k, t) {
                Some(err) => Err(err),
                None => match text_field(k, t, Field::Target) {
                    Err(err) => Err(err),
                    Ok(target) => match list_field(t, Field::Citations) {
                        Err(err) => Err(err),
                        Ok(cv) => match citation_entries(cv) {
                            Err(err) => Err(err),
                            Ok(specs) => match list_field(t, Field::Exceptions) {
                                Err(err) => Err(err),
                                Ok(ev) => match exception_entries(ev) {
                                    Err(err) => Err(err),
                                    Ok(exceptions) => match list_field(t, Field::Todos) {
                                        Err(err) => Err(err),
                                        Ok(tv) => match todo_entries(tv) {
                                            Err(err) => Err(err),
                                            Ok(todos) => Ok(
                                                SpecsView { target, specs, exceptions, todos },
                                            ),
                                        },
                                    },
                                },
                            },
                        },
                    },
                },
            }
        },
        _ => Err(Error::NotATable),
    }
}

/// What a declaration file holding `doc` yields, read from `source`.
pub open spec fn declared_set(doc: TomlValue, source: Seq<char>) -> Result<
    Set<AnnotationView>,
    Error,
> {
    match document(doc) {
        Err(e) => Err(e),
        Ok(d) => annotate_all(entries_of(d), source, d.target),
    }
}

pub open spec fn view_set(r: Result<AnnotationSet, Error>) -> Result<Set<AnnotationView>, Error> {
    match r {
        Ok(s) => Ok(s@),
        Err(e) => Err(e),
    }
}

fn read_list(t: &Vec<(String, TomlValue)>, f: Field) -> (r: Result<Option<&Vec<TomlValue>>, Error>)
    ensures
        match r {
            Ok(Some(v)) => list_field(t@, f) == Ok::<Seq<TomlValue>, Error>(v@),
            Ok(None) => list_field(t@, f) == Ok::<Seq<TomlValue>, Error>(Seq::empty()),
            Err(e) => list_field(t@, f) == Err::<Seq<TomlValue>, Error>(e),
        },
{
    match find_field(EntryKind::Document, t, f) {
        None => Ok(None),
        Some(TomlValue::Array(v)) => Ok(Some(v)),
        Some(_) => Err(Error::InvalidType(f)),
    }
}

fn read_citations(v: &Vec<TomlValue>) -> (r: Result<Vec<Spec>, Error>)
    ensures
        match r {
            Ok(s) => citation_entries(v@) == Ok::<Seq<SpecView>, Error>(
                s@.map_values(|x: Spec| x@),
            ),
            Err(e) => citation_entries(v@) == Err::<Seq<SpecView>, Error>(e),
        },
{
    let mut out: Vec<Spec> = Vec::new();
    let mut i: usize = 0;
    assert(v@.take(0) =~= Seq::<TomlValue>::empty());
    assert(out@.map_values(|x: Spec| x@) =~= Seq::<SpecView>::empty());
    while i < v.len()
        invariant
            i <= v.len(),
            citation_entries(v@.take(i as int)) == Ok::<Seq<SpecView>, Error>(
                out@.map_values(|x: Spec| x@),
            ),
        decreases v.len() - i,
    {
        assert(v@.take(i + 1).drop_last() =~= v@.take(i as int));
        match Spec::from_entry(&v[i]) {
            Ok(x) => {
                let ghost pre = out@;
                out.push(x);
                assert(out@.map_values(|x: Spec| x@) =~= pre.map_values(|x: Spec| x@).push(x@));
            },
            Err(e) => {
                proof {
                    lemma_citations_fail(v@, i + 1);
                }
                return Err(e);
            },
        }
        i = i + 1;
    }
    assert(v@.take(v.len() as int) =~= v@);
    Ok(out)
}

proof fn lemma_citations_fail(v: Seq<TomlValue>, n: int)
    requires
        0 <= n <= v.len(),
        citation_entries(v.take(n)) is Err,
    ensures
        citation_entries(v) == citation_entries(v.take(n)),
    decreases v.len() - n,
{
    if n == v.len() {
        assert(v.take(n) =~= v);
    } else {
        assert(v.take(n + 1).drop_last() =~= v.take(n));
        lemma_citations_fail(v, n + 1);
    }
}

fn read_exceptions(v: &Vec<TomlValue>) -> (r: Result<Vec<Exception>, Error>)
    ensures
        match r {
            Ok(s) => exception_entries(v@) == Ok::<Seq<ExceptionView>, Error>(
                s@.map_values(|x: Exception| x@),
            ),
            Err(e) => exception_entries(v@) == Err::<Seq<ExceptionView>, Error>(e),
        },
{
    let mut out: Vec<Exception> = Vec::new();
    let mut i: usize = 0;
    assert(v@.take(0) =~= Seq::<TomlValue>::empty());
    assert(out@.map_values(|x: Exception| x@) =~= Seq::<ExceptionView>::empty());
    while i < v.len()
        invariant
            i <= v.len(),
            exception_entries(v@.take(i as int)) == Ok::<Seq<ExceptionView>, Error>(
                out@.map_values(|x: Exception| x@),
            ),
        decreases v.len() - i,
    {
        assert(v@.take(i + 1).drop_last() =~= v@.take(i as int));
        match Exception::from_entry(&v[i]) {
            Ok(x) => {
                let ghost pre = out@;
                out.push(x);
                assert(out@.map_values(|x: Exception| x@) =~= pre.map_values(
                    |x: Exception| x@,
                ).push(x@));
            },
            Err(e) => {
                proof {
                    lemma_exceptions_fail(v@, i + 1);
                }
                return Err(e);
            },
        }
        i = i + 1;
    }
    assert(v@.take(v.len() as int) =~= v@);
    Ok(out)
}

proof fn lemma_exceptions_fail(v: Seq<TomlValue>, n: int)
    requires
        0 <= n <= v.len(),
        exception_entries(v.take(n)) is Err,
    ensures
        exception_entries(v) == exception_entries(v.take(n)),
    decreases v.len() - n,
{
    if n == v.len() {
        assert(v.take(n) =~= v);
    } else {
        assert(v.take(n + 1).drop_last() =~= v.take(n));
        lemma_exceptions_fail(v, n + 1);
    }
}

fn read_todos(v: &Vec<TomlValue>) -> (r: Result<Vec<Todo>, Error>)
    ensures
        match r {
            Ok(s) => todo_entries(v@) == Ok::<Seq<TodoView>, Error>(s@.map_values(|x: Todo| x@)),
            Err(e) => todo_entries(v@) == Err::<Seq<TodoView>, Error>(e),
        },
{
    let mut out: Vec<Todo> = Vec::new();
    let mut i: usize = 0;
    assert(v@.take(0) =~= Seq::<TomlValue>::empty());
    assert(out@.map_values(|x: Todo| x@) =~= Seq::<TodoView>::empty());
    while i < v.len()
        invariant
            i <= v.len(),
            todo_entries(v@.take(i as int)) == Ok::<Seq<TodoView>, Error>(
                out@.map_values(|x: Todo| x@),
            ),
        decreases v.len() - i,
    {
        assert(v@.take(i + 1).drop_last() =~= v@.take(i as int));
        match Todo::from_entry(&v[i]) {
            Ok(x) => {
                let ghost pre = out@;
                out.push(x);
                assert(out@.map_values(|x: Todo| x@) =~= pre.map_values(|x: Todo| x@).push(x@));
            },
            Err(e) => {
                proof {
                    lemma_todos_fail(v@, i + 1);
                }
                return Err(e);
            },
        }
        i = i + 1;
    }
    assert(v@.take(v.len() as int) =~= v@);
    Ok(out)
}

proof fn lemma_todos_fail(v: Seq<TomlValue>, n: int)
    requires
        0 <= n <= v.len(),
        todo_entries(v.take(n)) is Err,
    ensures
        todo_entries(v) == todo_entries(v.take(n)),
    decreases v.len() - n,
{
    if n == v.len() {
        assert(v.take(n) =~= v);
    } else {
        assert(v.take(n + 1).drop_last() =~= v.take(n));
        lemma_todos_fail(v, n + 1);
    }
}

impl Specs {
    /// Reads a declaration document, rejecting keys that it does not know.
    pub fn from_document(doc: &TomlValue) -> (r: Result<Specs, Error>)
        ensures
            match r {
                Ok(d) => document(*doc) == Ok::<SpecsView, Error>(d@),
                Err(e) => document(*doc) == Err::<SpecsView, Error>(e),
            },
    {
        let t = match doc {
            TomlValue::Table(t) => t,
            _ => return Err(Error::NotATable),
        };
        let k = EntryKind::Document;
        if let Err(err) = check_keys(k, t) {
            return Err(err);
        }
        let target = match read_text(k, t, Field::Target) {
            Ok(x) => x,
            Err(err) => return Err(err),
        };
        let cv = match read_list(t, Field::Citations) {
            Ok(x) => x,
            Err(err) => return Err(err),
        };
        let specs = match cv {
            Some(v) => match read_citations(v) {
                Ok(x) => x,
                Err(err) => return Err(err),
            },
            None => {
                let none: Vec<Spec> = Vec::new();
                assert(none@.map_values(|x: Spec| x@) =~= Seq::<SpecView>::empty());
                none
            },
        };
        let ev = match read_list(t, Field::Exceptions) {
            Ok(x) => x,
            Err(err) => return Err(err),
        };
        let exceptions = match ev {
            Some(v) => match read_exceptions(v) {
                Ok(x) => x,
                Err(err) => return Err(err),
            },
            None => {
                let none: Vec<Exception> = Vec::new();
                assert(none@.map_values(|x: Exception| x@) =~= Seq::<ExceptionView>::empty());
                none
            },
        };
        let tv = match read_list(t, Field::Todos) {
            Ok(x) => x,
            Err(err) => return Err(err),
        };
        let todos = match tv {
            Some(v) => match read_todos(v) {
                Ok(x) => x,
                Err(err) => return Err(err),
            },
            None => {
                let none: Vec<Todo> = Vec::new();
                assert(none@.map_values(|x: Todo| x@) =~= Seq::<TodoView>::empty());
                none
            },
        };
        Ok(Specs { target, specs, exceptions, todos })
    }
}

impl Specs {
    /// The records of every entry, each inheriting the document's target
    /// where it has none; the first entry that fails fails the whole.
    pub fn into_annotations(self, source: &String) -> (r: Result<AnnotationSet, Error>)
        ensures
            view_set(r) == annotate_all(entries_of(self@), source@, self@.target),
            r matches Ok(s) ==> s.wf(),
    {
        let ghost d = self@;
        let ghost all = entries_of(d);
        let Specs { target, specs, exceptions, todos } = self;
        let ghost ns = specs@.len();
        let ghost ne = exceptions@.len();
        let ghost nt = todos@.len();
        let mut set = AnnotationSet::new();
        let ghost mut n: int = 0;
        assert(all.take(0) =~= Seq::<EntryView>::empty());
        let mut specs = specs;
        let ghost orig_specs = specs@;
        let ghost mut j: int = 0;
        while specs.len() > 0
            invariant
                all == entries_of(d),
                d == self@,
                ns == d.specs.len(),
                ne == d.exceptions.len(),
                nt == d.todos.len(),
                all.len() == ns + ne + nt,
                d.target == opt_view(target),
                d.specs == orig_specs.map_values(|x: Spec| x@),
                n == 0 + j,
                0 <= j,
                j + specs.len() == orig_specs.len(),
                specs@ == orig_specs.skip(j),
                set.wf(),
                annotate_all(all.take(n), source@, d.target) == Ok::<
                    Set<AnnotationView>,
                    Error,
                >(set@),
            decreases specs.len(),
        {
            let x = specs.remove(0);
            proof {
                assert(orig_specs.skip(j + 1) =~= orig_specs.skip(j).remove(0));
                assert(x == orig_specs[j]);
                assert(d.specs[j] == x@);
                assert(all[n] == EntryView::Citation(x@));
                lemma_annotate_step(all, n, source@, d.target);
            }
            match x.into_annotation(source.clone(), &target) {
                Ok(a) => set.insert(a),
                Err(e) => {
                    proof {
                        assert(entry_annotation(all[n], source@, d.target) == Err::<
                            AnnotationView,
                            Error,
                        >(e));
                        assert(annotate_all(all.take(n + 1), source@, d.target) == Err::<
                            Set<AnnotationView>,
                            Error,
                        >(e));
                        lemma_annotate_fail(all, n + 1, source@, d.target);
                    }
                    return Err(e);
                },
            }
            proof {
                j = j + 1;
                n = n + 1;
            }
        }
        let mut exceptions = exceptions;
        let ghost orig_exceptions = exceptions@;
        let ghost mut j: int = 0;
        while exceptions.len() > 0
            invariant
                all == entries_of(d),
                d == self@,
                ns == d.specs.len(),
                ne == d.exceptions.len(),
                nt == d.todos.len(),
                all.len() == ns + ne + nt,
                d.target == opt_view(target),
                d.exceptions == orig_exceptions.map_values(|x: Exception| x@),
                n == ns + j,
                0 <= j,
                j + exceptions.len() == orig_exceptions.len(),
                exceptions@ == orig_exceptions.skip(j),
                set.wf(),
                annotate_all(all.take(n), source@, d.target) == Ok::<
                    Set<AnnotationView>,
                    Error,
                >(set@),
            decreases exceptions.len(),
        {
            let x = exceptions.remove(0);
            proof {
                assert(orig_exceptions.skip(j + 1) =~= orig_exceptions.skip(j).remove(0));
                assert(x == orig_exceptions[j]);
                assert(d.exceptions[j] == x@);
                assert(all[n] == EntryView::Exception(x@));
                lemma_annotate_step(all, n, source@, d.target);
            }
            match x.into_annotation(source.clone(), &target) {
                Ok(a) => set.insert(a),
                Err(e) => {
                    proof {
                        assert(entry_annotation(all[n], source@, d.target) == Err::<
                            AnnotationView,
                            Error,
                        >(e));
                        assert(annotate_all(all.take(n + 1), source@, d.target) == Err::<
                            Set<AnnotationView>,
                            Error,
                        >(e));
                        lemma_annotate_fail(all, n + 1, source@, d.target);
                    }
                    return Err(e);
                },
            }
            proof {
                j = j + 1;
                n = n + 1;
            }
        }
        let mut todos = todos;
        let ghost orig_todos = todos@;
        let ghost mut j: int = 0;
        while todos.len() > 0
            invariant
                all == entries_of(d),
                d == self@,
                ns == d.specs.len(),
                ne == d.exceptions.len(),
                nt == d.todos.len(),
                all.len() == ns + ne + nt,
                d.target == opt_view(target),
                d.todos == orig_todos.map_values(|x: Todo| x@),
                n == ns + ne + j,
                0 <= j,
                j + todos.len() == orig_todos.len(),
                todos@ == orig_todos.skip(j),
                set.wf(),
                annotate_all(all.take(n), source@, d.target) == Ok::<
                    Set<AnnotationView>,
                    Error,
                >(set@),
            decreases todos.len(),
        {
            let x = todos.remove(0);
            proof {
                assert(orig_todos.skip(j + 1) =~= orig_todos.skip(j).remove(0));
                assert(x == orig_todos[j]);
                assert(d.todos[j] == x@);
                assert(all[n] == EntryView::Todo(x@));
                lemma_annotate_step(all, n, source@, d.target);
            }
            match x.into_annotation(source.clone(), &target) {
                Ok(a) => set.insert(a),
                Err(e) => {
                    proof {
                        assert(entry_annotation(all[n], source@, d.target) == Err::<
                            AnnotationView,
                            Error,
                        >(e));
                        assert(annotate_all(all.take(n + 1), source@, d.target) == Err::<
                            Set<AnnotationView>,
                            Error,
                        >(e));
                        lemma_annotate_fail(all, n + 1, source@, d.target);
                    }
                    return Err(e);
                },
            }
            proof {
                j = j + 1;
                n = n + 1;
            }
        }
        assert(all.take(n) =~= all);
        Ok(set)
    }
}

proof fn lemma_annotate_step(
    es: Seq<EntryView>,
    n: int,
    source: Seq<char>,
    default: Option<Seq<char>>,
)
    requires
        0 <= n < es.len(),
    ensures
        annotate_all(es.take(n + 1), source, default) == match annotate_all(
            es.take(n),
            source,
            default,
        ) {
            Err(e) => Err(e),
            Ok(s) => match entry_annotation(es[n], source, default) {
                Err(e) => Err(e),
                Ok(a) => Ok(s.insert(a)),
            },
        },
{
    assert(es.take(n + 1).drop_last() =~= es.take(n));
}

proof fn lemma_annotate_fail(
    es: Seq<EntryView>,
    n: int,
    source: Seq<char>,
    default: Option<Seq<char>>,
)
    requires
        0 <= n <= es.len(),
        annotate_all(es.take(n), source, default) is Err,
    ensures
        annotate_all(es, source, default) == annotate_all(es.take(n), source, default),
    decreases es.len() - n,
{
    if n == es.len() {
        assert(es.take(n) =~= es);
    } else {
        assert(es.take(n + 1).drop_last() =~= es.take(n));
        lemma_annotate_fail(es, n + 1, source, default);
    }
}

/// The records that a declaration file holding `doc` yields, with `source`
/// as its path.
pub fn declared_annotations(doc: &TomlValue, source: &String) -> (r: Result<AnnotationSet, Error>)
    ensures
        view_set(r) == declared_set(*doc, source@),
        r matches Ok(s) ==> s.wf(),
{
    match Specs::from_document(doc) {
        Ok(d) => d.into_annotations(source),
        Err(e) => Err(e),
    }
}

/// The target that an entry names itself, if any.
pub open spec fn own_target(e: EntryView) -> Option<Seq<char>> {
    match e {
        EntryView::Citation(s) => s.target,
        EntryView::Exception(x) => x.target,
        EntryView::Todo(x) => x.target,
    }
}

/// An entry without a target of its own takes the document's default; an
/// entry with one keeps it, whatever the default.
pub proof fn lemma_target_inheritance(
    e: EntryView,
    source: Seq<char>,
    default: Option<Seq<char>>,
)
    ensures
        own_target(e) is None && default is Some && default->0.len() > 0 && entry_annotation(
            e,
            source,
            default,
        ) is Ok ==> entry_annotation(e, source, default)->Ok_0.target == default->0,
        own_target(e) is Some && own_target(e)->0.len() > 0 && entry_annotation(
            e,
            source,
            default,
        ) is Ok ==> entry_annotation(e, source, default)->Ok_0.target == own_target(e)->0,
        e is Todo && resolve_target(own_target(e), default) is Some ==> entry_annotation(
            e,
            source,
            default,
        ) is Ok,
        e is Exception && resolve_target(own_target(e), default) is Some && normalized(
            e->Exception_0.quote,
        ).len() > 0 ==> entry_annotation(e, source, default) is Ok,
{
}

/// With neither a target of its own nor a default, an entry of any kind is
/// rejected for its missing target, and so is the document holding it.
pub proof fn lemma_missing_target(e: EntryView, source: Seq<char>, doc: TomlValue)
    ensures
        own_target(e) is None ==> entry_annotation(e, source, None) == Err::<
            AnnotationView,
            Error,
        >(Error::MissingTarget),
        document(doc) is Ok && document(doc)->Ok_0.target is None && entries_of(
            document(doc)->Ok_0,
        ).contains(e) && own_target(e) is None ==> declared_set(doc, source) is Err,
{
    if document(doc) is Ok && document(doc)->Ok_0.target is None && entries_of(
        document(doc)->Ok_0,
    ).contains(e) && own_target(e) is None {
        let d = document(doc)->Ok_0;
        let i = choose|i: int| 0 <= i < entries_of(d).len() && entries_of(d)[i] == e;
        lemma_one_failure_fails_all(entries_of(d), i, source, d.target);
    }
}

proof fn lemma_one_failure_fails_all(
    es: Seq<EntryView>,
    i: int,
    source: Seq<char>,
    default: Option<Seq<char>>,
)
    requires
        0 <= i < es.len(),
        entry_annotation(es[i], source, default) is Err,
    ensures
        annotate_all(es, source, default) is Err,
    decreases es.len(),
{
    if i < es.len() - 1 {
        lemma_one_failure_fails_all(es.drop_last(), i, source, default);
    }
}

/// A key that the schema does not know makes an entry fail to parse,
/// whatever its other keys hold.
pub proof fn lemma_unknown_field_rejected(kind: EntryKind, t: Vec<(String, TomlValue)>, i: int)
    requires
        0 <= i < t@.len(),
        field_of(kind, t@[i].0@) is None,
    ensures
        scan_error(kind, t@) is Some,
        kind == EntryKind::Citation ==> citation_entry(TomlValue::Table(t)) is Err,
        kind == EntryKind::Exception ==> exception_entry(TomlValue::Table(t)) is Err,
        kind == EntryKind::Todo ==> todo_entry(TomlValue::Table(t)) is Err,
        kind == EntryKind::Document ==> document(TomlValue::Table(t)) is Err,
{
    lemma_unknown_key_scan(kind, t@, i);
}

proof fn lemma_unknown_key_scan(kind: EntryKind, t: Seq<(String, TomlValue)>, i: int)
    requires
        0 <= i < t.len(),
        field_of(kind, t[i].0@) is None,
    ensures
        scan_error(kind, t) is Some,
    decreases t.len(),
{
    if i < t.len() - 1 {
        lemma_unknown_key_scan(kind, t.drop_last(), i);
    }
}

/// A citation carries no todo fields; a todo's comment is its reason, or
/// empty; an exception's comment is its reason exactly as written.
pub proof fn lemma_kind_fields(e: EntryView, source: Seq<char>, default: Option<Seq<char>>)
    ensures
        e is Citation && entry_annotation(e, source, default) is Ok ==> entry_annotation(
            e,
            source,
            default,
        )->Ok_0.kind is Citation && entry_annotation(e, source, default)->Ok_0.comment
            == e->Citation_0.quote,
        e is Exception && entry_annotation(e, source, default) is Ok ==> entry_annotation(
            e,
            source,
            default,
        )->Ok_0.kind is Exception && entry_annotation(e, source, default)->Ok_0.comment
            == e->Exception_0.reason,
        e is Todo && entry_annotation(e, source, default) is Ok ==> entry_annotation(
            e,
            source,
            default,
        )->Ok_0.kind is Todo && entry_annotation(e, source, default)->Ok_0.comment == or_empty(
            e->Todo_0.reason,
        ),
{
}

/// The quote that an entry declares, before normalization.
pub open spec fn entry_quote(e: EntryView) -> Seq<char> {
    match e {
        EntryView::Citation(s) => s.quote,
        EntryView::Exception(x) => x.quote,
        EntryView::Todo(x) => x.quote,
    }
}

/// What holds of every record from a declaration file: the file is its
/// source and manifest directory, it has no position, its target is not
/// empty, its quote is normalized, and only a todo may have an empty quote.
pub open spec fn is_declared_record(a: AnnotationView, source: Seq<char>) -> bool {
    &&& is_unplaced(a)
    &&& a.source == source
    &&& a.manifest_dir == source
    &&& a.target.len() > 0
    &&& normalized(a.quote) == a.quote
    &&& !(a.kind is Todo) ==> a.quote.len() > 0
}

/// Every record from a declaration file has the shape that such records
/// have: see `is_declared_record`.
pub proof fn lemma_declared_records(doc: TomlValue, source: Seq<char>)
    ensures
        declared_set(doc, source) is Ok ==> forall|a: AnnotationView| #[trigger]
            declared_set(doc, source)->Ok_0.contains(a) ==> is_declared_record(a, source),
{
    if document(doc) is Ok {
        let d = document(doc)->Ok_0;
        lemma_annotate_records(entries_of(d), source, d.target);
    }
}

proof fn lemma_annotate_records(es: Seq<EntryView>, source: Seq<char>, default: Option<Seq<char>>)
    ensures
        annotate_all(es, source, default) is Ok ==> forall|a: AnnotationView| #[trigger]
            annotate_all(es, source, default)->Ok_0.contains(a) ==> is_declared_record(a, source),
    decreases es.len(),
{
    if es.len() > 0 {
        lemma_annotate_records(es.drop_last(), source, default);
        lemma_normalize_idempotent(entry_quote(es.last()));
    }
}

/// Every entry of a document that parses yields its record, and the set
/// holds it.
pub proof fn lemma_declared_contains(doc: TomlValue, source: Seq<char>, k: int)
    requires
        declared_set(doc, source) is Ok,
        0 <= k < entries_of(document(doc)->Ok_0).len(),
    ensures
        entry_annotation(
            entries_of(document(doc)->Ok_0)[k],
            source,
            document(doc)->Ok_0.target,
        ) is Ok,
        declared_set(doc, source)->Ok_0.contains(
            entry_annotation(
                entries_of(document(doc)->Ok_0)[k],
                source,
                document(doc)->Ok_0.target,
            )->Ok_0,
        ),
{
    let d = document(doc)->Ok_0;
    lemma_annotate_contains(entries_of(d), k, source, d.target);
}

proof fn lemma_annotate_contains(
    es: Seq<EntryView>,
    k: int,
    source: Seq<char>,
    default: Option<Seq<char>>,
)
    requires
        annotate_all(es, source, default) is Ok,
        0 <= k < es.len(),
    ensures
        entry_annotation(es[k], source, default) is Ok,
        annotate_all(es, source, default)->Ok_0.contains(
            entry_annotation(es[k], source, default)->Ok_0,
        ),
    decreases es.len(),
{
    if k < es.len() - 1 {
        lemma_annotate_contains(es.drop_last(), k, source, default);
    }
}

/// The list of the document that holds entries of the given kind.
pub open spec fn list_for(kind: EntryKind) -> Field {
    match kind {
        EntryKind::Citation => Field::Citations,
        EntryKind::Exception => Field::Exceptions,
        _ => Field::Todos,
    }
}

/// A key unknown to the schema of its entry, in any entry of any of the
/// three lists, makes the whole document fail to parse.
pub proof fn lemma_unknown_field_rejects_document(
    doc: TomlValue,
    kind: EntryKind,
    i: int,
    t: Vec<(String, TomlValue)>,
    j: int,
    source: Seq<char>,
)
    requires
        doc is Table,
        kind != EntryKind::Document,
        list_field(doc->Table_0@, list_for(kind)) is Ok,
        0 <= i < list_field(doc->Table_0@, list_for(kind))->Ok_0.len(),
        list_field(doc->Table_0@, list_for(kind))->Ok_0[i] == TomlValue::Table(t),
        0 <= j < t@.len(),
        field_of(kind, t@[j].0@) is None,
    ensures
        document(doc) is Err,
        declared_set(doc, source) is Err,
{
    lemma_unknown_field_rejected(kind, t, j);
    let v = list_field(doc->Table_0@, list_for(kind))->Ok_0;
    match kind {
        EntryKind::Citation => lemma_citation_list_fails(v, i),
        EntryKind::Exception => lemma_exception_list_fails(v, i),
        _ => lemma_todo_list_fails(v, i),
    }
}

proof fn lemma_citation_list_fails(v: Seq<TomlValue>, i: int)
    requires
        0 <= i < v.len(),
        citation_entry(v[i]) is Err,
    ensures
        citation_entries(v) is Err,
    decreases v.len(),
{
    if i < v.len() - 1 {
        lemma_citation_list_fails(v.drop_last(), i);
    }
}

proof fn lemma_exception_list_fails(v: Seq<TomlValue>, i: int)
    requires
        0 <= i < v.len(),
        exception_entry(v[i]) is Err,
    ensures
        exception_entries(v) is Err,
    decreases v.len(),
{
    if i < v.len() - 1 {
        lemma_exception_list_fails(v.drop_last(), i);
    }
}

proof fn lemma_todo_list_fails(v: Seq<TomlValue>, i: int)
    requires
        0 <= i < v.len(),
        todo_entry(v[i]) is Err,
    ensures
        todo_entries(v) is Err,
    decreases v.len(),
{
    if i < v.len() - 1 {
        lemma_todo_list_fails(v.drop_last(), i);
    }
}

} // verus!
