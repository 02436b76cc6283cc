use vstd::prelude::*;

verus! {

/// How strongly an annotation claims compliance.
#[derive(Clone, Copy, Debug, PartialEq, Eq, Structural)]
pub enum AnnotationLevel {
    Auto,
    May,
    Should,
    Must,
}

/// How a quote is matched against the text of a specification.
#[derive(Clone, Copy, Debug, PartialEq, Eq, Structural)]
pub enum Format {
    Auto,
    Ietf,
    Markdown,
}

/// The kind of an annotation, with the fields that only that kind carries.
#[derive(Debug, PartialEq, Eq)]
pub enum AnnotationKind {
    Citation { level: AnnotationLevel, format: Format },
    Exception,
    Todo { feature: String, tracking_issue: String, tags: Vec<String> },
}

pub enum KindView {
    Citation { level: AnnotationLevel, format: Format },
    Exception,
    Todo { feature: Seq<char>, tracking_issue: Seq<char>, tags: Set<Seq<char>> },
}

impl View for AnnotationKind {
    type V = KindView;

    open spec fn view(&self) -> KindView {
        match self {
            AnnotationKind::Citation { level, format } => KindView::Citation {
                level: *level,
                format: *format,
            },
            AnnotationKind::Exception => KindView::Exception,
            AnnotationKind::Todo { feature, tracking_issue, tags } => KindView::Todo {
                feature: feature@,
                tracking_issue: tracking_issue@,
                tags: tags.deep_view().to_set(),
            },
        }
    }
}

/// One piece of evidence that some text is linked to a requirement.
#[derive(Debug, PartialEq, Eq)]
pub struct Annotation {
    pub source: String,
    pub anno_line: u32,
    pub anno_column: u32,
    pub item_line: u32,
    pub item_column: u32,
    pub path: String,
    pub target: String,
    pub quote: String,
    pub comment: String,
    pub manifest_dir: String,
    pub kind: AnnotationKind,
}

pub struct AnnotationView {
    pub source: Seq<char>,
    pub anno_line: u32,
    pub anno_column: u32,
    pub item_line: u32,
    pub item_column: u32,
    pub path: Seq<char>,
    pub target: Seq<char>,
    pub quote: Seq<char>,
    pub comment: Seq<char>,
    pub manifest_dir: Seq<char>,
    pub kind: KindView,
}

impl View for Annotation {
    type V = AnnotationView;

    open spec fn view(&self) -> AnnotationView {
        AnnotationView {
            source: self.source@,
            anno_line: self.anno_line,
            anno_column: self.anno_column,
            item_line: self.item_line,
            item_column: self.item_column,
            path: self.path@,
            target: self.target@,
            quote: self.quote@,
            comment: self.comment@,
            manifest_dir: self.manifest_dir@,
            kind: self.kind@,
        }
    }
}

/// An annotation with no position in a scanned file: all locations zero and
/// no path.
pub open spec fn is_unplaced(a: AnnotationView) -> bool {
    &&& a.anno_line == 0
    &&& a.anno_column == 0
    &&& a.item_line == 0
    &&& a.item_column == 0
    &&& a.path.len() == 0
}

pub(crate) fn contains_text(v: &Vec<String>, s: &String) -> (r: bool)
    ensures
        r == v.deep_view().contains(s@),
{
    let mut i: usize = 0;
    while i < v.len()
        invariant
            i <= v.len(),
            forall|k: int| 0 <= k < i ==> v.deep_view()[k] != s@,
        decreases v.len() - i,
    {
        if v[i] == *s {
            assert(v.deep_view()[i as int] == s@);
            return true;
        }
        i = i + 1;
    }
    false
}

fn covers(a: &Vec<String>, b: &Vec<String>) -> (r: bool)
    ensures
        r == a.deep_view().to_set().subset_of(b.deep_view().to_set()),
{
    let mut i: usize = 0;
    while i < a.len()
        invariant
            i <= a.len(),
            forall|k: int| 0 <= k < i ==> b.deep_view().contains(#[trigger] a.deep_view()[k]),
        decreases a.len() - i,
    {
        if !contains_text(b, &a[i]) {
            assert(a.deep_view().to_set().contains(a.deep_view()[i as int]));
            return false;
        }
        i = i + 1;
    }
    assert forall|x: Seq<char>| a.deep_view().to_set().contains(x) implies b.deep_view().to_set().contains(x) by {
        let k = choose|k: int| 0 <= k < a.deep_view().len() && a.deep_view()[k] == x;
        assert(b.deep_view().contains(a.deep_view()[k]));
    }
    true
}

fn same_tags(a: &Vec<String>, b: &Vec<String>) -> (r: bool)
    ensures
        r == (a.deep_view().to_set() == b.deep_view().to_set()),
{
    let ab = covers(a, b);
    let ba = covers(b, a);
    proof {
        if ab && ba {
            assert(a.deep_view().to_set() =~= b.deep_view().to_set());
        }
    }
    ab && ba
}

fn same_kind(a: &AnnotationKind, b: &AnnotationKind) -> (r: bool)
    ensures
        r == (a@ == b@),
{
    match (a, b) {
        (
            AnnotationKind::Citation { level: l1, format: f1 },
            AnnotationKind::Citation { level: l2, format: f2 },
        ) => *l1 == *l2 && *f1 == *f2,
        (AnnotationKind::Exception, AnnotationKind::Exception) => true,
        (
            AnnotationKind::Todo { feature: f1, tracking_issue: t1, tags: g1 },
            AnnotationKind::Todo { feature: f2, tracking_issue: t2, tags: g2 },
        ) => *f1 == *f2 && *t1 == *t2 && same_tags(g1, g2),
        _ => false,
    }
}

impl Annotation {
    /// Whether two annotations hold the same values, tags compared as sets.
    pub fn same_as(&self, other: &Annotation) -> (r: bool)
        ensures
            r == (self@ == other@),
    {
        self.source == other.source && self.anno_line == other.anno_line && self.anno_column
            == other.anno_column && self.item_line == other.item_line && self.item_column
            == other.item_column && self.path == other.path && self.target == other.target
            && self.quote == other.quote && self.comment == other.comment && self.manifest_dir
            == other.manifest_dir && same_kind(&self.kind, &other.kind)
    }
}

/// A set of annotations: no two of its members hold the same values.
#[derive(Debug)]
pub struct AnnotationSet {
    items: Vec<Annotation>,
}

pub open spec fn views_of(s: Seq<Annotation>) -> Seq<AnnotationView> {
    s.map_values(|a: Annotation| a@)
}

impl View for AnnotationSet {
    type V = Set<AnnotationView>;

    closed spec fn view(&self) -> Set<AnnotationView> {
        views_of(self.items@).to_set()
    }
}

impl AnnotationSet {
    /// No two members hold the same values.
    pub closed spec fn wf(&self) -> bool {
        views_of(self.items@).no_duplicates()
    }

    pub fn new() -> (r: AnnotationSet)
        ensures
            r@ == Set::<AnnotationView>::empty(),
            r.wf(),
    {
        let r = AnnotationSet { items: Vec::new() };
        assert(views_of(r.items@).to_set() =~= Set::<AnnotationView>::empty());
        r
    }

    pub fn contains(&self, a: &Annotation) -> (r: bool)
        ensures
            r == self@.contains(a@),
    {
        let mut i: usize = 0;
        while i < self.items.len()
            invariant
                i <= self.items.len(),
                forall|k: int| 0 <= k < i ==> views_of(self.items@)[k] != a@,
            decreases self.items.len() - i,
        {
            if self.items[i].same_as(a) {
                assert(views_of(self.items@)[i as int] == a@);
                return true;
            }
            i = i + 1;
        }
        false
    }

    /// Adds `a` unless a member with the same values is there already.
    pub fn insert(&mut self, a: Annotation)
        requires
            old(self).wf(),
        ensures
            final(self)@ == old(self)@.insert(a@),
            final(self).wf(),
    {
        if !self.contains(&a) {
            let ghost before = views_of(self.items@);
            self.items.push(a);
            proof {
                assert(views_of(self.items@) =~= before.push(a@));
                assert(!before.contains(a@));
                assert(before.push(a@).no_duplicates());
                before.lemma_push_to_set_commute(a@);
            }
        } else {
            assert(old(self)@.insert(a@) =~= old(self)@);
        }
    }

    /// Adds every member of `other`.
    pub fn extend(&mut self, other: AnnotationSet)
        requires
            old(self).wf(),
        ensures
            final(self)@ == old(self)@.union(other@),
            final(self).wf(),
    {
        let items = other.items;
        let mut i: usize = 0;
        while i < items.len()
            invariant
                i <= items.len(),
                self.wf(),
                self@ == old(self)@.union(views_of(items@.take(i as int)).to_set()),
                other@ == views_of(items@).to_set(),
            decreases items.len() - i,
        {
            let ghost pre = views_of(items@.take(i as int));
            self.insert(items[i].clone_annotation());
            proof {
                assert(views_of(items@.take(i + 1)) =~= pre.push(items@[i as int]@));
                pre.lemma_push_to_set_commute(items@[i as int]@);
                assert(self@ =~= old(self)@.union(views_of(items@.take(i + 1)).to_set()));
            }
            i = i + 1;
        }
        assert(items@.take(items.len() as int) =~= items@);
    }

    /// The annotations that a scan of one file reported, collected into a set.
    pub fn from_scanned(found: Vec<Annotation>) -> (r: AnnotationSet)
        ensures
            r@ == views_of(found@).to_set(),
            r.wf(),
    {
        let mut r = AnnotationSet::new();
        let mut i: usize = 0;
        while i < found.len()
            invariant
                i <= found.len(),
                r.wf(),
                r@ == views_of(found@.take(i as int)).to_set(),
            decreases found.len() - i,
        {
            let ghost pre = views_of(found@.take(i as int));
            r.insert(found[i].clone_annotation());
            proof {
                assert(views_of(found@.take(i + 1)) =~= pre.push(found@[i as int]@));
                pre.lemma_push_to_set_commute(found@[i as int]@);
            }
            i = i + 1;
        }
        assert(found@.take(found.len() as int) =~= found@);
        r
    }

    pub fn len(&self) -> (r: usize)
        requires
            self.wf(),
        ensures
            r == self@.len(),
    {
        proof {
            views_of(self.items@).unique_seq_to_set();
        }
        self.items.len()
    }

    /// The members, in the order they were first added.
    pub fn items(&self) -> (r: &Vec<Annotation>)
        requires
            self.wf(),
        ensures
            views_of(r@).to_set() == self@,
            views_of(r@).no_duplicates(),
    {
        &self.items
    }
}

fn clone_texts(v: &Vec<String>) -> (r: Vec<String>)
    ensures
        r.deep_view() == v.deep_view(),
{
    let mut r: Vec<String> = Vec::new();
    let mut i: usize = 0;
    while i < v.len()
        invariant
            i <= v.len(),
            r@.len() == i,
            forall|k: int| 0 <= k < i ==> r@[k]@ == v@[k]@,
        decreases v.len() - i,
    {
        r.push(v[i].clone());
        i = i + 1;
    }
    assert(r.deep_view() =~= v.deep_view());
    r
}

impl AnnotationKind {
    pub fn clone_kind(&self) -> (r: AnnotationKind)
        ensures
            r@ == self@,
    {
        match self {
            AnnotationKind::Citation { level, format } => AnnotationKind::Citation {
                level: *level,
                format: *format,
            },
            AnnotationKind::Exception => AnnotationKind::Exception,
            AnnotationKind::Todo { feature, tracking_issue, tags } => AnnotationKind::Todo {
                feature: feature.clone(),
                tracking_issue: tracking_issue.clone(),
                tags: clone_texts(tags),
            },
        }
    }
}

impl Annotation {
    /// A copy holding the same values.
    pub fn clone_annotation(&self) -> (r: Annotation)
        ensures
            r@ == self@,
    {
        Annotation {
            source: self.source.clone(),
            anno_line: self.anno_line,
            anno_column: self.anno_column,
            item_line: self.item_line,
            item_column: self.item_column,
            path: self.path.clone(),
            target: self.target.clone(),
            quote: self.quote.clone(),
            comment: self.comment.clone(),
            manifest_dir: self.manifest_dir.clone(),
            kind: self.kind.clone_kind(),
        }
    }
}

} // verus!
