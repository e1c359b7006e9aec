//! The declarative widget tree and the positional path of each of its widgets.
#![allow(non_snake_case)]

use vstd::prelude::*;
use crate::props::SharedProps;

verus! {

/// One step of a path: a numbered slot of a group (from 1; also the content of a widget,
/// slot 1) or a position in a list (from 0).
#[derive(Clone, Copy, Debug, PartialEq, Eq, Structural)]
pub enum PathStep {
    Slot(usize),
    Item(usize),
}

/// The position of a widget in the tree, its identity across renders.
#[derive(Clone, Debug, PartialEq, Eq)]
pub struct PathIndex {
    pub steps: Vec<PathStep>,
}

impl View for PathIndex {
    type V = Seq<PathStep>;

    open spec fn view(&self) -> Seq<PathStep> {
        self.steps@
    }
}

impl PathIndex {
    /// The path of the root.
    pub fn root() -> (r: PathIndex)
        ensures
            r@ == Seq::<PathStep>::empty(),
    {
        PathIndex { steps: Vec::new() }
    }

    pub fn copy(&self) -> (r: PathIndex)
        ensures
            r@ == self@,
    {
        let mut steps: Vec<PathStep> = Vec::new();
        let mut i: usize = 0;
        while i < self.steps.len()
            invariant
                i <= self.steps@.len(),
                steps@ == self.steps@.subrange(0, i as int),
            decreases self.steps@.len() - i,
        {
            steps.push(self.steps[i]);
            i = i + 1;
            assert(steps@ =~= self.steps@.subrange(0, i as int));
        }
        assert(steps@ =~= self.steps@);
        PathIndex { steps }
    }

    /// This path followed by `step`.
    pub fn child(&self, step: PathStep) -> (r: PathIndex)
        ensures
            r@ == self@.push(step),
    {
        let mut r = self.copy();
        r.steps.push(step);
        r
    }

    /// Whether two paths are the same.
    pub fn same(&self, other: &PathIndex) -> (r: bool)
        ensures
            r == (self@ == other@),
    {
        if self.steps.len() != other.steps.len() {
            return false;
        }
        let mut i: usize = 0;
        while i < self.steps.len()
            invariant
                i <= self.steps@.len(),
                self.steps@.len() == other.steps@.len(),
                forall|j: int| 0 <= j < i ==> self.steps@[j] == other.steps@[j],
            decreases self.steps@.len() - i,
        {
            if self.steps[i] != other.steps[i] {
                return false;
            }
            i = i + 1;
        }
        assert(self@ =~= other@);
        true
    }
}

/// A widget: its property set and its optional content.
pub struct WidgetNode {
    pub props: Vec<SharedProps>,
    pub content: Option<Box<Node>>,
}

/// A node of the declarative tree.
pub enum Node {
    Widget(WidgetNode),
    /// A group of children at slots 1, 2, ...
    Group(Vec<Node>),
    /// A homogeneous list of children at positions 0, 1, ...
    List(Vec<Node>),
    Empty,
}

/// A widget to render: its path, its parent widget's path and its property set.
pub struct EntryView {
    pub path: Seq<PathStep>,
    pub parent: Seq<PathStep>,
    pub props: Seq<SharedProps>,
}

/// The step that leads to the child at position `i` of a group or a list.
pub open spec fn child_step(list: bool, i: int) -> PathStep {
    if list {
        PathStep::Item(i as usize)
    } else {
        PathStep::Slot((i + 1) as usize)
    }
}

/// The widgets of `n`, in pre-order, rendered at `path` under the widget at `parent`.
pub open spec fn flat(n: Node, parent: Seq<PathStep>, path: Seq<PathStep>) -> Seq<EntryView>
    decreases n,
{
    match n {
        Node::Widget(w) => seq![EntryView { path, parent, props: w.props@ }] + match w.content {
            Some(c) => flat(*c, path, path.push(PathStep::Slot(1))),
            None => Seq::empty(),
        },
        Node::Group(cs) => flat_seq(cs@, false, parent, path),
        Node::List(cs) => flat_seq(cs@, true, parent, path),
        Node::Empty => Seq::empty(),
    }
}

/// The widgets of the children `cs` of a group or list at `path`.
pub open spec fn flat_seq(cs: Seq<Node>, list: bool, parent: Seq<PathStep>, path: Seq<PathStep>) -> Seq<EntryView>
    decreases cs,
{
    if cs.len() == 0 {
        Seq::empty()
    } else {
        flat_seq(cs.drop_last(), list, parent, path) + flat(
            cs.last(),
            parent,
            path.push(child_step(list, cs.len() - 1)),
        )
    }
}

/// The structure of a tree, without its property sets.
pub enum Shape {
    Widget(Option<Box<Shape>>),
    Group(Seq<Shape>),
    List(Seq<Shape>),
    Empty,
}

/// The paths (and parent paths) a structure gives, in pre-order.
pub open spec fn shape_paths(s: Shape, parent: Seq<PathStep>, path: Seq<PathStep>) -> Seq<(Seq<PathStep>, Seq<PathStep>)>
    decreases s,
{
    match s {
        Shape::Widget(c) => seq![(path, parent)] + match c {
            Some(c) => shape_paths(*c, path, path.push(PathStep::Slot(1))),
            None => Seq::empty(),
        },
        Shape::Group(cs) => shape_paths_seq(cs, false, parent, path),
        Shape::List(cs) => shape_paths_seq(cs, true, parent, path),
        Shape::Empty => Seq::empty(),
    }
}

pub open spec fn shape_paths_seq(cs: Seq<Shape>, list: bool, parent: Seq<PathStep>, path: Seq<PathStep>) -> Seq<
    (Seq<PathStep>, Seq<PathStep>),
>
    decreases cs,
{
    if cs.len() == 0 {
        Seq::empty()
    } else {
        shape_paths_seq(cs.drop_last(), list, parent, path) + shape_paths(
            cs.last(),
            parent,
            path.push(child_step(list, cs.len() - 1)),
        )
    }
}

/// The structure of `n`.
pub open spec fn shape(n: Node) -> Shape
    decreases n,
{
    match n {
        Node::Widget(w) => Shape::Widget(
            match w.content {
                Some(c) => Some(Box::new(shape(*c))),
                None => None,
            },
        ),
        Node::Group(cs) => Shape::Group(shape_seq(cs@)),
        Node::List(cs) => Shape::List(shape_seq(cs@)),
        Node::Empty => Shape::Empty,
    }
}

pub open spec fn shape_seq(cs: Seq<Node>) -> Seq<Shape>
    decreases cs,
{
    if cs.len() == 0 {
        Seq::empty()
    } else {
        shape_seq(cs.drop_last()).push(shape(cs.last()))
    }
}

/// The paths (and parent paths) of a flattened tree.
pub open spec fn paths_of(es: Seq<EntryView>) -> Seq<(Seq<PathStep>, Seq<PathStep>)> {
    es.map_values(|e: EntryView| (e.path, e.parent))
}

pub proof fn lemma_paths_concat(a: Seq<EntryView>, b: Seq<EntryView>)
    ensures
        paths_of(a + b) == paths_of(a) + paths_of(b),
{
    assert(paths_of(a + b) =~= paths_of(a) + paths_of(b));
}

/// The paths of a flattened tree are those of its structure.
pub proof fn lemma_flat_shape(n: Node, parent: Seq<PathStep>, path: Seq<PathStep>)
    ensures
        paths_of(flat(n, parent, path)) == shape_paths(shape(n), parent, path),
    decreases n,
{
    match n {
        Node::Widget(w) => {
            let head = seq![EntryView { path, parent, props: w.props@ }];
            match w.content {
                Some(c) => {
                    lemma_flat_shape(*c, path, path.push(PathStep::Slot(1)));
                    lemma_paths_concat(head, flat(*c, path, path.push(PathStep::Slot(1))));
                },
                None => {
                    lemma_paths_concat(head, Seq::empty());
                },
            }
            assert(paths_of(head) =~= seq![(path, parent)]);
        },
        Node::Group(cs) => {
            lemma_flat_seq_shape(cs@, false, parent, path);
        },
        Node::List(cs) => {
            lemma_flat_seq_shape(cs@, true, parent, path);
        },
        Node::Empty => {
            assert(paths_of(Seq::<EntryView>::empty()) =~= Seq::empty());
        },
    }
}

pub proof fn lemma_shape_seq_len(cs: Seq<Node>)
    ensures
        shape_seq(cs).len() == cs.len(),
    decreases cs.len(),
{
    if cs.len() > 0 {
        lemma_shape_seq_len(cs.drop_last());
    }
}

pub proof fn lemma_flat_seq_shape(cs: Seq<Node>, list: bool, parent: Seq<PathStep>, path: Seq<PathStep>)
    ensures
        paths_of(flat_seq(cs, list, parent, path)) == shape_paths_seq(shape_seq(cs), list, parent, path),
    decreases cs,
{
    if cs.len() == 0 {
        assert(paths_of(Seq::<EntryView>::empty()) =~= Seq::empty());
    } else {
        let d = cs.drop_last();
        lemma_flat_seq_shape(d, list, parent, path);
        lemma_flat_shape(cs.last(), parent, path.push(child_step(list, cs.len() - 1)));
        lemma_paths_concat(
            flat_seq(d, list, parent, path),
            flat(cs.last(), parent, path.push(child_step(list, cs.len() - 1))),
        );
        let ss = shape_seq(cs);
        lemma_shape_seq_len(cs);
        assert(ss.drop_last() == shape_seq(d));
        assert(ss.last() == shape(cs.last()));
    }
}

/// Rendering two trees of the same structure assigns the same paths, in the same order.
pub proof fn lemma_same_shape_same_paths(a: Node, b: Node, parent: Seq<PathStep>, path: Seq<PathStep>)
    requires
        shape(a) == shape(b),
    ensures
        paths_of(flat(a, parent, path)) == paths_of(flat(b, parent, path)),
{
    lemma_flat_shape(a, parent, path);
    lemma_flat_shape(b, parent, path);
}


/// A widget to render, as `Node::flatten` hands it out.
pub struct RenderEntry<'a> {
    pub path: PathIndex,
    pub parent: PathIndex,
    pub props: &'a Vec<SharedProps>,
}

impl<'a> View for RenderEntry<'a> {
    type V = EntryView;

    open spec fn view(&self) -> EntryView {
        EntryView { path: self.path@, parent: self.parent@, props: self.props@ }
    }
}

pub open spec fn entries_view<'a>(es: Seq<RenderEntry<'a>>) -> Seq<EntryView> {
    es.map_values(|e: RenderEntry<'a>| e@)
}

fn flatten_into<'a>(n: &'a Node, parent: &PathIndex, path: &PathIndex, out: &mut Vec<RenderEntry<'a>>)
    ensures
        entries_view(final(out)@) == entries_view(old(out)@) + flat(*n, parent@, path@),
    decreases n,
{
    let ghost base = entries_view(out@);
    match n {
        Node::Widget(w) => {
            out.push(RenderEntry { path: path.copy(), parent: parent.copy(), props: &w.props });
            assert(entries_view(out@) =~= base + seq![EntryView { path: path@, parent: parent@, props: w.props@ }]);
            match &w.content {
                Some(c) => {
                    let cp = path.child(PathStep::Slot(1));
                    flatten_into(c, path, &cp, out);
                },
                None => {},
            }
            assert(entries_view(out@) =~= base + flat(*n, parent@, path@));
        },
        Node::Group(cs) => {
            let list = false;
            let mut i: usize = 0;
            assert(cs@.subrange(0, 0) =~= Seq::<Node>::empty());
            while i < cs.len()
                invariant
                    i <= cs@.len(),
                    !list,
                    *n == Node::Group(*cs),
                    entries_view(out@) == base + flat_seq(cs@.subrange(0, i as int), list, parent@, path@),
                decreases cs@.len() - i,
            {
                let step = if list {
                    PathStep::Item(i)
                } else {
                    PathStep::Slot(i + 1)
                };
                let cp = path.child(step);
                proof {
                    let sub = cs@.subrange(0, i as int + 1);
                    assert(sub.drop_last() =~= cs@.subrange(0, i as int));
                    assert(sub.last() == cs@[i as int]);
                    assert(step == child_step(list, i as int));
                    vstd::std_specs::vec::axiom_vec_index_decreases(*cs, i as int);
                    assert(decreases_to!(*n => n->Group_0));
                    assert(decreases_to!(*cs => cs[i as int]));
                }
                flatten_into(&cs[i], parent, &cp, out);
                i = i + 1;
                assert(entries_view(out@) =~= base + flat_seq(cs@.subrange(0, i as int), list, parent@, path@));
            }
            assert(cs@.subrange(0, cs@.len() as int) =~= cs@);
        },
        Node::List(cs) => {
            let list = true;
            let mut i: usize = 0;
            assert(cs@.subrange(0, 0) =~= Seq::<Node>::empty());
            while i < cs.len()
                invariant
                    i <= cs@.len(),
                    list,
                    *n == Node::List(*cs),
                    entries_view(out@) == base + flat_seq(cs@.subrange(0, i as int), list, parent@, path@),
                decreases cs@.len() - i,
            {
                let step = if list {
                    PathStep::Item(i)
                } else {
                    PathStep::Slot(i + 1)
                };
                let cp = path.child(step);
                proof {
                    let sub = cs@.subrange(0, i as int + 1);
                    assert(sub.drop_last() =~= cs@.subrange(0, i as int));
                    assert(sub.last() == cs@[i as int]);
                    assert(step == child_step(list, i as int));
                    vstd::std_specs::vec::axiom_vec_index_decreases(*cs, i as int);
                    assert(decreases_to!(*n => n->List_0));
                    assert(decreases_to!(*cs => cs[i as int]));
                }
                flatten_into(&cs[i], parent, &cp, out);
                i = i + 1;
                assert(entries_view(out@) =~= base + flat_seq(cs@.subrange(0, i as int), list, parent@, path@));
            }
            assert(cs@.subrange(0, cs@.len() as int) =~= cs@);
        },
        Node::Empty => {
            assert(entries_view(out@) =~= base + flat(*n, parent@, path@));
        },
    }
}

impl Node {
    /// The widgets of the tree in pre-order, each with its path and its parent's path;
    /// the root renders at the empty path.
    pub fn flatten<'a>(&'a self) -> (r: Vec<RenderEntry<'a>>)
        ensures
            entries_view(r@) == flat(*self, Seq::empty(), Seq::empty()),
    {
        let mut out: Vec<RenderEntry<'a>> = Vec::new();
        let root = PathIndex::root();
        flatten_into(self, &root, &root, &mut out);
        assert(entries_view(Seq::<RenderEntry<'a>>::empty()) =~= Seq::empty());
        assert(Seq::<EntryView>::empty() + flat(*self, Seq::empty(), Seq::empty()) =~= flat(*self, Seq::empty(), Seq::empty()));
        out
    }
}

} // verus!
