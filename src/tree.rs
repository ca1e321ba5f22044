use crate::text::{scalars_of, string_of};
use vstd::prelude::*;

verus! {

broadcast use vstd::std_specs::vec::axiom_vec_index_decreases;

/// A labelled tree that describes a value for people to read.
#[derive(Debug)]
pub enum PrettyTree {
    Empty,
    /// A terminal leaf node.
    Value(String),
    /// A terminal leaf node holding a string to be shown quoted.
    String(String),
    /// A branch node.
    Branch(PrettyBranch),
    /// A fragment node.
    Fragment(PrettyFragment),
}

#[derive(Debug)]
pub struct PrettyValue {
    pub text: String,
}

#[derive(Debug)]
pub struct PrettyBranch {
    pub label: String,
    pub children: Vec<PrettyTree>,
}

#[derive(Debug)]
pub struct PrettyFragment {
    pub nodes: Vec<PrettyTree>,
}

/// What can describe itself as a tree.
pub trait ToPrettyTree {
    fn to_pretty_tree(&self) -> PrettyTree;
}

/// A string as Rust's `Debug` writes it: quoted, with special scalars escaped.
pub uninterp spec fn debug_quoted(s: Seq<char>) -> Seq<char>;

/// Relies on `Debug` for `str` (through `format!`): the quoted, escaped form,
/// which depends on the text alone.
#[verifier::external_body]
pub(crate) fn quoted(s: &str) -> (r: String)
    ensures
        r@ == debug_quoted(s@),
{
    format!("{s:?}")
}

/// The text `a` followed by the text `b`.
pub fn concat(a: &str, b: &str) -> (r: String)
    ensures
        r@ == a@ + b@,
{
    let mut out = scalars_of(a);
    let tail = scalars_of(b);
    let ghost start = out@;
    let mut i: usize = 0;
    while i < tail.len()
        invariant
            tail@ == b@,
            start == a@,
            0 <= i <= tail@.len(),
            out@ == start + tail@.take(i as int),
        decreases tail@.len() - i,
    {
        out.push(tail[i]);
        i = i + 1;
        proof {
            assert(out@ =~= start + tail@.take(i as int));
        }
    }
    proof {
        assert(tail@.take(i as int) =~= tail@);
    }
    string_of(&out)
}

/// Each tree is what `to_pretty_tree` gave for the item at its place.
pub open spec fn described_by<T: ToPrettyTree>(items: Seq<T>, trees: Seq<PrettyTree>) -> bool {
    &&& trees.len() == items.len()
    &&& forall|i: int|
        0 <= i < items.len() ==> call_ensures(T::to_pretty_tree, (&items[i],), #[trigger] trees[i])
}

/// `r` is `key` put in front of `tree`: a leaf `key: text` for a leaf, a leaf
/// `key: "text"` for a string leaf, otherwise a branch labelled `key` whose one
/// child is the tree.
pub open spec fn keyed(key: Seq<char>, tree: PrettyTree, r: PrettyTree) -> bool {
    match tree {
        PrettyTree::Value(x) => is_value_with(r, key + seq![':', ' '] + x@),
        PrettyTree::String(x) => is_value_with(r, key + seq![':', ' '] + debug_quoted(x@)),
        _ => r matches PrettyTree::Branch(b) && b.label@ == key && b.children@ == seq![tree],
    }
}

pub open spec fn is_value_with(t: PrettyTree, text: Seq<char>) -> bool {
    t matches PrettyTree::Value(x) && x@ == text
}

impl PrettyTree {
    pub fn empty() -> (r: PrettyTree)
        ensures
            r is Empty,
    {
        PrettyTree::Empty
    }

    /// A leaf showing `value` as it is.
    pub fn value(value: &str) -> (r: PrettyTree)
        ensures
            is_value_with(r, value@),
    {
        PrettyTree::Value(value.to_owned())
    }

    /// A leaf showing `value` quoted.
    pub fn string(value: &str) -> (r: PrettyTree)
        ensures
            is_value_with(r, debug_quoted(value@)),
    {
        PrettyTree::Value(quoted(value))
    }

    /// A leaf showing `value` quoted.
    pub fn str(value: &str) -> (r: PrettyTree)
        ensures
            is_value_with(r, debug_quoted(value@)),
    {
        PrettyTree::Value(quoted(value))
    }

    /// A leaf showing `value` as it is.
    pub fn leaf(value: &str) -> (r: PrettyTree)
        ensures
            is_value_with(r, value@),
    {
        PrettyTree::Value(value.to_owned())
    }

    /// A fragment with one node per item, in order.
    pub fn fragment<T: ToPrettyTree>(list: Vec<T>) -> (r: PrettyTree)
        ensures
            r matches PrettyTree::Fragment(f) && described_by(list@, f.nodes@),
    {
        PrettyTree::Fragment(PrettyFragment::from_iter(list))
    }

    /// A branch labelled `label` with one child per item, in order.
    pub fn branch_of<T: ToPrettyTree>(label: &str, children: Vec<T>) -> (r: PrettyTree)
        ensures
            r matches PrettyTree::Branch(b) && b.label@ == label@ && described_by(
                children@,
                b.children@,
            ),
    {
        PrettyTree::Branch(PrettyBranch::from_iter(label, children))
    }

    /// `key` put in front of a tree: a leaf `key: text` for a leaf, a leaf
    /// `key: "text"` for a string leaf, otherwise a branch labelled `key` with
    /// the tree as its one child.
    pub fn key_value_of(key: &str, tree: PrettyTree) -> (r: PrettyTree)
        ensures
            keyed(key@, tree, r),
    {
        let sep = ": ";
        proof {
            reveal_strlit(": ");
            assert(sep@ =~= seq![':', ' ']);
        }
        match tree {
            PrettyTree::Value(text) => {
                let head = concat(key, sep);
                PrettyTree::Value(concat(head.as_str(), text.as_str()))
            },
            PrettyTree::String(text) => {
                let head = concat(key, sep);
                let q = quoted(text.as_str());
                PrettyTree::Value(concat(head.as_str(), q.as_str()))
            },
            other => {
                let ghost t = other;
                let mut children: Vec<PrettyTree> = Vec::new();
                children.push(other);
                proof {
                    assert(children@ =~= seq![t]);
                }
                PrettyTree::Branch(PrettyBranch { label: key.to_owned(), children })
            },
        }
    }

    /// `key` put in front of the tree that `value` describes; see `key_value_of`.
    pub fn key_value<T: ToPrettyTree>(key: &str, value: &T) -> (r: PrettyTree)
        ensures
            exists|t: PrettyTree| call_ensures(T::to_pretty_tree, (value,), t) && #[trigger] keyed(key@, t, r),
    {
        let t = value.to_pretty_tree();
        let ghost g = t;
        let r = PrettyTree::key_value_of(key, t);
        proof {
            assert(call_ensures(T::to_pretty_tree, (value,), g) && keyed(key@, g, r));
        }
        r
    }

    pub fn some_value(value: PrettyValue) -> (r: PrettyTree)
        ensures
            is_value_with(r, value.text@),
    {
        PrettyTree::Value(value.text)
    }

    pub fn some_branch(branch: PrettyBranch) -> (r: PrettyTree)
        ensures
            r == PrettyTree::Branch(branch),
    {
        PrettyTree::Branch(branch)
    }

    pub fn some_fragment(fragment: PrettyFragment) -> (r: PrettyTree)
        ensures
            r == PrettyTree::Fragment(fragment),
    {
        PrettyTree::Fragment(fragment)
    }
}

impl PrettyValue {
    pub fn from_str(value: &str) -> (r: PrettyValue)
        ensures
            r.text@ == value@,
    {
        PrettyValue { text: value.to_owned() }
    }

    pub fn from_string(value: String) -> (r: PrettyValue)
        ensures
            r.text@ == value@,
    {
        PrettyValue { text: value }
    }
}

/// The trees that the items describe, in order.
fn trees_of<T: ToPrettyTree>(list: Vec<T>) -> (r: Vec<PrettyTree>)
    ensures
        described_by(list@, r@),
{
    let mut nodes: Vec<PrettyTree> = Vec::new();
    let mut i: usize = 0;
    while i < list.len()
        invariant
            0 <= i <= list@.len(),
            nodes@.len() == i,
            forall|k: int| 0 <= k < i ==> call_ensures(T::to_pretty_tree, (&list@[k],), #[trigger] nodes@[k]),
        decreases list@.len() - i,
    {
        let t = list[i].to_pretty_tree();
        proof {
            assert(call_ensures(T::to_pretty_tree, (&list@[i as int],), t));
        }
        nodes.push(t);
        i = i + 1;
    }
    nodes
}

impl PrettyBranch {
    pub fn from_iter<T: ToPrettyTree>(label: &str, children: Vec<T>) -> (r: PrettyBranch)
        ensures
            r.label@ == label@,
            described_by(children@, r.children@),
    {
        PrettyBranch { label: label.to_owned(), children: trees_of(children) }
    }
}

impl PrettyFragment {
    pub fn from_iter<T: ToPrettyTree>(list: Vec<T>) -> (r: PrettyFragment)
        ensures
            described_by(list@, r.nodes@),
    {
        PrettyFragment { nodes: trees_of(list) }
    }
}

impl Default for PrettyTree {
    fn default() -> (r: PrettyTree)
        ensures
            r is Empty,
    {
        PrettyTree::Empty
    }
}

/// `a` and `b` are the same tree: same kinds of node, same texts, same children
/// in the same order.
pub open spec fn same_tree(a: PrettyTree, b: PrettyTree) -> bool
    decreases a, 0nat,
{
    match a {
        PrettyTree::Empty => b is Empty,
        PrettyTree::Value(x) => b matches PrettyTree::Value(y) && y@ == x@,
        PrettyTree::String(x) => b matches PrettyTree::String(y) && y@ == x@,
        PrettyTree::Branch(p) => b matches PrettyTree::Branch(q) && q.label@ == p.label@
            && q.children@.len() == p.children@.len() && same_trees(
            p.children@,
            q.children@,
            p.children@.len(),
        ),
        PrettyTree::Fragment(f) => b matches PrettyTree::Fragment(g) && g.nodes@.len()
            == f.nodes@.len() && same_trees(f.nodes@, g.nodes@, f.nodes@.len()),
    }
}

/// The first `n` trees of `a` and `b` are pairwise the same.
pub open spec fn same_trees(a: Seq<PrettyTree>, b: Seq<PrettyTree>, n: nat) -> bool
    decreases a, n,
{
    if n == 0 || n > a.len() || n > b.len() {
        n == 0
    } else {
        same_trees(a, b, (n - 1) as nat) && same_tree(a[n - 1], b[n - 1])
    }
}

proof fn lemma_same_trees(a: Seq<PrettyTree>, b: Seq<PrettyTree>, n: nat)
    requires
        n <= a.len(),
        n <= b.len(),
        forall|k: int| 0 <= k < n ==> #[trigger] same_tree(a[k], b[k]),
    ensures
        same_trees(a, b, n),
    decreases n,
{
    if n > 0 {
        lemma_same_trees(a, b, (n - 1) as nat);
        assert(same_tree(a[n - 1], b[n - 1]));
    }
}

impl PrettyTree {
    /// A copy of the tree, node for node.
    pub fn duplicate(&self) -> (r: PrettyTree)
        ensures
            same_tree(*self, r),
        decreases self, 0nat,
    {
        match self {
            PrettyTree::Empty => PrettyTree::Empty,
            PrettyTree::Value(x) => PrettyTree::Value(x.clone()),
            PrettyTree::String(x) => PrettyTree::String(x.clone()),
            PrettyTree::Branch(b) => PrettyTree::Branch(
                PrettyBranch { label: b.label.clone(), children: duplicate_all(&b.children) },
            ),
            PrettyTree::Fragment(f) => PrettyTree::Fragment(
                PrettyFragment { nodes: duplicate_all(&f.nodes) },
            ),
        }
    }
}

fn duplicate_all(v: &Vec<PrettyTree>) -> (r: Vec<PrettyTree>)
    ensures
        r@.len() == v@.len(),
        same_trees(v@, r@, v@.len()),
    decreases v, 1nat,
{
    let mut out: Vec<PrettyTree> = Vec::new();
    let mut i: usize = 0;
    while i < v.len()
        invariant
            0 <= i <= v@.len(),
            out@.len() == i,
            forall|k: int| 0 <= k < i ==> #[trigger] same_tree(v@[k], out@[k]),
        decreases v@.len() - i,
    {
        out.push(v[i].duplicate());
        i = i + 1;
    }
    proof {
        lemma_same_trees(v@, out@, v@.len());
    }
    out
}

impl Clone for PrettyTree {
    fn clone(&self) -> (r: PrettyTree)
        ensures
            same_tree(*self, r),
    {
        self.duplicate()
    }
}

impl ToPrettyTree for PrettyTree {
    fn to_pretty_tree(&self) -> PrettyTree {
        self.duplicate()
    }
}

impl ToPrettyTree for String {
    fn to_pretty_tree(&self) -> PrettyTree {
        PrettyTree::string(self.as_str())
    }
}

} // verus!
