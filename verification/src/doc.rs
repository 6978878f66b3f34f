//! The format-agnostic document model: a tree of string scalars, other
//! scalars, sequences and mappings, together with concrete paths into it.
//!
//! Both supported formats are converted into this one model so that selector
//! resolution is a single algorithm. Mappings are abstracted as maps from key
//! to child; for resolution the textual order of keys is irrelevant.

use vstd::prelude::*;

verus! {

broadcast use vstd::std_specs::vec::group_vec_axioms, vstd::seq::group_seq_axioms;

/// A document tree node. `Other` stands for any scalar that is not a string
/// (numbers, dates, null-like values), carrying the scalar's literal text:
/// selectors may navigate around such values but can never select them.
#[derive(Debug)]
pub enum DocNode {
    Str(String),
    Bool(bool),
    Other(String),
    Arr(Vec<DocNode>),
    Obj(Vec<(String, DocNode)>),
}

/// Mathematical view of a document tree.
pub enum DocView {
    Str(Seq<char>),
    Bool(bool),
    Other(Seq<char>),
    Arr(Seq<DocView>),
    Obj(Map<Seq<char>, DocView>),
}

/// The mapping denoted by an association list; a later entry with the same
/// key wins, as in the maps both formats parse into.
pub open spec fn entries_map(entries: Seq<(String, DocNode)>) -> Map<Seq<char>, DocView>
    decreases entries,
{
    if entries.len() == 0 {
        Map::empty()
    } else {
        entries_map(entries.drop_last()).insert(entries.last().0@, node_view(entries.last().1))
    }
}

/// The element-wise view of a sequence of nodes.
pub open spec fn arr_view(items: Seq<DocNode>) -> Seq<DocView>
    decreases items,
{
    if items.len() == 0 {
        Seq::empty()
    } else {
        arr_view(items.drop_last()).push(node_view(items.last()))
    }
}

/// The view of a document node.
pub open spec fn node_view(n: DocNode) -> DocView
    decreases n,
{
    match n {
        DocNode::Str(s) => DocView::Str(s@),
        DocNode::Bool(b) => DocView::Bool(b),
        DocNode::Other(t) => DocView::Other(t@),
        DocNode::Arr(items) => DocView::Arr(arr_view(items@)),
        DocNode::Obj(entries) => DocView::Obj(entries_map(entries@)),
    }
}

/// `arr_view` is the element-wise image of `node_view`.
pub proof fn lemma_arr_view_index(items: Seq<DocNode>)
    ensures
        arr_view(items).len() == items.len(),
        forall|i: int| 0 <= i < items.len() ==> arr_view(items)[i] == node_view(items[i]),
    decreases items,
{
    if items.len() > 0 {
        lemma_arr_view_index(items.drop_last());
    }
}

impl View for DocNode {
    type V = DocView;

    open spec fn view(&self) -> DocView {
        node_view(*self)
    }
}

/// One step of a concrete path: a mapping key or a sequence index.
#[derive(Debug, Clone, PartialEq, Eq)]
pub enum PathStep {
    Key(String),
    Index(usize),
}

/// Mathematical view of a path step.
pub enum StepV {
    Key(Seq<char>),
    Index(int),
}

impl View for PathStep {
    type V = StepV;

    open spec fn view(&self) -> StepV {
        match self {
            PathStep::Key(k) => StepV::Key(k@),
            PathStep::Index(i) => StepV::Index(*i as int),
        }
    }
}

/// The view of a concrete path.
pub open spec fn path_view(p: Seq<PathStep>) -> Seq<StepV> {
    p.map_values(|s: PathStep| s@)
}

/// The node a concrete path denotes, if the path exists in the document.
pub open spec fn doc_at(d: DocView, path: Seq<StepV>) -> Option<DocView>
    decreases path.len(),
{
    if path.len() == 0 {
        Some(d)
    } else {
        match (path[0], d) {
            (StepV::Key(k), DocView::Obj(m)) => if m.dom().contains(k) {
                doc_at(m[k], path.subrange(1, path.len() as int))
            } else {
                None
            },
            (StepV::Index(i), DocView::Arr(items)) => if 0 <= i < items.len() {
                doc_at(items[i], path.subrange(1, path.len() as int))
            } else {
                None
            },
            _ => None,
        }
    }
}

/// The document with the string leaf at `path` replaced by `val`; documents
/// where `path` does not lead to a node are returned unchanged.
pub open spec fn doc_set(d: DocView, path: Seq<StepV>, val: Seq<char>) -> DocView
    decreases path.len(),
{
    if path.len() == 0 {
        DocView::Str(val)
    } else {
        match (path[0], d) {
            (StepV::Key(k), DocView::Obj(m)) => if m.dom().contains(k) {
                DocView::Obj(m.insert(k, doc_set(m[k], path.subrange(1, path.len() as int), val)))
            } else {
                d
            },
            (StepV::Index(i), DocView::Arr(items)) => if 0 <= i < items.len() {
                DocView::Arr(
                    items.update(i, doc_set(items[i], path.subrange(1, path.len() as int), val)),
                )
            } else {
                d
            },
            _ => d,
        }
    }
}

/// Index of the entry a mapping lookup denotes: the last entry with the
/// given key, or `None` when the key is absent.
pub fn obj_find_last(entries: &Vec<(String, DocNode)>, key: &str) -> (r: Option<usize>)
    ensures
        match r {
            Some(idx) => idx < entries@.len() && entries@[idx as int].0@ == key@ && (forall|i: int|
                idx < i < entries@.len() ==> entries@[i].0@ != key@) && entries_map(
                entries@,
            ).dom().contains(key@) && entries_map(entries@)[key@] == node_view(
                entries@[idx as int].1,
            ),
            None => !entries_map(entries@).dom().contains(key@),
        },
{
    let mut j: usize = entries.len();
    while j > 0
        invariant
            0 <= j <= entries@.len(),
            forall|k: int| j <= k < entries@.len() ==> entries@[k].0@ != key@,
        decreases j,
    {
        j = j - 1;
        if crate::textutil::str_eq(entries[j].0.as_str(), key) {
            assert(entries@[j as int].0@ == key@);
            proof {
                lemma_entries_map_last_match(entries@, key@, j as int);
            }
            return Some(j);
        }
        assert(entries@[j as int].0@ != key@);
    }
    proof {
        lemma_entries_map_no_match(entries@, key@);
    }
    None
}

/// Looks a key up among the entries of a mapping node; the result is the
/// entry the association-list map denotes.
pub fn obj_get<'a>(entries: &'a Vec<(String, DocNode)>, key: &str) -> (r: Option<&'a DocNode>)
    ensures
        match r {
            Some(n) => entries_map(entries@).dom().contains(key@) && entries_map(entries@)[key@]
                == n@,
            None => !entries_map(entries@).dom().contains(key@),
        },
{
    match obj_find_last(entries, key) {
        Some(idx) => Some(&entries[idx].1),
        None => None,
    }
}

/// If entry `j` has key `k` and no later entry does, the map's value at `k`
/// is entry `j`'s value.
proof fn lemma_entries_map_last_match(entries: Seq<(String, DocNode)>, k: Seq<char>, j: int)
    requires
        0 <= j < entries.len(),
        entries[j].0@ == k,
        forall|i: int| j < i < entries.len() ==> entries[i].0@ != k,
    ensures
        entries_map(entries).dom().contains(k),
        entries_map(entries)[k] == node_view(entries[j].1),
    decreases entries.len(),
{
    if j == entries.len() - 1 {
    } else {
        let pre = entries.drop_last();
        assert(forall|i: int| j < i < pre.len() ==> pre[i].0@ != k);
        lemma_entries_map_last_match(pre, k, j);
        assert(entries.last().0@ != k);
    }
}

/// If no entry has key `k`, the map has no value at `k`.
proof fn lemma_entries_map_no_match(entries: Seq<(String, DocNode)>, k: Seq<char>)
    requires
        forall|i: int| 0 <= i < entries.len() ==> entries[i].0@ != k,
    ensures
        !entries_map(entries).dom().contains(k),
    decreases entries.len(),
{
    if entries.len() > 0 {
        lemma_entries_map_no_match(entries.drop_last(), k);
    }
}

/// Navigates from `root` along `path`.
pub fn node_at<'a>(root: &'a DocNode, path: &Vec<PathStep>) -> (r: Option<&'a DocNode>)
    ensures
        match r {
            Some(n) => doc_at(root@, path_view(path@)) == Some(n@),
            None => doc_at(root@, path_view(path@)) is None,
        },
{
    let mut cur: &DocNode = root;
    let mut i: usize = 0;
    proof {
        assert(path_view(path@).subrange(0, path@.len() as int) =~= path_view(path@));
    }
    while i < path.len()
        invariant
            0 <= i <= path@.len(),
            doc_at(root@, path_view(path@)) == doc_at(
                cur@,
                path_view(path@).subrange(i as int, path@.len() as int),
            ),
        decreases path@.len() - i,
    {
        let ghost rest = path_view(path@).subrange(i as int, path@.len() as int);
        let ghost rest1 = path_view(path@).subrange(i as int + 1, path@.len() as int);
        proof {
            assert(rest[0] == path@[i as int]@);
            assert(rest.subrange(1, rest.len() as int) =~= rest1);
        }
        match &path[i] {
            PathStep::Key(k) => {
                match cur {
                    DocNode::Obj(entries) => {
                        match obj_get(entries, k.as_str()) {
                            Some(child) => {
                                cur = child;
                            },
                            None => {
                                return None;
                            },
                        }
                    },
                    _ => {
                        return None;
                    },
                }
            },
            PathStep::Index(idx) => {
                match cur {
                    DocNode::Arr(items) => {
                        proof {
                            lemma_arr_view_index(items@);
                        }
                        if *idx < items.len() {
                            assert(cur@ matches DocView::Arr(vs) && vs[*idx as int] == items@[*idx
                                as int]@);
                            cur = &items[*idx];
                        } else {
                            assert(cur@ matches DocView::Arr(vs) && vs.len() == items@.len());
                            return None;
                        }
                    },
                    _ => {
                        return None;
                    },
                }
            },
        }
        i = i + 1;
    }
    proof {
        assert(path_view(path@).subrange(i as int, path@.len() as int) =~= Seq::<StepV>::empty());
    }
    Some(cur)
}

/// Updating the entry a lookup denotes updates the denoted mapping at its key.
proof fn lemma_entries_map_update(entries: Seq<(String, DocNode)>, j: int, p: (String, DocNode))
    requires
        0 <= j < entries.len(),
        p.0@ == entries[j].0@,
        forall|i: int| j < i < entries.len() ==> entries[i].0@ != entries[j].0@,
    ensures
        entries_map(entries.update(j, p)) =~= entries_map(entries).insert(p.0@, node_view(p.1)),
    decreases entries.len(),
{
    let upd = entries.update(j, p);
    if j == entries.len() - 1 {
        assert(upd.drop_last() =~= entries.drop_last());
        assert(upd.last() == p);
    } else {
        lemma_entries_map_update(entries.drop_last(), j, p);
        assert(upd.drop_last() =~= entries.drop_last().update(j, p));
        assert(upd.last() == entries.last());
        assert(entries.last().0@ != p.0@);
    }
}

/// The document with the string leaf at `path[j..]` written to `target`:
/// `Some` exactly when the remaining path leads to a node, and then the
/// result is `doc_set` of the input.
pub fn node_with_set(node: DocNode, path: &Vec<PathStep>, j: usize, target: &str) -> (r: Option<
    DocNode,
>)
    requires
        j <= path@.len(),
    ensures
        ({
            let rest = path_view(path@).subrange(j as int, path@.len() as int);
            match r {
                Some(n) => doc_at(node@, rest) is Some && n@ == doc_set(node@, rest, target@),
                None => doc_at(node@, rest) is None,
            }
        }),
    decreases path@.len() - j,
{
    let ghost rest = path_view(path@).subrange(j as int, path@.len() as int);
    if j == path.len() {
        proof {
            assert(rest =~= Seq::<StepV>::empty());
        }
        return Some(DocNode::Str(target.to_owned()));
    }
    let ghost rest1 = path_view(path@).subrange(j as int + 1, path@.len() as int);
    proof {
        assert(rest[0] == path@[j as int]@);
        assert(rest.subrange(1, rest.len() as int) =~= rest1);
    }
    match node {
        DocNode::Obj(mut entries) => {
            match &path[j] {
                PathStep::Key(k) => {
                    match obj_find_last(&entries, k.as_str()) {
                        Some(idx) => {
                            let ghost entries0 = entries@;
                            let (key_owned, child) = entries.remove(idx);
                            match node_with_set(child, path, j + 1, target) {
                                Some(new_child) => {
                                    let ghost new_child_g = new_child;
                                    entries.insert(idx, (key_owned, new_child));
                                    proof {
                                        assert(entries@ =~= entries0.update(
                                            idx as int,
                                            (key_owned, new_child_g),
                                        ));
                                        lemma_entries_map_update(
                                            entries0,
                                            idx as int,
                                            (key_owned, new_child_g),
                                        );
                                    }
                                    Some(DocNode::Obj(entries))
                                },
                                None => None,
                            }
                        },
                        None => None,
                    }
                },
                PathStep::Index(_) => None,
            }
        },
        DocNode::Arr(mut items) => {
            match &path[j] {
                PathStep::Index(i) => {
                    let idx = *i;
                    if idx < items.len() {
                        proof {
                            lemma_arr_view_index(items@);
                        }
                        let ghost items0 = items@;
                        let child = items.remove(idx);
                        match node_with_set(child, path, j + 1, target) {
                            Some(new_child) => {
                                let ghost new_child_g = new_child;
                                items.insert(idx, new_child);
                                proof {
                                    assert(items@ =~= items0.update(idx as int, new_child_g));
                                    lemma_arr_view_update(items0, idx as int, new_child_g);
                                }
                                Some(DocNode::Arr(items))
                            },
                            None => None,
                        }
                    } else {
                        proof {
                            lemma_arr_view_index(items@);
                        }
                        None
                    }
                },
                PathStep::Key(_) => None,
            }
        },
        _ => None,
    }
}

/// Updating one element updates the element-wise view at that index.
proof fn lemma_arr_view_update(items: Seq<DocNode>, j: int, p: DocNode)
    requires
        0 <= j < items.len(),
    ensures
        arr_view(items.update(j, p)) =~= arr_view(items).update(j, node_view(p)),
    decreases items.len(),
{
    lemma_arr_view_index(items);
    lemma_arr_view_index(items.update(j, p));
    let upd = items.update(j, p);
    if j == items.len() - 1 {
        assert(upd.drop_last() =~= items.drop_last());
    } else {
        lemma_arr_view_update(items.drop_last(), j, p);
        assert(upd.drop_last() =~= items.drop_last().update(j, p));
        assert(upd.last() == items.last());
    }
}

} // verus!
