//! Path resolution: expands a selector against a document into the sorted,
//! deduplicated set of concrete leaf paths it denotes.
//!
//! The frontier algorithm walks the segments in order. Absence (a missing
//! key, an out-of-range index, a non-mapping node in the way) silently drops
//! a branch; a qualifier applied to a node of the wrong shape is a hard type
//! error; an empty final frontier is the no-match error.

use vstd::prelude::*;

use crate::doc::{
    DocNode, DocView, PathStep, StepV, arr_view, doc_at, lemma_arr_view_index, node_at, node_view,
    obj_get, path_view,
};
use crate::pathord::{insert_sorted, insert_sorted_exec, paths_view};
use crate::selector::{QualV, SegV, SegmentQualifier, SelectorSegment, VersionSelector};
use crate::textutil::str_eq;

verus! {

/// Why resolution of a selector against a document failed.
#[derive(Debug, Clone, PartialEq, Eq)]
pub enum ResolveError {
    /// A qualifier was applied to a key whose child is not a sequence.
    ExpectsArray { segment: String },
    /// A filter ran over a sequence holding a non-mapping element.
    ElementsNotMappings { segment: String },
    /// A filter field was present on an element but is not a string.
    FilterFieldNotString { field: String },
    /// The selector resolved to no leaf at all.
    NoMatch,
}

/// Mathematical view of `ResolveError`.
pub enum RErrV {
    ExpectsArray(Seq<char>),
    ElementsNotMappings(Seq<char>),
    FilterFieldNotString(Seq<char>),
    NoMatch,
}

impl View for ResolveError {
    type V = RErrV;

    open spec fn view(&self) -> RErrV {
        match self {
            ResolveError::ExpectsArray { segment } => RErrV::ExpectsArray(segment@),
            ResolveError::ElementsNotMappings { segment } => RErrV::ElementsNotMappings(segment@),
            ResolveError::FilterFieldNotString { field } => RErrV::FilterFieldNotString(field@),
            ResolveError::NoMatch => RErrV::NoMatch,
        }
    }
}

/// The element indices from `j` on that a `[field=value]` filter keeps.
/// An element without the field is skipped; a non-mapping element or a
/// non-string field is a type error.
pub open spec fn filter_scan(
    items: Seq<DocView>,
    key: Seq<char>,
    field: Seq<char>,
    value: Seq<char>,
    j: int,
) -> Result<Seq<int>, RErrV>
    decreases items.len() - j,
{
    if j < 0 || j >= items.len() {
        Ok(Seq::empty())
    } else {
        match items[j] {
            DocView::Obj(m) => if !m.dom().contains(field) {
                filter_scan(items, key, field, value, j + 1)
            } else {
                match m[field] {
                    DocView::Str(s) => match filter_scan(items, key, field, value, j + 1) {
                        Err(e) => Err(e),
                        Ok(rest) => if s == value {
                            Ok(seq![j] + rest)
                        } else {
                            Ok(rest)
                        },
                    },
                    _ => Err(RErrV::FilterFieldNotString(field)),
                }
            },
            _ => Err(RErrV::ElementsNotMappings(key)),
        }
    }
}

/// The paths one frontier path contributes for one segment, in order.
pub open spec fn step_one(root: DocView, p: Seq<StepV>, seg: SegV) -> Result<
    Seq<Seq<StepV>>,
    RErrV,
> {
    match doc_at(root, p) {
        None => Ok(Seq::empty()),
        Some(nd) => match nd {
            DocView::Obj(m) => if !m.dom().contains(seg.key) {
                Ok(Seq::empty())
            } else {
                let child = m[seg.key];
                let p1 = p.push(StepV::Key(seg.key));
                match seg.qualifier {
                    None => Ok(seq![p1]),
                    Some(QualV::Index(i)) => match child {
                        DocView::Arr(items) => if 0 <= i < items.len() {
                            Ok(seq![p1.push(StepV::Index(i))])
                        } else {
                            Ok(Seq::empty())
                        },
                        _ => Err(RErrV::ExpectsArray(seg.key)),
                    },
                    Some(QualV::Filter { field, value }) => match child {
                        DocView::Arr(items) => match filter_scan(items, seg.key, field, value, 0) {
                            Err(e) => Err(e),
                            Ok(idxs) => Ok(
                                Seq::new(idxs.len(), |t: int| p1.push(StepV::Index(idxs[t]))),
                            ),
                        },
                        _ => Err(RErrV::ExpectsArray(seg.key)),
                    },
                }
            },
            _ => Ok(Seq::empty()),
        },
    }
}

/// `acc` with every path of `news` inserted in order.
pub open spec fn insert_all(acc: Seq<Seq<StepV>>, news: Seq<Seq<StepV>>) -> Seq<Seq<StepV>>
    decreases news.len(),
{
    if news.len() == 0 {
        acc
    } else {
        insert_all(insert_sorted(acc, news[0]), news.subrange(1, news.len() as int))
    }
}

/// Folds `step_one` over the frontier paths from `j` on, accumulating into
/// the sorted deduplicated next frontier `acc`.
pub open spec fn step_all(
    root: DocView,
    paths: Seq<Seq<StepV>>,
    seg: SegV,
    j: int,
    acc: Seq<Seq<StepV>>,
) -> Result<Seq<Seq<StepV>>, RErrV>
    decreases paths.len() - j,
{
    if j < 0 || j >= paths.len() {
        Ok(acc)
    } else {
        match step_one(root, paths[j], seg) {
            Err(e) => Err(e),
            Ok(news) => step_all(root, paths, seg, j + 1, insert_all(acc, news)),
        }
    }
}

/// Consumes the segments from `k` on; an empty frontier at the end is the
/// no-match failure.
pub open spec fn resolve_frontier(
    root: DocView,
    paths: Seq<Seq<StepV>>,
    segs: Seq<SegV>,
    k: int,
) -> Result<Seq<Seq<StepV>>, RErrV>
    decreases segs.len() - k,
{
    if k < 0 || k >= segs.len() {
        if paths.len() == 0 {
            Err(RErrV::NoMatch)
        } else {
            Ok(paths)
        }
    } else {
        match step_all(root, paths, segs[k], 0, Seq::empty()) {
            Err(e) => Err(e),
            Ok(next) => resolve_frontier(root, next, segs, k + 1),
        }
    }
}

/// Model of `resolve_selector`: the frontier starts as the root path alone.
pub open spec fn spec_resolve(root: DocView, segs: Seq<SegV>) -> Result<Seq<Seq<StepV>>, RErrV> {
    resolve_frontier(root, seq![Seq::empty()], segs, 0)
}

/// A copy of a path.
pub fn path_dup(p: &Vec<PathStep>) -> (r: Vec<PathStep>)
    ensures
        r@ == p@,
{
    let mut out: Vec<PathStep> = Vec::new();
    let mut i: usize = 0;
    while i < p.len()
        invariant
            0 <= i <= p@.len(),
            out@ =~= p@.subrange(0, i as int),
        decreases p@.len() - i,
    {
        let step = match &p[i] {
            PathStep::Key(k) => PathStep::Key(k.clone()),
            PathStep::Index(n) => PathStep::Index(*n),
        };
        assert(step == p@[i as int]);
        out.push(step);
        i = i + 1;
    }
    assert(out@ =~= p@);
    out
}

/// The matching element indices of a filter, or its type error.
fn filter_matches(
    items: &Vec<DocNode>,
    key: &String,
    field: &String,
    value: &String,
) -> (r: Result<Vec<usize>, ResolveError>)
    ensures
        match r {
            Ok(idxs) => filter_scan(arr_view(items@), key@, field@, value@, 0) == Ok::<
                Seq<int>,
                RErrV,
            >(idxs@.map_values(|u: usize| u as int)),
            Err(e) => filter_scan(arr_view(items@), key@, field@, value@, 0) == Err::<
                Seq<int>,
                RErrV,
            >(e@),
        },
{
    let ghost av = arr_view(items@);
    proof {
        lemma_arr_view_index(items@);
    }
    let mut out: Vec<usize> = Vec::new();
    let mut t: usize = 0;
    while t < items.len()
        invariant
            0 <= t <= items@.len(),
            av == arr_view(items@),
            av.len() == items@.len(),
            forall|i: int| 0 <= i < items@.len() ==> av[i] == node_view(items@[i]),
            ({
                let full = filter_scan(av, key@, field@, value@, 0);
                let restr = filter_scan(av, key@, field@, value@, t as int);
                match restr {
                    Ok(rest) => full == Ok::<Seq<int>, RErrV>(
                        out@.map_values(|u: usize| u as int) + rest,
                    ),
                    Err(e) => full == Err::<Seq<int>, RErrV>(e),
                }
            }),
        decreases items@.len() - t,
    {
        let ghost out0 = out@.map_values(|u: usize| u as int);
        match &items[t] {
            DocNode::Obj(entries) => {
                match obj_get(entries, field.as_str()) {
                    None => {},
                    Some(fv) => {
                        match fv {
                            DocNode::Str(s) => {
                                if str_eq(s.as_str(), value.as_str()) {
                                    out.push(t);
                                    proof {
                                        assert(out@.map_values(|u: usize| u as int) =~= out0 + seq![
                                            t as int,
                                        ]);
                                        match filter_scan(av, key@, field@, value@, t as int + 1) {
                                            Ok(rest) => {
                                                assert(out0 + (seq![t as int] + rest) =~= (out0
                                                    + seq![t as int]) + rest);
                                            },
                                            Err(_) => {},
                                        }
                                    }
                                }
                            },
                            _ => {
                                return Err(
                                    ResolveError::FilterFieldNotString { field: field.clone() },
                                );
                            },
                        }
                    },
                }
            },
            _ => {
                return Err(ResolveError::ElementsNotMappings { segment: key.clone() });
            },
        }
        t = t + 1;
    }
    proof {
        assert(out@.map_values(|u: usize| u as int) + Seq::<int>::empty() =~= out@.map_values(
            |u: usize| u as int,
        ));
    }
    Ok(out)
}

/// The next-frontier contribution of one current path under one segment.
fn step_one_exec(root: &DocNode, p: &Vec<PathStep>, seg: &SelectorSegment) -> (r: Result<
    Vec<Vec<PathStep>>,
    ResolveError,
>)
    ensures
        match r {
            Ok(news) => step_one(root@, path_view(p@), seg@) == Ok::<Seq<Seq<StepV>>, RErrV>(
                paths_view(news@),
            ),
            Err(e) => step_one(root@, path_view(p@), seg@) == Err::<Seq<Seq<StepV>>, RErrV>(e@),
        },
{
    let node = match node_at(root, p) {
        None => {
            let out: Vec<Vec<PathStep>> = Vec::new();
            assert(paths_view(out@) =~= Seq::<Seq<StepV>>::empty());
            return Ok(out);
        },
        Some(n) => n,
    };
    let entries = match node {
        DocNode::Obj(entries) => entries,
        _ => {
            let out: Vec<Vec<PathStep>> = Vec::new();
            assert(paths_view(out@) =~= Seq::<Seq<StepV>>::empty());
            return Ok(out);
        },
    };
    let child = match obj_get(entries, seg.key.as_str()) {
        None => {
            let out: Vec<Vec<PathStep>> = Vec::new();
            assert(paths_view(out@) =~= Seq::<Seq<StepV>>::empty());
            return Ok(out);
        },
        Some(c) => c,
    };
    let mut p1 = path_dup(p);
    p1.push(PathStep::Key(seg.key.clone()));
    let ghost p1v = path_view(p@).push(StepV::Key(seg.key@));
    proof {
        assert(path_view(p1@) =~= p1v);
    }
    match &seg.qualifier {
        None => {
            let mut out: Vec<Vec<PathStep>> = Vec::new();
            out.push(p1);
            assert(paths_view(out@) =~= seq![p1v]);
            Ok(out)
        },
        Some(SegmentQualifier::Index(i)) => {
            match child {
                DocNode::Arr(items) => {
                    proof {
                        lemma_arr_view_index(items@);
                    }
                    if *i < items.len() {
                        let mut p2 = p1;
                        p2.push(PathStep::Index(*i));
                        let mut out: Vec<Vec<PathStep>> = Vec::new();
                        proof {
                            assert(path_view(p2@) =~= p1v.push(StepV::Index(*i as int)));
                        }
                        out.push(p2);
                        assert(paths_view(out@) =~= seq![p1v.push(StepV::Index(*i as int))]);
                        Ok(out)
                    } else {
                        let out: Vec<Vec<PathStep>> = Vec::new();
                        assert(paths_view(out@) =~= Seq::<Seq<StepV>>::empty());
                        Ok(out)
                    }
                },
                _ => Err(ResolveError::ExpectsArray { segment: seg.key.clone() }),
            }
        },
        Some(SegmentQualifier::Filter { field, value }) => {
            match child {
                DocNode::Arr(items) => {
                    match filter_matches(items, &seg.key, field, value) {
                        Err(e) => Err(e),
                        Ok(idxs) => {
                            let ghost idxsv = idxs@.map_values(|u: usize| u as int);
                            let mut out: Vec<Vec<PathStep>> = Vec::new();
                            let mut t: usize = 0;
                            while t < idxs.len()
                                invariant
                                    0 <= t <= idxs@.len(),
                                    idxsv == idxs@.map_values(|u: usize| u as int),
                                    p1v == path_view(p1@),
                                    paths_view(out@) =~= Seq::new(
                                        t as nat,
                                        |u: int| p1v.push(StepV::Index(idxsv[u])),
                                    ),
                                decreases idxs@.len() - t,
                            {
                                let mut p2 = path_dup(&p1);
                                p2.push(PathStep::Index(idxs[t]));
                                proof {
                                    assert(path_view(p2@) =~= p1v.push(
                                        StepV::Index(idxsv[t as int]),
                                    ));
                                }
                                let ghost out0 = out@;
                                out.push(p2);
                                proof {
                                    assert(paths_view(out@) =~= paths_view(out0).push(
                                        p1v.push(StepV::Index(idxsv[t as int])),
                                    ));
                                    assert(paths_view(out0).push(
                                        p1v.push(StepV::Index(idxsv[t as int])),
                                    ) =~= Seq::new(
                                        (t + 1) as nat,
                                        |u: int| p1v.push(StepV::Index(idxsv[u])),
                                    ));
                                }
                                t = t + 1;
                            }
                            proof {
                                assert(paths_view(out@) =~= Seq::new(
                                    idxsv.len(),
                                    |u: int| p1v.push(StepV::Index(idxsv[u])),
                                ));
                            }
                            Ok(out)
                        },
                    }
                },
                _ => Err(ResolveError::ExpectsArray { segment: seg.key.clone() }),
            }
        },
    }
}

/// Inserts every path of `news` into the sorted frontier `next`.
fn insert_all_exec(next: &mut Vec<Vec<PathStep>>, news: Vec<Vec<PathStep>>)
    ensures
        paths_view(final(next)@) == insert_all(paths_view(old(next)@), paths_view(news@)),
{
    let ghost target = insert_all(paths_view(next@), paths_view(news@));
    let mut rest = news;
    while rest.len() > 0
        invariant
            insert_all(paths_view(next@), paths_view(rest@)) == target,
        decreases rest@.len(),
    {
        let ghost rest0 = paths_view(rest@);
        let p = rest.remove(0);
        proof {
            assert(paths_view(rest@) =~= rest0.subrange(1, rest0.len() as int));
            assert(rest0[0] == path_view(p@));
        }
        insert_sorted_exec(next, p);
    }
    proof {
        assert(paths_view(rest@).len() == 0);
    }
}

/// Resolves a selector against a document: the sorted, deduplicated set of
/// concrete paths it denotes, or the error the resolution model gives.
pub fn resolve_selector(root: &DocNode, selector: &VersionSelector) -> (r: Result<
    Vec<Vec<PathStep>>,
    ResolveError,
>)
    ensures
        match r {
            Ok(paths) => spec_resolve(root@, selector@) == Ok::<Seq<Seq<StepV>>, RErrV>(
                paths_view(paths@),
            ) && paths@.len() > 0,
            Err(e) => spec_resolve(root@, selector@) == Err::<Seq<Seq<StepV>>, RErrV>(e@),
        },
{
    let mut frontier: Vec<Vec<PathStep>> = Vec::new();
    frontier.push(Vec::new());
    proof {
        assert(frontier@[0]@ =~= Seq::<PathStep>::empty());
        assert(path_view(frontier@[0]@) =~= Seq::<StepV>::empty());
        assert(paths_view(frontier@) =~= seq![Seq::<StepV>::empty()]);
    }
    let mut k: usize = 0;
    while k < selector.segments.len()
        invariant
            0 <= k <= selector.segments@.len(),
            resolve_frontier(root@, paths_view(frontier@), selector@, k as int) == spec_resolve(
                root@,
                selector@,
            ),
        decreases selector.segments@.len() - k,
    {
        let seg = &selector.segments[k];
        proof {
            assert(selector@[k as int] == seg@);
        }
        let mut next: Vec<Vec<PathStep>> = Vec::new();
        proof {
            assert(paths_view(next@) =~= Seq::<Seq<StepV>>::empty());
        }
        let mut j: usize = 0;
        while j < frontier.len()
            invariant
                0 <= j <= frontier@.len(),
                selector@[k as int] == seg@,
                0 <= k < selector.segments@.len(),
                resolve_frontier(root@, paths_view(frontier@), selector@, k as int)
                    == spec_resolve(root@, selector@),
                step_all(root@, paths_view(frontier@), seg@, j as int, paths_view(next@))
                    == step_all(
                    root@,
                    paths_view(frontier@),
                    seg@,
                    0,
                    Seq::<Seq<StepV>>::empty(),
                ),
            decreases frontier@.len() - j,
        {
            proof {
                assert(paths_view(frontier@)[j as int] == path_view(frontier@[j as int]@));
            }
            match step_one_exec(root, &frontier[j], seg) {
                Err(e) => {
                    return Err(e);
                },
                Ok(news) => {
                    insert_all_exec(&mut next, news);
                },
            }
            j = j + 1;
        }
        frontier = next;
        k = k + 1;
    }
    if frontier.len() == 0 {
        return Err(ResolveError::NoMatch);
    }
    Ok(frontier)
}

} // verus!
