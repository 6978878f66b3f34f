//! Idempotence of the update engine, proved at the document level: applying
//! the same target to the same document twice succeeds the second time with
//! no change and an identical document.
//!
//! The law is stated for selectors without `[field=value]` qualifiers: a
//! filter can read the very leaf an update rewrites, and then the second run
//! legitimately resolves differently (selector `pkgs[name=brel].name` with a
//! target other than `brel` no longer matches anything after the first run).
//! Writing a string leaf never changes any mapping key, sequence length or
//! node kind, so index and plain-key resolution is unaffected.

use vstd::prelude::*;

use crate::doc::{DocView, StepV, doc_at, doc_set};
use crate::resolve::{RErrV, insert_all, resolve_frontier, spec_resolve, step_all, step_one};
use crate::selector::{QualV, SegV};
use crate::update::{FErrV, MutErrV, apply_paths, apply_sels};

verus! {

/// A segment whose qualifier is not an equality filter.
pub open spec fn seg_no_filter(seg: SegV) -> bool {
    !(seg.qualifier matches Some(QualV::Filter { .. }))
}

/// A selector free of equality filters.
pub open spec fn sel_no_filters(segs: Seq<SegV>) -> bool {
    forall|i: int| 0 <= i < segs.len() ==> seg_no_filter(#[trigger] segs[i])
}

/// A selector list free of equality filters.
pub open spec fn sels_no_filters(sels: Seq<Seq<SegV>>) -> bool {
    forall|k: int| 0 <= k < sels.len() ==> sel_no_filters(#[trigger] sels[k])
}

/// Nodes of the same kind, with the same keys or the same length; string
/// contents may differ.
pub open spec fn node_like(x: DocView, y: DocView) -> bool {
    match (x, y) {
        (DocView::Str(_), DocView::Str(_)) => true,
        (DocView::Bool(a), DocView::Bool(b)) => a == b,
        (DocView::Other(a), DocView::Other(b)) => a == b,
        (DocView::Arr(a), DocView::Arr(b)) => a.len() == b.len(),
        (DocView::Obj(m), DocView::Obj(m2)) => m.dom() == m2.dom(),
        _ => false,
    }
}

/// Every path reaches like nodes in both documents, or reaches neither.
pub open spec fn like_at_all(d: DocView, d2: DocView) -> bool {
    forall|p: Seq<StepV>|
        match (#[trigger] doc_at(d, p), #[trigger] doc_at(d2, p)) {
            (None, None) => true,
            (Some(x), Some(y)) => node_like(x, y),
            _ => false,
        }
}

proof fn lemma_like_refl(d: DocView)
    ensures
        like_at_all(d, d),
{
    assert forall|p: Seq<StepV>|
        match (#[trigger] doc_at(d, p), #[trigger] doc_at(d, p)) {
            (None, None) => true,
            (Some(x), Some(y)) => node_like(x, y),
            _ => false,
        } by {
        match doc_at(d, p) {
            None => {},
            Some(x) => {
                assert(node_like(x, x)) by {
                    match x {
                        DocView::Str(_) => {},
                        DocView::Bool(_) => {},
                        DocView::Other(_) => {},
                        DocView::Arr(_) => {},
                        DocView::Obj(_) => {},
                    }
                }
            },
        }
    }
}

proof fn lemma_like_trans(a: DocView, b: DocView, c: DocView)
    requires
        like_at_all(a, b),
        like_at_all(b, c),
    ensures
        like_at_all(a, c),
{
    assert forall|p: Seq<StepV>|
        match (#[trigger] doc_at(a, p), #[trigger] doc_at(c, p)) {
            (None, None) => true,
            (Some(x), Some(y)) => node_like(x, y),
            _ => false,
        } by {
        assert(match (doc_at(a, p), doc_at(b, p)) {
            (None, None) => true,
            (Some(x), Some(y)) => node_like(x, y),
            _ => false,
        });
        assert(match (doc_at(b, p), doc_at(c, p)) {
            (None, None) => true,
            (Some(x), Some(y)) => node_like(x, y),
            _ => false,
        });
    }
}

/// Extending a path by one step reads one navigation out of the node the
/// path denotes.
proof fn lemma_doc_at_push(d: DocView, p: Seq<StepV>, s: StepV)
    ensures
        doc_at(d, p.push(s)) == (match doc_at(d, p) {
            Some(DocView::Obj(m)) => match s {
                StepV::Key(k) => if m.dom().contains(k) {
                    Some(m[k])
                } else {
                    None
                },
                _ => None,
            },
            Some(DocView::Arr(items)) => match s {
                StepV::Index(i) => if 0 <= i < items.len() {
                    Some(items[i])
                } else {
                    None
                },
                _ => None,
            },
            _ => None,
        }),
    decreases p.len(),
{
    let q = p.push(s);
    if p.len() == 0 {
        assert(q[0] == s);
        assert(q.subrange(1, q.len() as int) =~= Seq::<StepV>::empty());
        assert(doc_at(d, p) == Some(d));
        match d {
            DocView::Obj(m) => {
                match s {
                    StepV::Key(k) => {
                        if m.dom().contains(k) {
                            assert(doc_at(d, q) == doc_at(m[k], q.subrange(1, q.len() as int)));
                            assert(doc_at(m[k], q.subrange(1, q.len() as int)) == Some(m[k]));
                        } else {
                            assert(doc_at(d, q) is None);
                        }
                    },
                    StepV::Index(_) => {
                        assert(doc_at(d, q) is None);
                    },
                }
            },
            DocView::Arr(items) => {
                match s {
                    StepV::Index(i) => {
                        if 0 <= i < items.len() {
                            assert(doc_at(d, q) == doc_at(items[i], q.subrange(1, q.len() as int)));
                            assert(doc_at(items[i], q.subrange(1, q.len() as int)) == Some(
                                items[i],
                            ));
                        } else {
                            assert(doc_at(d, q) is None);
                        }
                    },
                    StepV::Key(_) => {
                        assert(doc_at(d, q) is None);
                    },
                }
            },
            _ => {
                assert(doc_at(d, q) is None);
            },
        }
    } else {
        assert(q[0] == p[0]);
        let pt = p.subrange(1, p.len() as int);
        assert(q.subrange(1, q.len() as int) =~= pt.push(s));
        match (p[0], d) {
            (StepV::Key(k), DocView::Obj(m)) => {
                if m.dom().contains(k) {
                    lemma_doc_at_push(m[k], pt, s);
                }
            },
            (StepV::Index(i), DocView::Arr(items)) => {
                if 0 <= i < items.len() {
                    lemma_doc_at_push(items[i], pt, s);
                }
            },
            _ => {},
        }
    }
}

/// Writing a string leaf: the written path now reads the new string, every
/// other path reads a like node, and every other string leaf is unchanged.
proof fn lemma_doc_at_set(d: DocView, q: Seq<StepV>, t: Seq<char>, p: Seq<StepV>)
    requires
        doc_at(d, q) matches Some(l) && l is Str,
    ensures
        ({
            let d2 = doc_set(d, q, t);
            &&& (p == q ==> doc_at(d2, p) == Some(DocView::Str(t)))
            &&& (p != q ==> match (doc_at(d, p), doc_at(d2, p)) {
                (None, None) => true,
                (Some(x), Some(y)) => node_like(x, y),
                _ => false,
            })
            &&& (p != q && (doc_at(d, p) matches Some(w) && w is Str) ==> doc_at(d2, p) == doc_at(
                d,
                p,
            ))
        }),
    decreases q.len(),
{
    let d2 = doc_set(d, q, t);
    if q.len() == 0 {
        assert(d is Str);
        assert(d2 == DocView::Str(t));
        if p != q {
            assert(p.len() != 0) by {
                if p.len() == 0 {
                    assert(p =~= q);
                }
            }
            assert(doc_at(d, p) is None);
            assert(doc_at(d2, p) is None);
        }
    } else {
        let qt = q.subrange(1, q.len() as int);
        match (q[0], d) {
            (StepV::Key(k), DocView::Obj(m)) => {
                assert(m.dom().contains(k));
                let c = m[k];
                let c2 = doc_set(c, qt, t);
                assert(d2 == DocView::Obj(m.insert(k, c2)));
                assert(m.insert(k, c2).dom() =~= m.dom());
                if p.len() == 0 {
                    assert(p != q);
                    assert(doc_at(d, p) == Some(d) && doc_at(d2, p) == Some(d2));
                    assert(node_like(d, d2));
                } else {
                    let pt = p.subrange(1, p.len() as int);
                    match p[0] {
                        StepV::Key(k2) => {
                            if k2 == k {
                                lemma_doc_at_set(c, qt, t, pt);
                                assert(m.insert(k, c2)[k] == c2);
                                assert(p == q <==> pt == qt) by {
                                    if pt == qt {
                                        assert(pt.len() == p.len() - 1);
                                        assert(qt.len() == q.len() - 1);
                                        assert(p.len() == q.len());
                                        assert forall|ii: int| 0 <= ii < p.len() implies p[ii]
                                            == q[ii] by {
                                            if ii > 0 {
                                                assert(p[ii] == pt[ii - 1]);
                                                assert(qt[ii - 1] == q[ii]);
                                            }
                                        }
                                        assert(p =~= q);
                                    } else {
                                        if p == q {
                                            assert(pt =~= qt);
                                        }
                                    }
                                }
                            } else {
                                if m.dom().contains(k2) {
                                    assert(m.insert(k, c2)[k2] == m[k2]);
                                    assert(doc_at(d, p) == doc_at(m[k2], pt));
                                    assert(doc_at(d2, p) == doc_at(m[k2], pt));
                                    match doc_at(m[k2], pt) {
                                        None => {},
                                        Some(x) => {
                                            assert(node_like(x, x)) by {
                                                match x {
                                                    DocView::Str(_) => {},
                                                    DocView::Bool(_) => {},
                                                    DocView::Other(_) => {},
                                                    DocView::Arr(_) => {},
                                                    DocView::Obj(_) => {},
                                                }
                                            }
                                        },
                                    }
                                    assert(p != q);
                                } else {
                                    assert(doc_at(d, p) is None && doc_at(d2, p) is None);
                                    assert(p != q);
                                }
                            }
                        },
                        StepV::Index(_) => {
                            assert(doc_at(d, p) is None && doc_at(d2, p) is None);
                            assert(p != q);
                        },
                    }
                }
            },
            (StepV::Index(i), DocView::Arr(items)) => {
                assert(0 <= i < items.len());
                let c = items[i];
                let c2 = doc_set(c, qt, t);
                assert(d2 == DocView::Arr(items.update(i, c2)));
                if p.len() == 0 {
                    assert(p != q);
                    assert(node_like(d, d2));
                } else {
                    let pt = p.subrange(1, p.len() as int);
                    match p[0] {
                        StepV::Index(i2) => {
                            if i2 == i {
                                lemma_doc_at_set(c, qt, t, pt);
                                assert(items.update(i, c2)[i] == c2);
                                assert(p == q <==> pt == qt) by {
                                    if pt == qt {
                                        assert(pt.len() == p.len() - 1);
                                        assert(qt.len() == q.len() - 1);
                                        assert(p.len() == q.len());
                                        assert forall|ii: int| 0 <= ii < p.len() implies p[ii]
                                            == q[ii] by {
                                            if ii > 0 {
                                                assert(p[ii] == pt[ii - 1]);
                                                assert(qt[ii - 1] == q[ii]);
                                            }
                                        }
                                        assert(p =~= q);
                                    } else {
                                        if p == q {
                                            assert(pt =~= qt);
                                        }
                                    }
                                }
                            } else {
                                if 0 <= i2 < items.len() {
                                    assert(items.update(i, c2)[i2] == items[i2]);
                                    assert(doc_at(d, p) == doc_at(items[i2], pt));
                                    assert(doc_at(d2, p) == doc_at(items[i2], pt));
                                    match doc_at(items[i2], pt) {
                                        None => {},
                                        Some(x) => {
                                            assert(node_like(x, x)) by {
                                                match x {
                                                    DocView::Str(_) => {},
                                                    DocView::Bool(_) => {},
                                                    DocView::Other(_) => {},
                                                    DocView::Arr(_) => {},
                                                    DocView::Obj(_) => {},
                                                }
                                            }
                                        },
                                    }
                                    assert(p != q);
                                } else {
                                    assert(doc_at(d, p) is None && doc_at(d2, p) is None);
                                    assert(p != q);
                                }
                            }
                        },
                        StepV::Key(_) => {
                            assert(doc_at(d, p) is None && doc_at(d2, p) is None);
                            assert(p != q);
                        },
                    }
                }
            },
            _ => {
                assert(false);
            },
        }
    }
}

/// The `forall` form of `lemma_doc_at_set`.
proof fn lemma_set_like(d: DocView, q: Seq<StepV>, t: Seq<char>)
    requires
        doc_at(d, q) matches Some(l) && l is Str,
    ensures
        like_at_all(d, doc_set(d, q, t)),
        doc_at(doc_set(d, q, t), q) == Some(DocView::Str(t)),
        forall|p: Seq<StepV>|
            (#[trigger] doc_at(d, p)) == Some(DocView::Str(t)) ==> doc_at(doc_set(d, q, t), p)
                == Some(DocView::Str(t)),
{
    let d2 = doc_set(d, q, t);
    assert forall|p: Seq<StepV>|
        match (#[trigger] doc_at(d, p), #[trigger] doc_at(d2, p)) {
            (None, None) => true,
            (Some(x), Some(y)) => node_like(x, y),
            _ => false,
        } by {
        lemma_doc_at_set(d, q, t, p);
    }
    lemma_doc_at_set(d, q, t, q);
    assert forall|p: Seq<StepV>| (#[trigger] doc_at(d, p)) == Some(DocView::Str(t)) implies doc_at(
        d2,
        p,
    ) == Some(DocView::Str(t)) by {
        lemma_doc_at_set(d, q, t, p);
    }
}

/// Like documents resolve one path-and-segment step identically when the
/// segment carries no filter.
proof fn lemma_step_one_stable(d: DocView, d2: DocView, p: Seq<StepV>, seg: SegV)
    requires
        like_at_all(d, d2),
        seg_no_filter(seg),
    ensures
        step_one(d, p, seg) == step_one(d2, p, seg),
{
    assert(match (doc_at(d, p), doc_at(d2, p)) {
        (None, None) => true,
        (Some(x), Some(y)) => node_like(x, y),
        _ => false,
    });
    match (doc_at(d, p), doc_at(d2, p)) {
        (Some(x), Some(y)) => {
            match (x, y) {
                (DocView::Obj(m), DocView::Obj(m2)) => {
                    if m.dom().contains(seg.key) {
                        lemma_doc_at_push(d, p, StepV::Key(seg.key));
                        lemma_doc_at_push(d2, p, StepV::Key(seg.key));
                        assert(match (doc_at(d, p.push(StepV::Key(seg.key))), doc_at(
                            d2,
                            p.push(StepV::Key(seg.key)),
                        )) {
                            (None, None) => true,
                            (Some(cx), Some(cy)) => node_like(cx, cy),
                            _ => false,
                        });
                        assert(doc_at(d, p.push(StepV::Key(seg.key))) == Some(m[seg.key]));
                        assert(doc_at(d2, p.push(StepV::Key(seg.key))) == Some(m2[seg.key]));
                        assert(node_like(m[seg.key], m2[seg.key]));
                    }
                },
                _ => {},
            }
        },
        _ => {},
    }
}

/// Like documents fold a whole frontier step identically.
proof fn lemma_step_all_stable(
    d: DocView,
    d2: DocView,
    paths: Seq<Seq<StepV>>,
    seg: SegV,
    j: int,
    acc: Seq<Seq<StepV>>,
)
    requires
        like_at_all(d, d2),
        seg_no_filter(seg),
    ensures
        step_all(d, paths, seg, j, acc) == step_all(d2, paths, seg, j, acc),
    decreases paths.len() - j,
{
    if j < 0 || j >= paths.len() {
    } else {
        lemma_step_one_stable(d, d2, paths[j], seg);
        match step_one(d, paths[j], seg) {
            Err(_) => {},
            Ok(news) => {
                lemma_step_all_stable(d, d2, paths, seg, j + 1, insert_all(acc, news));
            },
        }
    }
}

/// Like documents resolve a filter-free selector identically.
proof fn lemma_frontier_stable(
    d: DocView,
    d2: DocView,
    paths: Seq<Seq<StepV>>,
    segs: Seq<SegV>,
    k: int,
)
    requires
        like_at_all(d, d2),
        sel_no_filters(segs),
    ensures
        resolve_frontier(d, paths, segs, k) == resolve_frontier(d2, paths, segs, k),
    decreases segs.len() - k,
{
    if k < 0 || k >= segs.len() {
    } else {
        lemma_step_all_stable(d, d2, paths, segs[k], 0, Seq::empty());
        match step_all(d, paths, segs[k], 0, Seq::empty()) {
            Err(_) => {},
            Ok(next) => {
                lemma_frontier_stable(d, d2, next, segs, k + 1);
            },
        }
    }
}

/// Like documents resolve a filter-free selector identically.
proof fn lemma_resolve_stable(d: DocView, d2: DocView, segs: Seq<SegV>)
    requires
        like_at_all(d, d2),
        sel_no_filters(segs),
    ensures
        spec_resolve(d, segs) == spec_resolve(d2, segs),
{
    lemma_frontier_stable(d, d2, seq![Seq::<StepV>::empty()], segs, 0);
}

/// A successful pass over one selector's paths leaves a like document in
/// which every one of those paths reads the target, keeps every leaf that
/// already read the target, and changes nothing else a path reads.
proof fn lemma_apply_paths_facts(
    d: DocView,
    paths: Seq<Seq<StepV>>,
    j: int,
    target: Seq<char>,
    changed: bool,
)
    requires
        0 <= j,
        apply_paths(d, paths, j, target, changed) is Ok,
    ensures
        ({
            let df = apply_paths(d, paths, j, target, changed)->Ok_0.0;
            &&& like_at_all(d, df)
            &&& (forall|p: Seq<StepV>|
                (#[trigger] doc_at(d, p)) == Some(DocView::Str(target)) ==> doc_at(df, p) == Some(
                    DocView::Str(target),
                ))
            &&& (forall|idx: int|
                j <= idx < paths.len() ==> doc_at(df, #[trigger] paths[idx]) == Some(
                    DocView::Str(target),
                ))
        }),
    decreases paths.len() - j,
{
    if j >= paths.len() {
        lemma_like_refl(d);
    } else {
        match doc_at(d, paths[j]) {
            Some(DocView::Str(s)) => {
                if s == target {
                    lemma_apply_paths_facts(d, paths, j + 1, target, changed);
                    assert(apply_paths(d, paths, j, target, changed) == apply_paths(
                        d,
                        paths,
                        j + 1,
                        target,
                        changed,
                    ));
                    let df = apply_paths(d, paths, j, target, changed)->Ok_0.0;
                    assert(doc_at(df, paths[j]) == Some(DocView::Str(target)));
                    assert forall|idx: int| j <= idx < paths.len() implies doc_at(
                        df,
                        #[trigger] paths[idx],
                    ) == Some(DocView::Str(target)) by {}
                } else {
                    let d1 = doc_set(d, paths[j], target);
                    lemma_set_like(d, paths[j], target);
                    lemma_apply_paths_facts(d1, paths, j + 1, target, true);
                    assert(apply_paths(d, paths, j, target, changed) == apply_paths(
                        d1,
                        paths,
                        j + 1,
                        target,
                        true,
                    ));
                    let df = apply_paths(d, paths, j, target, changed)->Ok_0.0;
                    lemma_like_trans(d, d1, df);
                    assert(doc_at(d1, paths[j]) == Some(DocView::Str(target)));
                    assert(doc_at(df, paths[j]) == Some(DocView::Str(target)));
                    assert forall|p: Seq<StepV>|
                        (#[trigger] doc_at(d, p)) == Some(DocView::Str(target)) implies doc_at(
                        df,
                        p,
                    ) == Some(DocView::Str(target)) by {
                        assert(doc_at(d1, p) == Some(DocView::Str(target)));
                    }
                    assert forall|idx: int| j <= idx < paths.len() implies doc_at(
                        df,
                        #[trigger] paths[idx],
                    ) == Some(DocView::Str(target)) by {}
                }
            },
            _ => {
                assert(false);
            },
        }
    }
}

/// When every listed path already reads the target, a pass changes nothing.
proof fn lemma_apply_paths_noop(
    d: DocView,
    paths: Seq<Seq<StepV>>,
    j: int,
    target: Seq<char>,
)
    requires
        forall|idx: int|
            j <= idx < paths.len() ==> doc_at(d, #[trigger] paths[idx]) == Some(
                DocView::Str(target),
            ),
    ensures
        apply_paths(d, paths, j, target, false) == Ok::<(DocView, bool), MutErrV>((d, false)),
    decreases paths.len() - j,
{
    if j < 0 || j >= paths.len() {
    } else {
        lemma_apply_paths_noop(d, paths, j + 1, target);
    }
}

/// Running the selectors from `k` on yields a like document in which every
/// path any of them resolved (against the pristine document) reads the
/// target, and target leaves are kept.
proof fn lemma_apply_sels_facts(
    d0: DocView,
    d: DocView,
    sels: Seq<Seq<SegV>>,
    k: int,
    target: Seq<char>,
    changed: bool,
    oc: bool,
)
    requires
        0 <= k,
        sels_no_filters(sels),
        like_at_all(d0, d),
        apply_sels(d0, d, sels, k, target, changed, oc) is Ok,
    ensures
        ({
            let df = apply_sels(d0, d, sels, k, target, changed, oc)->Ok_0.0;
            &&& like_at_all(d0, df)
            &&& like_at_all(d, df)
            &&& (forall|p: Seq<StepV>|
                (#[trigger] doc_at(d, p)) == Some(DocView::Str(target)) ==> doc_at(df, p) == Some(
                    DocView::Str(target),
                ))
            &&& (forall|j: int, p: Seq<StepV>|
                k <= j < sels.len() && (spec_resolve(d0, #[trigger] sels[j]) matches Ok(ps)
                    && ps.contains(p)) ==> #[trigger] doc_at(df, p) == Some(DocView::Str(target)))
        }),
    decreases sels.len() - k,
{
    if k < 0 || k >= sels.len() {
        lemma_like_refl(d);
    } else {
        let base = if oc {
            d
        } else {
            d0
        };
        lemma_resolve_stable(d0, d, sels[k]);
        lemma_like_refl(d0);
        assert(spec_resolve(base, sels[k]) == spec_resolve(d0, sels[k]));
        match spec_resolve(base, sels[k]) {
            Err(_) => {
                assert(false);
            },
            Ok(ps) => {
                match apply_paths(d, ps, 0, target, changed) {
                    Err(_) => {
                        assert(false);
                    },
                    Ok(pr) => {
                        let d1 = pr.0;
                        lemma_apply_paths_facts(d, ps, 0, target, changed);
                        lemma_like_trans(d0, d, d1);
                        lemma_apply_sels_facts(d0, d1, sels, k + 1, target, pr.1, oc);
                        let df = apply_sels(d0, d, sels, k, target, changed, oc)->Ok_0.0;
                        lemma_like_trans(d, d1, df);
                        assert forall|j: int, p: Seq<StepV>|
                            k <= j < sels.len() && (spec_resolve(d0, #[trigger] sels[j]) matches Ok(
                                qs,
                            ) && qs.contains(p)) implies #[trigger] doc_at(df, p) == Some(
                            DocView::Str(target),
                        ) by {
                            if j == k {
                                let qs = spec_resolve(d0, sels[j])->Ok_0;
                                let idx = choose|idx: int|
                                    0 <= idx < qs.len() && qs[idx] == p;
                                assert(doc_at(d1, qs[idx]) == Some(DocView::Str(target)));
                            }
                        }
                    },
                }
            },
        }
    }
}

/// On a document every relevant path of which already reads the target, a
/// run of the selectors changes nothing.
proof fn lemma_apply_sels_noop(
    d0: DocView,
    df: DocView,
    sels: Seq<Seq<SegV>>,
    k: int,
    target: Seq<char>,
    oc: bool,
)
    requires
        sels_no_filters(sels),
        like_at_all(d0, df),
        forall|j: int, p: Seq<StepV>|
            0 <= j < sels.len() && (spec_resolve(d0, #[trigger] sels[j]) matches Ok(ps)
                && ps.contains(p)) ==> #[trigger] doc_at(df, p) == Some(DocView::Str(target)),
        forall|j: int|
            k <= j < sels.len() ==> spec_resolve(d0, #[trigger] sels[j]) is Ok,
        0 <= k,
    ensures
        apply_sels(df, df, sels, k, target, false, oc) == Ok::<(DocView, bool), (int, FErrV)>(
            (df, false),
        ),
    decreases sels.len() - k,
{
    if k >= sels.len() {
    } else {
        lemma_resolve_stable(d0, df, sels[k]);
        let ps = spec_resolve(d0, sels[k])->Ok_0;
        assert(spec_resolve(df, sels[k]) == Ok::<Seq<Seq<StepV>>, RErrV>(ps));
        assert forall|idx: int| 0 <= idx < ps.len() implies doc_at(
            df,
            #[trigger] ps[idx],
        ) == Some(DocView::Str(target)) by {
            assert(ps.contains(ps[idx]));
        }
        lemma_apply_paths_noop(df, ps, 0, target);
        lemma_apply_sels_noop(d0, df, sels, k + 1, target, oc);
    }
}

/// Errors of a selector run do not depend on where in the list it starts
/// succeeding: a successful run resolved every selector.
proof fn lemma_apply_sels_all_resolve(
    d0: DocView,
    d: DocView,
    sels: Seq<Seq<SegV>>,
    k: int,
    target: Seq<char>,
    changed: bool,
    oc: bool,
)
    requires
        0 <= k,
        sels_no_filters(sels),
        like_at_all(d0, d),
        apply_sels(d0, d, sels, k, target, changed, oc) is Ok,
    ensures
        forall|j: int| k <= j < sels.len() ==> spec_resolve(d0, #[trigger] sels[j]) is Ok,
    decreases sels.len() - k,
{
    if k < 0 || k >= sels.len() {
    } else {
        let base = if oc {
            d
        } else {
            d0
        };
        lemma_resolve_stable(d0, d, sels[k]);
        match spec_resolve(base, sels[k]) {
            Err(_) => {
                assert(false);
            },
            Ok(ps) => {
                match apply_paths(d, ps, 0, target, changed) {
                    Err(_) => {
                        assert(false);
                    },
                    Ok(pr) => {
                        lemma_apply_paths_facts(d, ps, 0, target, changed);
                        lemma_like_trans(d0, d, pr.0);
                        lemma_apply_sels_all_resolve(d0, pr.0, sels, k + 1, target, pr.1, oc);
                    },
                }
            },
        }
    }
}

/// Idempotence of the update engine at the document level, for selector
/// lists free of equality filters: if one run succeeds, a second run with
/// the same target over its result succeeds, reports no change, and leaves
/// the document identical.
pub proof fn lemma_update_doc_idempotent(
    d0: DocView,
    sels: Seq<Seq<SegV>>,
    target: Seq<char>,
    oc: bool,
)
    requires
        sels_no_filters(sels),
        apply_sels(d0, d0, sels, 0, target, false, oc) is Ok,
    ensures
        ({
            let df = apply_sels(d0, d0, sels, 0, target, false, oc)->Ok_0.0;
            apply_sels(df, df, sels, 0, target, false, oc) == Ok::<
                (DocView, bool),
                (int, FErrV),
            >((df, false))
        }),
{
    lemma_like_refl(d0);
    lemma_apply_sels_facts(d0, d0, sels, 0, target, false, oc);
    lemma_apply_sels_all_resolve(d0, d0, sels, 0, target, false, oc);
    let df = apply_sels(d0, d0, sels, 0, target, false, oc)->Ok_0.0;
    lemma_apply_sels_noop(d0, df, sels, 0, target, oc);
}

} // verus!
