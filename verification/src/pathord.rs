//! A total order on concrete paths, used to keep every resolved frontier
//! deduplicated and deterministically sorted: keys order before indices,
//! keys compare lexicographically by character, indices numerically, and
//! paths compare lexicographically by step with prefixes first.

use vstd::prelude::*;

use crate::doc::{PathStep, StepV, path_view};
use crate::textutil::str_eq;

verus! {

/// Strict lexicographic order on character sequences.
pub open spec fn chars_lt(a: Seq<char>, b: Seq<char>) -> bool
    decreases a.len(),
{
    if b.len() == 0 {
        false
    } else if a.len() == 0 {
        true
    } else if (a[0] as int) < (b[0] as int) {
        true
    } else if a[0] == b[0] {
        chars_lt(a.subrange(1, a.len() as int), b.subrange(1, b.len() as int))
    } else {
        false
    }
}

/// Strict order on path steps: keys before indices.
pub open spec fn step_lt(x: StepV, y: StepV) -> bool {
    match (x, y) {
        (StepV::Key(a), StepV::Key(b)) => chars_lt(a, b),
        (StepV::Key(_), StepV::Index(_)) => true,
        (StepV::Index(_), StepV::Key(_)) => false,
        (StepV::Index(i), StepV::Index(j)) => i < j,
    }
}

/// Strict lexicographic order on paths.
pub open spec fn path_lt(p: Seq<StepV>, q: Seq<StepV>) -> bool
    decreases p.len(),
{
    if q.len() == 0 {
        false
    } else if p.len() == 0 {
        true
    } else if step_lt(p[0], q[0]) {
        true
    } else if p[0] == q[0] {
        path_lt(p.subrange(1, p.len() as int), q.subrange(1, q.len() as int))
    } else {
        false
    }
}

pub proof fn lemma_chars_lt_asym(a: Seq<char>, b: Seq<char>)
    requires
        chars_lt(a, b),
    ensures
        !chars_lt(b, a),
        a != b,
    decreases a.len(),
{
    if b.len() == 0 {
    } else if a.len() == 0 {
    } else if (a[0] as int) < (b[0] as int) {
    } else if a[0] == b[0] {
        lemma_chars_lt_asym(a.subrange(1, a.len() as int), b.subrange(1, b.len() as int));
        assert(a != b) by {
            if a == b {
                assert(a.subrange(1, a.len() as int) =~= b.subrange(1, b.len() as int));
            }
        }
    }
}

pub proof fn lemma_step_lt_asym(x: StepV, y: StepV)
    requires
        step_lt(x, y),
    ensures
        !step_lt(y, x),
        x != y,
{
    match (x, y) {
        (StepV::Key(a), StepV::Key(b)) => {
            lemma_chars_lt_asym(a, b);
        },
        _ => {},
    }
}

pub proof fn lemma_path_lt_asym(p: Seq<StepV>, q: Seq<StepV>)
    requires
        path_lt(p, q),
    ensures
        !path_lt(q, p),
        p != q,
    decreases p.len(),
{
    if q.len() == 0 {
    } else if p.len() == 0 {
        assert(p != q);
    } else if step_lt(p[0], q[0]) {
        lemma_step_lt_asym(p[0], q[0]);
    } else if p[0] == q[0] {
        lemma_path_lt_asym(p.subrange(1, p.len() as int), q.subrange(1, q.len() as int));
        assert(p != q) by {
            if p == q {
                assert(p.subrange(1, p.len() as int) =~= q.subrange(1, q.len() as int));
            }
        }
    }
}

pub proof fn lemma_chars_lt_total(a: Seq<char>, b: Seq<char>)
    requires
        a != b,
    ensures
        chars_lt(a, b) || chars_lt(b, a),
    decreases a.len(),
{
    if a.len() == 0 || b.len() == 0 {
        if a.len() == 0 && b.len() == 0 {
            assert(a =~= b);
        }
    } else if (a[0] as int) < (b[0] as int) || (b[0] as int) < (a[0] as int) {
    } else {
        assert(a[0] == b[0]);
        let at = a.subrange(1, a.len() as int);
        let bt = b.subrange(1, b.len() as int);
        assert(at != bt) by {
            if at == bt {
                assert(at.len() == a.len() - 1);
                assert(bt.len() == b.len() - 1);
                assert(a.len() == b.len());
                assert forall|i: int| 0 <= i < a.len() implies a[i] == b[i] by {
                    if i > 0 {
                        assert(a[i] == at[i - 1]);
                        assert(bt[i - 1] == b[i]);
                    }
                }
                assert(a =~= b);
            }
        }
        lemma_chars_lt_total(at, bt);
    }
}

pub proof fn lemma_step_lt_total(x: StepV, y: StepV)
    requires
        x != y,
    ensures
        step_lt(x, y) || step_lt(y, x),
{
    match (x, y) {
        (StepV::Key(a), StepV::Key(b)) => {
            lemma_chars_lt_total(a, b);
        },
        _ => {},
    }
}

pub proof fn lemma_path_lt_total(p: Seq<StepV>, q: Seq<StepV>)
    requires
        p != q,
    ensures
        path_lt(p, q) || path_lt(q, p),
    decreases p.len(),
{
    if p.len() == 0 || q.len() == 0 {
        if p.len() == 0 && q.len() == 0 {
            assert(p =~= q);
        }
    } else if p[0] != q[0] {
        lemma_step_lt_total(p[0], q[0]);
    } else {
        let pt = p.subrange(1, p.len() as int);
        let qt = q.subrange(1, q.len() as int);
        assert(pt != qt) by {
            if pt == qt {
                assert(pt.len() == p.len() - 1);
                assert(qt.len() == q.len() - 1);
                assert(p.len() == q.len());
                assert forall|i: int| 0 <= i < p.len() implies p[i] == q[i] by {
                    if i > 0 {
                        assert(p[i] == pt[i - 1]);
                        assert(qt[i - 1] == q[i]);
                    }
                }
                assert(p =~= q);
            }
        }
        lemma_path_lt_total(pt, qt);
    }
}

/// Character-level `<` on string slices.
pub fn str_lt(a: &str, b: &str) -> (r: bool)
    ensures
        r == chars_lt(a@, b@),
    decreases a@.len(),
{
    let n = a.unicode_len();
    let m = b.unicode_len();
    let mut i: usize = 0;
    proof {
        assert(a@.subrange(0, n as int) =~= a@);
        assert(b@.subrange(0, m as int) =~= b@);
    }
    loop
        invariant
            0 <= i,
            i <= n,
            i <= m,
            n == a@.len(),
            m == b@.len(),
            chars_lt(a@, b@) == chars_lt(a@.subrange(i as int, n as int), b@.subrange(
                i as int,
                m as int,
            )),
        decreases n - i,
    {
        let ghost ar = a@.subrange(i as int, n as int);
        let ghost br = b@.subrange(i as int, m as int);
        if i == m {
            assert(br.len() == 0);
            return false;
        }
        if i == n {
            assert(ar.len() == 0 && br.len() != 0);
            return true;
        }
        let ca = a.get_char(i);
        let cb = b.get_char(i);
        proof {
            assert(ar[0] == a@[i as int] && br[0] == b@[i as int]);
            assert(ar.subrange(1, ar.len() as int) =~= a@.subrange(i + 1, n as int));
            assert(br.subrange(1, br.len() as int) =~= b@.subrange(i + 1, m as int));
        }
        if (ca as u32) < (cb as u32) {
            return true;
        }
        if ca != cb {
            return false;
        }
        i = i + 1;
    }
}

/// `<` on path steps.
pub fn step_lt_exec(x: &PathStep, y: &PathStep) -> (r: bool)
    ensures
        r == step_lt(x@, y@),
{
    match (x, y) {
        (PathStep::Key(a), PathStep::Key(b)) => str_lt(a.as_str(), b.as_str()),
        (PathStep::Key(_), PathStep::Index(_)) => true,
        (PathStep::Index(_), PathStep::Key(_)) => false,
        (PathStep::Index(i), PathStep::Index(j)) => *i < *j,
    }
}

/// Equality of path steps at the view level.
pub fn step_eq_exec(x: &PathStep, y: &PathStep) -> (r: bool)
    ensures
        r == (x@ == y@),
{
    match (x, y) {
        (PathStep::Key(a), PathStep::Key(b)) => str_eq(a.as_str(), b.as_str()),
        (PathStep::Index(i), PathStep::Index(j)) => *i == *j,
        _ => false,
    }
}

/// `<` on paths.
pub fn path_lt_exec(p: &Vec<PathStep>, q: &Vec<PathStep>) -> (r: bool)
    ensures
        r == path_lt(path_view(p@), path_view(q@)),
{
    let mut i: usize = 0;
    proof {
        assert(path_view(p@).subrange(0, p@.len() as int) =~= path_view(p@));
        assert(path_view(q@).subrange(0, q@.len() as int) =~= path_view(q@));
    }
    loop
        invariant
            0 <= i,
            i <= p@.len(),
            i <= q@.len(),
            path_lt(path_view(p@), path_view(q@)) == path_lt(
                path_view(p@).subrange(i as int, p@.len() as int),
                path_view(q@).subrange(i as int, q@.len() as int),
            ),
        decreases p@.len() - i,
    {
        let ghost pr = path_view(p@).subrange(i as int, p@.len() as int);
        let ghost qr = path_view(q@).subrange(i as int, q@.len() as int);
        if i == q.len() {
            assert(qr.len() == 0);
            return false;
        }
        if i == p.len() {
            assert(pr.len() == 0 && qr.len() != 0);
            return true;
        }
        proof {
            assert(pr[0] == path_view(p@)[i as int] && qr[0] == path_view(q@)[i as int]);
            assert(pr.subrange(1, pr.len() as int) =~= path_view(p@).subrange(
                i + 1,
                p@.len() as int,
            ));
            assert(qr.subrange(1, qr.len() as int) =~= path_view(q@).subrange(
                i + 1,
                q@.len() as int,
            ));
        }
        if step_lt_exec(&p[i], &q[i]) {
            return true;
        }
        if !step_eq_exec(&p[i], &q[i]) {
            return false;
        }
        i = i + 1;
    }
}

/// Equality of paths at the view level.
pub fn path_eq_exec(p: &Vec<PathStep>, q: &Vec<PathStep>) -> (r: bool)
    ensures
        r == (path_view(p@) == path_view(q@)),
{
    if p.len() != q.len() {
        assert(path_view(p@).len() == p@.len() && path_view(q@).len() == q@.len());
        return false;
    }
    let mut i: usize = 0;
    while i < p.len()
        invariant
            0 <= i <= p@.len(),
            p@.len() == q@.len(),
            forall|k: int| 0 <= k < i ==> path_view(p@)[k] == path_view(q@)[k],
        decreases p@.len() - i,
    {
        if !step_eq_exec(&p[i], &q[i]) {
            assert(path_view(p@)[i as int] != path_view(q@)[i as int]);
            return false;
        }
        i = i + 1;
    }
    assert(path_view(p@) =~= path_view(q@));
    true
}

/// The view of a frontier: the views of its paths, in order.
pub open spec fn paths_view(s: Seq<Vec<PathStep>>) -> Seq<Seq<StepV>> {
    s.map_values(|p: Vec<PathStep>| path_view(p@))
}

/// `s` with `p` inserted at its ordered position; already-present paths are
/// not duplicated.
pub open spec fn insert_sorted(s: Seq<Seq<StepV>>, p: Seq<StepV>) -> Seq<Seq<StepV>>
    decreases s.len(),
{
    if s.len() == 0 {
        seq![p]
    } else if path_lt(p, s[0]) {
        seq![p] + s
    } else if p == s[0] {
        s
    } else {
        seq![s[0]] + insert_sorted(s.subrange(1, s.len() as int), p)
    }
}

/// Inserts a path into a frontier at its ordered position, without
/// duplicating one that is already present.
pub fn insert_sorted_exec(next: &mut Vec<Vec<PathStep>>, p: Vec<PathStep>)
    ensures
        paths_view(final(next)@) == insert_sorted(paths_view(old(next)@), path_view(p@)),
{
    let ghost s0 = paths_view(next@);
    let ghost pv = path_view(p@);
    let mut idx: usize = 0;
    proof {
        assert(paths_view(next@).subrange(0, 0) + insert_sorted(
            paths_view(next@).subrange(0, next@.len() as int),
            pv,
        ) =~= insert_sorted(s0, pv)) by {
            assert(paths_view(next@).subrange(0, next@.len() as int) =~= s0);
        }
    }
    while idx < next.len() && path_lt_exec(&next[idx], &p)
        invariant
            0 <= idx <= next@.len(),
            paths_view(next@) == s0,
            pv == path_view(p@),
            insert_sorted(s0, pv) == paths_view(next@).subrange(0, idx as int) + insert_sorted(
                paths_view(next@).subrange(idx as int, next@.len() as int),
                pv,
            ),
        decreases next@.len() - idx,
    {
        proof {
            let tail = paths_view(next@).subrange(idx as int, next@.len() as int);
            assert(paths_view(next@)[idx as int] == path_view(next@[idx as int]@));
            assert(tail[0] == paths_view(next@)[idx as int]);
            lemma_path_lt_asym(tail[0], pv);
            assert(tail.subrange(1, tail.len() as int) =~= paths_view(next@).subrange(
                idx + 1,
                next@.len() as int,
            ));
            assert(paths_view(next@).subrange(0, idx as int) + (seq![tail[0]] + insert_sorted(
                tail.subrange(1, tail.len() as int),
                pv,
            )) =~= paths_view(next@).subrange(0, idx + 1) + insert_sorted(
                paths_view(next@).subrange(idx + 1, next@.len() as int),
                pv,
            ));
        }
        idx = idx + 1;
    }
    let ghost tail = paths_view(next@).subrange(idx as int, next@.len() as int);
    if idx < next.len() {
        proof {
            assert(paths_view(next@)[idx as int] == path_view(next@[idx as int]@));
            assert(tail[0] == paths_view(next@)[idx as int]);
        }
        if path_eq_exec(&next[idx], &p) {
            proof {
                assert(insert_sorted(tail, pv) == tail);
                assert(paths_view(next@).subrange(0, idx as int) + tail =~= paths_view(next@));
            }
            return ;
        }
        proof {
            assert(!path_lt(tail[0], pv) && tail[0] != pv);
            lemma_path_lt_total(tail[0], pv);
        }
        if path_lt_exec(&p, &next[idx]) {
            next.insert(idx, p);
            proof {
                assert(insert_sorted(tail, pv) == seq![pv] + tail);
                assert(paths_view(next@) =~= s0.subrange(0, idx as int) + (seq![pv] + s0.subrange(
                    idx as int,
                    s0.len() as int,
                )));
            }
            return ;
        }
        proof {
            assert(false);
        }
    }
    proof {
        assert(tail.len() == 0);
        assert(tail =~= Seq::<Seq<StepV>>::empty());
        assert(insert_sorted(tail, pv) == seq![pv]);
    }
    next.push(p);
    proof {
        assert(paths_view(next@) =~= s0.subrange(0, idx as int) + seq![pv]);
        assert(s0.subrange(0, idx as int) =~= s0);
    }
}

} // verus!
