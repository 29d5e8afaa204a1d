//! Corridor inclusion across planes: which corridor caps of the Titan plane
//! are held against which caps of the other planes. The caps themselves are
//! compared by the caller; this module picks the pairs by coordinate.
use vstd::prelude::*;

use crate::text::{str_eq, texts};

verus! {

/// The first position, from `k` on, where `s` holds `x`.
pub open spec fn first_index(s: Seq<Seq<char>>, x: Seq<char>, k: int) -> Option<int>
    decreases s.len() - k,
{
    if k < 0 || k >= s.len() {
        None
    } else if s[k] == x {
        Some(k)
    } else {
        first_index(s, x, k + 1)
    }
}

/// For Titan bound `i` on coordinate `x`, the planes from `j` on that bound
/// `x`: each as (Titan bound, plane, the plane's first bound on `x`).
pub open spec fn plane_pairs(x: Seq<char>, i: int, planes: Seq<Seq<Seq<char>>>, j: int) -> Seq<(usize, usize, usize)>
    decreases planes.len() - j,
{
    if j < 0 || j >= planes.len() {
        Seq::empty()
    } else {
        let rest = plane_pairs(x, i, planes, j + 1);
        match first_index(planes[j], x, 0) {
            Some(k) => seq![(i as usize, j as usize, k as usize)] + rest,
            None => rest,
        }
    }
}

/// The cap comparisons of corridor inclusion, from Titan bound `i` on: for
/// each Titan bound in order, and for each plane in order, the plane's first
/// bound on the same coordinate, where it has one.
pub open spec fn cap_pairs(titan: Seq<Seq<char>>, planes: Seq<Seq<Seq<char>>>, i: int) -> Seq<(usize, usize, usize)>
    decreases titan.len() - i,
{
    if i < 0 || i >= titan.len() {
        Seq::empty()
    } else {
        plane_pairs(titan[i], i, planes, 0) + cap_pairs(titan, planes, i + 1)
    }
}

/// The coordinates of every plane's bounds, as texts.
pub open spec fn plane_texts(planes: Seq<Vec<String>>) -> Seq<Seq<Seq<char>>> {
    planes.map_values(|p: Vec<String>| texts(p@))
}

proof fn lemma_first_index(s: Seq<Seq<char>>, x: Seq<char>, k: int)
    requires
        0 <= k,
    ensures
        match first_index(s, x, k) {
            Some(m) => k <= m < s.len() && s[m] == x && forall|q: int| k <= q < m ==> #[trigger] s[q] != x,
            None => forall|q: int| k <= q < s.len() ==> #[trigger] s[q] != x,
        },
    decreases s.len() - k,
{
    if k < s.len() {
        lemma_first_index(s, x, k + 1);
    }
}

proof fn lemma_plane_pairs(x: Seq<char>, i: int, planes: Seq<Seq<Seq<char>>>, j: int)
    requires
        0 <= i <= usize::MAX,
        0 <= j,
        planes.len() <= usize::MAX,
        forall|q: int| 0 <= q < planes.len() ==> #[trigger] planes[q].len() <= usize::MAX,
    ensures
        forall|n: int| 0 <= n < plane_pairs(x, i, planes, j).len() ==> {
            let r = #[trigger] plane_pairs(x, i, planes, j)[n];
            &&& r.0 == i
            &&& j <= r.1 < planes.len()
            &&& first_index(planes[r.1 as int], x, 0) == Some(r.2 as int)
        },
        forall|q: int| #![trigger planes[q]] j <= q < planes.len() && first_index(planes[q], x, 0) is Some ==>
            exists|n: int| 0 <= n < plane_pairs(x, i, planes, j).len()
                && (#[trigger] plane_pairs(x, i, planes, j)[n]).1 == q,
    decreases planes.len() - j,
{
    if j < planes.len() {
        lemma_plane_pairs(x, i, planes, j + 1);
        let rest = plane_pairs(x, i, planes, j + 1);
        let here = plane_pairs(x, i, planes, j);
        lemma_first_index(planes[j], x, 0);
        match first_index(planes[j], x, 0) {
            Some(k) => {
                let r = (i as usize, j as usize, k as usize);
                assert(here == seq![r] + rest);
                assert forall|n: int| 0 < n < here.len() implies #[trigger] here[n] == rest[n - 1] by {}
                assert forall|q: int| #![trigger planes[q]] j <= q < planes.len() && first_index(planes[q], x, 0) is Some implies
                    exists|n: int| 0 <= n < here.len() && (#[trigger] here[n]).1 == q by {
                    if q == j {
                        assert(here[0] == r);
                    } else {
                        let n = choose|n: int| 0 <= n < rest.len() && (#[trigger] rest[n]).1 == q;
                        assert(here[n + 1] == rest[n]);
                    }
                }
            },
            None => {
                assert(here == rest);
            },
        }
    }
}

proof fn lemma_cap_pairs(titan: Seq<Seq<char>>, planes: Seq<Seq<Seq<char>>>, i: int)
    requires
        0 <= i,
        titan.len() <= usize::MAX,
        planes.len() <= usize::MAX,
        forall|q: int| 0 <= q < planes.len() ==> #[trigger] planes[q].len() <= usize::MAX,
    ensures
        forall|n: int| 0 <= n < cap_pairs(titan, planes, i).len() ==> {
            let r = #[trigger] cap_pairs(titan, planes, i)[n];
            &&& i <= r.0 < titan.len()
            &&& r.1 < planes.len()
            &&& first_index(planes[r.1 as int], titan[r.0 as int], 0) == Some(r.2 as int)
        },
        forall|a: int, q: int| #![trigger titan[a], planes[q]]
            i <= a < titan.len() && 0 <= q < planes.len() && first_index(planes[q], titan[a], 0) is Some ==>
            exists|n: int| 0 <= n < cap_pairs(titan, planes, i).len()
                && (#[trigger] cap_pairs(titan, planes, i)[n]).0 == a && cap_pairs(titan, planes, i)[n].1 == q,
    decreases titan.len() - i,
{
    if i < titan.len() {
        lemma_cap_pairs(titan, planes, i + 1);
        lemma_plane_pairs(titan[i], i, planes, 0);
        let head = plane_pairs(titan[i], i, planes, 0);
        let rest = cap_pairs(titan, planes, i + 1);
        let here = cap_pairs(titan, planes, i);
        assert(here == head + rest);
        assert forall|n: int| 0 <= n < here.len() implies {
            let r = #[trigger] here[n];
            &&& i <= r.0 < titan.len()
            &&& r.1 < planes.len()
            &&& first_index(planes[r.1 as int], titan[r.0 as int], 0) == Some(r.2 as int)
        } by {
            if n < head.len() {
                assert(here[n] == head[n]);
            } else {
                assert(here[n] == rest[n - head.len()]);
            }
        }
        assert forall|a: int, q: int| #![trigger titan[a], planes[q]]
            i <= a < titan.len() && 0 <= q < planes.len() && first_index(planes[q], titan[a], 0) is Some implies
            exists|n: int| 0 <= n < here.len() && (#[trigger] here[n]).0 == a && here[n].1 == q by {
            if a == i {
                let n = choose|n: int| 0 <= n < head.len() && (#[trigger] head[n]).1 == q;
                assert(here[n] == head[n]);
            } else {
                let n = choose|n: int| 0 <= n < rest.len() && (#[trigger] rest[n]).0 == a && rest[n].1 == q;
                assert(here[n + head.len()] == rest[n]);
            }
        }
    }
}

/// Corridor inclusion compares bounds on one coordinate, and all of them:
/// each pair it compares holds a Titan bound against the first bound of a
/// plane on the same coordinate, and every Titan bound is held against every
/// plane that bounds its coordinate.
pub proof fn law_cap_pairs_cover_shared_coordinates(titan: Seq<Seq<char>>, planes: Seq<Seq<Seq<char>>>)
    requires
        titan.len() <= usize::MAX,
        planes.len() <= usize::MAX,
        forall|q: int| 0 <= q < planes.len() ==> #[trigger] planes[q].len() <= usize::MAX,
    ensures
        forall|n: int| 0 <= n < cap_pairs(titan, planes, 0).len() ==> {
            let r = #[trigger] cap_pairs(titan, planes, 0)[n];
            &&& r.0 < titan.len() && r.1 < planes.len() && r.2 < planes[r.1 as int].len()
            &&& planes[r.1 as int][r.2 as int] == titan[r.0 as int]
            &&& forall|m: int| 0 <= m < r.2 ==> #[trigger] planes[r.1 as int][m] != titan[r.0 as int]
        },
        forall|a: int, q: int| #![trigger titan[a], planes[q]]
            0 <= a < titan.len() && 0 <= q < planes.len() && planes[q].contains(titan[a]) ==>
            exists|n: int| 0 <= n < cap_pairs(titan, planes, 0).len()
                && (#[trigger] cap_pairs(titan, planes, 0)[n]).0 == a && cap_pairs(titan, planes, 0)[n].1 == q,
{
    lemma_cap_pairs(titan, planes, 0);
    let pairs = cap_pairs(titan, planes, 0);
    assert forall|n: int| 0 <= n < pairs.len() implies {
        let r = #[trigger] pairs[n];
        &&& r.0 < titan.len() && r.1 < planes.len() && r.2 < planes[r.1 as int].len()
        &&& planes[r.1 as int][r.2 as int] == titan[r.0 as int]
        &&& forall|m: int| 0 <= m < r.2 ==> #[trigger] planes[r.1 as int][m] != titan[r.0 as int]
    } by {
        let r = pairs[n];
        lemma_first_index(planes[r.1 as int], titan[r.0 as int], 0);
    }
    assert forall|a: int, q: int| #![trigger titan[a], planes[q]]
        0 <= a < titan.len() && 0 <= q < planes.len() && planes[q].contains(titan[a]) implies
        exists|n: int| 0 <= n < pairs.len() && (#[trigger] pairs[n]).0 == a && pairs[n].1 == q by {
        lemma_first_index(planes[q], titan[a], 0);
        let m = choose|m: int| 0 <= m < planes[q].len() && planes[q][m] == titan[a];
        assert(planes[q][m] == titan[a]);
    }
}

fn first_position(s: &Vec<String>, x: &str) -> (r: Option<usize>)
    ensures
        match r {
            Some(k) => first_index(texts(s@), x@, 0) == Some(k as int),
            None => first_index(texts(s@), x@, 0) is None,
        },
{
    let ghost t = texts(s@);
    let mut k: usize = 0;
    while k < s.len()
        invariant
            t == texts(s@),
            k <= s.len(),
            first_index(t, x@, 0) == first_index(t, x@, k as int),
        decreases s.len() - k,
    {
        assert(t[k as int] == s@[k as int]@);
        if str_eq(s[k].as_str(), x) {
            return Some(k);
        }
        k = k + 1;
    }
    None
}

/// The cap comparisons that corridor inclusion makes, in its order: for each
/// Titan bound (its coordinate in `titan`) and each other plane (the
/// coordinates of its bounds in `planes`), the positions of the Titan bound,
/// the plane, and the plane's first bound on the same coordinate. Planes
/// without a bound on the coordinate are passed over.
pub fn corridor_cap_pairs(titan: &Vec<String>, planes: &Vec<Vec<String>>) -> (pairs: Vec<(usize, usize, usize)>)
    ensures
        pairs@ == cap_pairs(texts(titan@), plane_texts(planes@), 0),
{
    let ghost t = texts(titan@);
    let ghost o = plane_texts(planes@);
    let mut out: Vec<(usize, usize, usize)> = Vec::new();
    let mut i: usize = 0;
    while i < titan.len()
        invariant
            t == texts(titan@),
            o == plane_texts(planes@),
            i <= titan.len(),
            cap_pairs(t, o, 0) == out@ + cap_pairs(t, o, i as int),
        decreases titan.len() - i,
    {
        let x = titan[i].as_str();
        assert(t[i as int] == x@);
        let mut j: usize = 0;
        while j < planes.len()
            invariant
                t == texts(titan@),
                o == plane_texts(planes@),
                i < titan.len(),
                x@ == t[i as int],
                j <= planes.len(),
                cap_pairs(t, o, 0) == out@ + plane_pairs(x@, i as int, o, j as int) + cap_pairs(t, o, i + 1),
            decreases planes.len() - j,
        {
            assert(o[j as int] == texts(planes@[j as int]@));
            let ghost rest = plane_pairs(x@, i as int, o, j + 1);
            let ghost tail = cap_pairs(t, o, i + 1);
            match first_position(&planes[j], x) {
                Some(k) => {
                    let ghost before = out@;
                    out.push((i, j, k));
                    assert(before + (seq![(i, j, k)] + rest) + tail =~= out@ + rest + tail);
                },
                None => {},
            }
            j = j + 1;
        }
        assert(out@ + plane_pairs(x@, i as int, o, planes.len() as int) =~= out@);
        i = i + 1;
    }
    assert(out@ + cap_pairs(t, o, titan.len() as int) =~= out@);
    out
}

} // verus!
