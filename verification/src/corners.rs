use vstd::prelude::*;

verus! {

/// The outcome of the nearest-point scan over the first `k` of four points.
///
/// The scan keeps a running best, which starts unset (a distance of positive
/// infinity). Point `i` replaces it when `under_start[i]` holds while nothing
/// is chosen yet (its distance is below the starting infinity), or when
/// `closer[i][j]` holds for the point `j` chosen so far (its distance is
/// strictly smaller). Equal distances therefore keep the earlier point.
pub open spec fn scan_nearest(under_start: [bool; 4], closer: [[bool; 4]; 4], k: int) -> Option<int>
    decreases k,
{
    if k <= 0 {
        None
    } else {
        let prev = scan_nearest(under_start, closer, k - 1);
        let i = k - 1;
        let take = match prev {
            None => under_start[i],
            Some(j) => closer[i][j],
        };
        if take {
            Some(i)
        } else {
            prev
        }
    }
}

/// Picks, among four points, the one nearest to a corner: the first point
/// whose distance is strictly below every distance seen before it, starting
/// from an infinite distance.
///
/// `under_start[i]` says that the distance of point `i` is below the
/// starting infinity, and `closer[i][j]` that the distance of point `i` is
/// strictly below that of point `j`. `None` means that no point was taken.
pub fn nearest_index(under_start: [bool; 4], closer: [[bool; 4]; 4]) -> (r: Option<usize>)
    ensures
        r matches Some(i) ==> i < 4,
        r matches Some(i) ==> scan_nearest(under_start, closer, 4) == Some(i as int),
        r is None ==> scan_nearest(under_start, closer, 4) is None,
{
    let mut best: Option<usize> = None;
    let mut i: usize = 0;
    while i < 4
        invariant
            i <= 4,
            best matches Some(j) ==> j < i,
            best matches Some(j) ==> scan_nearest(under_start, closer, i as int) == Some(j as int),
            best is None ==> scan_nearest(under_start, closer, i as int) is None,
        decreases 4 - i,
    {
        let take = match best {
            None => under_start[i],
            Some(j) => closer[i][j],
        };
        if take {
            best = Some(i);
        }
        i = i + 1;
    }
    best
}

/// The comparison tables come from distances: `closer` is a strict weak
/// order on the points whose distance is below the starting infinity, and a
/// point whose distance is not below it is never strictly closer than one
/// whose distance is.
pub open spec fn distance_tables(under_start: [bool; 4], closer: [[bool; 4]; 4]) -> bool {
    &&& forall|i: int| 0 <= i < 4 && under_start[i] ==> !closer[i][i]
    &&& forall|i: int, j: int, k: int|
        0 <= i < 4 && 0 <= j < 4 && 0 <= k < 4 && under_start[i] && under_start[j] && under_start[k]
            && closer[i][j] && closer[j][k] ==> closer[i][k]
    &&& forall|i: int, j: int, k: int|
        0 <= i < 4 && 0 <= j < 4 && 0 <= k < 4 && under_start[i] && under_start[j] && under_start[k]
            && !closer[i][j] && !closer[j][k] ==> !closer[i][k]
    &&& forall|i: int, j: int|
        0 <= i < 4 && 0 <= j < 4 && !under_start[i] && under_start[j] ==> !closer[i][j]
}

/// Point `m` is a nearest point among the first `k`: its distance is below
/// the start, no point among the first `k` is strictly closer, and it is
/// strictly closer than every earlier candidate (so ties go to the earliest).
pub open spec fn first_nearest(under_start: [bool; 4], closer: [[bool; 4]; 4], k: int, m: int) -> bool {
    &&& 0 <= m < k
    &&& under_start[m]
    &&& forall|j: int| 0 <= j < k && under_start[j] ==> !closer[j][m]
    &&& forall|j: int| 0 <= j < m && under_start[j] ==> closer[m][j]
}

proof fn lemma_scan_prefix(under_start: [bool; 4], closer: [[bool; 4]; 4], k: int)
    requires
        0 <= k <= 4,
        distance_tables(under_start, closer),
    ensures
        scan_nearest(under_start, closer, k) is None <==> (forall|i: int|
            0 <= i < k ==> !under_start[i]),
        scan_nearest(under_start, closer, k) matches Some(m) ==> first_nearest(
            under_start,
            closer,
            k,
            m,
        ),
    decreases k,
{
    if k > 0 {
        lemma_scan_prefix(under_start, closer, k - 1);
        let i = k - 1;
        match scan_nearest(under_start, closer, k - 1) {
            None => {},
            Some(m) => {
                if closer[i][m] {
                    assert(under_start[i]);
                    assert forall|j: int| 0 <= j < k && under_start[j] implies !closer[j][i] by {
                        if j < i && closer[j][i] {
                            assert(closer[j][m]);
                        }
                    }
                    assert forall|j: int| 0 <= j < i && under_start[j] implies closer[i][j] by {
                        if j < m {
                            assert(closer[m][j]);
                        } else if j > m {
                            assert(!closer[j][m]);
                        }
                    }
                }
            },
        }
    }
}

/// When the tables come from distances, the scan finds a nearest point:
/// it takes no point exactly when no distance is below the starting
/// infinity, and otherwise the point it takes is nearest of all four, ties
/// going to the earliest point.
pub proof fn lemma_nearest_is_first_minimum(under_start: [bool; 4], closer: [[bool; 4]; 4])
    requires
        distance_tables(under_start, closer),
    ensures
        scan_nearest(under_start, closer, 4) is None <==> (forall|i: int|
            0 <= i < 4 ==> !under_start[i]),
        scan_nearest(under_start, closer, 4) matches Some(m) ==> first_nearest(
            under_start,
            closer,
            4,
            m,
        ),
{
    lemma_scan_prefix(under_start, closer, 4);
}

} // verus!
