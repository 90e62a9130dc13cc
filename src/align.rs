//! The alignment engine: pairs up the records of two captures by path, in
//! order, leaving the rest one-sided.
use vstd::prelude::*;
use crate::compare::{
    compare_requests_with_whitelist, compare_verdict, verdict_detail, verdict_word,
    ComparisonResult,
};
use crate::record::HarRequest;
use crate::whitelist::WhitelistConfig;

verus! {

/// One unit of an alignment: a record of the first capture, of the second, or
/// one of each with their comparison.
#[derive(Debug)]
pub struct AlignedPair {
    pub index1: Option<usize>,
    pub index2: Option<usize>,
    pub comparison: Option<ComparisonResult>,
}

/// An alignment unit as the indices it uses.
pub type Slot = (Option<int>, Option<int>);

/// The index of an optional position.
pub open spec fn opt_index(o: Option<usize>) -> Option<int> {
    match o {
        Some(i) => Some(i as int),
        None => None,
    }
}

/// The indices that an alignment uses, unit by unit.
pub open spec fn slots(out: Seq<AlignedPair>) -> Seq<Slot> {
    out.map_values(|p: AlignedPair| (opt_index(p.index1), opt_index(p.index2)))
}

/// The paths of a sequence of records.
pub open spec fn paths(rs: Seq<HarRequest>) -> Seq<Seq<char>> {
    rs.map_values(|r: HarRequest| r.path@)
}

/// A unit carries a comparison exactly when it pairs two records, and then it is
/// the comparator's verdict on them.
pub open spec fn pair_compared(
    p: AlignedPair,
    r1: Seq<HarRequest>,
    r2: Seq<HarRequest>,
    wl: WhitelistConfig,
) -> bool {
    match (p.index1, p.index2) {
        (Some(a), Some(b)) => {
            &&& a < r1.len()
            &&& b < r2.len()
            &&& p.comparison matches Some(c) && c.status@ == verdict_word(
                compare_verdict(r1[a as int], r2[b as int], wl),
            ) && c.details@ == verdict_detail(compare_verdict(r1[a as int], r2[b as int], wl))
        },
        _ => p.comparison is None,
    }
}

/// Every unit of `out` is compared as `pair_compared` says.
pub open spec fn all_compared(
    out: Seq<AlignedPair>,
    r1: Seq<HarRequest>,
    r2: Seq<HarRequest>,
    wl: WhitelistConfig,
) -> bool {
    forall|k: int| 0 <= k < out.len() ==> #[trigger] pair_compared(out[k], r1, r2, wl)
}

/// The index of the first path at or after `from` equal to `target`, or -1.
pub open spec fn find_path_from(p: Seq<Seq<char>>, target: Seq<char>, from: int) -> int
    decreases p.len() - from,
{
    if from < 0 || from >= p.len() {
        -1
    } else if p[from] == target {
        from
    } else {
        find_path_from(p, target, from + 1)
    }
}

/// The lookahead alignment of the path sequences from cursors `i` and `j` on.
/// Equal current paths pair up. Otherwise each current path is looked for in
/// the rest of the other side: where both occur, the side whose current path
/// occurs sooner keeps waiting (a tie drains the second side); where one occurs,
/// the other side's current record is left alone; where neither does, both are.
pub open spec fn lookahead_from(p1: Seq<Seq<char>>, p2: Seq<Seq<char>>, i: int, j: int) -> Seq<Slot>
    decreases (p1.len() - i) + (p2.len() - j),
{
    if !(0 <= i <= p1.len() && 0 <= j <= p2.len()) || (i == p1.len() && j == p2.len()) {
        Seq::empty()
    } else if i == p1.len() {
        seq![(None, Some(j))] + lookahead_from(p1, p2, i, j + 1)
    } else if j == p2.len() {
        seq![(Some(i), None)] + lookahead_from(p1, p2, i + 1, j)
    } else if p1[i] == p2[j] {
        seq![(Some(i), Some(j))] + lookahead_from(p1, p2, i + 1, j + 1)
    } else {
        let f1 = find_path_from(p2, p1[i], j);
        let f2 = find_path_from(p1, p2[j], i);
        if f1 >= 0 && f2 >= 0 {
            if f1 - j <= f2 - i {
                seq![(None, Some(j))] + lookahead_from(p1, p2, i, j + 1)
            } else {
                seq![(Some(i), None)] + lookahead_from(p1, p2, i + 1, j)
            }
        } else if f1 >= 0 {
            seq![(None, Some(j))] + lookahead_from(p1, p2, i, j + 1)
        } else if f2 >= 0 {
            seq![(Some(i), None)] + lookahead_from(p1, p2, i + 1, j)
        } else {
            seq![(Some(i), None), (None, Some(j))] + lookahead_from(p1, p2, i + 1, j + 1)
        }
    }
}

/// The lookahead alignment of two path sequences.
pub open spec fn lookahead_alignment(p1: Seq<Seq<char>>, p2: Seq<Seq<char>>) -> Seq<Slot> {
    lookahead_from(p1, p2, 0, 0)
}

/// The index of the first record at or after `from` whose path is `target`.
fn find_path(rs: &[HarRequest], target: &String, from: usize) -> (r: Option<usize>)
    requires
        from <= rs@.len(),
    ensures
        r matches Some(k) ==> k == find_path_from(paths(rs@), target@, from as int) && from <= k
            < rs@.len(),
        r is None ==> find_path_from(paths(rs@), target@, from as int) == -1,
{
    let mut k: usize = from;
    while k < rs.len()
        invariant
            from <= k <= rs@.len(),
            find_path_from(paths(rs@), target@, from as int) == find_path_from(
                paths(rs@),
                target@,
                k as int,
            ),
        decreases rs@.len() - k,
    {
        if rs[k].path == *target {
            return Some(k);
        }
        k = k + 1;
    }
    None
}

/// A unit with one record of the first capture.
fn left_only(i: usize) -> (r: AlignedPair)
    ensures
        r.index1 == Some(i),
        r.index2 is None,
        r.comparison is None,
{
    AlignedPair { index1: Some(i), index2: None, comparison: None }
}

/// A unit with one record of the second capture.
fn right_only(j: usize) -> (r: AlignedPair)
    ensures
        r.index1 is None,
        r.index2 == Some(j),
        r.comparison is None,
{
    AlignedPair { index1: None, index2: Some(j), comparison: None }
}

/// A unit pairing two records, with their comparison.
fn paired(
    requests1: &[HarRequest],
    requests2: &[HarRequest],
    i: usize,
    j: usize,
    config: &WhitelistConfig,
) -> (r: AlignedPair)
    requires
        i < requests1@.len(),
        j < requests2@.len(),
    ensures
        r.index1 == Some(i),
        r.index2 == Some(j),
        pair_compared(r, requests1@, requests2@, *config),
{
    let comparison = compare_requests_with_whitelist(&requests1[i], &requests2[j], false, config);
    AlignedPair { index1: Some(i), index2: Some(j), comparison: Some(comparison) }
}

/// Aligns two captures by lookahead, with no exemptions.
pub fn align_requests_like_vscode(requests1: &[HarRequest], requests2: &[HarRequest]) -> (r: Vec<
    AlignedPair,
>)
    ensures
        slots(r@) == lookahead_alignment(paths(requests1@), paths(requests2@)),
        all_compared(r@, requests1@, requests2@, crate::compare::no_exemptions()),
{
    align_requests_like_vscode_with_whitelist(requests1, requests2, None)
}

/// Aligns two captures by lookahead: see `lookahead_from`. Paired records are
/// compared under `whitelist`, or with no exemptions where there is none.
pub fn align_requests_like_vscode_with_whitelist(
    requests1: &[HarRequest],
    requests2: &[HarRequest],
    whitelist: Option<&WhitelistConfig>,
) -> (r: Vec<AlignedPair>)
    ensures
        slots(r@) == lookahead_alignment(paths(requests1@), paths(requests2@)),
        all_compared(
            r@,
            requests1@,
            requests2@,
            match whitelist {
                Some(w) => *w,
                None => crate::compare::no_exemptions(),
            },
        ),
{
    let default_config = WhitelistConfig::new();
    let config = match whitelist {
        Some(w) => w,
        None => &default_config,
    };
    let ghost p1 = paths(requests1@);
    let ghost p2 = paths(requests2@);
    let n = requests1.len();
    let m = requests2.len();
    let mut aligned: Vec<AlignedPair> = Vec::new();
    let mut i: usize = 0;
    let mut j: usize = 0;
    while i < n || j < m
        invariant
            n == requests1@.len(),
            m == requests2@.len(),
            p1 == paths(requests1@),
            p2 == paths(requests2@),
            i <= n,
            j <= m,
            slots(aligned@) + lookahead_from(p1, p2, i as int, j as int) == lookahead_alignment(
                p1,
                p2,
            ),
            all_compared(aligned@, requests1@, requests2@, *config),
        decreases (n - i) + (m - j),
    {
        let ghost before = aligned@;
        if i >= n {
            aligned.push(right_only(j));
            j = j + 1;
        } else if j >= m {
            aligned.push(left_only(i));
            i = i + 1;
        } else if requests1[i].path == requests2[j].path {
            aligned.push(paired(requests1, requests2, i, j, config));
            i = i + 1;
            j = j + 1;
        } else {
            let found1 = find_path(requests2, &requests1[i].path, j);
            let found2 = find_path(requests1, &requests2[j].path, i);
            match (found1, found2) {
                (Some(pos1), Some(pos2)) => {
                    if pos1 - j <= pos2 - i {
                        aligned.push(right_only(j));
                        j = j + 1;
                    } else {
                        aligned.push(left_only(i));
                        i = i + 1;
                    }
                },
                (Some(_), None) => {
                    aligned.push(right_only(j));
                    j = j + 1;
                },
                (None, Some(_)) => {
                    aligned.push(left_only(i));
                    i = i + 1;
                },
                (None, None) => {
                    aligned.push(left_only(i));
                    i = i + 1;
                    aligned.push(right_only(j));
                    j = j + 1;
                },
            }
        }
        proof {
            assert(slots(aligned@) =~= slots(before) + (slots(aligned@).subrange(
                before.len() as int,
                aligned@.len() as int,
            )));
            assert forall|k: int| 0 <= k < aligned@.len() implies #[trigger] pair_compared(
                aligned@[k],
                requests1@,
                requests2@,
                *config,
            ) by {
                if k < before.len() {
                    assert(aligned@[k] == before[k]);
                }
            }
        }
    }
    proof {
        assert(lookahead_from(p1, p2, n as int, m as int) =~= Seq::<Slot>::empty());
        assert(slots(aligned@) =~= slots(aligned@) + Seq::<Slot>::empty());
    }
    aligned
}

/// Some record of the first capture is already paired with record `j`.
pub open spec fn is_taken(partners: Seq<Option<int>>, j: int) -> bool {
    exists|k: int| 0 <= k < partners.len() && partners[k] == Some(j)
}

/// The first record of the second capture, at or after `from`, that is not taken
/// and whose path is `target`.
pub open spec fn first_free_from(
    p2: Seq<Seq<char>>,
    target: Seq<char>,
    partners: Seq<Option<int>>,
    from: int,
) -> Option<int>
    decreases p2.len() - from,
{
    if from < 0 || from >= p2.len() {
        None
    } else if p2[from] == target && !is_taken(partners, from) {
        Some(from)
    } else {
        first_free_from(p2, target, partners, from + 1)
    }
}

/// The partners of the first `i` records of the first capture: each takes the
/// first record of the second capture with its path that no earlier one took.
pub open spec fn greedy_partners(p1: Seq<Seq<char>>, p2: Seq<Seq<char>>, i: int) -> Seq<Option<int>>
    decreases i,
{
    if i <= 0 {
        Seq::empty()
    } else {
        let prev = greedy_partners(p1, p2, i - 1);
        prev.push(first_free_from(p2, p1[i - 1], prev, 0))
    }
}

/// The greedy layout from record `i` of the first capture and record `c` of the
/// second on: records of the first capture in order, each unpaired record of the
/// second placed just before the first pair whose second index exceeds it, the
/// rest at the end.
pub open spec fn greedy_from(partners: Seq<Option<int>>, m: int, i: int, c: int) -> Seq<Slot>
    decreases (partners.len() - i) + (m - c),
{
    if !(0 <= i <= partners.len() && 0 <= c <= m) {
        Seq::empty()
    } else if i < partners.len() {
        match partners[i] {
            None => seq![(Some(i), None)] + greedy_from(partners, m, i + 1, c),
            Some(b) => if c < b && c < m {
                (if is_taken(partners, c) {
                    Seq::empty()
                } else {
                    seq![(None, Some(c))]
                }) + greedy_from(partners, m, i, c + 1)
            } else {
                seq![(Some(i), Some(b))] + greedy_from(partners, m, i + 1, c)
            },
        }
    } else if c < m {
        (if is_taken(partners, c) {
            Seq::empty()
        } else {
            seq![(None, Some(c))]
        }) + greedy_from(partners, m, i, c + 1)
    } else {
        Seq::empty()
    }
}

/// The greedy alignment of two path sequences.
pub open spec fn greedy_alignment(p1: Seq<Seq<char>>, p2: Seq<Seq<char>>) -> Seq<Slot> {
    greedy_from(greedy_partners(p1, p2, p1.len() as int), p2.len() as int, 0, 0)
}

/// The positions of optional indices.
pub open spec fn opt_indices(v: Seq<Option<usize>>) -> Seq<Option<int>> {
    v.map_values(|o: Option<usize>| opt_index(o))
}

/// The first record of `requests2`, not taken, whose path is `target`.
fn first_free(
    requests2: &[HarRequest],
    target: &String,
    used2: &Vec<bool>,
    Ghost(partners): Ghost<Seq<Option<int>>>,
) -> (r: Option<usize>)
    requires
        used2@.len() == requests2@.len(),
        forall|j: int| 0 <= j < used2@.len() ==> used2@[j] == is_taken(partners, j),
    ensures
        opt_index(r) == first_free_from(paths(requests2@), target@, partners, 0),
        r matches Some(j) ==> j < requests2@.len(),
{
    let mut j: usize = 0;
    while j < requests2.len()
        invariant
            used2@.len() == requests2@.len(),
            forall|k: int| 0 <= k < used2@.len() ==> used2@[k] == is_taken(partners, k),
            j <= requests2@.len(),
            first_free_from(paths(requests2@), target@, partners, 0) == first_free_from(
                paths(requests2@),
                target@,
                partners,
                j as int,
            ),
        decreases requests2@.len() - j,
    {
        if !used2[j] && requests2[j].path == *target {
            return Some(j);
        }
        j = j + 1;
    }
    None
}

/// Aligns two captures greedily, with no exemptions.
pub fn align_requests(requests1: &[HarRequest], requests2: &[HarRequest]) -> (r: Vec<AlignedPair>)
    ensures
        slots(r@) == greedy_alignment(paths(requests1@), paths(requests2@)),
        all_compared(r@, requests1@, requests2@, crate::compare::no_exemptions()),
{
    align_requests_with_whitelist(requests1, requests2, None)
}

/// Aligns two captures greedily: see `greedy_partners` and `greedy_from`. Paired
/// records are compared under `whitelist`, or with no exemptions where there is none.
pub fn align_requests_with_whitelist(
    requests1: &[HarRequest],
    requests2: &[HarRequest],
    whitelist: Option<&WhitelistConfig>,
) -> (r: Vec<AlignedPair>)
    ensures
        slots(r@) == greedy_alignment(paths(requests1@), paths(requests2@)),
        all_compared(
            r@,
            requests1@,
            requests2@,
            match whitelist {
                Some(w) => *w,
                None => crate::compare::no_exemptions(),
            },
        ),
{
    let default_config = WhitelistConfig::new();
    let config = match whitelist {
        Some(w) => w,
        None => &default_config,
    };
    let ghost p1 = paths(requests1@);
    let ghost p2 = paths(requests2@);
    let n = requests1.len();
    let m = requests2.len();
    let mut used2: Vec<bool> = vec![false; m];
    let mut partners: Vec<Option<usize>> = Vec::new();
    let mut i: usize = 0;
    while i < n
        invariant
            n == requests1@.len(),
            m == requests2@.len(),
            p1 == paths(requests1@),
            p2 == paths(requests2@),
            i <= n,
            opt_indices(partners@) == greedy_partners(p1, p2, i as int),
            forall|k: int| 0 <= k < i ==> (#[trigger] partners@[k] matches Some(b) ==> b < m),
            partners@.len() == i,
            used2@.len() == m,
            forall|j: int| 0 <= j < m ==> used2@[j] == is_taken(greedy_partners(p1, p2, i as int), j),
        decreases n - i,
    {
        let ghost prev = greedy_partners(p1, p2, i as int);
        let found = first_free(requests2, &requests1[i].path, &used2, Ghost(prev));
        partners.push(found);
        if let Some(j) = found {
            used2.set(j, true);
        }
        proof {
            let next = greedy_partners(p1, p2, i + 1);
            assert(next == prev.push(opt_index(found)));
            assert(opt_indices(partners@) =~= next);
            assert forall|j: int| 0 <= j < m implies used2@[j] == is_taken(next, j) by {
                if is_taken(prev, j) {
                    let k = choose|k: int| 0 <= k < prev.len() && prev[k] == Some(j);
                    assert(next[k] == Some(j));
                }
                if opt_index(found) == Some(j) {
                    assert(next[i as int] == Some(j));
                }
                if is_taken(next, j) {
                    let k = choose|k: int| 0 <= k < next.len() && next[k] == Some(j);
                    if k < i {
                        assert(prev[k] == Some(j));
                    }
                }
            }
        }
        i = i + 1;
    }
    let ghost partner_view = greedy_partners(p1, p2, n as int);
    let mut aligned: Vec<AlignedPair> = Vec::new();
    let mut i: usize = 0;
    let mut c: usize = 0;
    while i < n || c < m
        invariant
            n == requests1@.len(),
            m == requests2@.len(),
            partners@.len() == n,
            opt_indices(partners@) == partner_view,
            forall|k: int| 0 <= k < n ==> (#[trigger] partners@[k] matches Some(b) ==> b < m),
            used2@.len() == m,
            forall|j: int| 0 <= j < m ==> used2@[j] == is_taken(partner_view, j),
            i <= n,
            c <= m,
            slots(aligned@) + greedy_from(partner_view, m as int, i as int, c as int)
                == greedy_from(partner_view, m as int, 0, 0),
            all_compared(aligned@, requests1@, requests2@, *config),
        decreases (n - i) + (m - c),
    {
        let ghost before = aligned@;
        if i < n {
            match partners[i] {
                None => {
                    aligned.push(left_only(i));
                    i = i + 1;
                },
                Some(b) => {
                    if c < b {
                        if !used2[c] {
                            aligned.push(right_only(c));
                        }
                        c = c + 1;
                    } else {
                        aligned.push(paired(requests1, requests2, i, b, config));
                        i = i + 1;
                    }
                },
            }
        } else {
            if !used2[c] {
                aligned.push(right_only(c));
            }
            c = c + 1;
        }
        proof {
            assert(slots(aligned@) =~= slots(before) + (slots(aligned@).subrange(
                before.len() as int,
                aligned@.len() as int,
            )));
            assert forall|k: int| 0 <= k < aligned@.len() implies #[trigger] pair_compared(
                aligned@[k],
                requests1@,
                requests2@,
                *config,
            ) by {
                if k < before.len() {
                    assert(aligned@[k] == before[k]);
                }
            }
        }
    }
    proof {
        assert(greedy_from(partner_view, m as int, n as int, m as int) =~= Seq::<Slot>::empty());
        assert(slots(aligned@) =~= slots(aligned@) + Seq::<Slot>::empty());
    }
    aligned
}

/// The first-capture indices that an alignment uses, in order of emission.
pub open spec fn firsts(s: Seq<Slot>) -> Seq<int>
    decreases s.len(),
{
    if s.len() == 0 {
        Seq::empty()
    } else {
        match s[0].0 {
            Some(a) => seq![a] + firsts(s.drop_first()),
            None => firsts(s.drop_first()),
        }
    }
}

/// The second-capture indices that an alignment uses, in order of emission.
pub open spec fn seconds(s: Seq<Slot>) -> Seq<int>
    decreases s.len(),
{
    if s.len() == 0 {
        Seq::empty()
    } else {
        match s[0].1 {
            Some(b) => seq![b] + seconds(s.drop_first()),
            None => seconds(s.drop_first()),
        }
    }
}

/// The number of units that pair two records.
pub open spec fn matched_count(s: Seq<Slot>) -> int
    decreases s.len(),
{
    if s.len() == 0 {
        0
    } else {
        (if s[0].0 is Some && s[0].1 is Some {
            1int
        } else {
            0int
        }) + matched_count(s.drop_first())
    }
}

/// The indices `lo`, `lo + 1`, ..., `hi - 1`.
pub open spec fn index_range(lo: int, hi: int) -> Seq<int> {
    Seq::new((hi - lo) as nat, |k: int| lo + k)
}

/// How one unit in front of an alignment adds to its projections.
proof fn lemma_prepend(x: Slot, rest: Seq<Slot>)
    ensures
        firsts(seq![x] + rest) == match x.0 {
            Some(a) => seq![a] + firsts(rest),
            None => firsts(rest),
        },
        seconds(seq![x] + rest) == match x.1 {
            Some(b) => seq![b] + seconds(rest),
            None => seconds(rest),
        },
        matched_count(seq![x] + rest) == (if x.0 is Some && x.1 is Some {
            1int
        } else {
            0int
        }) + matched_count(rest),
{
    assert((seq![x] + rest).drop_first() =~= rest);
}

/// From cursors `i` and `j` on, the lookahead alignment uses each remaining index
/// of either side once and in increasing order, in as many units as there are
/// remaining records less the pairs.
proof fn lemma_lookahead_from_covers(p1: Seq<Seq<char>>, p2: Seq<Seq<char>>, i: int, j: int)
    requires
        0 <= i <= p1.len(),
        0 <= j <= p2.len(),
    ensures
        firsts(lookahead_from(p1, p2, i, j)) == index_range(i, p1.len() as int),
        seconds(lookahead_from(p1, p2, i, j)) == index_range(j, p2.len() as int),
        lookahead_from(p1, p2, i, j).len() == (p1.len() - i) + (p2.len() - j) - matched_count(
            lookahead_from(p1, p2, i, j),
        ),
    decreases (p1.len() - i) + (p2.len() - j),
{
    let n = p1.len() as int;
    let m = p2.len() as int;
    let s = lookahead_from(p1, p2, i, j);
    if i == n && j == m {
        assert(index_range(i, n) =~= Seq::<int>::empty());
        assert(index_range(j, m) =~= Seq::<int>::empty());
        return;
    }
    if i < n {
        assert(index_range(i, n) =~= seq![i] + index_range(i + 1, n));
    }
    if j < m {
        assert(index_range(j, m) =~= seq![j] + index_range(j + 1, m));
    }
    let left: Slot = (Some(i), None);
    let right: Slot = (None, Some(j));
    let both: Slot = (Some(i), Some(j));
    if i == n {
        lemma_lookahead_from_covers(p1, p2, i, j + 1);
        lemma_prepend(right, lookahead_from(p1, p2, i, j + 1));
    } else if j == m {
        lemma_lookahead_from_covers(p1, p2, i + 1, j);
        lemma_prepend(left, lookahead_from(p1, p2, i + 1, j));
    } else if p1[i] == p2[j] {
        lemma_lookahead_from_covers(p1, p2, i + 1, j + 1);
        lemma_prepend(both, lookahead_from(p1, p2, i + 1, j + 1));
    } else {
        let f1 = find_path_from(p2, p1[i], j);
        let f2 = find_path_from(p1, p2[j], i);
        if (f1 >= 0 && f2 >= 0 && f1 - j <= f2 - i) || (f1 >= 0 && f2 < 0) {
            lemma_lookahead_from_covers(p1, p2, i, j + 1);
            lemma_prepend(right, lookahead_from(p1, p2, i, j + 1));
        } else if f2 >= 0 {
            lemma_lookahead_from_covers(p1, p2, i + 1, j);
            lemma_prepend(left, lookahead_from(p1, p2, i + 1, j));
        } else {
            let rest = lookahead_from(p1, p2, i + 1, j + 1);
            lemma_lookahead_from_covers(p1, p2, i + 1, j + 1);
            lemma_prepend(right, rest);
            lemma_prepend(left, seq![right] + rest);
            assert(seq![left, right] + rest =~= seq![left] + (seq![right] + rest));
        }
    }
}

/// The lookahead alignment uses every index of the first capture once and every
/// index of the second once, each side in increasing order of emission (so no
/// side is reordered), in `|A| + |B| - pairs` units.
pub proof fn lemma_lookahead_covers(p1: Seq<Seq<char>>, p2: Seq<Seq<char>>)
    ensures
        firsts(lookahead_alignment(p1, p2)) == index_range(0, p1.len() as int),
        seconds(lookahead_alignment(p1, p2)) == index_range(0, p2.len() as int),
        lookahead_alignment(p1, p2).len() == p1.len() + p2.len() - matched_count(
            lookahead_alignment(p1, p2),
        ),
{
    lemma_lookahead_from_covers(p1, p2, 0, 0);
}

/// A record found by the partner search lies at or after `from` and is not taken.
proof fn lemma_first_free(p2: Seq<Seq<char>>, target: Seq<char>, partners: Seq<Option<int>>, from: int)
    ensures
        first_free_from(p2, target, partners, from) matches Some(j) ==> from <= j < p2.len()
            && !is_taken(partners, j),
    decreases p2.len() - from,
{
    if 0 <= from < p2.len() && !(p2[from] == target && !is_taken(partners, from)) {
        lemma_first_free(p2, target, partners, from + 1);
    }
}

/// The greedy partners of the first `i` records: one entry each, within the
/// second capture, and no record of the second capture taken twice.
proof fn lemma_partners(p1: Seq<Seq<char>>, p2: Seq<Seq<char>>, i: int)
    requires
        0 <= i,
    ensures
        greedy_partners(p1, p2, i).len() == i,
        forall|k: int|
            0 <= k < i ==> (#[trigger] greedy_partners(p1, p2, i)[k] matches Some(b) ==> 0 <= b
                < p2.len()),
        forall|k1: int, k2: int|
            0 <= k1 < i && 0 <= k2 < i && k1 != k2 && (#[trigger] greedy_partners(p1, p2, i)[k1])
                is Some ==> greedy_partners(p1, p2, i)[k1] != #[trigger] greedy_partners(
                p1,
                p2,
                i,
            )[k2],
    decreases i,
{
    if i > 0 {
        lemma_partners(p1, p2, i - 1);
        let prev = greedy_partners(p1, p2, i - 1);
        lemma_first_free(p2, p1[i - 1], prev, 0);
        let next = greedy_partners(p1, p2, i);
        assert forall|k1: int, k2: int|
            0 <= k1 < i && 0 <= k2 < i && k1 != k2 && (#[trigger] next[k1]) is Some implies next[k1]
            != #[trigger] next[k2] by {
            if k1 == i - 1 {
                if next[k2] == next[k1] {
                    assert(prev[k2] == next[k1]);
                }
            } else if k2 == i - 1 {
                if next[k2] == next[k1] {
                    assert(prev[k1] == next[k2]);
                }
            } else {
                assert(prev[k1] == next[k1] && prev[k2] == next[k2]);
            }
        }
    }
}

/// Greedy partners in good order: one per record, within the second capture,
/// none taken twice.
pub open spec fn partners_valid(partners: Seq<Option<int>>, m: int) -> bool {
    &&& forall|k: int| 0 <= k < partners.len() ==> (#[trigger] partners[k] matches Some(b) ==> 0 <= b < m)
    &&& forall|k1: int, k2: int|
        0 <= k1 < partners.len() && 0 <= k2 < partners.len() && k1 != k2 && (
        #[trigger] partners[k1]) is Some ==> partners[k1] != #[trigger] partners[k2]
}

/// A second-capture index in front of a sequence of them.
proof fn lemma_prepend_index(x: int, rest: Seq<int>)
    ensures
        forall|y: int| (seq![x] + rest).contains(y) <==> (y == x || rest.contains(y)),
        rest.no_duplicates() && !rest.contains(x) ==> (seq![x] + rest).no_duplicates(),
{
    let s = seq![x] + rest;
    assert forall|y: int| s.contains(y) <==> (y == x || rest.contains(y)) by {
        if rest.contains(y) {
            let k = choose|k: int| 0 <= k < rest.len() && rest[k] == y;
            assert(s[k + 1] == y);
        }
        if s.contains(y) && y != x {
            let k = choose|k: int| 0 <= k < s.len() && s[k] == y;
            assert(rest[k - 1] == y);
        }
        if y == x {
            assert(s[0] == y);
        }
    }
    if rest.no_duplicates() && !rest.contains(x) {
        assert forall|a: int, b: int| 0 <= a < s.len() && 0 <= b < s.len() && a != b implies s[a] != s[b] by {
            if a == 0 && b > 0 {
                assert(rest[b - 1] == s[b]);
            } else if b == 0 && a > 0 {
                assert(rest[a - 1] == s[a]);
            }
        }
    }
}

/// From record `i` of the first capture and `c` of the second on, the greedy
/// layout uses the remaining first-capture indices once each in order, and each
/// untaken second-capture index from `c` on and each partner from `i` on once.
proof fn lemma_greedy_from_covers(partners: Seq<Option<int>>, m: int, i: int, c: int)
    requires
        partners_valid(partners, m),
        0 <= i <= partners.len(),
        0 <= c <= m,
    ensures
        firsts(greedy_from(partners, m, i, c)) == index_range(i, partners.len() as int),
        seconds(greedy_from(partners, m, i, c)).no_duplicates(),
        forall|x: int|
            #[trigger] seconds(greedy_from(partners, m, i, c)).contains(x) <==> ((c <= x < m && !is_taken(
                partners,
                x,
            )) || exists|k: int| i <= k < partners.len() && partners[k] == Some(x)),
        greedy_from(partners, m, i, c).len() == firsts(greedy_from(partners, m, i, c)).len()
            + seconds(greedy_from(partners, m, i, c)).len() - matched_count(
            greedy_from(partners, m, i, c),
        ),
    decreases (partners.len() - i) + (m - c), 1int,
{
    let n = partners.len() as int;
    let g = greedy_from(partners, m, i, c);
    if i < n {
        assert(index_range(i, n) =~= seq![i] + index_range(i + 1, n));
    } else {
        assert(index_range(i, n) =~= Seq::<int>::empty());
    }
    if i < n {
        match partners[i] {
            None => {
                let rest = greedy_from(partners, m, i + 1, c);
                lemma_greedy_from_covers(partners, m, i + 1, c);
                lemma_prepend((Some(i), None), rest);
                assert forall|x: int| #[trigger] seconds(g).contains(x) <==> ((c <= x < m && !is_taken(partners, x))
                    || exists|k: int| i <= k < n && partners[k] == Some(x)) by {
                    assert(seconds(g) == seconds(rest));
                    if exists|k: int| i <= k < n && partners[k] == Some(x) {
                        let k = choose|k: int| i <= k < n && partners[k] == Some(x);
                        assert(k != i);
                        assert(exists|k2: int| i + 1 <= k2 < n && partners[k2] == Some(x));
                    }
                    if exists|k2: int| i + 1 <= k2 < n && partners[k2] == Some(x) {
                        let k2 = choose|k2: int| i + 1 <= k2 < n && partners[k2] == Some(x);
                        assert(i <= k2 < n && partners[k2] == Some(x));
                    }
                }
            },
            Some(b) => {
                if c < b && c < m {
                    lemma_greedy_from_skip(partners, m, i, c);
                } else {
                    let rest = greedy_from(partners, m, i + 1, c);
                    lemma_greedy_from_covers(partners, m, i + 1, c);
                    lemma_prepend((Some(i), Some(b)), rest);
                    lemma_prepend_index(b, seconds(rest));
                    assert(is_taken(partners, b));
                    assert(g == seq![(Some(i), Some(b))] + rest);
                    assert(seconds(g) == seq![b] + seconds(rest));
                    assert forall|x: int| #[trigger] seconds(g).contains(x) <==> ((c <= x < m && !is_taken(partners, x))
                        || exists|k: int| i <= k < n && partners[k] == Some(x)) by {
                        if exists|k: int| i <= k < n && partners[k] == Some(x) {
                            let k = choose|k: int| i <= k < n && partners[k] == Some(x);
                            if k != i {
                                assert(exists|k2: int| i + 1 <= k2 < n && partners[k2] == Some(x));
                            }
                        }
                        if exists|k2: int| i + 1 <= k2 < n && partners[k2] == Some(x) {
                            let k2 = choose|k2: int| i + 1 <= k2 < n && partners[k2] == Some(x);
                            assert(i <= k2 < n && partners[k2] == Some(x));
                        }
                        if x == b {
                            assert(i <= i < n && partners[i] == Some(x));
                        }
                        assert(seconds(g).contains(x) <==> (x == b || seconds(rest).contains(x)));
                        assert(seconds(rest).contains(x) <==> ((c <= x < m && !is_taken(partners, x))
                            || exists|k: int| i + 1 <= k < n && partners[k] == Some(x)));
                    }
                    assert(!seconds(rest).contains(b)) by {
                        if exists|k: int| i + 1 <= k < n && partners[k] == Some(b) {
                            let k = choose|k: int| i + 1 <= k < n && partners[k] == Some(b);
                            assert(partners[i] != partners[k]);
                        }
                    }
                }
            },
        }
    } else if c < m {
        lemma_greedy_from_skip(partners, m, i, c);
    } else {
        assert(g =~= Seq::<Slot>::empty());
        assert(seconds(g) =~= Seq::<int>::empty());
        assert forall|x: int| #[trigger] seconds(g).contains(x) <==> ((c <= x < m && !is_taken(
            partners,
            x,
        )) || exists|k: int| i <= k < partners.len() && partners[k] == Some(x)) by {}
    }
}

/// The step of the greedy layout that places (or passes over) second-capture
/// record `c`, for `lemma_greedy_from_covers`.
proof fn lemma_greedy_from_skip(partners: Seq<Option<int>>, m: int, i: int, c: int)
    requires
        partners_valid(partners, m),
        0 <= i <= partners.len(),
        0 <= c < m,
        i == partners.len() || (partners[i] matches Some(b) && c < b),
    ensures
        firsts(greedy_from(partners, m, i, c)) == index_range(i, partners.len() as int),
        seconds(greedy_from(partners, m, i, c)).no_duplicates(),
        forall|x: int|
            #[trigger] seconds(greedy_from(partners, m, i, c)).contains(x) <==> ((c <= x < m
                && !is_taken(partners, x)) || exists|k: int|
                i <= k < partners.len() && partners[k] == Some(x)),
        greedy_from(partners, m, i, c).len() == firsts(greedy_from(partners, m, i, c)).len()
            + seconds(greedy_from(partners, m, i, c)).len() - matched_count(
            greedy_from(partners, m, i, c),
        ),
    decreases (partners.len() - i) + (m - c), 0int,
{
    let g = greedy_from(partners, m, i, c);
    let rest = greedy_from(partners, m, i, c + 1);
    lemma_greedy_from_covers(partners, m, i, c + 1);
    if is_taken(partners, c) {
        assert(g =~= rest);
    } else {
        lemma_prepend((None, Some(c)), rest);
        lemma_prepend_index(c, seconds(rest));
        assert(g == seq![(None::<int>, Some(c))] + rest);
        assert forall|x: int| #[trigger] seconds(g).contains(x) <==> ((c <= x < m && !is_taken(
            partners,
            x,
        )) || exists|k: int| i <= k < partners.len() && partners[k] == Some(x)) by {
            assert(seconds(g).contains(x) <==> (x == c || seconds(rest).contains(x)));
        }
    }
}

/// The greedy alignment uses every index of the first capture once, in
/// increasing order, and every index of the second capture exactly once, in
/// `|A| + |B| - pairs` units. (The second capture's paired indices follow the
/// first capture's order, so they need not increase.)
pub proof fn lemma_greedy_covers(p1: Seq<Seq<char>>, p2: Seq<Seq<char>>)
    ensures
        firsts(greedy_alignment(p1, p2)) == index_range(0, p1.len() as int),
        seconds(greedy_alignment(p1, p2)).no_duplicates(),
        forall|x: int| seconds(greedy_alignment(p1, p2)).contains(x) <==> 0 <= x < p2.len(),
        seconds(greedy_alignment(p1, p2)).len() == p2.len(),
        greedy_alignment(p1, p2).len() == p1.len() + p2.len() - matched_count(
            greedy_alignment(p1, p2),
        ),
{
    let n = p1.len() as int;
    let m = p2.len() as int;
    let partners = greedy_partners(p1, p2, n);
    lemma_partners(p1, p2, n);
    lemma_greedy_from_covers(partners, m, 0, 0);
    let sec = seconds(greedy_alignment(p1, p2));
    assert forall|x: int| sec.contains(x) <==> 0 <= x < m by {
        assert(sec.contains(x) <==> ((0 <= x < m && !is_taken(partners, x)) || exists|k: int|
            0 <= k < partners.len() && partners[k] == Some(x)));
        if 0 <= x < m && is_taken(partners, x) {
            let k = choose|k: int| 0 <= k < partners.len() && partners[k] == Some(x);
            assert(exists|k2: int| 0 <= k2 < n && partners[k2] == Some(x));
        }
        if exists|k: int| 0 <= k < n && partners[k] == Some(x) {
            let k = choose|k: int| 0 <= k < n && partners[k] == Some(x);
            assert(partners[k] matches Some(b) ==> 0 <= b < m);
        }
    }
    assert(sec.to_set() =~= vstd::set_lib::set_int_range(0, m));
    sec.unique_seq_to_set();
    vstd::set_lib::lemma_int_range(0, m);
}

/// Greedy partners that never cross: a later record of the first capture is
/// paired with a later record of the second.
pub open spec fn partners_increasing(partners: Seq<Option<int>>) -> bool {
    forall|k1: int, k2: int|
        0 <= k1 < k2 < partners.len() && (#[trigger] partners[k1]) is Some && (
        #[trigger] partners[k2]) is Some ==> partners[k1]->0 < partners[k2]->0
}

/// Indices in strictly increasing order.
pub open spec fn strictly_increasing(s: Seq<int>) -> bool {
    forall|a: int, b: int| 0 <= a < b < s.len() ==> #[trigger] s[a] < #[trigger] s[b]
}

/// An index below all of an increasing sequence can go in front of it.
proof fn lemma_prepend_increasing(x: int, rest: Seq<int>)
    requires
        strictly_increasing(rest),
        forall|k: int| 0 <= k < rest.len() ==> x < #[trigger] rest[k],
    ensures
        strictly_increasing(seq![x] + rest),
{
    let s = seq![x] + rest;
    assert forall|a: int, b: int| 0 <= a < b < s.len() implies #[trigger] s[a] < #[trigger] s[b] by {
        if a == 0 {
            assert(s[b] == rest[b - 1]);
        } else {
            assert(s[a] == rest[a - 1] && s[b] == rest[b - 1]);
        }
    }
}

/// Without crossing partners, the greedy layout emits second-capture indices in
/// increasing order.
proof fn lemma_greedy_from_increasing(partners: Seq<Option<int>>, m: int, i: int, c: int)
    requires
        partners_valid(partners, m),
        partners_increasing(partners),
        0 <= i <= partners.len(),
        0 <= c <= m,
    ensures
        strictly_increasing(seconds(greedy_from(partners, m, i, c))),
    decreases (partners.len() - i) + (m - c),
{
    let n = partners.len() as int;
    let g = greedy_from(partners, m, i, c);
    if i < n {
        match partners[i] {
            None => {
                let rest = greedy_from(partners, m, i + 1, c);
                lemma_greedy_from_increasing(partners, m, i + 1, c);
                lemma_prepend((Some(i), None), rest);
            },
            Some(b) => {
                if c < b && c < m {
                    lemma_greedy_from_increasing_free(partners, m, i, c);
                } else {
                    let rest = greedy_from(partners, m, i + 1, c);
                    lemma_greedy_from_increasing(partners, m, i + 1, c);
                    lemma_greedy_from_covers(partners, m, i + 1, c);
                    lemma_prepend((Some(i), Some(b)), rest);
                    let sr = seconds(rest);
                    assert forall|k: int| 0 <= k < sr.len() implies b < #[trigger] sr[k] by {
                        assert(sr.contains(sr[k]));
                        let y = sr[k];
                        if exists|k2: int| i + 1 <= k2 < n && partners[k2] == Some(y) {
                            let k2 = choose|k2: int| i + 1 <= k2 < n && partners[k2] == Some(y);
                            assert(partners[i] is Some && partners[k2] is Some);
                        } else {
                            assert(partners[i] == Some(b));
                            if y == b {
                                assert(is_taken(partners, b));
                            }
                        }
                    }
                    lemma_prepend_increasing(b, sr);
                }
            },
        }
    } else if c < m {
        lemma_greedy_from_increasing_free(partners, m, i, c);
    } else {
        assert(seconds(g) =~= Seq::<int>::empty());
    }
}

/// The step of `lemma_greedy_from_increasing` that places or passes over
/// second-capture record `c`.
proof fn lemma_greedy_from_increasing_free(partners: Seq<Option<int>>, m: int, i: int, c: int)
    requires
        partners_valid(partners, m),
        partners_increasing(partners),
        0 <= i <= partners.len(),
        0 <= c < m,
        i == partners.len() || (partners[i] matches Some(b) && c < b),
    ensures
        strictly_increasing(seconds(greedy_from(partners, m, i, c))),
    decreases (partners.len() - i) + (m - c), 0int,
{
    let n = partners.len() as int;
    let g = greedy_from(partners, m, i, c);
    let rest = greedy_from(partners, m, i, c + 1);
    lemma_greedy_from_increasing(partners, m, i, c + 1);
    if is_taken(partners, c) {
        assert(g =~= rest);
    } else {
        lemma_greedy_from_covers(partners, m, i, c + 1);
        lemma_prepend((None, Some(c)), rest);
        assert(g == seq![(None::<int>, Some(c))] + rest);
        let sr = seconds(rest);
        assert forall|k: int| 0 <= k < sr.len() implies c < #[trigger] sr[k] by {
            assert(sr.contains(sr[k]));
            let y = sr[k];
            if exists|k2: int| i <= k2 < n && partners[k2] == Some(y) {
                let k2 = choose|k2: int| i <= k2 < n && partners[k2] == Some(y);
                if k2 > i {
                    assert(partners[i] is Some && partners[k2] is Some);
                }
            }
        }
        lemma_prepend_increasing(c, sr);
    }
}

/// Increasing indices below `m`, `m` of them, are exactly 0, 1, ..., m - 1.
proof fn lemma_increasing_range(s: Seq<int>, m: int)
    requires
        strictly_increasing(s),
        s.len() == m,
        forall|k: int| 0 <= k < m ==> 0 <= #[trigger] s[k] < m,
    ensures
        s == index_range(0, m),
{
    assert forall|a: int, b: int| 0 <= a <= b < m implies s[b] - s[a] >= b - a by {
        lemma_increasing_gap(s, a, b);
    }
    assert forall|k: int| 0 <= k < m implies #[trigger] s[k] == k by {
        lemma_increasing_gap(s, 0, k);
        lemma_increasing_gap(s, k, m - 1);
    }
    assert(s =~= index_range(0, m));
}

/// Strictly increasing integers grow by at least one per step.
proof fn lemma_increasing_gap(s: Seq<int>, a: int, b: int)
    requires
        strictly_increasing(s),
        0 <= a <= b < s.len(),
    ensures
        s[b] - s[a] >= b - a,
    decreases b - a,
{
    if a < b {
        lemma_increasing_gap(s, a, b - 1);
        assert(s[b - 1] < s[b]);
    }
}

/// Where the greedy partners do not cross, the greedy alignment uses the second
/// capture's indices in increasing order of emission, each once.
pub proof fn lemma_greedy_in_order(p1: Seq<Seq<char>>, p2: Seq<Seq<char>>)
    requires
        partners_increasing(greedy_partners(p1, p2, p1.len() as int)),
    ensures
        seconds(greedy_alignment(p1, p2)) == index_range(0, p2.len() as int),
{
    let n = p1.len() as int;
    let m = p2.len() as int;
    let partners = greedy_partners(p1, p2, n);
    lemma_partners(p1, p2, n);
    lemma_greedy_covers(p1, p2);
    lemma_greedy_from_increasing(partners, m, 0, 0);
    let sec = seconds(greedy_alignment(p1, p2));
    assert forall|k: int| 0 <= k < m implies 0 <= #[trigger] sec[k] < m by {
        assert(sec.contains(sec[k]));
    }
    lemma_increasing_range(sec, m);
}

} // verus!
