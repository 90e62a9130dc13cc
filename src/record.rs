//! Normalized exchange records and the first-match lookups over their
//! name/value lists.
use vstd::prelude::*;

verus! {

/// One normalized HTTP exchange. Headers and query parameters are lists of
/// `(name, value)` entries; a name is looked up at its first entry.
#[derive(Debug, Clone)]
pub struct HarRequest {
    pub method: String,
    pub url: String,
    /// The URL's path, followed by `?` and the query where there is one.
    pub path: String,
    pub headers: Vec<(String, String)>,
    pub query_params: Vec<(String, Vec<String>)>,
    pub post_data: Option<String>,
    pub response_status: u16,
    pub response_headers: Vec<(String, String)>,
    pub response_body: Option<String>,
    /// Position in the capture, counted from 1.
    pub index: usize,
}

/// The records of one capture and the file they came from.
#[derive(Debug)]
pub struct HarFile {
    pub requests: Vec<HarRequest>,
    pub file_path: String,
}

/// The index of the first entry at or after `from` whose name is `k`, or -1.
pub open spec fn find_name_from<V>(s: Seq<(String, V)>, k: Seq<char>, from: int) -> int
    decreases s.len() - from,
{
    if from < 0 || from >= s.len() {
        -1
    } else if s[from].0@ == k {
        from
    } else {
        find_name_from(s, k, from + 1)
    }
}

/// A found entry lies in `s`, at or after `from`, and carries the name.
pub proof fn lemma_find_name_bounds<V>(s: Seq<(String, V)>, k: Seq<char>, from: int)
    ensures
        find_name_from(s, k, from) == -1 || (from <= find_name_from(s, k, from) < s.len()
            && s[find_name_from(s, k, from)].0@ == k),
    decreases s.len() - from,
{
    if 0 <= from < s.len() && s[from].0@ != k {
        lemma_find_name_bounds(s, k, from + 1);
    }
}

/// A name that some entry at or after `from` carries is found, no later than that entry.
pub proof fn lemma_name_found_from<V>(s: Seq<(String, V)>, k: Seq<char>, from: int, j: int)
    requires
        0 <= from <= j < s.len(),
        s[j].0@ == k,
    ensures
        from <= find_name_from(s, k, from) <= j,
    decreases j - from,
{
    if s[from].0@ != k {
        lemma_name_found_from(s, k, from + 1, j);
    }
}

/// A name that entry `j` carries is found, at `j` or earlier.
pub proof fn lemma_name_found<V>(s: Seq<(String, V)>, k: Seq<char>, j: int)
    requires
        0 <= j < s.len(),
        s[j].0@ == k,
    ensures
        0 <= name_index(s, k) <= j,
{
    lemma_name_found_from(s, k, 0, j);
}

/// The index of the first entry named `k`, or -1.
pub open spec fn name_index<V>(s: Seq<(String, V)>, k: Seq<char>) -> int {
    find_name_from(s, k, 0)
}

/// The value of the first header named `k`.
pub open spec fn text_lookup(s: Seq<(String, String)>, k: Seq<char>) -> Option<Seq<char>> {
    let i = name_index(s, k);
    if i >= 0 {
        Some(s[i].1@)
    } else {
        None
    }
}

/// The values of a list of texts.
pub open spec fn texts(v: Seq<String>) -> Seq<Seq<char>> {
    v.map_values(|s: String| s@)
}

/// The values of the first parameter named `k`.
pub open spec fn list_lookup(s: Seq<(String, Vec<String>)>, k: Seq<char>) -> Option<Seq<Seq<char>>> {
    let i = name_index(s, k);
    if i >= 0 {
        Some(texts(s[i].1@))
    } else {
        None
    }
}

/// Every name of `s` has the same lookup in `s` and `t`.
pub open spec fn lists_agree_on(s: Seq<(String, Vec<String>)>, t: Seq<(String, Vec<String>)>) -> bool {
    forall|i: int|
        0 <= i < s.len() ==> list_lookup(s, #[trigger] s[i].0@) == list_lookup(t, s[i].0@)
}

/// Two parameter lists that map every name to the same values.
pub open spec fn params_equal(s: Seq<(String, Vec<String>)>, t: Seq<(String, Vec<String>)>) -> bool {
    lists_agree_on(s, t) && lists_agree_on(t, s)
}

/// The index of the first entry of `s` named `k`.
pub fn index_of_name<V>(s: &Vec<(String, V)>, k: &String) -> (r: Option<usize>)
    ensures
        r matches Some(i) ==> i == name_index(s@, k@) && i < s@.len() && s@[i as int].0@ == k@,
        r is None ==> name_index(s@, k@) == -1,
{
    let mut i: usize = 0;
    while i < s.len()
        invariant
            i <= s@.len(),
            find_name_from(s@, k@, 0) == find_name_from(s@, k@, i as int),
        decreases s@.len() - i,
    {
        if s[i].0 == *k {
            return Some(i);
        }
        i = i + 1;
    }
    None
}

/// Equality of two lists of texts, element by element.
pub fn texts_equal(a: &Vec<String>, b: &Vec<String>) -> (r: bool)
    ensures
        r == (texts(a@) == texts(b@)),
{
    if a.len() != b.len() {
        proof {
            assert(texts(a@).len() != texts(b@).len());
        }
        return false;
    }
    let mut i: usize = 0;
    while i < a.len()
        invariant
            a@.len() == b@.len(),
            i <= a@.len(),
            forall|j: int| 0 <= j < i ==> a@[j]@ == b@[j]@,
        decreases a@.len() - i,
    {
        if a[i] != b[i] {
            proof {
                assert(texts(a@)[i as int] != texts(b@)[i as int]);
            }
            return false;
        }
        i = i + 1;
    }
    proof {
        assert(texts(a@) =~= texts(b@));
    }
    true
}

/// Whether every name of `s` has the same values in `t`.
fn params_agree_on(s: &Vec<(String, Vec<String>)>, t: &Vec<(String, Vec<String>)>) -> (r: bool)
    ensures
        r == lists_agree_on(s@, t@),
{
    let mut i: usize = 0;
    while i < s.len()
        invariant
            i <= s@.len(),
            forall|j: int|
                0 <= j < i ==> list_lookup(s@, #[trigger] s@[j].0@) == list_lookup(t@, s@[j].0@),
        decreases s@.len() - i,
    {
        let k = &s[i].0;
        let own = index_of_name(s, k);
        let other = index_of_name(t, k);
        let same = match (own, other) {
            (Some(a), Some(b)) => texts_equal(&s[a].1, &t[b].1),
            (None, None) => true,
            _ => false,
        };
        if !same {
            return false;
        }
        i = i + 1;
    }
    true
}

/// Whether two parameter lists map every name to the same values.
pub fn params_match(s: &Vec<(String, Vec<String>)>, t: &Vec<(String, Vec<String>)>) -> (r: bool)
    ensures
        r == params_equal(s@, t@),
{
    params_agree_on(s, t) && params_agree_on(t, s)
}

/// Equality of two optional texts.
pub fn opt_text_equal(a: &Option<String>, b: &Option<String>) -> (r: bool)
    ensures
        r == (crate::url_parts::opt_text(*a) == crate::url_parts::opt_text(*b)),
{
    match (a, b) {
        (Some(x), Some(y)) => *x == *y,
        (None, None) => true,
        _ => false,
    }
}

} // verus!
