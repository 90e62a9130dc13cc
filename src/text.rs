//! Text helpers: character access, comparison and the std string operations
//! that the rest of the library relies on.
use vstd::prelude::*;
use vstd::string::*;

verus! {

/// The characters of `s`, in order.
pub fn chars_of(s: &str) -> (r: Vec<char>)
    ensures
        r@ == s@,
{
    let n = s.unicode_len();
    let mut r: Vec<char> = Vec::new();
    let mut i: usize = 0;
    while i < n
        invariant
            n == s@.len(),
            i <= n,
            r@ == s@.take(i as int),
        decreases n - i,
    {
        let c = s.get_char(i);
        r.push(c);
        proof {
            assert(s@.take(i + 1) =~= s@.take(i as int).push(c));
        }
        i = i + 1;
    }
    proof {
        assert(s@.take(n as int) =~= s@);
    }
    r
}

/// The character of a decimal digit.
pub open spec fn digit_char(d: nat) -> char {
    if d == 0 {
        '0'
    } else if d == 1 {
        '1'
    } else if d == 2 {
        '2'
    } else if d == 3 {
        '3'
    } else if d == 4 {
        '4'
    } else if d == 5 {
        '5'
    } else if d == 6 {
        '6'
    } else if d == 7 {
        '7'
    } else if d == 8 {
        '8'
    } else {
        '9'
    }
}

/// The decimal numeral of `n`, without sign or leading zeros.
pub open spec fn decimal(n: nat) -> Seq<char>
    decreases n,
{
    if n < 10 {
        seq![digit_char(n)]
    } else {
        decimal(n / 10).push(digit_char(n % 10))
    }
}

/// A character with ASCII upper-case letters mapped to lower case, as a code point.
pub open spec fn ascii_folded(c: char) -> u32 {
    if 65 <= (c as u32) <= 90 {
        ((c as u32) + 32) as u32
    } else {
        c as u32
    }
}

/// `a` and `b` are equal once ASCII letters are folded to one case.
pub open spec fn ascii_case_eq(a: Seq<char>, b: Seq<char>) -> bool {
    &&& a.len() == b.len()
    &&& forall|i: int| 0 <= i < a.len() ==> ascii_folded(#[trigger] a[i]) == ascii_folded(b[i])
}

/// `needle` occurs in `hay` as a contiguous run (the empty text occurs everywhere).
pub open spec fn is_infix(needle: Seq<char>, hay: Seq<char>) -> bool {
    exists|i: int|
        0 <= i && i + needle.len() <= hay.len() && #[trigger] hay.subrange(i, i + needle.len())
            == needle
}

/// The upper-case form of a text under Unicode case mapping.
pub uninterp spec fn upper_of(s: Seq<char>) -> Seq<char>;

/// The lower-case form of a text under Unicode case mapping.
pub uninterp spec fn lower_of(s: Seq<char>) -> Seq<char>;

/// A text without its leading and trailing Unicode white space.
pub uninterp spec fn trimmed_of(s: Seq<char>) -> Seq<char>;

/// The percent-encoding of a text's UTF-8 bytes, keeping only ASCII
/// alphanumerics and `-`, `_`, `.`, `~` as they are.
pub uninterp spec fn url_encoded(s: Seq<char>) -> Seq<char>;

/// Relies on `str::to_uppercase`: the result depends on the characters alone.
#[verifier::external_body]
pub(crate) fn upper_case(s: &str) -> (r: String)
    ensures
        r@ == upper_of(s@),
{
    s.to_uppercase()
}

/// Relies on `str::to_lowercase`: the result depends on the characters alone.
#[verifier::external_body]
pub(crate) fn lower_case(s: &str) -> (r: String)
    ensures
        r@ == lower_of(s@),
{
    s.to_lowercase()
}

/// Relies on `str::trim`: the result depends on the characters alone, and an
/// empty text stays empty.
#[verifier::external_body]
pub(crate) fn trim_text(s: &str) -> (r: &str)
    ensures
        r@ == trimmed_of(s@),
        s@.len() == 0 ==> r@.len() == 0,
{
    s.trim()
}

/// Relies on `str::eq_ignore_ascii_case`: equality after mapping ASCII letters to
/// one case, other characters compared as they are.
#[verifier::external_body]
pub(crate) fn eq_ignore_case(a: &str, b: &str) -> (r: bool)
    ensures
        r == ascii_case_eq(a@, b@),
{
    a.eq_ignore_ascii_case(b)
}

/// Relies on `str::contains` with a `&str` pattern: whether `needle` occurs in `hay`.
#[verifier::external_body]
pub(crate) fn contains_text(hay: &str, needle: &str) -> (r: bool)
    ensures
        r == is_infix(needle@, hay@),
{
    hay.contains(needle)
}

/// Relies on `ToString` for `u64` (its `Display`): the decimal numeral.
#[verifier::external_body]
pub(crate) fn decimal_text(n: u64) -> (r: String)
    ensures
        r@ == decimal(n as nat),
{
    n.to_string()
}

/// Relies on `urlencoding::encode`: the percent-encoding of the text.
#[verifier::external_body]
pub(crate) fn url_encode(s: &str) -> (r: String)
    ensures
        r@ == url_encoded(s@),
        s@.len() == 0 ==> r@.len() == 0,
{
    urlencoding::encode(s).into_owned()
}

/// `a` comes strictly before `b` in lexicographic order of code points, given
/// that they agree before index `i`.
pub open spec fn text_lt_from(a: Seq<char>, b: Seq<char>, i: int) -> bool
    decreases a.len() - i,
{
    if i < 0 {
        false
    } else if i >= a.len() {
        i < b.len()
    } else if i >= b.len() {
        false
    } else if a[i] != b[i] {
        a[i] < b[i]
    } else {
        text_lt_from(a, b, i + 1)
    }
}

/// `a` comes strictly before `b` in lexicographic order of code points (the
/// order of `str`, whose byte order UTF-8 keeps).
pub open spec fn text_lt(a: Seq<char>, b: Seq<char>) -> bool {
    text_lt_from(a, b, 0)
}

/// Whether `a` comes strictly before `b`.
pub fn text_less(a: &Vec<char>, b: &Vec<char>) -> (r: bool)
    ensures
        r == text_lt(a@, b@),
{
    let mut i: usize = 0;
    while i < a.len() && i < b.len()
        invariant
            i <= a@.len(),
            i <= b@.len(),
            text_lt(a@, b@) == text_lt_from(a@, b@, i as int),
        decreases a@.len() - i,
    {
        if a[i] != b[i] {
            return a[i] < b[i];
        }
        i = i + 1;
    }
    i < b.len()
}

/// A sort entry: a key and the position of what it stands for.
pub type Keyed = (Seq<char>, int);

/// The views of sort entries.
pub open spec fn keyed(v: Seq<(Vec<char>, usize)>) -> Seq<Keyed> {
    v.map_values(|e: (Vec<char>, usize)| (e.0@, e.1 as int))
}

/// Where an entry with `key` goes among sorted entries: before the first whose
/// key comes strictly after it, so that equal keys keep their order.
pub open spec fn insert_pos(s: Seq<Keyed>, key: Seq<char>, from: int) -> int
    decreases s.len() - from,
{
    if from < 0 || from >= s.len() {
        s.len() as int
    } else if text_lt(key, s[from].0) {
        from
    } else {
        insert_pos(s, key, from + 1)
    }
}

/// The entries in order of their keys; entries with equal keys keep their order.
pub open spec fn sorted_by_key(s: Seq<Keyed>) -> Seq<Keyed>
    decreases s.len(),
{
    if s.len() == 0 {
        s
    } else {
        let p = sorted_by_key(s.drop_last());
        p.insert(insert_pos(p, s.last().0, 0), s.last())
    }
}

/// Sorts entries by key, stably.
pub fn sort_keyed(items: Vec<(Vec<char>, usize)>) -> (r: Vec<(Vec<char>, usize)>)
    ensures
        keyed(r@) == sorted_by_key(keyed(items@)),
{
    let ghost orig = keyed(items@);
    let mut rest = items;
    let mut out: Vec<(Vec<char>, usize)> = Vec::new();
    let ghost mut done: int = 0;
    while rest.len() > 0
        invariant
            0 <= done <= orig.len(),
            keyed(rest@) == orig.subrange(done, orig.len() as int),
            keyed(out@) == sorted_by_key(orig.take(done)),
        decreases rest@.len(),
    {
        let ghost rest_before = rest@;
        let item = rest.remove(0);
        proof {
            assert(keyed(rest_before).len() == rest_before.len());
            assert(done < orig.len());
            assert(keyed(rest_before)[0] == orig[done]);
            assert(keyed(rest@) =~= keyed(rest_before).subrange(1, rest_before.len() as int));
        }
        let ghost so_far = keyed(out@);
        let mut p: usize = 0;
        let mut found = false;
        while p < out.len() && !found
            invariant
                so_far == keyed(out@),
                p <= out@.len(),
                found ==> p < out@.len() && text_lt(item.0@, so_far[p as int].0),
                insert_pos(so_far, item.0@, 0) == insert_pos(so_far, item.0@, p as int),
            decreases out@.len() - p, if found { 0int } else { 1int },
        {
            if text_less(&item.0, &out[p].0) {
                found = true;
            } else {
                p = p + 1;
            }
        }
        proof {
            assert(insert_pos(so_far, item.0@, 0) == p);
        }
        proof {
            assert(orig.take(done + 1).drop_last() =~= orig.take(done));
            assert(orig[done] == (item.0@, item.1 as int));
        }
        out.insert(p, item);
        proof {
            assert(keyed(out@) =~= so_far.insert(p as int, orig[done]));
            done = done + 1;
            assert(keyed(rest@) =~= orig.subrange(done, orig.len() as int));
        }
    }
    proof {
        assert(orig.take(done) =~= orig);
    }
    out
}

/// Text order is asymmetric from any index on.
proof fn lemma_text_lt_asym_from(a: Seq<char>, b: Seq<char>, i: int)
    ensures
        text_lt_from(a, b, i) ==> !text_lt_from(b, a, i),
    decreases a.len() - i,
{
    if 0 <= i < a.len() && i < b.len() && a[i] == b[i] {
        lemma_text_lt_asym_from(a, b, i + 1);
    }
}

/// Text order is transitive from any index on.
proof fn lemma_text_lt_trans_from(a: Seq<char>, b: Seq<char>, c: Seq<char>, i: int)
    ensures
        text_lt_from(a, b, i) && text_lt_from(b, c, i) ==> text_lt_from(a, c, i),
    decreases a.len() - i,
{
    if 0 <= i < a.len() && i < b.len() && i < c.len() && a[i] == b[i] && b[i] == c[i] {
        lemma_text_lt_trans_from(a, b, c, i + 1);
    }
}

/// Two different texts that agree before index `i` are ordered one way or the other.
proof fn lemma_text_lt_total_from(a: Seq<char>, b: Seq<char>, i: int)
    requires
        0 <= i <= a.len(),
        i <= b.len(),
        forall|k: int| 0 <= k < i ==> a[k] == b[k],
        a != b,
    ensures
        text_lt_from(a, b, i) || text_lt_from(b, a, i),
    decreases a.len() - i,
{
    if i == a.len() && i == b.len() {
        assert(a =~= b);
    } else if i < a.len() && i < b.len() && a[i] == b[i] {
        lemma_text_lt_total_from(a, b, i + 1);
    } else if i < a.len() && i < b.len() {
        assert(a[i] < b[i] || b[i] < a[i]);
    }
}

/// Text order is a strict total order.
pub proof fn lemma_text_order(a: Seq<char>, b: Seq<char>, c: Seq<char>)
    ensures
        text_lt(a, b) ==> !text_lt(b, a),
        !text_lt(a, a),
        text_lt(a, b) && text_lt(b, c) ==> text_lt(a, c),
        a != b ==> text_lt(a, b) || text_lt(b, a),
{
    lemma_text_lt_asym_from(a, b, 0);
    lemma_text_lt_asym_from(a, a, 0);
    lemma_text_lt_trans_from(a, b, c, 0);
    if a != b {
        lemma_text_lt_total_from(a, b, 0);
    }
}

/// The insertion point lies after every entry whose key does not come after
/// `key`, and before one whose key does.
proof fn lemma_insert_pos(s: Seq<Keyed>, key: Seq<char>, from: int)
    requires
        0 <= from <= s.len(),
    ensures
        from <= insert_pos(s, key, from) <= s.len(),
        forall|t: int| from <= t < insert_pos(s, key, from) ==> !text_lt(key, #[trigger] s[t].0),
        insert_pos(s, key, from) < s.len() ==> text_lt(key, s[insert_pos(s, key, from)].0),
    decreases s.len() - from,
{
    if from < s.len() && !text_lt(key, s[from].0) {
        lemma_insert_pos(s, key, from + 1);
    }
}

/// Entries whose keys never go down.
pub open spec fn keys_ordered(s: Seq<Keyed>) -> bool {
    forall|p: int, q: int| 0 <= p < q < s.len() ==> !text_lt(#[trigger] s[q].0, #[trigger] s[p].0)
}

/// Sorting orders the keys and keeps the entries.
pub proof fn lemma_sorted_by_key(s: Seq<Keyed>)
    ensures
        keys_ordered(sorted_by_key(s)),
        sorted_by_key(s).to_multiset() == s.to_multiset(),
        sorted_by_key(s).len() == s.len(),
    decreases s.len(),
{
    broadcast use vstd::seq_lib::to_multiset_insert, vstd::seq_lib::to_multiset_build;

    if s.len() > 0 {
        let prev = sorted_by_key(s.drop_last());
        lemma_sorted_by_key(s.drop_last());
        let x = s.last();
        let pos = insert_pos(prev, x.0, 0);
        lemma_insert_pos(prev, x.0, 0);
        let r = prev.insert(pos, x);
        assert(s =~= s.drop_last().push(x));
        assert forall|u: int, v: int| 0 <= u < v < r.len() implies !text_lt(
            #[trigger] r[v].0,
            #[trigger] r[u].0,
        ) by {
            if u < pos && v == pos {
            } else if u == pos && v > pos {
                lemma_text_order(prev[v - 1].0, x.0, prev[pos].0);
                if v - 1 > pos {
                    assert(!text_lt(prev[v - 1].0, prev[pos].0));
                }
            } else if u < pos && v > pos {
                assert(r[v] == prev[v - 1] && r[u] == prev[u]);
            } else if u > pos {
                assert(r[v] == prev[v - 1] && r[u] == prev[u - 1]);
            } else {
                assert(r[v] == prev[v] && r[u] == prev[u]);
            }
        }
    }
}

/// Each text with its position.
pub open spec fn numbered(ls: Seq<Seq<char>>) -> Seq<Keyed> {
    Seq::new(ls.len(), |i: int| (ls[i], i))
}

/// The positions of texts in text order; equal texts keep their order.
pub open spec fn order_of(ls: Seq<Seq<char>>) -> Seq<int> {
    sorted_by_key(numbered(ls)).map_values(|e: Keyed| e.1)
}

/// The positions of `keys` in text order of the keys; equal keys keep their order.
pub fn text_order(keys: &Vec<String>) -> (r: Vec<usize>)
    ensures
        r@.len() == keys@.len(),
        r@.map_values(|k: usize| k as int) == order_of(views(keys@)),
        forall|t: int| 0 <= t < r@.len() ==> #[trigger] r@[t] < keys@.len(),
{
    broadcast use vstd::seq_lib::to_multiset_contains;

    let mut entries: Vec<(Vec<char>, usize)> = Vec::new();
    let mut i: usize = 0;
    while i < keys.len()
        invariant
            i <= keys@.len(),
            keyed(entries@) == numbered(views(keys@)).take(i as int),
        decreases keys@.len() - i,
    {
        let ghost before = entries@;
        proof {
            assert(keyed(before).len() == before.len());
            assert(before.len() == i);
        }
        let cs = chars_of(keys[i].as_str());
        entries.push((cs, i));
        proof {
            assert(views(keys@)[i as int] == keys@[i as int]@);
            assert(entries@[i as int] == (cs, i));
            assert(entries@[i as int].0@ == keys@[i as int]@);
            assert(keyed(entries@)[i as int] == numbered(views(keys@))[i as int]);
            assert(keyed(entries@).drop_last() =~= keyed(before));
            assert(keyed(entries@) =~= numbered(views(keys@)).take(i + 1));
        }
        i = i + 1;
    }
    proof {
        assert(numbered(views(keys@)).take(keys@.len() as int) =~= numbered(views(keys@)));
    }
    let sorted = sort_keyed(entries);
    let ghost order = keyed(sorted@);
    let ghost all = numbered(views(keys@));
    proof {
        lemma_sorted_by_key(all);
    }
    let mut out: Vec<usize> = Vec::new();
    let mut t: usize = 0;
    while t < sorted.len()
        invariant
            order == keyed(sorted@),
            order == sorted_by_key(all),
            all == numbered(views(keys@)),
            order.to_multiset() == all.to_multiset(),
            order.len() == all.len(),
            t <= sorted@.len(),
            out@.len() == t,
            forall|u: int| 0 <= u < t ==> (#[trigger] out@[u]) as int == order[u].1,
            forall|u: int| 0 <= u < t ==> #[trigger] out@[u] < keys@.len(),
        decreases sorted@.len() - t,
    {
        proof {
            broadcast use vstd::seq_lib::to_multiset_contains;

            assert(order[t as int] == (sorted@[t as int].0@, sorted@[t as int].1 as int));
            assert(order.contains(order[t as int]));
            assert(order.to_multiset().count(order[t as int]) > 0);
            assert(all.to_multiset().count(order[t as int]) > 0);
            assert(all.contains(order[t as int]));
        }
        out.push(sorted[t].1);
        t = t + 1;
    }
    proof {
        assert(out@.map_values(|k: usize| k as int) =~= order_of(views(keys@)));
    }
    out
}

/// Texts joined with `sep` between each two.
pub open spec fn join(s: Seq<Seq<char>>, sep: Seq<char>) -> Seq<char>
    decreases s.len(),
{
    if s.len() == 0 {
        Seq::empty()
    } else if s.len() == 1 {
        s[0]
    } else {
        join(s.drop_last(), sep) + sep + s.last()
    }
}

/// The views of a list of texts.
pub open spec fn views(v: Seq<String>) -> Seq<Seq<char>> {
    v.map_values(|s: String| s@)
}

/// Joins texts with `sep` between each two.
pub fn join_texts(parts: &Vec<String>, sep: &str) -> (r: String)
    ensures
        r@ == join(views(parts@), sep@),
{
    let mut out = String::new();
    let mut i: usize = 0;
    while i < parts.len()
        invariant
            i <= parts@.len(),
            out@ == join(views(parts@).take(i as int), sep@),
        decreases parts@.len() - i,
    {
        proof {
            assert(views(parts@).take(i + 1).drop_last() =~= views(parts@).take(i as int));
        }
        if i > 0 {
            out.append(sep);
        }
        out.append(parts[i].as_str());
        proof {
            if i == 0 {
                assert(views(parts@).take(1)[0] == parts@[0]@);
                assert(out@ =~= parts@[0]@);
            }
        }
        i = i + 1;
    }
    proof {
        assert(views(parts@).take(parts@.len() as int) =~= views(parts@));
    }
    out
}

} // verus!
