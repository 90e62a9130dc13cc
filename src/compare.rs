//! The pairwise comparator: decides whether two records match, differ only in
//! exempted fields, partially differ, or stand for different calls.
use vstd::prelude::*;
use vstd::string::*;
use crate::json::{json_eq, json_equal, lemma_json_eq_refl, parse_json, parsed_json, JsonValue};
use crate::record::{
    index_of_name, lemma_find_name_bounds, lemma_name_found, name_index, opt_text_equal, params_equal,
    params_match, text_lookup, HarRequest,
};
use crate::text::{chars_of, upper_case, upper_of};
use crate::url_parts::opt_text;
use crate::whitelist::WhitelistConfig;

verus! {

broadcast use vstd::std_specs::vec::group_vec_axioms;

/// The outcome of comparing two records.
#[derive(Debug, Clone, Copy, PartialEq, Eq, Structural)]
pub enum Verdict {
    Match,
    Whitelisted,
    Partial,
    Different,
}

/// The status word of a verdict.
pub open spec fn verdict_word(v: Verdict) -> Seq<char> {
    match v {
        Verdict::Match => "match"@,
        Verdict::Whitelisted => "whitelisted"@,
        Verdict::Partial => "partial"@,
        Verdict::Different => "different"@,
    }
}

/// The human-readable detail of a verdict.
pub open spec fn verdict_detail(v: Verdict) -> Seq<char> {
    match v {
        Verdict::Match => "Full match"@,
        Verdict::Whitelisted => "Differences only in whitelisted fields"@,
        Verdict::Partial => "Has differences"@,
        Verdict::Different => "Different paths"@,
    }
}

/// A comparison's status (`match`, `whitelisted`, `partial` or `different`) and detail.
#[derive(Debug)]
pub struct ComparisonResult {
    pub status: String,
    pub details: String,
}

/// Differences found so far: some in exempted fields, some elsewhere.
pub struct DiffResult {
    pub has_non_whitelisted_diff: bool,
    pub has_whitelisted_diff: bool,
}

/// The verdict once the paths agree: any plain difference makes it partial.
pub open spec fn classify(plain: bool, exempt: bool) -> Verdict {
    if plain {
        Verdict::Partial
    } else if exempt {
        Verdict::Whitelisted
    } else {
        Verdict::Match
    }
}

/// The index of the first `c` at or after `from`, or -1.
pub open spec fn find_char_from(s: Seq<char>, c: char, from: int) -> int
    decreases s.len() - from,
{
    if from < 0 || from >= s.len() {
        -1
    } else if s[from] == c {
        from
    } else {
        find_char_from(s, c, from + 1)
    }
}

/// A path without its query: what precedes the first `?`.
pub open spec fn before_query(p: Seq<char>) -> Seq<char> {
    let q = find_char_from(p, '?', 0);
    if q >= 0 {
        p.take(q)
    } else {
        p
    }
}

/// The method is GET, in any case.
pub open spec fn is_get(method: Seq<char>) -> bool {
    upper_of(method) == "GET"@
}

/// The path that decides whether two records are the same call: for GET
/// without its query, otherwise whole.
pub open spec fn gate_path(r: HarRequest) -> Seq<char> {
    path_for(r, is_get(r.method@))
}

/// The deciding path of a record whose method is GET exactly when `get`.
pub open spec fn path_for(r: HarRequest, get: bool) -> Seq<char> {
    if get {
        before_query(r.path@)
    } else {
        r.path@
    }
}

/// Header `k` has different values (or is missing on one side).
pub open spec fn header_differs(h1: Seq<(String, String)>, h2: Seq<(String, String)>, k: Seq<char>) -> bool {
    text_lookup(h1, k) != text_lookup(h2, k)
}

/// Some header of either side differs and is exempt for `url`.
pub open spec fn headers_exempt_diff(
    h1: Seq<(String, String)>,
    h2: Seq<(String, String)>,
    url: Seq<char>,
    wl: WhitelistConfig,
) -> bool {
    ||| exists|i: int|
        0 <= i < h1.len() && header_differs(h1, h2, (#[trigger] h1[i]).0@) && wl.exempts_header(
            h1[i].0@,
            url,
        )
    ||| exists|i: int|
        0 <= i < h2.len() && header_differs(h1, h2, (#[trigger] h2[i]).0@) && wl.exempts_header(
            h2[i].0@,
            url,
        )
}

/// Some header of either side differs and is not exempt for `url`.
pub open spec fn headers_plain_diff(
    h1: Seq<(String, String)>,
    h2: Seq<(String, String)>,
    url: Seq<char>,
    wl: WhitelistConfig,
) -> bool {
    ||| exists|i: int|
        0 <= i < h1.len() && header_differs(h1, h2, (#[trigger] h1[i]).0@) && !wl.exempts_header(
            h1[i].0@,
            url,
        )
    ||| exists|i: int|
        0 <= i < h2.len() && header_differs(h1, h2, (#[trigger] h2[i]).0@) && !wl.exempts_header(
            h2[i].0@,
            url,
        )
}

/// The members of `x` at index `i`, where `i` is the first member with its key,
/// yields a difference in an exempt field: the key is missing from `y` and exempt,
/// or the values differ and the key is exempt or the values have such a difference.
pub open spec fn member_exempt_diff(
    a: JsonValue,
    b: JsonValue,
    i: int,
    url: Seq<char>,
    wl: WhitelistConfig,
) -> bool
    decreases a, 0int, 0int,
{
    match a {
        JsonValue::Object(x) => match b {
            JsonValue::Object(y) => 0 <= i < x.len() && name_index(x@, x@[i].0@) == i && {
                let k = x@[i].0@;
                let j = name_index(y@, k);
                if j < 0 || j >= y.len() {
                    wl.exempts_key(k, url)
                } else {
                    !json_eq(x@[i].1, y@[j].1) && (wl.exempts_key(k, url) || json_exempt_diff(
                        x@[i].1,
                        y@[j].1,
                        url,
                        wl,
                    ))
                }
            },
            _ => false,
        },
        _ => false,
    }
}

/// Like `member_exempt_diff`, for a difference in a field that is not exempt.
pub open spec fn member_plain_diff(
    a: JsonValue,
    b: JsonValue,
    i: int,
    url: Seq<char>,
    wl: WhitelistConfig,
) -> bool
    decreases a, 0int, 0int,
{
    match a {
        JsonValue::Object(x) => match b {
            JsonValue::Object(y) => 0 <= i < x.len() && name_index(x@, x@[i].0@) == i && {
                let k = x@[i].0@;
                let j = name_index(y@, k);
                if j < 0 || j >= y.len() {
                    !wl.exempts_key(k, url)
                } else {
                    !json_eq(x@[i].1, y@[j].1) && !wl.exempts_key(k, url) && json_plain_diff(
                        x@[i].1,
                        y@[j].1,
                        url,
                        wl,
                    )
                }
            },
            _ => false,
        },
        _ => false,
    }
}

/// The member of object `b` at index `j` is the first with its key, its key is
/// missing from object `a`, and its exemption is `exempt`.
pub open spec fn member_only_in_second(a: JsonValue, b: JsonValue, j: int, url: Seq<char>, wl: WhitelistConfig, exempt: bool) -> bool {
    match a {
        JsonValue::Object(x) => match b {
            JsonValue::Object(y) => 0 <= j < y.len() && name_index(y@, y@[j].0@) == j && name_index(
                x@,
                y@[j].0@,
            ) < 0 && wl.exempts_key(y@[j].0@, url) == exempt,
            _ => false,
        },
        _ => false,
    }
}

/// The number of members of an object (zero for other values).
pub open spec fn member_count(a: JsonValue) -> int {
    match a {
        JsonValue::Object(x) => x.len() as int,
        _ => 0,
    }
}

/// Some member of object `a` at index `i` or later yields an exempt difference.
pub open spec fn members_exempt_from(a: JsonValue, b: JsonValue, i: int, url: Seq<char>, wl: WhitelistConfig) -> bool
    decreases a, 1int, member_count(a) - i,
{
    if 0 <= i < member_count(a) {
        member_exempt_diff(a, b, i, url, wl) || members_exempt_from(a, b, i + 1, url, wl)
    } else {
        false
    }
}

/// Some member of object `a` at index `i` or later yields a plain difference.
pub open spec fn members_plain_from(a: JsonValue, b: JsonValue, i: int, url: Seq<char>, wl: WhitelistConfig) -> bool
    decreases a, 1int, member_count(a) - i,
{
    if 0 <= i < member_count(a) {
        member_plain_diff(a, b, i, url, wl) || members_plain_from(a, b, i + 1, url, wl)
    } else {
        false
    }
}

/// Some key of object `b` that object `a` lacks has exemption `exempt`.
pub open spec fn second_only_diff(a: JsonValue, b: JsonValue, url: Seq<char>, wl: WhitelistConfig, exempt: bool) -> bool {
    exists|j: int|
        0 <= j < member_count(b) && #[trigger] member_only_in_second(a, b, j, url, wl, exempt)
}

/// Two JSON values differ somewhere in an exempt field. Only objects are looked
/// into, key by key; an exempt key is not looked into further.
pub open spec fn json_exempt_diff(a: JsonValue, b: JsonValue, url: Seq<char>, wl: WhitelistConfig) -> bool
    decreases a, 2int, 0int,
{
    if a is Object && b is Object {
        members_exempt_from(a, b, 0, url, wl) || second_only_diff(a, b, url, wl, true)
    } else {
        false
    }
}

/// Two JSON values differ somewhere in a field that is not exempt. Arrays and
/// other values that are not both objects differ plainly when unequal.
pub open spec fn json_plain_diff(a: JsonValue, b: JsonValue, url: Seq<char>, wl: WhitelistConfig) -> bool
    decreases a, 2int, 0int,
{
    if a is Object && b is Object {
        members_plain_from(a, b, 0, url, wl) || second_only_diff(a, b, url, wl, false)
    } else {
        !json_eq(a, b)
    }
}

/// Some payload difference lies in an exempt key. Bodies that are not both
/// JSON have none.
pub open spec fn payload_exempt_diff(d1: Seq<char>, d2: Seq<char>, url: Seq<char>, wl: WhitelistConfig) -> bool {
    match (parsed_json(d1), parsed_json(d2)) {
        (Some(a), Some(b)) => json_exempt_diff(a, b, url, wl),
        _ => false,
    }
}

/// Some payload difference lies in a key that is not exempt; bodies that are
/// not both JSON differ plainly when their texts differ.
pub open spec fn payload_plain_diff(d1: Seq<char>, d2: Seq<char>, url: Seq<char>, wl: WhitelistConfig) -> bool {
    match (parsed_json(d1), parsed_json(d2)) {
        (Some(a), Some(b)) => json_plain_diff(a, b, url, wl),
        _ => d1 != d2,
    }
}

/// The bodies differ in an exempt field.
pub open spec fn body_exempt_diff(a: HarRequest, b: HarRequest, wl: WhitelistConfig) -> bool {
    match (a.post_data, b.post_data) {
        (Some(d1), Some(d2)) => payload_exempt_diff(d1@, d2@, a.url@, wl),
        _ => false,
    }
}

/// The bodies differ in a field that is not exempt, or only one side has a body.
pub open spec fn body_plain_diff(a: HarRequest, b: HarRequest, wl: WhitelistConfig) -> bool {
    match (a.post_data, b.post_data) {
        (Some(d1), Some(d2)) => payload_plain_diff(d1@, d2@, a.url@, wl),
        _ => opt_text(a.post_data) != opt_text(b.post_data),
    }
}

/// Some difference of two records lies outside the exempt fields: in headers,
/// in query parameters (not compared for GET), in the body or in the method.
pub open spec fn has_plain_diff(a: HarRequest, b: HarRequest, wl: WhitelistConfig) -> bool {
    plain_diff_for(a, b, is_get(a.method@), wl)
}

/// Like `has_plain_diff`, where the first record's method is GET exactly when `get`.
pub open spec fn plain_diff_for(a: HarRequest, b: HarRequest, get: bool, wl: WhitelistConfig) -> bool {
    ||| headers_plain_diff(a.headers@, b.headers@, a.url@, wl)
    ||| !get && !params_equal(a.query_params@, b.query_params@)
    ||| body_plain_diff(a, b, wl)
    ||| a.method@ != b.method@
}

/// Some difference of two records lies in an exempt header or payload key.
pub open spec fn has_exempt_diff(a: HarRequest, b: HarRequest, wl: WhitelistConfig) -> bool {
    headers_exempt_diff(a.headers@, b.headers@, a.url@, wl) || body_exempt_diff(a, b, wl)
}

/// The verdict on two records; exemptions are resolved for the first record's URL.
pub open spec fn compare_verdict(a: HarRequest, b: HarRequest, wl: WhitelistConfig) -> Verdict {
    verdict_for(a, b, is_get(a.method@), is_get(b.method@), wl)
}

/// The verdict on two records whose methods are GET exactly when `get1` and `get2`.
pub open spec fn verdict_for(a: HarRequest, b: HarRequest, get1: bool, get2: bool, wl: WhitelistConfig) -> Verdict {
    if path_for(a, get1) != path_for(b, get2) {
        Verdict::Different
    } else {
        classify(plain_diff_for(a, b, get1, wl), has_exempt_diff(a, b, wl))
    }
}

/// The configuration that exempts nothing.
pub open spec fn no_exemptions() -> WhitelistConfig {
    WhitelistConfig { global: None, local: None }
}

/// The result that reports `v`.
pub fn comparison_result(v: Verdict) -> (r: ComparisonResult)
    ensures
        r.status@ == verdict_word(v),
        r.details@ == verdict_detail(v),
{
    match v {
        Verdict::Match => ComparisonResult {
            status: String::from_str("match"),
            details: String::from_str("Full match"),
        },
        Verdict::Whitelisted => ComparisonResult {
            status: String::from_str("whitelisted"),
            details: String::from_str("Differences only in whitelisted fields"),
        },
        Verdict::Partial => ComparisonResult {
            status: String::from_str("partial"),
            details: String::from_str("Has differences"),
        },
        Verdict::Different => ComparisonResult {
            status: String::from_str("different"),
            details: String::from_str("Different paths"),
        },
    }
}

/// Whether an upper-cased method is GET.
fn is_get_upper(upper: &str) -> (r: bool)
    ensures
        r == (upper@ == "GET"@),
{
    let get = String::from_str("GET");
    upper.to_owned() == get
}

/// A path without its query.
pub fn strip_query(path: &str) -> (r: String)
    ensures
        r@ == before_query(path@),
{
    let cs = chars_of(path);
    let mut i: usize = 0;
    while i < cs.len()
        invariant
            cs@ == path@,
            i <= cs@.len(),
            find_char_from(path@, '?', 0) == find_char_from(path@, '?', i as int),
        decreases cs@.len() - i,
    {
        if cs[i] == '?' {
            let head = path.substring_char(0, i);
            return head.to_owned();
        }
        i = i + 1;
    }
    path.to_owned()
}

/// The value of the first header named `k`.
fn header_value<'a>(h: &'a Vec<(String, String)>, k: &String) -> (r: Option<&'a String>)
    ensures
        r matches Some(v) ==> text_lookup(h@, k@) == Some(v@),
        r is None ==> text_lookup(h@, k@) is None,
{
    match index_of_name(h, k) {
        Some(i) => Some(&h[i].1),
        None => None,
    }
}

/// Whether header `k` has different values in `h1` and `h2`.
fn header_changed(h1: &Vec<(String, String)>, h2: &Vec<(String, String)>, k: &String) -> (r: bool)
    ensures
        r == header_differs(h1@, h2@, k@),
{
    match (header_value(h1, k), header_value(h2, k)) {
        (Some(a), Some(b)) => *a != *b,
        (None, None) => false,
        _ => true,
    }
}

/// The differences between two header lists, exempt ones resolved for `url`.
fn compare_headers_with_whitelist(
    headers1: &Vec<(String, String)>,
    headers2: &Vec<(String, String)>,
    url: &str,
    whitelist: &WhitelistConfig,
) -> (r: DiffResult)
    ensures
        r.has_whitelisted_diff == headers_exempt_diff(headers1@, headers2@, url@, *whitelist),
        r.has_non_whitelisted_diff == headers_plain_diff(headers1@, headers2@, url@, *whitelist),
{
    let mut result = DiffResult { has_non_whitelisted_diff: false, has_whitelisted_diff: false };
    let mut i: usize = 0;
    while i < headers1.len()
        invariant
            i <= headers1@.len(),
            result.has_whitelisted_diff == exists|k: int|
                0 <= k < i && header_differs(headers1@, headers2@, (#[trigger] headers1@[k]).0@)
                    && whitelist.exempts_header(headers1@[k].0@, url@),
            result.has_non_whitelisted_diff == exists|k: int|
                0 <= k < i && header_differs(headers1@, headers2@, (#[trigger] headers1@[k]).0@)
                    && !whitelist.exempts_header(headers1@[k].0@, url@),
        decreases headers1@.len() - i,
    {
        let key = &headers1[i].0;
        if header_changed(headers1, headers2, key) {
            if whitelist.is_header_whitelisted(key.as_str(), url) {
                result.has_whitelisted_diff = true;
            } else {
                result.has_non_whitelisted_diff = true;
            }
        }
        i = i + 1;
    }
    let mut j: usize = 0;
    while j < headers2.len()
        invariant
            j <= headers2@.len(),
            result.has_whitelisted_diff == ((exists|k: int|
                0 <= k < headers1@.len() && header_differs(
                    headers1@,
                    headers2@,
                    (#[trigger] headers1@[k]).0@,
                ) && whitelist.exempts_header(headers1@[k].0@, url@)) || (exists|k: int|
                0 <= k < j && header_differs(headers1@, headers2@, (#[trigger] headers2@[k]).0@)
                    && whitelist.exempts_header(headers2@[k].0@, url@))),
            result.has_non_whitelisted_diff == ((exists|k: int|
                0 <= k < headers1@.len() && header_differs(
                    headers1@,
                    headers2@,
                    (#[trigger] headers1@[k]).0@,
                ) && !whitelist.exempts_header(headers1@[k].0@, url@)) || (exists|k: int|
                0 <= k < j && header_differs(headers1@, headers2@, (#[trigger] headers2@[k]).0@)
                    && !whitelist.exempts_header(headers2@[k].0@, url@))),
        decreases headers2@.len() - j,
    {
        let key = &headers2[j].0;
        if header_changed(headers1, headers2, key) {
            if whitelist.is_header_whitelisted(key.as_str(), url) {
                result.has_whitelisted_diff = true;
            } else {
                result.has_non_whitelisted_diff = true;
            }
        }
        j = j + 1;
    }
    result
}

/// Adds to `result` the differences between two JSON values: exempt where the
/// key whose values differ is exempt for `url`, plain otherwise.
pub fn compare_json_values(
    val1: &JsonValue,
    val2: &JsonValue,
    url: &str,
    whitelist: &WhitelistConfig,
    result: &mut DiffResult,
)
    ensures
        final(result).has_whitelisted_diff == (old(result).has_whitelisted_diff
            || json_exempt_diff(*val1, *val2, url@, *whitelist)),
        final(result).has_non_whitelisted_diff == (old(result).has_non_whitelisted_diff
            || json_plain_diff(*val1, *val2, url@, *whitelist)),
    decreases val1,
{
    match (val1, val2) {
        (JsonValue::Object(x), JsonValue::Object(y)) => {
            let ghost start = *result;
            let mut i: usize = 0;
            while i < x.len()
                invariant
                    *val1 == JsonValue::Object(*x),
                    *val2 == JsonValue::Object(*y),
                    i <= x@.len(),
                    (result.has_whitelisted_diff || members_exempt_from(
                        *val1,
                        *val2,
                        i as int,
                        url@,
                        *whitelist,
                    )) == (start.has_whitelisted_diff || members_exempt_from(
                        *val1,
                        *val2,
                        0,
                        url@,
                        *whitelist,
                    )),
                    (result.has_non_whitelisted_diff || members_plain_from(
                        *val1,
                        *val2,
                        i as int,
                        url@,
                        *whitelist,
                    )) == (start.has_non_whitelisted_diff || members_plain_from(
                        *val1,
                        *val2,
                        0,
                        url@,
                        *whitelist,
                    )),
                decreases x@.len() - i,
            {
                let key = &x[i].0;
                let first = index_of_name(x, key);
                let is_first = match first {
                    Some(f) => f == i,
                    None => false,
                };
                proof {
                    lemma_member_diff(*val1, *val2, i as int, url@, *whitelist);
                    assert(member_count(*val1) == x@.len());
                }
                let mut exempt = false;
                let mut plain = false;
                if is_first {
                    match index_of_name(y, key) {
                        None => {
                            if whitelist.is_payload_key_whitelisted(key.as_str(), url) {
                                exempt = true;
                            } else {
                                plain = true;
                            }
                        },
                        Some(j) => {
                            if !json_equal(&x[i].1, &y[j].1) {
                                if whitelist.is_payload_key_whitelisted(key.as_str(), url) {
                                    exempt = true;
                                } else {
                                    proof {
                                        let ghost whole = *val1;
                                        assert(decreases_to!(whole => whole->Object_0));
                                        assert(decreases_to!(*x => x[i as int]));
                                        assert(decreases_to!(x[i as int] => x[i as int].1));
                                    }
                                    let mut sub = DiffResult {
                                        has_non_whitelisted_diff: false,
                                        has_whitelisted_diff: false,
                                    };
                                    compare_json_values(&x[i].1, &y[j].1, url, whitelist, &mut sub);
                                    exempt = sub.has_whitelisted_diff;
                                    plain = sub.has_non_whitelisted_diff;
                                }
                            }
                        },
                    }
                }
                assert(exempt == member_exempt_diff(*val1, *val2, i as int, url@, *whitelist));
                assert(plain == member_plain_diff(*val1, *val2, i as int, url@, *whitelist));
                if exempt {
                    result.has_whitelisted_diff = true;
                }
                if plain {
                    result.has_non_whitelisted_diff = true;
                }
                i = i + 1;
            }
            let mut j: usize = 0;
            while j < y.len()
                invariant
                    *val1 == JsonValue::Object(*x),
                    *val2 == JsonValue::Object(*y),
                    j <= y@.len(),
                    result.has_whitelisted_diff == (start.has_whitelisted_diff || members_exempt_from(
                        *val1,
                        *val2,
                        0,
                        url@,
                        *whitelist,
                    ) || (exists|k: int|
                        0 <= k < j && #[trigger] member_only_in_second(
                            *val1,
                            *val2,
                            k,
                            url@,
                            *whitelist,
                            true,
                        ))),
                    result.has_non_whitelisted_diff == (start.has_non_whitelisted_diff
                        || members_plain_from(*val1, *val2, 0, url@, *whitelist) || (exists|k: int|
                        0 <= k < j && #[trigger] member_only_in_second(
                            *val1,
                            *val2,
                            k,
                            url@,
                            *whitelist,
                            false,
                        ))),
                decreases y@.len() - j,
            {
                let key = &y[j].0;
                let first = index_of_name(y, key);
                let is_first = match first {
                    Some(f) => f == j,
                    None => false,
                };
                let missing = index_of_name(x, key).is_none();
                let exempt = whitelist.is_payload_key_whitelisted(key.as_str(), url);
                if is_first && missing {
                    if exempt {
                        result.has_whitelisted_diff = true;
                    } else {
                        result.has_non_whitelisted_diff = true;
                    }
                }
                assert(member_only_in_second(*val1, *val2, j as int, url@, *whitelist, true)
                    == (is_first && missing && exempt));
                assert(member_only_in_second(*val1, *val2, j as int, url@, *whitelist, false)
                    == (is_first && missing && !exempt));
                j = j + 1;
            }
            proof {
                assert(member_count(*val2) == y@.len());
            }
        },
        _ => {
            if !json_equal(val1, val2) {
                result.has_non_whitelisted_diff = true;
            }
        },
    }
}

/// What one member of an object contributes, unfolded.
proof fn lemma_member_diff(a: JsonValue, b: JsonValue, i: int, url: Seq<char>, wl: WhitelistConfig)
    requires
        a is Object,
        b is Object,
        0 <= i < a->Object_0.len(),
    ensures
        ({
            let x = a->Object_0@;
            let y = b->Object_0@;
            let k = x[i].0@;
            let j = name_index(y, k);
            &&& j == -1 || 0 <= j < y.len()
            &&& member_exempt_diff(a, b, i, url, wl) == (name_index(x, k) == i && if j < 0 {
                wl.exempts_key(k, url)
            } else {
                !json_eq(x[i].1, y[j].1) && (wl.exempts_key(k, url) || json_exempt_diff(
                    x[i].1,
                    y[j].1,
                    url,
                    wl,
                ))
            })
            &&& member_plain_diff(a, b, i, url, wl) == (name_index(x, k) == i && if j < 0 {
                !wl.exempts_key(k, url)
            } else {
                !json_eq(x[i].1, y[j].1) && !wl.exempts_key(k, url) && json_plain_diff(
                    x[i].1,
                    y[j].1,
                    url,
                    wl,
                )
            })
        }),
{
    lemma_find_name_bounds(b->Object_0@, a->Object_0@[i].0@, 0);
}

/// The differences between two bodies: through JSON where both parse, else by text.
fn compare_payload_with_whitelist(
    payload1: &str,
    payload2: &str,
    url: &str,
    whitelist: &WhitelistConfig,
) -> (r: DiffResult)
    ensures
        r.has_whitelisted_diff == payload_exempt_diff(payload1@, payload2@, url@, *whitelist),
        r.has_non_whitelisted_diff == payload_plain_diff(payload1@, payload2@, url@, *whitelist),
{
    let mut result = DiffResult { has_non_whitelisted_diff: false, has_whitelisted_diff: false };
    match (parse_json(payload1), parse_json(payload2)) {
        (Some(json1), Some(json2)) => {
            compare_json_values(&json1, &json2, url, whitelist, &mut result);
        },
        _ => {
            if payload1.to_owned() != payload2.to_owned() {
                result.has_non_whitelisted_diff = true;
            }
        },
    }
    result
}

/// Compares two records with no exemptions. `keys_only` is accepted and has no effect.
pub fn compare_requests(req1: &HarRequest, req2: &HarRequest, keys_only: bool) -> (r: ComparisonResult)
    ensures
        r.status@ == verdict_word(compare_verdict(*req1, *req2, no_exemptions())),
        r.details@ == verdict_detail(compare_verdict(*req1, *req2, no_exemptions())),
{
    compare_requests_with_whitelist(req1, req2, keys_only, &WhitelistConfig::new())
}

/// Compares two records, exemptions resolved for the first record's URL.
/// `_keys_only` is accepted and has no effect.
pub fn compare_requests_with_whitelist(
    req1: &HarRequest,
    req2: &HarRequest,
    _keys_only: bool,
    whitelist: &WhitelistConfig,
) -> (r: ComparisonResult)
    ensures
        r.status@ == verdict_word(compare_verdict(*req1, *req2, *whitelist)),
        r.details@ == verdict_detail(compare_verdict(*req1, *req2, *whitelist)),
{
    let upper1 = upper_case(req1.method.as_str());
    let upper2 = upper_case(req2.method.as_str());
    compare_with_upper_methods(req1, req2, upper1.as_str(), upper2.as_str(), whitelist)
}

/// Compares two records given their methods in upper case (`method1_upper`,
/// `method2_upper`): a method is GET where its upper-case form is `GET`.
pub fn compare_with_upper_methods(
    req1: &HarRequest,
    req2: &HarRequest,
    method1_upper: &str,
    method2_upper: &str,
    whitelist: &WhitelistConfig,
) -> (r: ComparisonResult)
    ensures
        r.status@ == verdict_word(
            verdict_for(*req1, *req2, method1_upper@ == "GET"@, method2_upper@ == "GET"@, *whitelist),
        ),
        r.details@ == verdict_detail(
            verdict_for(*req1, *req2, method1_upper@ == "GET"@, method2_upper@ == "GET"@, *whitelist),
        ),
{
    let get1 = is_get_upper(method1_upper);
    let get2 = is_get_upper(method2_upper);
    let path1 = if get1 {
        strip_query(req1.path.as_str())
    } else {
        req1.path.clone()
    };
    let path2 = if get2 {
        strip_query(req2.path.as_str())
    } else {
        req2.path.clone()
    };
    if path1 != path2 {
        return comparison_result(Verdict::Different);
    }
    let url = req1.url.as_str();
    let headers_diff = compare_headers_with_whitelist(&req1.headers, &req2.headers, url, whitelist);
    let mut has_non_whitelisted_diff = headers_diff.has_non_whitelisted_diff;
    let mut has_whitelisted_diff = headers_diff.has_whitelisted_diff;
    if !get1 {
        if !params_match(&req1.query_params, &req2.query_params) {
            has_non_whitelisted_diff = true;
        }
    }
    match (&req1.post_data, &req2.post_data) {
        (Some(data1), Some(data2)) => {
            let payload_diff = compare_payload_with_whitelist(
                data1.as_str(),
                data2.as_str(),
                url,
                whitelist,
            );
            if payload_diff.has_non_whitelisted_diff {
                has_non_whitelisted_diff = true;
            }
            if payload_diff.has_whitelisted_diff {
                has_whitelisted_diff = true;
            }
        },
        _ => {
            if !opt_text_equal(&req1.post_data, &req2.post_data) {
                has_non_whitelisted_diff = true;
            }
        },
    }
    if req1.method != req2.method {
        has_non_whitelisted_diff = true;
    }
    if has_non_whitelisted_diff {
        comparison_result(Verdict::Partial)
    } else if has_whitelisted_diff {
        comparison_result(Verdict::Whitelisted)
    } else {
        comparison_result(Verdict::Match)
    }
}

/// No member of an object differs from itself.
proof fn lemma_members_self(a: JsonValue, i: int, url: Seq<char>, wl: WhitelistConfig)
    requires
        a is Object,
        0 <= i,
    ensures
        !members_exempt_from(a, a, i, url, wl),
        !members_plain_from(a, a, i, url, wl),
    decreases member_count(a) - i,
{
    if i < member_count(a) {
        let x = a->Object_0@;
        lemma_member_diff(a, a, i, url, wl);
        lemma_json_eq_refl(x[i].1);
        lemma_members_self(a, i + 1, url, wl);
    }
}

/// A JSON value has no difference from itself.
pub proof fn lemma_json_diff_self(a: JsonValue, url: Seq<char>, wl: WhitelistConfig)
    ensures
        !json_exempt_diff(a, a, url, wl),
        !json_plain_diff(a, a, url, wl),
{
    lemma_json_eq_refl(a);
    if a is Object {
        lemma_members_self(a, 0, url, wl);
        let x = a->Object_0@;
        assert forall|j: int| 0 <= j < member_count(a) implies !(#[trigger] member_only_in_second(
            a,
            a,
            j,
            url,
            wl,
            true,
        )) && !member_only_in_second(a, a, j, url, wl, false) by {
            lemma_name_found(x, x[j].0@, j);
        }
    }
}

/// Bodies with the same text have no difference.
proof fn lemma_same_bodies(a: HarRequest, b: HarRequest, wl: WhitelistConfig)
    requires
        opt_text(a.post_data) == opt_text(b.post_data),
    ensures
        !body_exempt_diff(a, b, wl),
        !body_plain_diff(a, b, wl),
{
    if let (Some(d1), Some(d2)) = (a.post_data, b.post_data) {
        if let Some(j) = parsed_json(d1@) {
            lemma_json_diff_self(j, a.url@, wl);
        }
    }
}

/// Any record compared with itself is a match, whatever the exemptions.
pub proof fn lemma_compare_self(r: HarRequest, wl: WhitelistConfig)
    ensures
        compare_verdict(r, r, wl) == Verdict::Match,
{
    lemma_same_bodies(r, r, wl);
}

/// Two records that differ only in header `k`, exempt for their URL, differ only
/// in exempt fields.
pub proof fn lemma_exempt_header_only(a: HarRequest, b: HarRequest, k: Seq<char>, wl: WhitelistConfig)
    requires
        a.method@ == b.method@,
        a.url@ == b.url@,
        a.path@ == b.path@,
        params_equal(a.query_params@, b.query_params@),
        opt_text(a.post_data) == opt_text(b.post_data),
        text_lookup(a.headers@, k) != text_lookup(b.headers@, k),
        forall|n: Seq<char>| n != k ==> text_lookup(a.headers@, n) == text_lookup(b.headers@, n),
        wl.exempts_header(k, a.url@),
    ensures
        compare_verdict(a, b, wl) == Verdict::Whitelisted,
{
    lemma_same_bodies(a, b, wl);
    let h1 = a.headers@;
    let h2 = b.headers@;
    if text_lookup(h1, k) is Some {
        lemma_find_name_bounds(h1, k, 0);
        assert(header_differs(h1, h2, h1[name_index(h1, k)].0@));
    } else {
        lemma_find_name_bounds(h2, k, 0);
        assert(header_differs(h1, h2, h2[name_index(h2, k)].0@));
    }
}

/// Records whose deciding paths differ are different calls, whatever the exemptions.
pub proof fn lemma_different_paths(a: HarRequest, b: HarRequest, wl: WhitelistConfig)
    requires
        gate_path(a) != gate_path(b),
    ensures
        compare_verdict(a, b, wl) == Verdict::Different,
{
}

} // verus!
