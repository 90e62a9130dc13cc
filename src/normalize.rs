//! Normalization of capture entries into exchange records.
use vstd::prelude::*;
use vstd::string::*;
use crate::record::{find_name_from, index_of_name, name_index, HarRequest};
use crate::json::{parse_json, parsed_json, JsonValue};
use crate::schema::{
    absent, field, field_of, is_absent, is_text_field, opt_text_field_is, opt_text_field_ok,
    read_opt_text, read_text, text_field_is, ParseError,
};
use crate::text::chars_of;
use crate::url_parts::{opt_text, parse_url, parsed_url, UrlParts, UrlView};

verus! {

broadcast use vstd::std_specs::vec::group_vec_axioms;

/// A `name`/`value` pair of a capture entry.
#[derive(Debug, Clone)]
pub struct RawHeader {
    pub name: String,
    pub value: String,
}

/// One capture entry as read from the document: the request's method, URL,
/// headers, query pairs and body text, and the response's status, headers and
/// body text.
#[derive(Debug, Clone)]
pub struct RawEntry {
    pub method: String,
    pub url: String,
    pub headers: Vec<RawHeader>,
    pub query_string: Option<Vec<RawHeader>>,
    pub post_text: Option<String>,
    pub status: u16,
    pub response_headers: Vec<RawHeader>,
    pub content_text: Option<String>,
}

/// The header list of a list of pairs: one entry per name, at the place where
/// the name first occurs, holding the last value given for it.
pub open spec fn header_map(rs: Seq<RawHeader>) -> Seq<(String, String)>
    decreases rs.len(),
{
    if rs.len() == 0 {
        Seq::empty()
    } else {
        let m = header_map(rs.drop_last());
        let h = rs.last();
        let k = name_index(m, h.name@);
        if k >= 0 {
            m.update(k, (h.name, h.value))
        } else {
            m.push((h.name, h.value))
        }
    }
}

/// A parameter list as texts.
pub open spec fn param_views(p: Seq<(String, Vec<String>)>) -> Seq<(Seq<char>, Seq<Seq<char>>)> {
    p.map_values(|e: (String, Vec<String>)| (e.0@, e.1@.map_values(|v: String| v@)))
}

/// The index of the first pair at or after `from` named `k`, or -1.
pub open spec fn find_key_from(s: Seq<(Seq<char>, Seq<Seq<char>>)>, k: Seq<char>, from: int) -> int
    decreases s.len() - from,
{
    if from < 0 || from >= s.len() {
        -1
    } else if s[from].0 == k {
        from
    } else {
        find_key_from(s, k, from + 1)
    }
}

/// The parameter list of a list of query pairs: one entry per name, at the place
/// where the name first occurs, holding all its values in order.
pub open spec fn param_map(rs: Seq<RawHeader>) -> Seq<(Seq<char>, Seq<Seq<char>>)>
    decreases rs.len(),
{
    if rs.len() == 0 {
        Seq::empty()
    } else {
        let m = param_map(rs.drop_last());
        let q = rs.last();
        let k = find_key_from(m, q.name@, 0);
        if k >= 0 {
            m.update(k, (q.name@, m[k].1.push(q.value@)))
        } else {
            m.push((q.name@, seq![q.value@]))
        }
    }
}

/// The path of a parsed URL, with `?` and the query where there is one.
pub open spec fn path_of(p: UrlView) -> Seq<char> {
    match p.query {
        Some(q) => p.path + "?"@ + q,
        None => p.path,
    }
}

/// `r` is the record that entry `e` normalizes to at position `index`.
pub open spec fn normalized_is(e: RawEntry, index: int, r: HarRequest) -> bool {
    match parsed_url(e.url@) {
        Some(p) => record_is(e, p, index, r),
        None => false,
    }
}

/// `r` is the record of entry `e`, numbered `index`, whose URL parses into `p`.
pub open spec fn record_is(e: RawEntry, p: UrlView, index: int, r: HarRequest) -> bool {
    &&& r.method@ == e.method@
    &&& r.url@ == e.url@
    &&& r.path@ == path_of(p)
    &&& r.headers@ == header_map(e.headers@)
    &&& param_views(r.query_params@) == match e.query_string {
        Some(q) => param_map(q@),
        None => Seq::empty(),
    }
    &&& opt_text(r.post_data) == opt_text(e.post_text)
    &&& r.response_status == e.status
    &&& r.response_headers@ == header_map(e.response_headers@)
    &&& opt_text(r.response_body) == opt_text(e.content_text)
    &&& r.index == index
}

/// First-match lookups agree on a parameter list and on its texts.
proof fn lemma_find_key(p: Seq<(String, Vec<String>)>, k: Seq<char>, from: int)
    ensures
        find_name_from(p, k, from) == find_key_from(param_views(p), k, from),
    decreases p.len() - from,
{
    if 0 <= from < p.len() {
        lemma_find_key(p, k, from + 1);
    }
}

/// The header list of `rs`, last value winning.
fn build_header_map(rs: &Vec<RawHeader>) -> (m: Vec<(String, String)>)
    ensures
        m@ == header_map(rs@),
{
    let mut m: Vec<(String, String)> = Vec::new();
    let mut i: usize = 0;
    while i < rs.len()
        invariant
            i <= rs@.len(),
            m@ == header_map(rs@.take(i as int)),
        decreases rs@.len() - i,
    {
        proof {
            assert(rs@.take(i + 1).drop_last() =~= rs@.take(i as int));
            assert(rs@.take(i + 1).last() == rs@[i as int]);
        }
        let name = rs[i].name.clone();
        let value = rs[i].value.clone();
        match index_of_name(&m, &name) {
            Some(k) => {
                m.set(k, (name, value));
            },
            None => {
                m.push((name, value));
            },
        }
        i = i + 1;
    }
    proof {
        assert(rs@.take(rs@.len() as int) =~= rs@);
    }
    m
}

/// The parameter list of `rs`, values grouped by name.
fn build_param_map(rs: &Vec<RawHeader>) -> (m: Vec<(String, Vec<String>)>)
    ensures
        param_views(m@) == param_map(rs@),
{
    let mut m: Vec<(String, Vec<String>)> = Vec::new();
    let mut i: usize = 0;
    while i < rs.len()
        invariant
            i <= rs@.len(),
            param_views(m@) == param_map(rs@.take(i as int)),
        decreases rs@.len() - i,
    {
        proof {
            assert(rs@.take(i + 1).drop_last() =~= rs@.take(i as int));
            assert(rs@.take(i + 1).last() == rs@[i as int]);
            lemma_find_key(m@, rs@[i as int].name@, 0);
        }
        let name = rs[i].name.clone();
        let value = rs[i].value.clone();
        let ghost before = m@;
        match index_of_name(&m, &name) {
            Some(k) => {
                let mut values = m[k].1.clone();
                proof {
                    assert(values@.map_values(|v: String| v@) =~= before[k as int].1@.map_values(
                        |v: String| v@,
                    ));
                }
                let ghost old_values = values@;
                values.push(value);
                proof {
                    assert(values@.map_values(|v: String| v@) =~= old_values.map_values(
                        |v: String| v@,
                    ).push(rs@[i as int].value@));
                }
                m.set(k, (name, values));
                proof {
                    assert(param_views(m@) =~= param_views(before).update(
                        k as int,
                        (rs@[i as int].name@, param_views(before)[k as int].1.push(rs@[i as int].value@)),
                    ));
                }
            },
            None => {
                let mut values: Vec<String> = Vec::new();
                values.push(value);
                proof {
                    assert(values@.map_values(|v: String| v@) =~= seq![rs@[i as int].value@]);
                }
                m.push((name, values));
                proof {
                    assert(param_views(m@) =~= param_views(before).push(
                        (rs@[i as int].name@, seq![rs@[i as int].value@]),
                    ));
                }
            },
        }
        i = i + 1;
    }
    proof {
        assert(rs@.take(rs@.len() as int) =~= rs@);
    }
    m
}

/// The record that a capture entry normalizes to, numbered `index`; `None`
/// where its URL does not parse.
pub fn from_raw_entry(entry: &RawEntry, index: usize) -> (r: Option<HarRequest>)
    ensures
        r is Some <==> parsed_url(entry.url@) is Some,
        r matches Some(q) ==> normalized_is(*entry, index as int, q),
{
    match parse_url(entry.url.as_str()) {
        Some(parts) => Some(record_from_parts(entry, &parts, index)),
        None => None,
    }
}

/// The record of a capture entry numbered `index`, given the parts of its URL.
pub fn record_from_parts(entry: &RawEntry, parts: &UrlParts, index: usize) -> (r: HarRequest)
    ensures
        record_is(*entry, parts.view(), index as int, r),
{
    let mut path = parts.path.clone();
    if let Some(query) = &parts.query {
        path.append("?");
        path.append(query.as_str());
    }
    let query_params = match &entry.query_string {
        Some(q) => build_param_map(q),
        None => Vec::new(),
    };
    proof {
        if entry.query_string is None {
            assert(param_views(query_params@) =~= Seq::empty());
        }
    }
    HarRequest {
        method: entry.method.clone(),
        url: entry.url.clone(),
        path,
        headers: build_header_map(&entry.headers),
        query_params,
        post_data: entry.post_text.clone(),
        response_status: entry.status,
        response_headers: build_header_map(&entry.response_headers),
        response_body: entry.content_text.clone(),
        index,
    }
}

/// The positions of the entries whose URL parses, in order.
pub open spec fn kept_positions(es: Seq<RawEntry>) -> Seq<int>
    decreases es.len(),
{
    if es.len() == 0 {
        Seq::empty()
    } else {
        let p = kept_positions(es.drop_last());
        if parsed_url(es.last().url@) is Some {
            p.push(es.len() - 1)
        } else {
            p
        }
    }
}

/// The positions of the entries whose URL does not parse, in order.
pub open spec fn skipped_positions(es: Seq<RawEntry>) -> Seq<int>
    decreases es.len(),
{
    if es.len() == 0 {
        Seq::empty()
    } else {
        let p = skipped_positions(es.drop_last());
        if parsed_url(es.last().url@) is Some {
            p
        } else {
            p.push(es.len() - 1)
        }
    }
}

/// The records of a capture and the positions of the entries left out.
#[derive(Debug)]
pub struct HarDocument {
    pub requests: Vec<HarRequest>,
    pub skipped: Vec<usize>,
}

/// `d` holds the records of the entries whose URL parses, numbered from 1 in
/// order, and the positions of the other entries.
pub open spec fn document_is(es: Seq<RawEntry>, d: HarDocument) -> bool {
    &&& d.requests@.len() == kept_positions(es).len()
    &&& forall|t: int|
        0 <= t < d.requests@.len() ==> normalized_is(
            es[kept_positions(es)[t]],
            t + 1,
            #[trigger] d.requests@[t],
        )
    &&& d.skipped@.map_values(|k: usize| k as int) == skipped_positions(es)
}

/// A kept position lies before `n`.
proof fn lemma_kept_bounds(es: Seq<RawEntry>)
    ensures
        forall|t: int|
            0 <= t < kept_positions(es).len() ==> 0 <= #[trigger] kept_positions(es)[t] < es.len(),
        kept_positions(es).len() <= es.len(),
    decreases es.len(),
{
    if es.len() > 0 {
        lemma_kept_bounds(es.drop_last());
    }
}

/// Normalizes the entries in order: each entry whose URL parses becomes a record
/// numbered from 1 among those kept; the positions of the others are reported.
pub fn normalize_entries(entries: &Vec<RawEntry>) -> (d: HarDocument)
    ensures
        document_is(entries@, d),
{
    let mut requests: Vec<HarRequest> = Vec::new();
    let mut skipped: Vec<usize> = Vec::new();
    let mut i: usize = 0;
    while i < entries.len()
        invariant
            i <= entries@.len(),
            requests@.len() == kept_positions(entries@.take(i as int)).len(),
            requests@.len() <= i,
            forall|t: int|
                0 <= t < requests@.len() ==> normalized_is(
                    entries@[kept_positions(entries@.take(i as int))[t]],
                    t + 1,
                    #[trigger] requests@[t],
                ),
            skipped@.map_values(|k: usize| k as int) == skipped_positions(entries@.take(i as int)),
        decreases entries@.len() - i,
    {
        let ghost prev = entries@.take(i as int);
        let ghost next = entries@.take(i + 1);
        proof {
            assert(next.drop_last() =~= prev);
            assert(next.last() == entries@[i as int]);
            lemma_kept_bounds(prev);
        }
        let position = requests.len() + 1;
        match from_raw_entry(&entries[i], position) {
            Some(request) => {
                requests.push(request);
                proof {
                    assert(kept_positions(next) == kept_positions(prev).push(i as int));
                    assert forall|t: int| 0 <= t < requests@.len() implies normalized_is(
                        entries@[kept_positions(next)[t]],
                        t + 1,
                        #[trigger] requests@[t],
                    ) by {
                        if t < requests@.len() - 1 {
                            assert(kept_positions(next)[t] == kept_positions(prev)[t]);
                        }
                    }
                    assert(skipped_positions(next) == skipped_positions(prev));
                }
            },
            None => {
                skipped.push(i);
                proof {
                    assert(kept_positions(next) == kept_positions(prev));
                    assert(skipped@.map_values(|k: usize| k as int) =~= skipped_positions(next));
                }
            },
        }
        i = i + 1;
    }
    proof {
        assert(entries@.take(entries@.len() as int) =~= entries@);
    }
    HarDocument { requests, skipped }
}

/// The value of a decimal digit, or -1.
pub open spec fn digit_val(c: char) -> int {
    if c == '0' {
        0
    } else if c == '1' {
        1
    } else if c == '2' {
        2
    } else if c == '3' {
        3
    } else if c == '4' {
        4
    } else if c == '5' {
        5
    } else if c == '6' {
        6
    } else if c == '7' {
        7
    } else if c == '8' {
        8
    } else if c == '9' {
        9
    } else {
        -1
    }
}

/// The value of a run of decimal digits.
pub open spec fn numeral_value(s: Seq<char>) -> int
    decreases s.len(),
{
    if s.len() == 0 {
        0
    } else {
        numeral_value(s.drop_last()) * 10 + digit_val(s.last())
    }
}

/// A numeral of a status code: digits only, at most 65535.
pub open spec fn is_status_numeral(s: Seq<char>) -> bool {
    &&& s.len() > 0
    &&& forall|i: int| 0 <= i < s.len() ==> digit_val(#[trigger] s[i]) >= 0
    &&& numeral_value(s) <= 65535
}

/// A run of digits has a value of at least zero.
proof fn lemma_numeral_nonneg(s: Seq<char>, j: int)
    requires
        0 <= j <= s.len(),
        forall|k: int| 0 <= k < s.len() ==> digit_val(#[trigger] s[k]) >= 0,
    ensures
        numeral_value(s.take(j)) >= 0,
    decreases j,
{
    if j > 0 {
        lemma_numeral_nonneg(s, j - 1);
        assert(s.take(j).drop_last() =~= s.take(j - 1));
        assert(s.take(j).last() == s[j - 1]);
    }
}

/// A longer run of digits has a value at least as large.
proof fn lemma_numeral_grows(s: Seq<char>, i: int, j: int)
    requires
        0 <= i <= j <= s.len(),
        forall|k: int| 0 <= k < s.len() ==> digit_val(#[trigger] s[k]) >= 0,
    ensures
        numeral_value(s.take(i)) <= numeral_value(s.take(j)),
    decreases j - i,
{
    if i < j {
        lemma_numeral_grows(s, i, j - 1);
        lemma_numeral_nonneg(s, j - 1);
        assert(s.take(j).drop_last() =~= s.take(j - 1));
        assert(s.take(j).last() == s[j - 1]);
    }
}

/// The status field: a number whose text is a status numeral.
pub open spec fn status_ok(o: Option<JsonValue>) -> bool {
    match o {
        Some(JsonValue::Number(n)) => is_status_numeral(n@),
        _ => false,
    }
}

/// The value of the status field.
pub open spec fn status_value(o: Option<JsonValue>) -> int {
    match o {
        Some(JsonValue::Number(n)) => numeral_value(n@),
        _ => -1,
    }
}

/// A `name`/`value` object.
pub open spec fn pair_ok(v: JsonValue) -> bool {
    &&& v is Object
    &&& is_text_field(field(v, "name"@))
    &&& is_text_field(field(v, "value"@))
}

/// `h` is what the `name`/`value` object `v` reads as.
pub open spec fn pair_is(v: JsonValue, h: RawHeader) -> bool {
    &&& text_field_is(field(v, "name"@), h.name)
    &&& text_field_is(field(v, "value"@), h.value)
}

/// An array of `name`/`value` objects.
pub open spec fn pairs_ok(v: JsonValue) -> bool {
    v matches JsonValue::Array(a) && forall|i: int| 0 <= i < a.len() ==> pair_ok(#[trigger] a@[i])
}

/// `hs` is what the array of pairs `v` reads as.
pub open spec fn pairs_is(v: JsonValue, hs: Vec<RawHeader>) -> bool {
    v matches JsonValue::Array(a) && hs@.len() == a.len() && forall|i: int|
        0 <= i < a.len() ==> pair_is(#[trigger] a@[i], hs@[i])
}

/// A field that must hold an array of pairs.
pub open spec fn req_pairs_ok(o: Option<JsonValue>) -> bool {
    match o {
        Some(v) => pairs_ok(v),
        None => false,
    }
}

/// `hs` is what a required field of pairs reads as.
pub open spec fn req_pairs_is(o: Option<JsonValue>, hs: Vec<RawHeader>) -> bool {
    match o {
        Some(v) => pairs_is(v, hs),
        None => false,
    }
}

/// An optional field of pairs.
pub open spec fn opt_pairs_ok(o: Option<JsonValue>) -> bool {
    match o {
        Some(v) => v is Null || pairs_ok(v),
        None => true,
    }
}

/// `r` is what an optional field of pairs reads as.
pub open spec fn opt_pairs_is(o: Option<JsonValue>, r: Option<Vec<RawHeader>>) -> bool {
    if absent(o) {
        r is None
    } else {
        match (o, r) {
            (Some(v), Some(hs)) => pairs_is(v, hs),
            _ => false,
        }
    }
}

/// An optional body holder: absent, or an object with an optional `text`.
pub open spec fn holder_ok(o: Option<JsonValue>) -> bool {
    match o {
        Some(h) => h is Null || (h is Object && opt_text_field_ok(field(h, "text"@))),
        None => true,
    }
}

/// `t` is the text of an optional body holder.
pub open spec fn holder_is(o: Option<JsonValue>, t: Option<String>) -> bool {
    if absent(o) {
        t is None
    } else {
        match o {
            Some(h) => opt_text_field_is(field(h, "text"@), t),
            None => false,
        }
    }
}

/// The request object of an entry.
pub open spec fn request_ok(q: JsonValue) -> bool {
    &&& q is Object
    &&& is_text_field(field(q, "method"@))
    &&& is_text_field(field(q, "url"@))
    &&& req_pairs_ok(field(q, "headers"@))
    &&& opt_pairs_ok(field(q, "queryString"@))
    &&& holder_ok(field(q, "postData"@))
}

/// The response object of an entry.
pub open spec fn response_ok(p: JsonValue) -> bool {
    &&& p is Object
    &&& status_ok(field(p, "status"@))
    &&& req_pairs_ok(field(p, "headers"@))
    &&& holder_ok(field(p, "content"@))
}

/// A capture entry: an object with a well-formed `request` and `response`.
pub open spec fn entry_ok(v: JsonValue) -> bool {
    match (field(v, "request"@), field(v, "response"@)) {
        (Some(q), Some(p)) => request_ok(q) && response_ok(p),
        _ => false,
    }
}

/// `e` is what the capture entry `v` reads as.
pub open spec fn entry_is(v: JsonValue, e: RawEntry) -> bool {
    match (field(v, "request"@), field(v, "response"@)) {
        (Some(q), Some(p)) => {
            &&& text_field_is(field(q, "method"@), e.method)
            &&& text_field_is(field(q, "url"@), e.url)
            &&& req_pairs_is(field(q, "headers"@), e.headers)
            &&& opt_pairs_is(field(q, "queryString"@), e.query_string)
            &&& holder_is(field(q, "postData"@), e.post_text)
            &&& status_value(field(p, "status"@)) == e.status as int
            &&& req_pairs_is(field(p, "headers"@), e.response_headers)
            &&& holder_is(field(p, "content"@), e.content_text)
        },
        _ => false,
    }
}

/// A capture document: `log.entries` is an array of well-formed entries.
pub open spec fn doc_ok(v: JsonValue) -> bool {
    match field(v, "log"@) {
        Some(l) => match field(l, "entries"@) {
            Some(es) => entries_ok(es),
            None => false,
        },
        None => false,
    }
}

/// An array of well-formed entries.
pub open spec fn entries_ok(v: JsonValue) -> bool {
    v matches JsonValue::Array(a) && forall|i: int| 0 <= i < a.len() ==> entry_ok(#[trigger] a@[i])
}

/// `es` are what the entries of the capture document `v` read as.
pub open spec fn doc_entries_is(v: JsonValue, es: Seq<RawEntry>) -> bool {
    match field(v, "log"@) {
        Some(l) => match field(l, "entries"@) {
            Some(JsonValue::Array(a)) => es.len() == a.len() && forall|i: int|
                0 <= i < a.len() ==> entry_is(#[trigger] a@[i], es[i]),
            _ => false,
        },
        None => false,
    }
}

/// The value of a decimal digit.
fn digit_of(c: char) -> (r: Option<u32>)
    ensures
        r matches Some(d) ==> d as int == digit_val(c),
        r is None <==> digit_val(c) < 0,
{
    if c == '0' {
        Some(0)
    } else if c == '1' {
        Some(1)
    } else if c == '2' {
        Some(2)
    } else if c == '3' {
        Some(3)
    } else if c == '4' {
        Some(4)
    } else if c == '5' {
        Some(5)
    } else if c == '6' {
        Some(6)
    } else if c == '7' {
        Some(7)
    } else if c == '8' {
        Some(8)
    } else if c == '9' {
        Some(9)
    } else {
        None
    }
}

/// Reads a status numeral.
fn read_numeral(n: &String) -> (r: Option<u16>)
    ensures
        r is Some <==> is_status_numeral(n@),
        r matches Some(s) ==> s as int == numeral_value(n@),
{
    let cs = chars_of(n.as_str());
    if cs.len() == 0 {
        return None;
    }
    let mut value: u32 = 0;
    let mut i: usize = 0;
    while i < cs.len()
        invariant
            cs@ == n@,
            i <= cs@.len(),
            value as int == numeral_value(cs@.take(i as int)),
            value <= 65535,
            forall|k: int| 0 <= k < i ==> digit_val(#[trigger] cs@[k]) >= 0,
        decreases cs@.len() - i,
    {
        proof {
            assert(cs@.take(i + 1).drop_last() =~= cs@.take(i as int));
            assert(cs@.take(i + 1).last() == cs@[i as int]);
        }
        let d = match digit_of(cs[i]) {
            Some(d) => d,
            None => {
                proof {
                    assert(digit_val(n@[i as int]) < 0);
                    assert(!is_status_numeral(n@));
                }
                return None;
            },
        };
        let next = value * 10 + d;
        proof {
            assert(next as int == numeral_value(cs@.take(i + 1)));
        }
        if next > 65535 {
            proof {
                if forall|k: int| 0 <= k < cs@.len() ==> digit_val(#[trigger] cs@[k]) >= 0 {
                    lemma_numeral_grows(cs@, i + 1, cs@.len() as int);
                    assert(cs@.take(cs@.len() as int) =~= cs@);
                }
                assert(!is_status_numeral(n@));
            }
            return None;
        }
        value = next;
        i = i + 1;
    }
    proof {
        assert(cs@.take(cs@.len() as int) =~= cs@);
    }
    Some(value as u16)
}

/// Reads the status field.
fn read_status(o: Option<&JsonValue>) -> (r: Option<u16>)
    ensures
        ({
            let f = match o {
                Some(v) => Some(*v),
                None => None,
            };
            &&& r is Some <==> status_ok(f)
            &&& match r {
                Some(s) => s as int == status_value(f),
                None => true,
            }
        }),
{
    match o {
        Some(JsonValue::Number(n)) => read_numeral(n),
        _ => None,
    }
}

/// Reads a `name`/`value` object.
fn read_pair(v: &JsonValue) -> (r: Option<RawHeader>)
    ensures
        r is Some <==> pair_ok(*v),
        r matches Some(h) ==> pair_is(*v, h),
{
    if !matches!(v, JsonValue::Object(_)) {
        return None;
    }
    match (read_text(field_of(v, "name")), read_text(field_of(v, "value"))) {
        (Some(name), Some(value)) => Some(RawHeader { name, value }),
        _ => None,
    }
}

/// A list with a malformed pair is malformed.
proof fn lemma_bad_pair(a: Vec<JsonValue>, i: int)
    requires
        0 <= i < a@.len(),
        !pair_ok(a@[i]),
    ensures
        !pairs_ok(JsonValue::Array(a)),
{
    let v = JsonValue::Array(a);
    assert(v->Array_0 == a);
    assert(pairs_ok(v) ==> pair_ok(a@[i]));
}

/// Reads an array of pairs.
fn read_pairs(v: &JsonValue) -> (r: Option<Vec<RawHeader>>)
    ensures
        r is Some <==> pairs_ok(*v),
        r matches Some(hs) ==> pairs_is(*v, hs),
{
    match v {
        JsonValue::Array(a) => {
            let mut out: Vec<RawHeader> = Vec::new();
            let mut i: usize = 0;
            while i < a.len()
                invariant
                    *v == JsonValue::Array(*a),
                    i <= a@.len(),
                    out@.len() == i,
                    forall|k: int| 0 <= k < i ==> pair_ok(#[trigger] a@[k]),
                    forall|k: int| 0 <= k < i ==> pair_is(#[trigger] a@[k], out@[k]),
                decreases a@.len() - i,
            {
                match read_pair(&a[i]) {
                    Some(h) => {
                        out.push(h);
                    },
                    None => {
                        proof {
                            lemma_bad_pair(*a, i as int);
                        }
                        return None;
                    },
                }
                i = i + 1;
            }
            Some(out)
        },
        _ => None,
    }
}

/// Reads an optional field of pairs; `Err` where it is malformed.
fn read_opt_pairs(o: Option<&JsonValue>) -> (r: Result<Option<Vec<RawHeader>>, ()>)
    ensures
        ({
            let f = match o {
                Some(v) => Some(*v),
                None => None,
            };
            &&& r is Ok <==> opt_pairs_ok(f)
            &&& match r {
                Ok(t) => opt_pairs_is(f, t),
                Err(_) => true,
            }
        }),
{
    if is_absent(o) {
        return Ok(None);
    }
    match o {
        Some(v) => match read_pairs(v) {
            Some(hs) => Ok(Some(hs)),
            None => Err(()),
        },
        None => Err(()),
    }
}

/// Reads an optional body holder's text; `Err` where it is malformed.
fn read_holder(o: Option<&JsonValue>) -> (r: Result<Option<String>, ()>)
    ensures
        ({
            let f = match o {
                Some(v) => Some(*v),
                None => None,
            };
            &&& r is Ok <==> holder_ok(f)
            &&& match r {
                Ok(t) => holder_is(f, t),
                Err(_) => true,
            }
        }),
{
    if is_absent(o) {
        return Ok(None);
    }
    match o {
        Some(h) => {
            if !matches!(h, JsonValue::Object(_)) {
                return Err(());
            }
            read_opt_text(field_of(h, "text"))
        },
        None => Err(()),
    }
}

/// Reads one capture entry.
fn read_entry(v: &JsonValue) -> (r: Option<RawEntry>)
    ensures
        r is Some <==> entry_ok(*v),
        r matches Some(e) ==> entry_is(*v, e),
{
    let (q, p) = match (field_of(v, "request"), field_of(v, "response")) {
        (Some(q), Some(p)) => (q, p),
        _ => {
            return None;
        },
    };
    if !matches!(q, JsonValue::Object(_)) || !matches!(p, JsonValue::Object(_)) {
        return None;
    }
    let method = read_text(field_of(q, "method"));
    let url = read_text(field_of(q, "url"));
    let headers = match field_of(q, "headers") {
        Some(h) => read_pairs(h),
        None => None,
    };
    let query_string = read_opt_pairs(field_of(q, "queryString"));
    let post_text = read_holder(field_of(q, "postData"));
    let status = read_status(field_of(p, "status"));
    let response_headers = match field_of(p, "headers") {
        Some(h) => read_pairs(h),
        None => None,
    };
    let content_text = read_holder(field_of(p, "content"));
    match (method, url, headers, query_string, post_text, status, response_headers, content_text) {
        (Some(m), Some(u), Some(h), Ok(qs), Ok(pt), Some(st), Some(rh), Ok(ct)) => Some(
            RawEntry {
                method: m,
                url: u,
                headers: h,
                query_string: qs,
                post_text: pt,
                status: st,
                response_headers: rh,
                content_text: ct,
            },
        ),
        _ => None,
    }
}

/// A list with a malformed entry is malformed.
proof fn lemma_bad_entry(a: Vec<JsonValue>, i: int)
    requires
        0 <= i < a@.len(),
        !entry_ok(a@[i]),
    ensures
        !entries_ok(JsonValue::Array(a)),
{
    let v = JsonValue::Array(a);
    assert(v->Array_0 == a);
    assert(entries_ok(v) ==> entry_ok(a@[i]));
}

/// Reads the entries of a capture document.
fn read_document(v: &JsonValue) -> (r: Option<Vec<RawEntry>>)
    ensures
        r is Some <==> doc_ok(*v),
        r matches Some(es) ==> doc_entries_is(*v, es@),
{
    let log = match field_of(v, "log") {
        Some(l) => l,
        None => {
            return None;
        },
    };
    let a = match field_of(log, "entries") {
        Some(JsonValue::Array(a)) => a,
        _ => {
            return None;
        },
    };
    let mut out: Vec<RawEntry> = Vec::new();
    let mut i: usize = 0;
    while i < a.len()
        invariant
            field(*v, "log"@) == Some(*log),
            field(*log, "entries"@) == Some(JsonValue::Array(*a)),
            i <= a@.len(),
            out@.len() == i,
            forall|k: int| 0 <= k < i ==> entry_ok(#[trigger] a@[k]),
            forall|k: int| 0 <= k < i ==> entry_is(#[trigger] a@[k], out@[k]),
        decreases a@.len() - i,
    {
        match read_entry(&a[i]) {
            Some(e) => {
                out.push(e);
            },
            None => {
                proof {
                    lemma_bad_entry(*a, i as int);
                }
                return None;
            },
        }
        i = i + 1;
    }
    Some(out)
}

/// Reads a capture document and normalizes its entries; entries whose URL does
/// not parse are left out and their positions reported. Text that is not JSON,
/// or JSON of another shape, is an error: nothing is read in part.
pub fn parse_har_document(content: &str) -> (r: Result<HarDocument, ParseError>)
    ensures
        match parsed_json(content@) {
            None => r == Err::<HarDocument, ParseError>(ParseError::NotJson),
            Some(v) => {
                &&& r is Ok <==> doc_ok(v)
                &&& !doc_ok(v) ==> r == Err::<HarDocument, ParseError>(ParseError::BadStructure)
                &&& match r {
                    Ok(d) => exists|es: Seq<RawEntry>| doc_entries_is(v, es) && document_is(es, d),
                    Err(_) => true,
                }
            },
        },
{
    let v = match parse_json(content) {
        Some(v) => v,
        None => {
            return Err(ParseError::NotJson);
        },
    };
    match read_document(&v) {
        Some(entries) => {
            let d = normalize_entries(&entries);
            proof {
                assert(doc_entries_is(v, entries@) && document_is(entries@, d));
            }
            Ok(d)
        },
        None => Err(ParseError::BadStructure),
    }
}

/// The records of a capture document: see `parse_har_document`.
pub fn parse_har_file(content: &str) -> (r: Result<Vec<HarRequest>, ParseError>)
    ensures
        match parsed_json(content@) {
            None => r == Err::<Vec<HarRequest>, ParseError>(ParseError::NotJson),
            Some(v) => {
                &&& r is Ok <==> doc_ok(v)
                &&& !doc_ok(v) ==> r == Err::<Vec<HarRequest>, ParseError>(ParseError::BadStructure)
                &&& match r {
                    Ok(rs) => exists|es: Seq<RawEntry>, d: HarDocument|
                        doc_entries_is(v, es) && document_is(es, d) && rs == d.requests,
                    Err(_) => true,
                }
            },
        },
{
    match parse_har_document(content) {
        Ok(d) => {
            let ghost dd = d;
            let requests = d.requests;
            proof {
                let es = choose|es: Seq<RawEntry>| doc_entries_is(parsed_json(content@).unwrap(), es) && document_is(es, dd);
                assert(doc_entries_is(parsed_json(content@).unwrap(), es) && document_is(es, dd) && requests == dd.requests);
            }
            Ok(requests)
        },
        Err(e) => Err(e),
    }
}

} // verus!
