//! The detailed comparison of one pair of records: for each aspect, the text of
//! either side, formatted deterministically for a line-level diff elsewhere, and
//! the names that the exemptions cover.
use vstd::prelude::*;
use vstd::string::*;
use crate::json::{formats_as, format_json_string, parse_json, parsed_json, JsonValue};
use crate::record::HarRequest;
use crate::text::{
    decimal, decimal_text, join, join_texts, lower_case, lower_of, order_of, text_order,
    trim_text, trimmed_of, url_encode, url_encoded, views,
};
use crate::whitelist::WhitelistConfig;

verus! {

/// One line of a rendered difference.
#[derive(Debug)]
pub struct DiffLine {
    pub line_number: usize,
    pub diff_type: String,
    pub content: String,
}

/// One aspect of a pair: the text of either side and the exempt names.
#[derive(Debug)]
pub struct ComparisonSection {
    pub content1: String,
    pub content2: String,
    pub differences: Vec<DiffLine>,
    pub whitelisted_keys: Vec<String>,
}

/// All aspects of a pair; the payload and response-body aspects only where
/// some side has a body.
#[derive(Debug)]
pub struct DetailedComparison {
    pub general: ComparisonSection,
    pub raw_request: ComparisonSection,
    pub headers: ComparisonSection,
    pub payloads: Option<ComparisonSection>,
    pub params: ComparisonSection,
    pub response: ComparisonSection,
    pub response_body: Option<ComparisonSection>,
}

/// The texts at the given positions of `ls`, in that order.
pub open spec fn in_order(ls: Seq<Seq<char>>) -> Seq<Seq<char>> {
    order_of(ls).map_values(|k: int| ls[k])
}

/// The five-line summary of a record.
pub open spec fn general_text(r: HarRequest) -> Seq<char> {
    "Index: "@ + decimal(r.index as nat) + "\nMethod: "@ + r.method@ + "\nURL: "@ + r.url@
        + "\nPath: "@ + r.path@ + "\nResponse Status: "@ + decimal(r.response_status as nat)
}

/// `name: value` for each header.
pub open spec fn header_lines(h: Seq<(String, String)>) -> Seq<Seq<char>> {
    h.map_values(|e: (String, String)| e.0@ + ": "@ + e.1@)
}

/// Headers as their lines in text order, one per line, or `No headers`.
pub open spec fn headers_text(h: Seq<(String, String)>) -> Seq<char> {
    if h.len() == 0 {
        "No headers"@
    } else {
        join(in_order(header_lines(h)), "\n"@)
    }
}

/// `name: v1, v2, ...` for each parameter.
pub open spec fn param_lines(p: Seq<(String, Vec<String>)>) -> Seq<Seq<char>> {
    p.map_values(|e: (String, Vec<String>)| e.0@ + ": "@ + join(views(e.1@), ", "@))
}

/// Parameters as their lines in text order, one per line, or `No parameters`.
pub open spec fn params_text(p: Seq<(String, Vec<String>)>) -> Seq<char> {
    if p.len() == 0 {
        "No parameters"@
    } else {
        join(in_order(param_lines(p)), "\n"@)
    }
}

/// `name=value`, both percent-encoded, for each value of each parameter in order.
pub open spec fn query_pairs(p: Seq<(String, Vec<String>)>) -> Seq<Seq<char>>
    decreases p.len(),
{
    if p.len() == 0 {
        Seq::empty()
    } else {
        query_pairs(p.drop_last()) + views(p.last().1@).map_values(
            |v: Seq<char>| url_encoded(p.last().0@) + "="@ + url_encoded(v),
        )
    }
}

/// The query of the request line: `?` and the pairs joined by `&`, or nothing.
pub open spec fn query_suffix(p: Seq<(String, Vec<String>)>) -> Seq<char> {
    if query_pairs(p).len() == 0 {
        Seq::empty()
    } else {
        "?"@ + join(query_pairs(p), "&"@)
    }
}

/// Each text followed by a line break.
pub open spec fn line_block(ls: Seq<Seq<char>>) -> Seq<char>
    decreases ls.len(),
{
    if ls.len() == 0 {
        Seq::empty()
    } else {
        line_block(ls.drop_last()) + ls.last() + "\n"@
    }
}

/// The lower-case forms of the header names.
pub open spec fn lowered_names(h: Seq<(String, String)>) -> Seq<Seq<char>> {
    h.map_values(|e: (String, String)| lower_of(e.0@))
}

/// `name: value` for each header, in text order of the lower-case names
/// (headers whose names agree so keep their order).
pub open spec fn raw_header_lines(h: Seq<(String, String)>) -> Seq<Seq<char>> {
    order_of(lowered_names(h)).map_values(|k: int| h[k].0@ + ": "@ + h[k].1@)
}

/// The request line, the header lines and the blank line of a raw request.
pub open spec fn raw_request_head(r: HarRequest) -> Seq<char> {
    r.method@ + " "@ + r.path@ + query_suffix(r.query_params@) + " HTTP/1.1\n"@ + line_block(
        raw_header_lines(r.headers@),
    ) + "\n"@
}

/// `t` starts with `head` and the rest is the canonical form of `body`.
pub open spec fn head_then_formatted(t: Seq<char>, head: Seq<char>, body: Seq<char>) -> bool {
    &&& t.len() >= head.len()
    &&& t.subrange(0, head.len() as int) == head
    &&& formats_as(body, t.subrange(head.len() as int, t.len() as int))
}

/// `t` is the raw request of `r`: its head, then the canonical form of a
/// non-empty body.
pub open spec fn raw_request_is(r: HarRequest, t: Seq<char>) -> bool {
    match r.post_data {
        Some(b) => if b@.len() > 0 {
            head_then_formatted(t, raw_request_head(r), b@)
        } else {
            t == raw_request_head(r)
        },
        None => t == raw_request_head(r),
    }
}

/// The status and headers part of the response text.
pub open spec fn response_head(r: HarRequest) -> Seq<char> {
    "Status: "@ + decimal(r.response_status as nat) + "\n\nHeaders:\n"@ + headers_text(
        r.response_headers@,
    ) + "\n\nBody:\n"@
}

/// `t` is the response text of `r`: status, headers, then the canonical body or
/// `No body`.
pub open spec fn response_is(r: HarRequest, t: Seq<char>) -> bool {
    match r.response_body {
        Some(b) => head_then_formatted(t, response_head(r), b@),
        None => t == response_head(r) + "No body"@,
    }
}

/// `t` shows a request body: `No payload`, `Empty payload` for a blank one, else
/// its canonical form.
pub open spec fn payload_is(d: Option<String>, t: Seq<char>) -> bool {
    match d {
        None => t == "No payload"@,
        Some(b) => if trimmed_of(b@).len() == 0 {
            t == "Empty payload"@
        } else {
            formats_as(b@, t)
        },
    }
}

/// `t` shows a response body: `No response body`, else its canonical form.
pub open spec fn response_body_is(d: Option<String>, t: Seq<char>) -> bool {
    match d {
        None => t == "No response body"@,
        Some(b) => formats_as(b@, t),
    }
}

/// The texts without repeats, each at its first place.
pub open spec fn distinct_texts(s: Seq<Seq<char>>) -> Seq<Seq<char>>
    decreases s.len(),
{
    if s.len() == 0 {
        s
    } else {
        let p = distinct_texts(s.drop_last());
        if p.contains(s.last()) {
            p
        } else {
            p.push(s.last())
        }
    }
}

/// `n` is exempt for `url`, as a header name or as a payload key.
pub open spec fn exempt_as(wl: WhitelistConfig, n: Seq<char>, url: Seq<char>, headers: bool) -> bool {
    if headers {
        wl.exempts_header(n, url)
    } else {
        wl.exempts_key(n, url)
    }
}

/// The lower-case forms of the exempt names, in order.
pub open spec fn exempt_lowered(s: Seq<Seq<char>>, url: Seq<char>, wl: WhitelistConfig, headers: bool) -> Seq<Seq<char>>
    decreases s.len(),
{
    if s.len() == 0 {
        Seq::empty()
    } else {
        let p = exempt_lowered(s.drop_last(), url, wl, headers);
        if exempt_as(wl, s.last(), url, headers) {
            p.push(lower_of(s.last()))
        } else {
            p
        }
    }
}

/// The names of a list of entries.
pub open spec fn entry_names<V>(h: Seq<(String, V)>) -> Seq<Seq<char>> {
    h.map_values(|e: (String, V)| e.0@)
}

/// The exempt names among the headers of either side, lower-cased.
pub open spec fn exempt_header_keys(
    h1: Seq<(String, String)>,
    h2: Seq<(String, String)>,
    url: Seq<char>,
    wl: WhitelistConfig,
) -> Seq<Seq<char>> {
    exempt_lowered(distinct_texts(entry_names(h1) + entry_names(h2)), url, wl, true)
}

/// The exempt keys among the members of two objects, lower-cased (none unless
/// both are objects).
pub open spec fn exempt_json_keys(v1: JsonValue, v2: JsonValue, url: Seq<char>, wl: WhitelistConfig) -> Seq<Seq<char>> {
    match (v1, v2) {
        (JsonValue::Object(x), JsonValue::Object(y)) => exempt_lowered(
            distinct_texts(entry_names(x@) + entry_names(y@)),
            url,
            wl,
            false,
        ),
        _ => Seq::empty(),
    }
}

/// The exempt keys of two bodies that are both JSON objects.
pub open spec fn exempt_body_keys(d1: Option<String>, d2: Option<String>, url: Seq<char>, wl: WhitelistConfig) -> Seq<Seq<char>> {
    match (d1, d2) {
        (Some(a), Some(b)) => match (parsed_json(a@), parsed_json(b@)) {
            (Some(j1), Some(j2)) => exempt_json_keys(j1, j2, url, wl),
            _ => Seq::empty(),
        },
        _ => Seq::empty(),
    }
}

/// The texts of `items` at the positions `order`, in that order.
fn pick_texts(items: &Vec<String>, order: &Vec<usize>) -> (r: Vec<String>)
    requires
        forall|t: int| 0 <= t < order@.len() ==> #[trigger] order@[t] < items@.len(),
    ensures
        views(r@) == order@.map_values(|k: usize| k as int).map_values(|k: int| views(items@)[k]),
{
    let mut out: Vec<String> = Vec::new();
    let mut t: usize = 0;
    while t < order.len()
        invariant
            forall|u: int| 0 <= u < order@.len() ==> #[trigger] order@[u] < items@.len(),
            t <= order@.len(),
            views(out@) == order@.map_values(|k: usize| k as int).map_values(
                |k: int| views(items@)[k],
            ).take(t as int),
        decreases order@.len() - t,
    {
        proof {
            assert(views(out@).len() == out@.len());
        }
        out.push(items[order[t]].clone());
        proof {
            assert(views(out@) =~= order@.map_values(|k: usize| k as int).map_values(
                |k: int| views(items@)[k],
            ).take(t + 1));
        }
        t = t + 1;
    }
    proof {
        assert(views(out@) =~= order@.map_values(|k: usize| k as int).map_values(
            |k: int| views(items@)[k],
        ));
    }
    out
}

/// Lines in text order, joined by line breaks.
fn sorted_lines_text(lines: &Vec<String>) -> (r: String)
    ensures
        r@ == join(in_order(views(lines@)), "\n"@),
{
    let order = text_order(lines);
    let picked = pick_texts(lines, &order);
    proof {
        assert(order@.map_values(|k: usize| k as int).map_values(|k: int| views(lines@)[k])
            =~= in_order(views(lines@)));
    }
    join_texts(&picked, "\n")
}

/// The headers as `name: value` lines in text order, or `No headers`.
pub fn format_headers(headers: &Vec<(String, String)>) -> (r: String)
    ensures
        r@ == headers_text(headers@),
{
    if headers.len() == 0 {
        return String::from_str("No headers");
    }
    let mut lines: Vec<String> = Vec::new();
    let mut i: usize = 0;
    while i < headers.len()
        invariant
            i <= headers@.len(),
            views(lines@) == header_lines(headers@).take(i as int),
        decreases headers@.len() - i,
    {
        let mut line = headers[i].0.clone();
        line.append(": ");
        line.append(headers[i].1.as_str());
        proof {
            assert(views(lines@).len() == lines@.len());
        }
        lines.push(line);
        proof {
            assert(views(lines@) =~= header_lines(headers@).take(i + 1));
        }
        i = i + 1;
    }
    proof {
        assert(header_lines(headers@).take(headers@.len() as int) =~= header_lines(headers@));
    }
    sorted_lines_text(&lines)
}

/// The parameters as `name: v1, v2` lines in text order, or `No parameters`.
pub fn format_params(params: &Vec<(String, Vec<String>)>) -> (r: String)
    ensures
        r@ == params_text(params@),
{
    if params.len() == 0 {
        return String::from_str("No parameters");
    }
    let mut lines: Vec<String> = Vec::new();
    let mut i: usize = 0;
    while i < params.len()
        invariant
            i <= params@.len(),
            views(lines@) == param_lines(params@).take(i as int),
        decreases params@.len() - i,
    {
        let mut line = params[i].0.clone();
        line.append(": ");
        let values = join_texts(&params[i].1, ", ");
        line.append(values.as_str());
        proof {
            assert(views(lines@).len() == lines@.len());
        }
        lines.push(line);
        proof {
            assert(views(lines@) =~= param_lines(params@).take(i + 1));
        }
        i = i + 1;
    }
    proof {
        assert(param_lines(params@).take(params@.len() as int) =~= param_lines(params@));
    }
    sorted_lines_text(&lines)
}

/// The five-line summary of a record.
fn general_content(r: &HarRequest) -> (s: String)
    ensures
        s@ == general_text(*r),
{
    let mut s = String::from_str("Index: ");
    let index = decimal_text(r.index as u64);
    s.append(index.as_str());
    s.append("\nMethod: ");
    s.append(r.method.as_str());
    s.append("\nURL: ");
    s.append(r.url.as_str());
    s.append("\nPath: ");
    s.append(r.path.as_str());
    s.append("\nResponse Status: ");
    let status = decimal_text(r.response_status as u64);
    s.append(status.as_str());
    s
}

/// Appends the names of the entries of `h` to `out`.
fn push_names<V>(h: &Vec<(String, V)>, out: &mut Vec<String>)
    ensures
        views(final(out)@) == views(old(out)@) + entry_names(h@),
{
    let ghost start = views(out@);
    let mut i: usize = 0;
    while i < h.len()
        invariant
            i <= h@.len(),
            views(out@) == start + entry_names(h@).take(i as int),
        decreases h@.len() - i,
    {
        proof {
            assert(views(out@).len() == out@.len());
        }
        let name = h[i].0.clone();
        let ghost before = out@;
        out.push(name);
        proof {
            assert(out@ == before.push(name));
            assert(views(out@) == views(before).push(name@));
            assert(entry_names(h@)[i as int] == h@[i as int].0@);
            assert(entry_names(h@).take(i + 1) =~= entry_names(h@).take(i as int).push(h@[i as int].0@));
            assert(views(out@) =~= start + entry_names(h@).take(i + 1));
        }
        i = i + 1;
    }
    proof {
        assert(entry_names(h@).take(h@.len() as int) =~= entry_names(h@));
    }
}

/// Whether `items` holds a text equal to `s`.
fn holds_text(items: &Vec<String>, s: &String) -> (r: bool)
    ensures
        r == views(items@).contains(s@),
{
    let mut i: usize = 0;
    while i < items.len()
        invariant
            i <= items@.len(),
            forall|k: int| 0 <= k < i ==> items@[k]@ != s@,
        decreases items@.len() - i,
    {
        if items[i] == *s {
            proof {
                assert(views(items@)[i as int] == s@);
            }
            return true;
        }
        i = i + 1;
    }
    proof {
        if views(items@).contains(s@) {
            let k = choose|k: int| 0 <= k < views(items@).len() && views(items@)[k] == s@;
            assert(items@[k]@ == s@);
        }
    }
    false
}

/// The lower-case forms of the exempt names among `names`, each name once.
fn exempt_names(names: &Vec<String>, url: &str, whitelist: &WhitelistConfig, headers: bool) -> (r: Vec<String>)
    ensures
        views(r@) == exempt_lowered(distinct_texts(views(names@)), url@, *whitelist, headers),
{
    let mut seen: Vec<String> = Vec::new();
    let mut i: usize = 0;
    while i < names.len()
        invariant
            i <= names@.len(),
            views(seen@) == distinct_texts(views(names@).take(i as int)),
        decreases names@.len() - i,
    {
        proof {
            assert(views(names@).take(i + 1).drop_last() =~= views(names@).take(i as int));
        }
        let ghost old_seen = views(seen@);
        proof {
            assert(views(seen@).len() == seen@.len());
        }
        if !holds_text(&seen, &names[i]) {
            seen.push(names[i].clone());
            proof {
                assert(views(seen@) =~= old_seen.push(names@[i as int]@));
            }
        }
        proof {
            assert(views(names@).take(i + 1).last() == names@[i as int]@);
        }
        i = i + 1;
    }
    proof {
        assert(views(names@).take(names@.len() as int) =~= views(names@));
    }
    let ghost distinct = views(seen@);
    let mut out: Vec<String> = Vec::new();
    let mut k: usize = 0;
    while k < seen.len()
        invariant
            distinct == views(seen@),
            k <= seen@.len(),
            views(out@) == exempt_lowered(distinct.take(k as int), url@, *whitelist, headers),
        decreases seen@.len() - k,
    {
        proof {
            assert(distinct.take(k + 1).drop_last() =~= distinct.take(k as int));
            assert(distinct.take(k + 1).last() == seen@[k as int]@);
        }
        let name = seen[k].as_str();
        let exempt = if headers {
            whitelist.is_header_whitelisted(name, url)
        } else {
            whitelist.is_payload_key_whitelisted(name, url)
        };
        let ghost old_out = views(out@);
        proof {
            assert(views(out@).len() == out@.len());
        }
        if exempt {
            out.push(lower_case(name));
            proof {
                assert(views(out@) =~= old_out.push(lower_of(seen@[k as int]@)));
            }
        }
        proof {
            assert(views(out@) =~= exempt_lowered(distinct.take(k + 1), url@, *whitelist, headers));
        }
        k = k + 1;
    }
    proof {
        assert(distinct.take(seen@.len() as int) =~= distinct);
    }
    out
}

/// The query of the request line.
fn query_string(params: &Vec<(String, Vec<String>)>) -> (r: String)
    ensures
        r@ == query_suffix(params@),
{
    let mut pairs: Vec<String> = Vec::new();
    let mut i: usize = 0;
    while i < params.len()
        invariant
            i <= params@.len(),
            views(pairs@) == query_pairs(params@.take(i as int)),
        decreases params@.len() - i,
    {
        let key = url_encode(params[i].0.as_str());
        let values = &params[i].1;
        let ghost base = views(pairs@);
        let ghost name = params@[i as int].0@;
        let mut j: usize = 0;
        while j < values.len()
            invariant
                j <= values@.len(),
                key@ == url_encoded(name),
                views(pairs@) == base + views(values@).take(j as int).map_values(
                    |v: Seq<char>| url_encoded(name) + "="@ + url_encoded(v),
                ),
            decreases values@.len() - j,
        {
            let mut pair = key.clone();
            pair.append("=");
            let value = url_encode(values[j].as_str());
            pair.append(value.as_str());
            let ghost before = pairs@;
            proof {
                assert(views(before).len() == before.len());
            }
            pairs.push(pair);
            proof {
                assert(views(pairs@) =~= views(before).push(pair@));
                assert(views(values@).take(j + 1) =~= views(values@).take(j as int).push(
                    values@[j as int]@,
                ));
                assert(views(pairs@) =~= base + views(values@).take(j + 1).map_values(
                    |v: Seq<char>| url_encoded(name) + "="@ + url_encoded(v),
                ));
            }
            j = j + 1;
        }
        proof {
            assert(params@.take(i + 1).drop_last() =~= params@.take(i as int));
            assert(params@.take(i + 1).last() == params@[i as int]);
            assert(views(values@).take(values@.len() as int) =~= views(values@));
        }
        i = i + 1;
    }
    proof {
        assert(params@.take(params@.len() as int) =~= params@);
    }
    if pairs.len() == 0 {
        proof {
            assert(views(pairs@).len() == 0);
        }
        String::new()
    } else {
        let mut s = String::from_str("?");
        let joined = join_texts(&pairs, "&");
        s.append(joined.as_str());
        s
    }
}

/// The header lines of a raw request, each ending in a line break.
fn raw_header_block(h: &Vec<(String, String)>) -> (r: String)
    ensures
        r@ == line_block(raw_header_lines(h@)),
{
    let mut lowered: Vec<String> = Vec::new();
    let mut i: usize = 0;
    while i < h.len()
        invariant
            i <= h@.len(),
            views(lowered@) == lowered_names(h@).take(i as int),
        decreases h@.len() - i,
    {
        let ghost before = lowered@;
        proof {
            assert(views(before).len() == before.len());
        }
        lowered.push(lower_case(h[i].0.as_str()));
        proof {
            assert(views(lowered@) =~= lowered_names(h@).take(i + 1));
        }
        i = i + 1;
    }
    proof {
        assert(lowered_names(h@).take(h@.len() as int) =~= lowered_names(h@));
    }
    let order = text_order(&lowered);
    let ghost lines = raw_header_lines(h@);
    let mut out = String::new();
    let mut t: usize = 0;
    while t < order.len()
        invariant
            order@.len() == h@.len(),
            order@.map_values(|k: usize| k as int) == order_of(lowered_names(h@)),
            forall|u: int| 0 <= u < order@.len() ==> #[trigger] order@[u] < h@.len(),
            lines == raw_header_lines(h@),
            t <= order@.len(),
            out@ == line_block(lines.take(t as int)),
        decreases order@.len() - t,
    {
        let k = order[t];
        proof {
            assert(lines.take(t + 1).drop_last() =~= lines.take(t as int));
            assert(order_of(lowered_names(h@))[t as int] == k as int);
            assert(lines.take(t + 1).last() == h@[k as int].0@ + ": "@ + h@[k as int].1@);
        }
        out.append(h[k].0.as_str());
        out.append(": ");
        out.append(h[k].1.as_str());
        out.append("\n");
        proof {
            assert(out@ =~= line_block(lines.take(t + 1)));
        }
        t = t + 1;
    }
    proof {
        assert(lines.take(order@.len() as int) =~= lines);
    }
    out
}

/// The raw request: request line, headers in order of their lower-case names,
/// a blank line, then the canonical form of a non-empty body.
pub fn format_raw_request(req: &HarRequest) -> (r: String)
    ensures
        raw_request_is(*req, r@),
{
    let mut raw = String::new();
    raw.append(req.method.as_str());
    raw.append(" ");
    raw.append(req.path.as_str());
    let query = query_string(&req.query_params);
    raw.append(query.as_str());
    raw.append(" HTTP/1.1\n");
    let block = raw_header_block(&req.headers);
    raw.append(block.as_str());
    raw.append("\n");
    let ghost head = raw@;
    proof {
        assert(head =~= raw_request_head(*req));
    }
    if let Some(body) = &req.post_data {
        if !body.as_str().is_empty() {
            let formatted = format_json_string(body.as_str());
            raw.append(formatted.as_str());
            proof {
                assert(raw@.subrange(0, head.len() as int) =~= head);
                assert(raw@.subrange(head.len() as int, raw@.len() as int) =~= formatted@);
            }
        }
    }
    raw
}

/// The exempt names among the headers of either list, lower-cased.
fn header_keys(
    h1: &Vec<(String, String)>,
    h2: &Vec<(String, String)>,
    url: &str,
    whitelist: &WhitelistConfig,
) -> (r: Vec<String>)
    ensures
        views(r@) == exempt_header_keys(h1@, h2@, url@, *whitelist),
{
    let mut names: Vec<String> = Vec::new();
    push_names(h1, &mut names);
    push_names(h2, &mut names);
    proof {
        assert(views(names@) =~= entry_names(h1@) + entry_names(h2@));
    }
    exempt_names(&names, url, whitelist, true)
}

/// Appends to `result` the exempt keys among the members of two objects,
/// lower-cased (none unless both are objects).
pub fn collect_whitelisted_json_keys(
    val1: &JsonValue,
    val2: &JsonValue,
    url: &str,
    whitelist: &WhitelistConfig,
    result: &mut Vec<String>,
)
    ensures
        views(final(result)@) == views(old(result)@) + exempt_json_keys(*val1, *val2, url@, *whitelist),
{
    match (val1, val2) {
        (JsonValue::Object(x), JsonValue::Object(y)) => {
            let mut names: Vec<String> = Vec::new();
            push_names(x, &mut names);
            push_names(y, &mut names);
            proof {
                assert(views(names@) =~= entry_names(x@) + entry_names(y@));
            }
            let mut keys = exempt_names(&names, url, whitelist, false);
            let ghost before = result@;
            result.append(&mut keys);
            proof {
                assert(views(result@) =~= views(before) + exempt_json_keys(*val1, *val2, url@, *whitelist));
            }
        },
        _ => {
            proof {
                assert(views(result@) =~= views(result@) + Seq::<Seq<char>>::empty());
            }
        },
    }
}

/// The exempt keys of two bodies that are both JSON objects.
fn body_keys(d1: &Option<String>, d2: &Option<String>, url: &str, whitelist: &WhitelistConfig) -> (r: Vec<String>)
    ensures
        views(r@) == exempt_body_keys(*d1, *d2, url@, *whitelist),
{
    let mut keys: Vec<String> = Vec::new();
    if let (Some(a), Some(b)) = (d1, d2) {
        if let (Some(json1), Some(json2)) = (parse_json(a.as_str()), parse_json(b.as_str())) {
            collect_whitelisted_json_keys(&json1, &json2, url, whitelist, &mut keys);
            proof {
                assert(views(keys@) =~= exempt_body_keys(*d1, *d2, url@, *whitelist));
            }
            return keys;
        }
    }
    proof {
        assert(views(keys@) =~= exempt_body_keys(*d1, *d2, url@, *whitelist));
    }
    keys
}

/// The response text of a record.
fn response_content(r: &HarRequest) -> (s: String)
    ensures
        response_is(*r, s@),
{
    let mut s = String::from_str("Status: ");
    let status = decimal_text(r.response_status as u64);
    s.append(status.as_str());
    s.append("\n\nHeaders:\n");
    let headers = format_headers(&r.response_headers);
    s.append(headers.as_str());
    s.append("\n\nBody:\n");
    let ghost head = s@;
    proof {
        assert(head =~= response_head(*r));
    }
    match &r.response_body {
        Some(body) => {
            let formatted = format_json_string(body.as_str());
            s.append(formatted.as_str());
            proof {
                assert(s@.subrange(0, head.len() as int) =~= head);
                assert(s@.subrange(head.len() as int, s@.len() as int) =~= formatted@);
            }
        },
        None => {
            s.append("No body");
        },
    }
    s
}

/// The text of a request body.
fn payload_content(d: &Option<String>) -> (s: String)
    ensures
        payload_is(*d, s@),
{
    match d {
        Some(body) => {
            if trim_text(body.as_str()).is_empty() {
                String::from_str("Empty payload")
            } else {
                format_json_string(body.as_str())
            }
        },
        None => String::from_str("No payload"),
    }
}

/// The text of a response body.
fn response_body_content(d: &Option<String>) -> (s: String)
    ensures
        response_body_is(*d, s@),
{
    match d {
        Some(body) => format_json_string(body.as_str()),
        None => String::from_str("No response body"),
    }
}

/// The general section: the summaries of both records.
pub open spec fn general_section_is(s: ComparisonSection, a: HarRequest, b: HarRequest) -> bool {
    &&& s.content1@ == general_text(a)
    &&& s.content2@ == general_text(b)
    &&& s.differences@.len() == 0
    &&& s.whitelisted_keys@.len() == 0
}

/// The raw-request section: both raw requests and the exempt request headers.
pub open spec fn raw_request_section_is(s: ComparisonSection, a: HarRequest, b: HarRequest, wl: WhitelistConfig) -> bool {
    &&& raw_request_is(a, s.content1@)
    &&& raw_request_is(b, s.content2@)
    &&& s.differences@.len() == 0
    &&& views(s.whitelisted_keys@) == exempt_header_keys(a.headers@, b.headers@, a.url@, wl)
}

/// The headers section: both header lists and the exempt request headers.
pub open spec fn headers_section_is(s: ComparisonSection, a: HarRequest, b: HarRequest, wl: WhitelistConfig) -> bool {
    &&& s.content1@ == headers_text(a.headers@)
    &&& s.content2@ == headers_text(b.headers@)
    &&& s.differences@.len() == 0
    &&& views(s.whitelisted_keys@) == exempt_header_keys(a.headers@, b.headers@, a.url@, wl)
}

/// The parameters section: both parameter lists, nothing exempt.
pub open spec fn params_section_is(s: ComparisonSection, a: HarRequest, b: HarRequest) -> bool {
    &&& s.content1@ == params_text(a.query_params@)
    &&& s.content2@ == params_text(b.query_params@)
    &&& s.differences@.len() == 0
    &&& s.whitelisted_keys@.len() == 0
}

/// The response section: both responses and the exempt response headers.
pub open spec fn response_section_is(s: ComparisonSection, a: HarRequest, b: HarRequest, wl: WhitelistConfig) -> bool {
    &&& response_is(a, s.content1@)
    &&& response_is(b, s.content2@)
    &&& s.differences@.len() == 0
    &&& views(s.whitelisted_keys@) == exempt_header_keys(
        a.response_headers@,
        b.response_headers@,
        a.url@,
        wl,
    )
}

/// The payload section, present exactly where some side has a body.
pub open spec fn payloads_section_is(o: Option<ComparisonSection>, a: HarRequest, b: HarRequest, wl: WhitelistConfig) -> bool {
    match o {
        Some(s) => {
            &&& a.post_data is Some || b.post_data is Some
            &&& payload_is(a.post_data, s.content1@)
            &&& payload_is(b.post_data, s.content2@)
            &&& s.differences@.len() == 0
            &&& views(s.whitelisted_keys@) == exempt_body_keys(a.post_data, b.post_data, a.url@, wl)
        },
        None => a.post_data is None && b.post_data is None,
    }
}

/// The response-body section, present exactly where some side has a body.
pub open spec fn response_body_section_is(o: Option<ComparisonSection>, a: HarRequest, b: HarRequest, wl: WhitelistConfig) -> bool {
    match o {
        Some(s) => {
            &&& a.response_body is Some || b.response_body is Some
            &&& response_body_is(a.response_body, s.content1@)
            &&& response_body_is(b.response_body, s.content2@)
            &&& s.differences@.len() == 0
            &&& views(s.whitelisted_keys@) == exempt_body_keys(
                a.response_body,
                b.response_body,
                a.url@,
                wl,
            )
        },
        None => a.response_body is None && b.response_body is None,
    }
}

/// Every section of `d` is as its predicate says.
pub open spec fn detailed_is(d: DetailedComparison, a: HarRequest, b: HarRequest, wl: WhitelistConfig) -> bool {
    &&& general_section_is(d.general, a, b)
    &&& raw_request_section_is(d.raw_request, a, b, wl)
    &&& headers_section_is(d.headers, a, b, wl)
    &&& payloads_section_is(d.payloads, a, b, wl)
    &&& params_section_is(d.params, a, b)
    &&& response_section_is(d.response, a, b, wl)
    &&& response_body_section_is(d.response_body, a, b, wl)
}

fn create_general_section(req1: &HarRequest, req2: &HarRequest, _whitelist: &WhitelistConfig) -> (s: ComparisonSection)
    ensures
        general_section_is(s, *req1, *req2),
{
    ComparisonSection {
        content1: general_content(req1),
        content2: general_content(req2),
        differences: Vec::new(),
        whitelisted_keys: Vec::new(),
    }
}

fn create_headers_section(
    req1: &HarRequest,
    req2: &HarRequest,
    _keys_only: bool,
    whitelist: &WhitelistConfig,
) -> (s: ComparisonSection)
    ensures
        headers_section_is(s, *req1, *req2, *whitelist),
{
    ComparisonSection {
        content1: format_headers(&req1.headers),
        content2: format_headers(&req2.headers),
        differences: Vec::new(),
        whitelisted_keys: header_keys(&req1.headers, &req2.headers, req1.url.as_str(), whitelist),
    }
}

fn create_params_section(
    req1: &HarRequest,
    req2: &HarRequest,
    _keys_only: bool,
    _whitelist: &WhitelistConfig,
) -> (s: ComparisonSection)
    ensures
        params_section_is(s, *req1, *req2),
{
    ComparisonSection {
        content1: format_params(&req1.query_params),
        content2: format_params(&req2.query_params),
        differences: Vec::new(),
        whitelisted_keys: Vec::new(),
    }
}

fn create_response_section(
    req1: &HarRequest,
    req2: &HarRequest,
    _keys_only: bool,
    whitelist: &WhitelistConfig,
) -> (s: ComparisonSection)
    ensures
        response_section_is(s, *req1, *req2, *whitelist),
{
    ComparisonSection {
        content1: response_content(req1),
        content2: response_content(req2),
        differences: Vec::new(),
        whitelisted_keys: header_keys(
            &req1.response_headers,
            &req2.response_headers,
            req1.url.as_str(),
            whitelist,
        ),
    }
}

fn create_raw_request_section(req1: &HarRequest, req2: &HarRequest, whitelist: &WhitelistConfig) -> (s: ComparisonSection)
    ensures
        raw_request_section_is(s, *req1, *req2, *whitelist),
{
    ComparisonSection {
        content1: format_raw_request(req1),
        content2: format_raw_request(req2),
        differences: Vec::new(),
        whitelisted_keys: header_keys(&req1.headers, &req2.headers, req1.url.as_str(), whitelist),
    }
}

fn create_payloads_section(req1: &HarRequest, req2: &HarRequest, whitelist: &WhitelistConfig) -> (r: Option<ComparisonSection>)
    ensures
        payloads_section_is(r, *req1, *req2, *whitelist),
{
    if req1.post_data.is_some() || req2.post_data.is_some() {
        Some(
            ComparisonSection {
                content1: payload_content(&req1.post_data),
                content2: payload_content(&req2.post_data),
                differences: Vec::new(),
                whitelisted_keys: body_keys(
                    &req1.post_data,
                    &req2.post_data,
                    req1.url.as_str(),
                    whitelist,
                ),
            },
        )
    } else {
        None
    }
}

fn create_response_body_section(req1: &HarRequest, req2: &HarRequest, whitelist: &WhitelistConfig) -> (r: Option<ComparisonSection>)
    ensures
        response_body_section_is(r, *req1, *req2, *whitelist),
{
    if req1.response_body.is_some() || req2.response_body.is_some() {
        Some(
            ComparisonSection {
                content1: response_body_content(&req1.response_body),
                content2: response_body_content(&req2.response_body),
                differences: Vec::new(),
                whitelisted_keys: body_keys(
                    &req1.response_body,
                    &req2.response_body,
                    req1.url.as_str(),
                    whitelist,
                ),
            },
        )
    } else {
        None
    }
}

/// The detailed comparison of two records with no exemptions. `keys_only` is
/// accepted and has no effect.
pub fn create_detailed_comparison(req1: &HarRequest, req2: &HarRequest, keys_only: bool) -> (d: DetailedComparison)
    ensures
        detailed_is(d, *req1, *req2, crate::compare::no_exemptions()),
{
    create_detailed_comparison_with_whitelist(req1, req2, keys_only, &WhitelistConfig::new())
}

/// The detailed comparison of two records, exempt names resolved for the first
/// record's URL. `keys_only` is accepted and has no effect.
pub fn create_detailed_comparison_with_whitelist(
    req1: &HarRequest,
    req2: &HarRequest,
    keys_only: bool,
    whitelist: &WhitelistConfig,
) -> (d: DetailedComparison)
    ensures
        detailed_is(d, *req1, *req2, *whitelist),
{
    DetailedComparison {
        general: create_general_section(req1, req2, whitelist),
        raw_request: create_raw_request_section(req1, req2, whitelist),
        headers: create_headers_section(req1, req2, keys_only, whitelist),
        payloads: create_payloads_section(req1, req2, whitelist),
        params: create_params_section(req1, req2, keys_only, whitelist),
        response: create_response_section(req1, req2, keys_only, whitelist),
        response_body: create_response_body_section(req1, req2, whitelist),
    }
}

} // verus!
