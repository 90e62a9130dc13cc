//! Exemption rules: which header names and payload keys may differ without
//! counting as a difference, globally or for URLs that a local rule selects.
use vstd::prelude::*;
use crate::text::{ascii_case_eq, contains_text, eq_ignore_case, is_infix};
use crate::json::{parse_json, parsed_json, JsonValue};
use crate::schema::{
    absent, field, field_of, is_absent, opt_text_field_is, opt_text_field_ok, opt_texts_is,
    opt_texts_ok, read_opt_text, read_opt_texts, ParseError,
};
use crate::url_parts::{parse_url, parsed_url};

verus! {

broadcast use vstd::std_specs::vec::group_vec_axioms;

/// The whole exemption configuration. Absent parts exempt nothing.
#[derive(Debug, Clone)]
pub struct WhitelistConfig {
    pub global: Option<WhitelistRules>,
    pub local: Option<Vec<LocalWhitelistRule>>,
}

/// Names exempted everywhere.
#[derive(Debug, Clone)]
pub struct WhitelistRules {
    pub headers: Option<Vec<String>>,
    pub payload_keys: Option<Vec<String>>,
}

/// Names exempted for the URLs that contain `url`, or whose host contains `host`.
#[derive(Debug, Clone)]
pub struct LocalWhitelistRule {
    pub host: Option<String>,
    pub url: Option<String>,
    pub headers: Option<Vec<String>>,
    pub payload_keys: Option<Vec<String>>,
}

/// `names` lists `k`, ignoring ASCII case.
pub open spec fn lists_header(names: Option<Vec<String>>, k: Seq<char>) -> bool {
    names matches Some(v) && has_header_name(v@, k)
}

/// One of `names` is `k`, ignoring ASCII case.
pub open spec fn has_header_name(names: Seq<String>, k: Seq<char>) -> bool {
    exists|i: int| 0 <= i < names.len() && ascii_case_eq(#[trigger] names[i]@, k)
}

/// One of `names` is `k`.
pub open spec fn has_key_name(names: Seq<String>, k: Seq<char>) -> bool {
    exists|i: int| 0 <= i < names.len() && #[trigger] names[i]@ == k
}

/// `names` lists `k` exactly.
pub open spec fn lists_key(names: Option<Vec<String>>, k: Seq<char>) -> bool {
    names matches Some(v) && has_key_name(v@, k)
}

/// A local rule selects `url`: its `url` occurs in it, or its `host` occurs in
/// the host of the parsed URL.
pub open spec fn rule_applies(rule: LocalWhitelistRule, url: Seq<char>) -> bool {
    rule_applies_with(
        rule,
        url,
        match parsed_url(url) {
            Some(p) => p.host,
            None => None,
        },
    )
}

/// A local rule selects `url`, whose host is `host` (`None` where it has none).
pub open spec fn rule_applies_with(rule: LocalWhitelistRule, url: Seq<char>, host: Option<Seq<char>>) -> bool {
    ||| rule.url matches Some(u) && is_infix(u@, url)
    ||| rule.host matches Some(h) && host matches Some(ph) && is_infix(h@, ph)
}

impl WhitelistConfig {
    /// Header `k` is exempt for `url`: a local rule that selects the URL lists it,
    /// or the global rules do.
    pub open spec fn exempts_header(&self, k: Seq<char>, url: Seq<char>) -> bool {
        ||| self.local matches Some(rules) && exists|i: int|
            0 <= i < rules.len() && #[trigger] rule_applies(rules@[i], url) && lists_header(
                rules@[i].headers,
                k,
            )
        ||| self.global matches Some(g) && lists_header(g.headers, k)
    }

    /// Payload key `k` is exempt for `url`, by the same resolution as headers but
    /// with names compared exactly.
    pub open spec fn exempts_key(&self, k: Seq<char>, url: Seq<char>) -> bool {
        ||| self.local matches Some(rules) && exists|i: int|
            0 <= i < rules.len() && #[trigger] rule_applies(rules@[i], url) && lists_key(
                rules@[i].payload_keys,
                k,
            )
        ||| self.global matches Some(g) && lists_key(g.payload_keys, k)
    }

    /// The configuration that exempts nothing.
    pub fn new() -> (r: WhitelistConfig)
        ensures
            r.global is None,
            r.local is None,
            forall|k: Seq<char>, url: Seq<char>|
                !r.exempts_header(k, url) && !r.exempts_key(k, url),
    {
        WhitelistConfig { global: None, local: None }
    }

    /// Whether header `header_name` is exempt for `url`.
    pub fn is_header_whitelisted(&self, header_name: &str, url: &str) -> (r: bool)
        ensures
            r == self.exempts_header(header_name@, url@),
    {
        if let Some(local_rules) = &self.local {
            let mut i: usize = 0;
            while i < local_rules.len()
                invariant
                    self.local == Some(*local_rules),
                    i <= local_rules@.len(),
                    forall|j: int|
                        0 <= j < i ==> !(#[trigger] rule_applies(local_rules@[j], url@)
                            && lists_header(local_rules@[j].headers, header_name@)),
                decreases local_rules@.len() - i,
            {
                let rule = &local_rules[i];
                if self.rule_matches_url(rule, url) {
                    if let Some(headers) = &rule.headers {
                        if names_have_header(headers, header_name) {
                            return true;
                        }
                    }
                }
                i = i + 1;
            }
        }
        if let Some(global) = &self.global {
            if let Some(headers) = &global.headers {
                if names_have_header(headers, header_name) {
                    return true;
                }
            }
        }
        false
    }

    /// Whether payload key `key_name` is exempt for `url`.
    pub fn is_payload_key_whitelisted(&self, key_name: &str, url: &str) -> (r: bool)
        ensures
            r == self.exempts_key(key_name@, url@),
    {
        if let Some(local_rules) = &self.local {
            let mut i: usize = 0;
            while i < local_rules.len()
                invariant
                    self.local == Some(*local_rules),
                    i <= local_rules@.len(),
                    forall|j: int|
                        0 <= j < i ==> !(#[trigger] rule_applies(local_rules@[j], url@)
                            && lists_key(local_rules@[j].payload_keys, key_name@)),
                decreases local_rules@.len() - i,
            {
                let rule = &local_rules[i];
                if self.rule_matches_url(rule, url) {
                    if let Some(keys) = &rule.payload_keys {
                        if names_have_key(keys, key_name) {
                            return true;
                        }
                    }
                }
                i = i + 1;
            }
        }
        if let Some(global) = &self.global {
            if let Some(keys) = &global.payload_keys {
                if names_have_key(keys, key_name) {
                    return true;
                }
            }
        }
        false
    }

    /// Whether `rule` selects `url`.
    fn rule_matches_url(&self, rule: &LocalWhitelistRule, url: &str) -> (r: bool)
        ensures
            r == rule_applies(*rule, url@),
    {
        let host = match parse_url(url) {
            Some(parts) => parts.host,
            None => None,
        };
        rule_selects(rule, url, &host)
    }
}

/// Whether `rule` selects `url`, given the URL's host.
pub fn rule_selects(rule: &LocalWhitelistRule, url: &str, host: &Option<String>) -> (r: bool)
    ensures
        r == rule_applies_with(*rule, url@, crate::url_parts::opt_text(*host)),
{
    if let Some(rule_url) = &rule.url {
        if contains_text(url, rule_url.as_str()) {
            return true;
        }
    }
    if let (Some(rule_host), Some(h)) = (&rule.host, host) {
        if contains_text(h.as_str(), rule_host.as_str()) {
            return true;
        }
    }
    false
}

/// Whether `names` holds `k`, ignoring ASCII case.
fn names_have_header(names: &Vec<String>, k: &str) -> (r: bool)
    ensures
        r == has_header_name(names@, k@),
{
    let mut i: usize = 0;
    while i < names.len()
        invariant
            i <= names@.len(),
            forall|j: int| 0 <= j < i ==> !ascii_case_eq(#[trigger] names@[j]@, k@),
        decreases names@.len() - i,
    {
        if eq_ignore_case(names[i].as_str(), k) {
            proof {
                assert(ascii_case_eq(names@[i as int]@, k@));
            }
            return true;
        }
        i = i + 1;
    }
    false
}

/// Whether `names` holds `k` exactly.
fn names_have_key(names: &Vec<String>, k: &str) -> (r: bool)
    ensures
        r == has_key_name(names@, k@),
{
    let mut i: usize = 0;
    while i < names.len()
        invariant
            i <= names@.len(),
            forall|j: int| 0 <= j < i ==> #[trigger] names@[j]@ != k@,
        decreases names@.len() - i,
    {
        if text_is(&names[i], k) {
            proof {
                assert(names@[i as int]@ == k@);
            }
            return true;
        }
        i = i + 1;
    }
    false
}

/// Whether a text equals `k`.
fn text_is(s: &String, k: &str) -> (r: bool)
    ensures
        r == (s@ == k@),
{
    let other = k.to_owned();
    *s == other
}

/// A rule set: an object whose `headers` and `payload_keys` are absent or lists of texts.
pub open spec fn rules_ok(v: JsonValue) -> bool {
    &&& v is Object
    &&& opt_texts_ok(field(v, "headers"@))
    &&& opt_texts_ok(field(v, "payload_keys"@))
}

/// `r` is what the rule set `v` reads as.
pub open spec fn rules_is(v: JsonValue, r: WhitelistRules) -> bool {
    &&& opt_texts_is(field(v, "headers"@), r.headers)
    &&& opt_texts_is(field(v, "payload_keys"@), r.payload_keys)
}

/// A local rule: a rule set whose `host` and `url` are absent or texts.
pub open spec fn local_rule_ok(v: JsonValue) -> bool {
    &&& v is Object
    &&& opt_text_field_ok(field(v, "host"@))
    &&& opt_text_field_ok(field(v, "url"@))
    &&& opt_texts_ok(field(v, "headers"@))
    &&& opt_texts_ok(field(v, "payload_keys"@))
}

/// `r` is what the local rule `v` reads as.
pub open spec fn local_rule_is(v: JsonValue, r: LocalWhitelistRule) -> bool {
    &&& opt_text_field_is(field(v, "host"@), r.host)
    &&& opt_text_field_is(field(v, "url"@), r.url)
    &&& opt_texts_is(field(v, "headers"@), r.headers)
    &&& opt_texts_is(field(v, "payload_keys"@), r.payload_keys)
}

/// An optional rule set.
pub open spec fn opt_rules_ok(o: Option<JsonValue>) -> bool {
    match o {
        Some(v) => v is Null || rules_ok(v),
        None => true,
    }
}

/// `r` is what an optional rule set reads as.
pub open spec fn opt_rules_is(o: Option<JsonValue>, r: Option<WhitelistRules>) -> bool {
    if absent(o) {
        r is None
    } else {
        match (o, r) {
            (Some(v), Some(x)) => rules_is(v, x),
            _ => false,
        }
    }
}

/// An optional list of local rules.
pub open spec fn opt_locals_ok(o: Option<JsonValue>) -> bool {
    match o {
        Some(v) => v is Null || locals_ok(v),
        None => true,
    }
}

/// An array of local rules.
pub open spec fn locals_ok(v: JsonValue) -> bool {
    v matches JsonValue::Array(a) && forall|i: int| 0 <= i < a.len() ==> local_rule_ok(#[trigger] a@[i])
}

/// `r` is what an optional list of local rules reads as.
pub open spec fn opt_locals_is(o: Option<JsonValue>, r: Option<Vec<LocalWhitelistRule>>) -> bool {
    if absent(o) {
        r is None
    } else {
        match (o, r) {
            (Some(JsonValue::Array(a)), Some(x)) => x@.len() == a.len() && forall|i: int|
                0 <= i < a.len() ==> local_rule_is(#[trigger] a@[i], x@[i]),
            _ => false,
        }
    }
}

/// A whitelist document: an object whose `global` and `local` are absent or
/// well formed.
pub open spec fn config_ok(v: JsonValue) -> bool {
    &&& v is Object
    &&& opt_rules_ok(field(v, "global"@))
    &&& opt_locals_ok(field(v, "local"@))
}

/// `c` is what the whitelist document `v` reads as.
pub open spec fn config_is(v: JsonValue, c: WhitelistConfig) -> bool {
    &&& opt_rules_is(field(v, "global"@), c.global)
    &&& opt_locals_is(field(v, "local"@), c.local)
}

/// Reads a rule set.
fn read_rules(v: &JsonValue) -> (r: Option<WhitelistRules>)
    ensures
        r is Some <==> rules_ok(*v),
        r matches Some(x) ==> rules_is(*v, x),
{
    if !matches!(v, JsonValue::Object(_)) {
        return None;
    }
    let headers = read_opt_texts(field_of(v, "headers"));
    let payload_keys = read_opt_texts(field_of(v, "payload_keys"));
    match (headers, payload_keys) {
        (Ok(h), Ok(p)) => Some(WhitelistRules { headers: h, payload_keys: p }),
        _ => None,
    }
}

/// Reads a local rule.
fn read_local_rule(v: &JsonValue) -> (r: Option<LocalWhitelistRule>)
    ensures
        r is Some <==> local_rule_ok(*v),
        r matches Some(x) ==> local_rule_is(*v, x),
{
    if !matches!(v, JsonValue::Object(_)) {
        return None;
    }
    let host = read_opt_text(field_of(v, "host"));
    let url = read_opt_text(field_of(v, "url"));
    let headers = read_opt_texts(field_of(v, "headers"));
    let payload_keys = read_opt_texts(field_of(v, "payload_keys"));
    match (host, url, headers, payload_keys) {
        (Ok(ho), Ok(u), Ok(h), Ok(p)) => Some(
            LocalWhitelistRule { host: ho, url: u, headers: h, payload_keys: p },
        ),
        _ => None,
    }
}

/// A list with a malformed local rule is malformed.
proof fn lemma_bad_local(a: Vec<JsonValue>, i: int)
    requires
        0 <= i < a@.len(),
        !local_rule_ok(a@[i]),
    ensures
        !opt_locals_ok(Some(JsonValue::Array(a))),
{
    let v = JsonValue::Array(a);
    assert(v->Array_0 == a);
    assert(locals_ok(v) ==> local_rule_ok(a@[i]));
}

/// Reads a whitelist document.
fn read_config(v: &JsonValue) -> (r: Option<WhitelistConfig>)
    ensures
        r is Some <==> config_ok(*v),
        r matches Some(c) ==> config_is(*v, c),
{
    if !matches!(v, JsonValue::Object(_)) {
        return None;
    }
    let g = field_of(v, "global");
    let global = if is_absent(g) {
        None
    } else {
        match g {
            Some(gv) => match read_rules(gv) {
                Some(x) => Some(x),
                None => {
                    return None;
                },
            },
            None => None,
        }
    };
    let l = field_of(v, "local");
    let local = if is_absent(l) {
        None
    } else {
        match l {
            Some(JsonValue::Array(a)) => {
                let mut rules: Vec<LocalWhitelistRule> = Vec::new();
                let mut i: usize = 0;
                while i < a.len()
                    invariant
                        field(*v, "local"@) == Some(JsonValue::Array(*a)),
                        i <= a@.len(),
                        rules@.len() == i,
                        forall|k: int| 0 <= k < i ==> local_rule_ok(#[trigger] a@[k]),
                        forall|k: int| 0 <= k < i ==> local_rule_is(#[trigger] a@[k], rules@[k]),
                    decreases a@.len() - i,
                {
                    match read_local_rule(&a[i]) {
                        Some(rule) => {
                            rules.push(rule);
                        },
                        None => {
                            proof {
                                lemma_bad_local(*a, i as int);
                            }
                            return None;
                        },
                    }
                    i = i + 1;
                }
                Some(rules)
            },
            _ => {
                return None;
            },
        }
    };
    Some(WhitelistConfig { global, local })
}

/// Reads a whitelist configuration from its JSON text. Text that is not JSON,
/// or JSON of another shape, is an error: nothing is read in part.
pub fn parse_whitelist_config(content: &str) -> (r: Result<WhitelistConfig, ParseError>)
    ensures
        match parsed_json(content@) {
            None => r == Err::<WhitelistConfig, ParseError>(ParseError::NotJson),
            Some(v) => {
                &&& r is Ok <==> config_ok(v)
                &&& !config_ok(v) ==> r == Err::<WhitelistConfig, ParseError>(
                    ParseError::BadStructure,
                )
                &&& match r {
                    Ok(c) => config_is(v, c),
                    Err(_) => true,
                }
            },
        },
{
    match parse_json(content) {
        Some(v) => match read_config(&v) {
            Some(c) => Ok(c),
            None => Err(ParseError::BadStructure),
        },
        None => Err(ParseError::NotJson),
    }
}

} // verus!
