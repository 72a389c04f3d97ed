//! The rules built into the system: a TLS probe, a plain HTTP GET probe,
//! and an nginx banner detector.
//!
//! The network probing itself (TCP connects, TLS handshakes, HTTP requests)
//! runs in the driver outside the library.  What lives here is everything
//! the planner and the verifier can hold to account: each rule's identity,
//! dependencies, port hints and loudness, the shape of each rule's result,
//! and the nginx banner grammar.

use vstd::prelude::*;
use vstd::string::StrSliceExecFns;
use vstd::string::StringExecFns;

use crate::service_detection::framework::{
    PortHint, PortLikeliness, Rule, RuleId, RuleLoudness, ServiceDetectionCertainty,
    ServiceDetectionConclusion,
};

verus! {

/// The stable identity of the TLS probe.
pub const SSL_PROBE_RULE_ID: u64 = 1;

/// The stable identity of the HTTP GET probe.
pub const HTTP_GET_PROBE_RULE_ID: u64 = 2;

/// The stable identity of the nginx banner detector.
pub const NGINX_DETECTION_RULE_ID: u64 = 3;

/// A very simple probe to see whether SSL or TLS is enabled on the port.
/// It discovers no service on its own; it guides other rules.
#[derive(Clone, Debug)]
pub struct BasicSSLProbe {}

/// The recognizer of the TLS probe's rule record.
pub open spec fn is_ssl_probe_rule(r: Rule) -> bool {
    &&& r.id == (RuleId { internal: SSL_PROBE_RULE_ID })
    &&& r.dependencies@.len() == 0
    &&& forall|p: u16| r.applies_to(p) <==> p < u16::MAX
    &&& r.loudness == RuleLoudness::Standard
    &&& r.requires_privileged_access == false
}

impl BasicSSLProbe {
    /// The rule record of the TLS probe: no dependencies, any port,
    /// standard loudness.
    pub fn new() -> (r: Rule)
        ensures
            is_ssl_probe_rule(r),
    {
        let mut hints: Vec<PortHint> = Vec::new();
        hints.push(PortHint::any());
        let r = Rule {
            id: RuleId::new(SSL_PROBE_RULE_ID),
            dependencies: Vec::new(),
            port_hints: hints,
            loudness: RuleLoudness::Standard,
            requires_privileged_access: false,
        };
        proof {
            assert forall|p: u16| r.applies_to(p) <==> p < u16::MAX by {
                if p < u16::MAX {
                    assert(r.port_hints@[0].covers(p));
                }
            }
        }
        r
    }
}

/// The result of the TLS probe.
#[derive(Clone, Debug)]
pub struct BasicSSLProbeResult {
    /// Whether TLS or SSL is enabled on this port.
    pub ssl_enabled: bool,
}

/// Which ports the HTTP GET probe is willing to run against: the standard
/// web ports, the common alternate, and a short run of unusual alternates.
pub open spec fn http_probe_covers(p: u16) -> bool {
    p == 80 || p == 443 || p == 8080 || (8081 <= p < 8089)
}

/// The recognizer of the HTTP GET probe's rule record.
pub open spec fn is_http_probe_rule(r: Rule) -> bool {
    &&& r.id == (RuleId { internal: HTTP_GET_PROBE_RULE_ID })
    &&& r.dependencies@ == seq![RuleId { internal: SSL_PROBE_RULE_ID }]
    &&& forall|p: u16| r.applies_to(p) <==> http_probe_covers(p)
    &&& r.loudness == RuleLoudness::Standard
    &&& r.requires_privileged_access == false
}

/// A simple HTTP GET request for the root document.  It captures the
/// output to be analyzed by other rules and reaches no conclusion of its
/// own.
#[derive(Clone, Debug)]
pub struct BasicHttpGetProbe {}

impl BasicHttpGetProbe {
    /// The rule record of the HTTP GET probe: depends on the TLS probe,
    /// covers the web ports, standard loudness.
    pub fn new() -> (r: Rule)
        ensures
            is_http_probe_rule(r),
    {
        let mut dependencies: Vec<RuleId> = Vec::new();
        dependencies.push(RuleId::new(SSL_PROBE_RULE_ID));
        let mut hints: Vec<PortHint> = Vec::new();
        hints.push(PortHint::new(80, PortLikeliness::Standard));
        hints.push(PortHint::new(443, PortLikeliness::Standard));
        hints.push(PortHint::new(8080, PortLikeliness::Common));
        hints.push(
            PortHint::new_from_range(
                core::ops::Range { start: 8081, end: 8089 },
                PortLikeliness::Unusual,
            ),
        );
        let r = Rule {
            id: RuleId::new(HTTP_GET_PROBE_RULE_ID),
            dependencies,
            port_hints: hints,
            loudness: RuleLoudness::Standard,
            requires_privileged_access: false,
        };
        proof {
            assert(r.dependencies@ =~= seq![RuleId { internal: SSL_PROBE_RULE_ID }]);
            assert forall|p: u16| r.applies_to(p) <==> http_probe_covers(p) by {
                if http_probe_covers(p) {
                    if p == 80 {
                        assert(r.port_hints@[0].covers(p));
                    } else if p == 443 {
                        assert(r.port_hints@[1].covers(p));
                    } else if p == 8080 {
                        assert(r.port_hints@[2].covers(p));
                    } else {
                        assert(r.port_hints@[3].covers(p));
                    }
                    assert(r.applies_to(p));
                }
                if r.applies_to(p) {
                    let k = choose|k: int|
                        0 <= k < r.port_hints@.len() && (#[trigger] r.port_hints@[k]).covers(p);
                    assert(http_probe_covers(p));
                }
            }
        }
        r
    }
}

/// The captured result of a GET request for the root document.
#[derive(Clone, Debug)]
pub struct BasicHttpGetProbeResult {
    /// The status code of the response.
    pub status_code: u16,
    /// Every header of the response, in response order: the name as text
    /// and the value as raw bytes.
    pub headers: Vec<(String, Vec<u8>)>,
}

/// The recognizer of the nginx detector's rule record.
pub open spec fn is_nginx_rule(r: Rule) -> bool {
    &&& r.id == (RuleId { internal: NGINX_DETECTION_RULE_ID })
    &&& r.dependencies@ == seq![RuleId { internal: HTTP_GET_PROBE_RULE_ID }]
    &&& forall|p: u16| r.applies_to(p) <==> p < u16::MAX
    &&& r.loudness == RuleLoudness::Silent
    &&& r.requires_privileged_access == false
}

/// Detects whether an nginx instance listens on the port.  It makes no
/// network requests of its own: it only examines the headers captured by
/// [`BasicHttpGetProbe`] and looks for nginx banners, extracting the
/// version number when possible.
#[derive(Clone, Debug)]
pub struct NginxDetectionRule {}

impl NginxDetectionRule {
    /// The rule record of the nginx detector: depends on the HTTP GET
    /// probe, applies anywhere, silent.
    pub fn new() -> (r: Rule)
        ensures
            is_nginx_rule(r),
    {
        let mut dependencies: Vec<RuleId> = Vec::new();
        dependencies.push(RuleId::new(HTTP_GET_PROBE_RULE_ID));
        let mut hints: Vec<PortHint> = Vec::new();
        hints.push(PortHint::any());
        let r = Rule {
            id: RuleId::new(NGINX_DETECTION_RULE_ID),
            dependencies,
            port_hints: hints,
            loudness: RuleLoudness::Silent,
            requires_privileged_access: false,
        };
        proof {
            assert(r.dependencies@ =~= seq![RuleId { internal: HTTP_GET_PROBE_RULE_ID }]);
            assert forall|p: u16| r.applies_to(p) <==> p < u16::MAX by {
                if p < u16::MAX {
                    assert(r.port_hints@[0].covers(p));
                }
            }
        }
        r
    }

    /// Run the detector over a captured HTTP result.
    pub fn evaluate(&self, http: &BasicHttpGetProbeResult) -> (r: NginxDetectionRuleResult)
        ensures
            match spec_nginx_version(*http) {
                Some(v) => {
                    &&& r.conclusion matches Some(c)
                    &&& (r.conclusion matches Some(c) ==> {
                        &&& c.certainty == ServiceDetectionCertainty::Advertised
                        &&& c.service_name@ == "nginx HTTP server"@
                        &&& c.service_version matches Some(ver)
                        &&& (c.service_version matches Some(ver) ==> ver@ == v)
                    })
                },
                None => r.conclusion is None,
            },
    {
        let server = find_server_header(&http.headers);
        match server {
            None => NginxDetectionRuleResult { conclusion: None },
            Some(bytes) => {
                let copied = clone_bytes(bytes);
                match utf8_to_string(copied) {
                    None => NginxDetectionRuleResult { conclusion: None },
                    Some(text) => {
                        match parse_nginx_server_header(text.as_str()) {
                            None => NginxDetectionRuleResult { conclusion: None },
                            Some(version) => NginxDetectionRuleResult {
                                conclusion: Some(
                                    ServiceDetectionConclusion {
                                        certainty: ServiceDetectionCertainty::Advertised,
                                        service_name: String::from_str("nginx HTTP server"),
                                        service_version: Some(version),
                                    },
                                ),
                            },
                        }
                    },
                }
            },
        }
    }
}

/// The result of a run of [`NginxDetectionRule`].
#[derive(Clone, Debug)]
pub struct NginxDetectionRuleResult {
    /// The conclusion, when a banner was recognized.
    pub conclusion: Option<ServiceDetectionConclusion>,
}

impl NginxDetectionRuleResult {
    /// A result that recognized nothing.
    pub fn no_conclusion() -> (r: Self)
        ensures
            r.conclusion is None,
    {
        Self { conclusion: None }
    }
}

/// All rules that exist in the system, fed to the planner to build an
/// initial per-port plan.
pub fn get_all_rules() -> (r: Vec<Rule>)
    ensures
        r@.len() == 3,
        is_ssl_probe_rule(r@[0]),
        is_http_probe_rule(r@[1]),
        is_nginx_rule(r@[2]),
{
    let mut rules: Vec<Rule> = Vec::new();
    rules.push(BasicSSLProbe::new());
    rules.push(BasicHttpGetProbe::new());
    rules.push(NginxDetectionRule::new());
    rules
}

/// Whether a header name reads `server`, ignoring ASCII case, as header
/// names are case-insensitive on the wire.
pub open spec fn is_server_name(name: Seq<char>) -> bool {
    &&& name.len() == 6
    &&& (name[0] == 's' || name[0] == 'S')
    &&& (name[1] == 'e' || name[1] == 'E')
    &&& (name[2] == 'r' || name[2] == 'R')
    &&& (name[3] == 'v' || name[3] == 'V')
    &&& (name[4] == 'e' || name[4] == 'E')
    &&& (name[5] == 'r' || name[5] == 'R')
}

/// The value of the first header named `server` in any ASCII case, if any.
pub open spec fn spec_server_header(headers: Seq<(String, Vec<u8>)>) -> Option<Seq<u8>>
    decreases headers.len(),
{
    if headers.len() == 0 {
        None
    } else if is_server_name(headers[0].0@) {
        Some(headers[0].1@)
    } else {
        spec_server_header(headers.drop_first())
    }
}

/// Whether a header name reads `server`, ignoring ASCII case.
fn name_is_server(name: &String) -> (r: bool)
    ensures
        r == is_server_name(name@),
{
    let name = name.as_str();
    if name.unicode_len() != 6 {
        return false;
    }
    let c0 = name.get_char(0);
    let c1 = name.get_char(1);
    let c2 = name.get_char(2);
    let c3 = name.get_char(3);
    let c4 = name.get_char(4);
    let c5 = name.get_char(5);
    (c0 == 's' || c0 == 'S') && (c1 == 'e' || c1 == 'E') && (c2 == 'r' || c2 == 'R') && (c3 == 'v'
        || c3 == 'V') && (c4 == 'e' || c4 == 'E') && (c5 == 'r' || c5 == 'R')
}

/// Find the first `server` header in a captured header list.
fn find_server_header(headers: &Vec<(String, Vec<u8>)>) -> (r: Option<&Vec<u8>>)
    ensures
        match r {
            Some(v) => spec_server_header(headers@) == Some(v@),
            None => spec_server_header(headers@) is None,
        },
{
    let mut i: usize = 0;
    proof {
        assert(headers@.skip(0int) =~= headers@);
    }
    while i < headers.len()
        invariant
            i <= headers@.len(),
            spec_server_header(headers@) == spec_server_header(headers@.skip(i as int)),
        decreases headers@.len() - i,
    {
        proof {
            assert(headers@.skip(i as int)[0] == headers@[i as int]);
            assert(headers@.skip(i as int).drop_first() =~= headers@.skip(i + 1int));
        }
        if name_is_server(&headers[i].0) {
            return Some(&headers[i].1);
        }
        i = i + 1;
    }
    proof {
        assert(headers@.skip(headers@.len() as int).len() == 0);
    }
    None
}

/// Copy a byte vector.
fn clone_bytes(v: &Vec<u8>) -> (r: Vec<u8>)
    ensures
        r@ == v@,
{
    let mut out: Vec<u8> = Vec::new();
    let mut i: usize = 0;
    while i < v.len()
        invariant
            i <= v@.len(),
            out@ == v@.take(i as int),
        decreases v@.len() - i,
    {
        out.push(v[i]);
        i = i + 1;
        proof {
            assert(out@ =~= v@.take(i as int));
        }
    }
    proof {
        assert(v@.take(v@.len() as int) =~= v@);
    }
    out
}

/// What a byte string says when read as UTF-8, when it is valid UTF-8.
/// The decoding depends on the bytes alone.
pub uninterp spec fn decoded_utf8(bytes: Seq<u8>) -> Option<Seq<char>>;

/// Relies on String::from_utf8: it succeeds exactly on valid UTF-8 input,
/// and the decoded text is a function of the bytes alone.
#[verifier::external_body]
fn utf8_to_string(bytes: Vec<u8>) -> (r: Option<String>)
    ensures
        r matches Some(s) ==> decoded_utf8(bytes@) == Some(s@),
        r is None ==> decoded_utf8(bytes@) is None,
{
    String::from_utf8(bytes).ok()
}

/// The banner prefix every recognized `server` header starts with.
pub open spec fn nginx_prefix() -> Seq<char> {
    seq!['n', 'g', 'i', 'n', 'x', '/']
}

/// The position of the first space at or after `from`, or -1 when there is
/// none.
pub open spec fn spec_find_space(s: Seq<char>, from: int) -> int
    decreases s.len() - from when 0 <= from <= s.len()
{
    if from >= s.len() {
        -1
    } else if s[from] == ' ' {
        from
    } else {
        spec_find_space(s, from + 1)
    }
}

/// The nginx banner grammar: the text must open with `nginx/`; the version
/// is everything from there to the first space.  A banner without a space
/// after the version is not recognized.
pub open spec fn spec_parse_nginx_server_header(s: Seq<char>) -> Option<Seq<char>> {
    if s.len() >= 6 && s.subrange(0, 6) == nginx_prefix() {
        let k = spec_find_space(s, 6);
        if k >= 0 {
            Some(s.subrange(6, k))
        } else {
            None
        }
    } else {
        None
    }
}

/// Parse an nginx `server` header, returning the advertised version.
pub fn parse_nginx_server_header(input: &str) -> (r: Option<String>)
    ensures
        match r {
            Some(v) => spec_parse_nginx_server_header(input@) == Some(v@),
            None => spec_parse_nginx_server_header(input@) is None,
        },
{
    let n = input.unicode_len();
    if n < 6 {
        return None;
    }
    if !(input.get_char(0) == 'n' && input.get_char(1) == 'g' && input.get_char(2) == 'i'
        && input.get_char(3) == 'n' && input.get_char(4) == 'x' && input.get_char(5) == '/') {
        proof {
            assert(input@.subrange(0, 6) != nginx_prefix());
        }
        return None;
    }
    proof {
        assert(input@.subrange(0, 6) =~= nginx_prefix());
    }
    let mut j: usize = 6;
    while j < n
        invariant
            6 <= j <= n == input@.len(),
            input@.subrange(0, 6) == nginx_prefix(),
            spec_find_space(input@, 6) == spec_find_space(input@, j as int),
        decreases n - j,
    {
        if input.get_char(j) == ' ' {
            let version = input.substring_char(6, j).to_owned();
            return Some(version);
        }
        j = j + 1;
    }
    None
}

/// The version the nginx detector would report for a captured HTTP result:
/// the parsed banner of its `server` header, when the header exists, is
/// valid UTF-8 and carries the banner grammar.
pub open spec fn spec_nginx_version(http: BasicHttpGetProbeResult) -> Option<Seq<char>> {
    match spec_server_header(http.headers@) {
        None => None,
        Some(bytes) => match decoded_utf8(bytes) {
            None => None,
            Some(text) => spec_parse_nginx_server_header(text),
        },
    }
}

} // verus!
