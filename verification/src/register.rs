//! How a host becomes a backend by registering itself.
//!
//! The host is asked for its health over HTTPS and, if that gives nothing, over
//! plain HTTP. It is taken up under the first URL that answers.

use serde_json::Value;
use vstd::prelude::*;

use crate::config::ServerEntry;
use crate::error::ErrorView;
use crate::error::JsonReply;
use crate::error::ProxyError;
use crate::json;
use crate::json::JsonView;
use crate::proxy;
use crate::proxy::forward_get;
use crate::proxy::Method;
use crate::proxy::OutgoingRequest;
use crate::proxy::OutgoingView;
use crate::state::DiscoveredHost;
use crate::text;
use crate::text::decimal_text;
use crate::text::chars_of;
use crate::text::find_char;

verus! {

#[derive(Debug, Clone, Copy, PartialEq, Eq, Structural)]
pub enum Scheme {
    Https,
    Http,
}

/// What to do next with a host that wants to register.
#[derive(Debug, Clone, Copy, PartialEq, Eq, Structural)]
pub enum Step {
    /// Ask for its health.
    Probe(Scheme),
    /// Take it up.
    Accept(Scheme),
    GiveUp,
}

/// What comes after asking over `scheme`.
pub open spec fn step_after(scheme: Scheme, healthy: bool) -> Step {
    if healthy {
        Step::Accept(scheme)
    } else {
        match scheme {
            Scheme::Https => Step::Probe(Scheme::Http),
            Scheme::Http => Step::GiveUp,
        }
    }
}

/// The first thing to do with a host that wants to register.
pub fn first_step() -> (r: Step)
    ensures
        r == Step::Probe(Scheme::Https),
{
    Step::Probe(Scheme::Https)
}

/// Whether a host is healthy that answered with this status, if it answered.
pub open spec fn healthy(status: Option<u16>) -> bool {
    status matches Some(code) && 200 <= code < 300
}

/// What to do after the host was asked for its health over `scheme` and answered
/// with `status`, if it did.
pub fn next_step(scheme: Scheme, status: Option<u16>) -> (r: Step)
    ensures
        r == step_after(scheme, healthy(status)),
{
    let healthy: bool = match status {
        Some(code) => 200 <= code && code < 300,
        None => false,
    };
    if healthy {
        Step::Accept(scheme)
    } else {
        match scheme {
            Scheme::Https => Step::Probe(Scheme::Http),
            Scheme::Http => Step::GiveUp,
        }
    }
}

pub open spec fn scheme_text(scheme: Scheme) -> Seq<char> {
    match scheme {
        Scheme::Https => "https://"@,
        Scheme::Http => "http://"@,
    }
}

/// A host and port as they stand in a URL: an IPv6 address goes in brackets.
pub open spec fn authority(host: Seq<char>, port: u16) -> Seq<char> {
    let named = if host.contains(':') {
        "["@ + host + "]"@
    } else {
        host
    };
    named + ":"@ + text::decimal(port as nat)
}

/// The URL under which a host is asked over `scheme`.
pub open spec fn host_url(scheme: Scheme, host: &DiscoveredHost) -> Seq<char> {
    scheme_text(scheme) + authority(host.host@, host.port)
}

pub fn base_url(scheme: Scheme, host: &DiscoveredHost) -> (r: String)
    ensures
        r@ == host_url(scheme, host),
{
    let mut url: String = match scheme {
        Scheme::Https => "https://".to_owned(),
        Scheme::Http => "http://".to_owned(),
    };
    let ghost prefix = url@;
    proof {
        text::first_index_is_first(host.host@, ':');
    }
    let chars: Vec<char> = chars_of(host.host.as_str());
    proof {
        assert(chars@.subrange(0, chars@.len() as int) =~= host.host@);
    }
    if find_char(&chars, 0, chars.len(), ':') < chars.len() {
        url.append("[");
        url.append(host.host.as_str());
        url.append("]");
        proof {
            assert(host.host@.contains(':'));
            assert(url@ =~= prefix + ("["@ + host.host@ + "]"@));
        }
    } else {
        url.append(host.host.as_str());
        proof {
            assert(!host.host@.contains(':'));
        }
    }
    url.append(":");
    url.append(decimal_text(host.port as u64).as_str());
    proof {
        assert(url@ =~= host_url(scheme, host));
    }
    url
}

/// The request that asks a host for its health.
pub fn health_request(scheme: Scheme, host: &DiscoveredHost) -> (r: OutgoingRequest)
    ensures
        r@ == (OutgoingView {
            method: Method::Get,
            url: proxy::backend_url(host_url(scheme, host), "/health"@),
            bearer: Some(host.api_key@),
            content_type: None,
        }),
{
    let server: ServerEntry = ServerEntry::WithToken {
        url: base_url(scheme, host),
        token: host.api_key.clone(),
    };
    forward_get(&server, "/health")
}

/// The answer to a host that was taken up.
pub fn registered_reply(base_url: &str) -> (r: JsonReply)
    ensures
        r.status == 201,
        json::json_of(r.body) == JsonView::Object(
            Map::empty().insert("url"@, JsonView::Text(base_url@)),
        ),
{
    let mut body: Value = json::json_object();
    json::json_set(&mut body, "url", json::json_text(base_url.to_owned()));
    JsonReply { status: 201, body }
}

/// The error for a host that answered over neither scheme.
pub fn unreachable_host(host: &DiscoveredHost) -> (r: ProxyError)
    ensures
        r@ == ErrorView::BackendUnavailable(
            "no healthy server at "@ + host.host@ + ":"@ + text::decimal(host.port as nat),
        ),
{
    let mut message: String = "no healthy server at ".to_owned();
    message.append(host.host.as_str());
    message.append(":");
    message.append(decimal_text(host.port as u64).as_str());
    ProxyError::BackendUnavailable(message)
}

/// Where asking a host over both schemes ends, given over which it is healthy.
pub open spec fn outcome(https: bool, http: bool) -> Step {
    match step_after(Scheme::Https, https) {
        Step::Probe(scheme) => step_after(scheme, http),
        done => done,
    }
}

/// A host is taken up exactly if it is healthy over HTTPS or over HTTP. HTTP is
/// what it falls back to: a host that is healthy over HTTPS is taken up so.
pub proof fn registration_falls_back_to_http(https: bool, http: bool)
    ensures
        outcome(https, http) == if https {
            Step::Accept(Scheme::Https)
        } else if http {
            Step::Accept(Scheme::Http)
        } else {
            Step::GiveUp
        },
{
}

/// A host is healthy exactly if it answered with a status in the two hundreds.
pub proof fn healthy_means_success(code: u16)
    ensures
        healthy(Some(code)) <==> code / 100 == 2,
        !healthy(None),
{
}

/// HTTPS is tried before HTTP, a host is taken up over the scheme over which it
/// answered, and after HTTP there is nothing left to try.
pub proof fn schemes_are_tried_in_turn(scheme: Scheme)
    ensures
        step_after(scheme, true) == Step::Accept(scheme),
        step_after(Scheme::Https, false) == Step::Probe(Scheme::Http),
        step_after(Scheme::Http, false) == Step::GiveUp,
{
}

/// The URL of a host is the scheme, the whole address and the port: an address with
/// colons stands in brackets, any other as it is.
pub proof fn hosts_are_reached_under_address_and_port(scheme: Scheme, host: DiscoveredHost)
    ensures
        ({
            let url = host_url(scheme, &host);
            let start = if scheme == Scheme::Https {
                "https://"@
            } else {
                "http://"@
            };
            let end = ":"@ + text::decimal(host.port as nat);
            &&& host.host@.contains(':') ==> url == start + "["@ + host.host@ + "]"@ + end
            &&& !host.host@.contains(':') ==> url == start + host.host@ + end
            &&& forall|path: Seq<char>| #[trigger] proxy::backend_url(url, path) == url + path
        }),
{
    let url = host_url(scheme, &host);
    let start = if scheme == Scheme::Https {
        "https://"@
    } else {
        "http://"@
    };
    let end = ":"@ + text::decimal(host.port as nat);
    if host.host@.contains(':') {
        assert(url =~= start + "["@ + host.host@ + "]"@ + end);
    } else {
        assert(url =~= start + host.host@ + end);
    }
    let digits = text::decimal(host.port as nat);
    text::decimals_read_back(host.port as nat);
    assert(url.last() == digits[digits.len() - 1]);
    assert forall|path: Seq<char>| #[trigger] proxy::backend_url(url, path) == url + path by {
        proxy::urls_are_base_and_path(url, 0, path);
        assert(url + Seq::new(0, |i: int| '/') =~= url);
    }
}

} // verus!
