//! Which requests the proxy answers, and what answers them.

use vstd::prelude::*;

use crate::proxy::Method;

verus! {

/// What answers a request.
#[derive(Debug, Clone, Copy, PartialEq, Eq, Structural)]
pub enum Endpoint {
    ProxyModelRequest,
    ListModels,
    Health,
    GetProps,
    Register,
}

/// A method and a path, and what answers requests with them.
pub struct Route {
    pub method: Method,
    pub path: String,
    pub endpoint: Endpoint,
}

impl View for Route {
    type V = (Method, Seq<char>, Endpoint);

    open spec fn view(&self) -> (Method, Seq<char>, Endpoint) {
        (self.method, self.path@, self.endpoint)
    }
}

/// All routes of the proxy.
pub open spec fn route_table() -> Seq<(Method, Seq<char>, Endpoint)> {
    seq![
        (Method::Post, "/v1/chat/completions"@, Endpoint::ProxyModelRequest),
        (Method::Post, "/v1/completions"@, Endpoint::ProxyModelRequest),
        (Method::Post, "/v1/embeddings"@, Endpoint::ProxyModelRequest),
        (Method::Post, "/v1/rerank"@, Endpoint::ProxyModelRequest),
        (Method::Post, "/v1/messages"@, Endpoint::ProxyModelRequest),
        (Method::Post, "/v1/messages/count_tokens"@, Endpoint::ProxyModelRequest),
        (Method::Get, "/v1/models"@, Endpoint::ListModels),
        (Method::Get, "/health"@, Endpoint::Health),
        (Method::Get, "/props"@, Endpoint::GetProps),
        (Method::Post, "/register"@, Endpoint::Register),
    ]
}

fn route(method: Method, path: &str, endpoint: Endpoint) -> (r: Route)
    ensures
        r@ == (method, path@, endpoint),
{
    Route { method, path: path.to_owned(), endpoint }
}

/// All routes of the proxy.
pub fn routes() -> (r: Vec<Route>)
    ensures
        r@.map_values(|route: Route| route@) == route_table(),
{
    let mut all: Vec<Route> = Vec::new();
    all.push(route(Method::Post, "/v1/chat/completions", Endpoint::ProxyModelRequest));
    all.push(route(Method::Post, "/v1/completions", Endpoint::ProxyModelRequest));
    all.push(route(Method::Post, "/v1/embeddings", Endpoint::ProxyModelRequest));
    all.push(route(Method::Post, "/v1/rerank", Endpoint::ProxyModelRequest));
    all.push(route(Method::Post, "/v1/messages", Endpoint::ProxyModelRequest));
    all.push(route(Method::Post, "/v1/messages/count_tokens", Endpoint::ProxyModelRequest));
    all.push(route(Method::Get, "/v1/models", Endpoint::ListModels));
    all.push(route(Method::Get, "/health", Endpoint::Health));
    all.push(route(Method::Get, "/props", Endpoint::GetProps));
    all.push(route(Method::Post, "/register", Endpoint::Register));
    proof {
        assert(all@.map_values(|route: Route| route@) =~= route_table());
    }
    all
}

/// Whether a client needs a token to get an answer from an endpoint. Only hosts
/// register without one.
pub open spec fn needs_token(endpoint: Endpoint) -> bool {
    endpoint != Endpoint::Register
}

/// Whether a client needs a token to get an answer from an endpoint.
pub fn is_protected(endpoint: Endpoint) -> (r: bool)
    ensures
        r == needs_token(endpoint),
{
    match endpoint {
        Endpoint::Register => false,
        _ => true,
    }
}

/// Every route but `/register` needs a token, and every other `POST` goes to a
/// backend by way of its model.
pub proof fn only_registration_is_open(i: int)
    requires
        0 <= i < route_table().len(),
    ensures
        needs_token(route_table()[i].2) <==> route_table()[i].1 != "/register"@,
        route_table()[i].2 == Endpoint::ProxyModelRequest <==> route_table()[i].0 == Method::Post
            && route_table()[i].1 != "/register"@,
{
    reveal_strlit("/register");
    reveal_strlit("/v1/chat/completions");
    reveal_strlit("/v1/completions");
    reveal_strlit("/v1/embeddings");
    reveal_strlit("/v1/rerank");
    reveal_strlit("/v1/messages");
    reveal_strlit("/v1/messages/count_tokens");
    reveal_strlit("/v1/models");
    reveal_strlit("/health");
    reveal_strlit("/props");
    assert("/register"@[1] == 'r');
    assert(i < 9 ==> route_table()[i].1[1] != 'r') by {
        assert(i == 0 || i == 1 || i == 2 || i == 3 || i == 4 || i == 5 || i == 6 || i == 7 || i
            == 8 || i == 9);
    }
    assert(i == 9 ==> route_table()[i].1 == "/register"@);
}

} // verus!
