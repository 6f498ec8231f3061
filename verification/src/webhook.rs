//! The webhook relay leaf: a route that pushes updates to a remote URL.
//!
//! The network call itself is an external collaborator; the router only
//! decides that a relay leg has to happen and records to which URL. The
//! embedding program performs the recorded legs.

use vstd::prelude::*;

use serde_json::Value;

use crate::describe::{doc_model, DocModel, RouteDoc};

use vstd::string::StringExecFns;

verus! {

/// A push-style leaf: updates delivered here are relayed to `url`.
pub struct WebhookRoute {
    pub url: String,
}

impl WebhookRoute {
    /// A relay leaf for `url`.
    pub fn new(url: String) -> (r: WebhookRoute)
        ensures
            r.url@ == url@,
    {
        WebhookRoute { url }
    }

    /// One-line self-description.
    pub fn print(&self) -> (r: String)
        ensures
            r@ == "webhook: "@ + self.url@,
    {
        let mut text = "webhook: ".to_owned();
        text.append(self.url.as_str());
        text
    }

    /// Self-description: a relay leaf names its target URL.
    pub fn json_struct(&self) -> (r: RouteDoc)
        ensures
            doc_model(r) == (DocModel::Webhook { url: self.url@ }),
    {
        RouteDoc::Webhook { url: self.url.clone() }
    }
}

/// One outbound relay leg the router has decided on: send `update` to `url`.
/// The embedding program owns the network call, retries and timeouts.
pub struct RelayAction {
    pub url: String,
    pub update: Value,
}

/// Mathematical model of a relay leg.
pub struct RelayModel {
    pub url: Seq<char>,
    pub update: Value,
}

impl View for RelayAction {
    type V = RelayModel;

    open spec fn view(&self) -> RelayModel {
        RelayModel { url: self.url@, update: self.update }
    }
}

} // verus!
