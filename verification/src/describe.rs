//! Structured self-description of a route tree.
//!
//! `describe`-style management commands return a document naming each
//! strategy and recursively describing its children. The document is plain
//! data; the embedding program renders it (for example as JSON).

use vstd::prelude::*;

verus! {

/// The description document of a route (sub)tree.
pub enum RouteDoc {
    /// A long-poll queue leaf and the path it serves.
    Longpoll { path: String },
    /// A webhook relay leaf and its target URL.
    Webhook { url: String },
    /// A composite strategy: its name and its children's documents in child
    /// order.
    Balancer { name: String, routes: Vec<RouteDoc> },
}

/// Mathematical model of a description document.
pub enum DocModel {
    Longpoll { path: Seq<char> },
    Webhook { url: Seq<char> },
    Balancer { name: Seq<char>, routes: Seq<DocModel> },
}

/// The model of a document.
pub open spec fn doc_model(d: RouteDoc) -> DocModel
    decreases d,
{
    match d {
        RouteDoc::Longpoll { path } => DocModel::Longpoll { path: path@ },
        RouteDoc::Webhook { url } => DocModel::Webhook { url: url@ },
        RouteDoc::Balancer { name, routes } => DocModel::Balancer {
            name: name@,
            routes: docs_of(routes@),
        },
    }
}

/// The models of a list of documents, in order.
pub open spec fn docs_of(s: Seq<RouteDoc>) -> Seq<DocModel>
    decreases s,
{
    if s.len() == 0 {
        Seq::empty()
    } else {
        docs_of(s.drop_last()).push(doc_model(s.last()))
    }
}

/// `docs_of` is the pointwise model of the list.
pub proof fn lemma_docs_of(s: Seq<RouteDoc>)
    ensures
        docs_of(s).len() == s.len(),
        forall|i: int| 0 <= i < s.len() ==> docs_of(s)[i] == doc_model(s[i]),
    decreases s,
{
    if s.len() > 0 {
        lemma_docs_of(s.drop_last());
    }
}

} // verus!
