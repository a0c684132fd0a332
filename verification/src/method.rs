//! The request method.

use crate::text::same_text;
use vstd::prelude::*;

verus! {

/// The verb of a request: one of the three that are known by name, or any
/// other, kept as it was written.
#[derive(Debug, Clone)]
pub enum Method {
    GET,
    OPTIONS,
    HEAD,
    Other(String),
}

/// What a [`Method`] stands for.
pub enum MethodView {
    Get,
    Options,
    Head,
    Other(Seq<char>),
}

impl View for Method {
    type V = MethodView;

    open spec fn view(&self) -> MethodView {
        match self {
            Method::GET => MethodView::Get,
            Method::OPTIONS => MethodView::Options,
            Method::HEAD => MethodView::Head,
            Method::Other(verb) => MethodView::Other(verb@),
        }
    }
}

/// The method that a verb names. The match is exact and minds the case.
pub open spec fn resolved(verb: Seq<char>) -> MethodView {
    if verb == "GET"@ {
        MethodView::Get
    } else if verb == "OPTIONS"@ {
        MethodView::Options
    } else if verb == "HEAD"@ {
        MethodView::Head
    } else {
        MethodView::Other(verb)
    }
}

/// The verb by which a method is written.
pub open spec fn verb_of(method: MethodView) -> Seq<char> {
    match method {
        MethodView::Get => "GET"@,
        MethodView::Options => "OPTIONS"@,
        MethodView::Head => "HEAD"@,
        MethodView::Other(verb) => verb,
    }
}

/// Resolving a verb and writing the method out again gives the verb back.
pub proof fn lemma_verb_kept(verb: Seq<char>)
    ensures
        verb_of(resolved(verb)) == verb,
{
}

/// Only a verb other than the three known ones resolves to `Other`, and it
/// is kept as it stands.
pub proof fn lemma_unknown_verb_kept(verb: Seq<char>)
    requires
        verb != "GET"@,
        verb != "OPTIONS"@,
        verb != "HEAD"@,
    ensures
        resolved(verb) == MethodView::Other(verb),
{
}

impl Method {
    /// Resolves a verb.
    pub fn from_token(verb: &str) -> (method: Method)
        ensures
            method@ == resolved(verb@),
    {
        if same_text(verb, "GET") {
            Method::GET
        } else if same_text(verb, "OPTIONS") {
            Method::OPTIONS
        } else if same_text(verb, "HEAD") {
            Method::HEAD
        } else {
            Method::Other(verb.to_string())
        }
    }

    /// The verb by which the method is written.
    pub fn as_str(&self) -> (verb: &str)
        ensures
            verb@ == verb_of(self@),
    {
        match self {
            Method::GET => "GET",
            Method::OPTIONS => "OPTIONS",
            Method::HEAD => "HEAD",
            Method::Other(verb) => verb.as_str(),
        }
    }
}

} // verus!
