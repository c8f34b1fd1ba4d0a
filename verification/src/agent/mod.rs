//! Commands that look something up in documents.
//!
//! A command is a [`skill::DocQuerySkill`]. It asks its sources (a directory, a
//! MediaWiki site, a repository) and answers with what they found, put together by a
//! language model where there is one.

pub mod http;
pub mod llm;
pub mod local;
pub mod repo;
pub mod skill;

use crate::text::Text;
use vstd::prelude::*;

verus! {

/// Something that was found. The locator says where: lines of a file, or an address.
#[derive(Debug, Clone)]
pub struct DocHit {
    pub title: String,
    pub locator: String,
    pub snippet: String,
}

/// What a [`DocHit`] holds.
pub struct DocHitV {
    pub title: Text,
    pub locator: Text,
    pub snippet: Text,
}

impl View for DocHit {
    type V = DocHitV;

    open spec fn view(&self) -> DocHitV {
        DocHitV { title: self.title@, locator: self.locator@, snippet: self.snippet@ }
    }
}

impl DocHit {
    /// The same hit again.
    pub fn copy(&self) -> (r: DocHit)
        ensures
            r@ == self@,
    {
        DocHit {
            title: self.title.clone(),
            locator: self.locator.clone(),
            snippet: self.snippet.clone(),
        }
    }
}

/// What a list of hits holds.
pub open spec fn hits_held(v: Seq<DocHit>) -> Seq<DocHitV> {
    Seq::new(v.len(), |i: int| v[i]@)
}

/// A source of documents.
pub trait DocumentSource {
    /// The name of the source.
    spec fn label(&self) -> Text;

    /// The name of the source.
    fn name(&self) -> (r: &String)
        ensures
            r@ == self.label(),
    ;
}

} // verus!
