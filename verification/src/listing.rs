//! A listing that the store answers page by page. The caller asks the store; this
//! module says what to ask next and when the catalog is complete.

use vstd::prelude::*;
use vstd::string::*;

use crate::catalog::{
    catalog_of, collect_names, lemma_names_of_parts, names_in, scope_of, Catalog, ListingPage,
};
use crate::error::RegistryError;
use crate::key::SEPARATOR;
use crate::order::strictly_ascending;
use crate::text::{text_of, texts_of};

verus! {

/// What to ask the store for.
#[derive(Clone, Debug, PartialEq, Eq)]
pub struct PageRequest {
    /// Only keys that start with this are wanted; all keys where it is `None`.
    pub prefix: Option<String>,
    /// The token that the page before gave; `None` for the first page.
    pub continuation_token: Option<String>,
}

/// What the caller of a listing does next.
#[derive(Clone, Debug, PartialEq, Eq)]
pub enum ListingStep {
    /// Ask the store for this page and come back with its answer.
    Fetch(PageRequest),
    /// The listing is complete: here is the catalog.
    Done(Catalog),
    /// The listing failed as a whole.
    Failed(RegistryError),
}

/// The prefix that scopes a listing: none for the distributions, the distribution and a
/// separator for its artifacts.
pub open spec fn prefix_of(scope: Option<Seq<char>>) -> Option<Seq<char>> {
    match scope {
        Some(d) => Some(d.push(SEPARATOR)),
        None => None,
    }
}

/// A listing under way: its scope and the names gathered from the pages seen so far.
pub struct Listing {
    distribution: Option<String>,
    names: Vec<String>,
    seen: Ghost<Seq<Option<Seq<char>>>>,
}

impl Listing {
    /// What is being listed: `None` for the distributions, else the distribution whose
    /// artifacts are wanted.
    pub closed spec fn scope(&self) -> Option<Seq<char>> {
        text_of(self.distribution)
    }

    /// The names gathered so far.
    pub closed spec fn gathered(&self) -> Set<Seq<char>> {
        texts_of(self.names@).to_set()
    }

    /// The keys of all pages taken so far, in the order in which the store listed them.
    pub closed spec fn keys_seen(&self) -> Seq<Option<Seq<char>>> {
        self.seen@
    }

    /// The names gathered so far are held in ascending order, each once, and they are
    /// the names of the keys of all pages taken so far.
    pub closed spec fn well_formed(&self) -> bool {
        &&& strictly_ascending(texts_of(self.names@))
        &&& texts_of(self.names@).to_set() == names_in(text_of(self.distribution), self.seen@)
    }

    fn prefix(&self) -> (prefix: Option<String>)
        ensures
            text_of(prefix) == prefix_of(self.scope()),
    {
        match &self.distribution {
            Some(d) => {
                let mut prefix = d.clone();
                prefix.append("/");
                proof {
                    reveal_strlit("/");
                    assert("/"@ =~= seq![SEPARATOR]);
                    assert(d@ + seq![SEPARATOR] =~= d@.push(SEPARATOR));
                }
                Some(prefix)
            },
            None => None,
        }
    }

    /// Starts a listing and says what to ask the store first.
    pub fn begin(distribution: Option<String>) -> (start: (Listing, PageRequest))
        ensures
            start.0.well_formed(),
            start.0.scope() == text_of(distribution),
            start.0.gathered() == Set::<Seq<char>>::empty(),
            start.0.keys_seen() == Seq::<Option<Seq<char>>>::empty(),
            text_of(start.1.prefix) == prefix_of(text_of(distribution)),
            start.1.continuation_token is None,
    {
        let listing = Listing { distribution, names: Vec::new(), seen: Ghost(Seq::empty()) };
        assert(texts_of(listing.names@).to_set() =~= Set::<Seq<char>>::empty());
        assert(names_in(text_of(listing.distribution), listing.seen@) =~= Set::<
            Seq<char>,
        >::empty());
        let prefix = listing.prefix();
        (listing, PageRequest { prefix, continuation_token: None })
    }

    /// Takes the store's answer to the last request.
    ///
    /// A failure fails the listing as a whole, whatever was gathered before. A page
    /// that names a next page adds its names and asks for that page. The last page
    /// adds its names and completes the catalog, which presents the names of the keys
    /// of all pages taken, from the first to this one.
    pub fn advance(&mut self, outcome: Result<ListingPage, String>) -> (step: ListingStep)
        requires
            old(self).well_formed(),
        ensures
            final(self).well_formed(),
            final(self).scope() == old(self).scope(),
            final(self).gathered() == names_in(final(self).scope(), final(self).keys_seen()),
            match outcome {
                Err(cause) => {
                    &&& step == ListingStep::Failed(RegistryError::StoreUnavailable(cause))
                    &&& final(self).gathered() == old(self).gathered()
                    &&& final(self).keys_seen() == old(self).keys_seen()
                },
                Ok(page) => {
                    &&& final(self).keys_seen() == old(self).keys_seen() + page.keys()
                    &&& final(self).gathered() == old(self).gathered().union(
                        names_in(old(self).scope(), page.keys()),
                    )
                    &&& match page.next_continuation_token {
                        Some(token) => {
                            &&& step matches ListingStep::Fetch(request)
                            &&& text_of(request.prefix) == prefix_of(old(self).scope())
                            &&& request.continuation_token == Some(token)
                        },
                        None => {
                            &&& step matches ListingStep::Done(catalog)
                            &&& catalog.presents(
                                old(self).scope(),
                                names_in(old(self).scope(), final(self).keys_seen()),
                            )
                        },
                    }
                },
            },
    {
        match outcome {
            Err(cause) => ListingStep::Failed(RegistryError::StoreUnavailable(cause)),
            Ok(page) => {
                let scope: Option<&str> = match &self.distribution {
                    Some(d) => Some(d.as_str()),
                    None => None,
                };
                assert(scope_of(scope) == self.scope());
                proof {
                    lemma_names_of_parts(self.scope(), self.seen@, page.keys());
                }
                collect_names(&mut self.names, &page, scope);
                self.seen = Ghost(self.seen@ + page.keys());
                match page.next_continuation_token {
                    Some(token) => {
                        let prefix = self.prefix();
                        ListingStep::Fetch(PageRequest { prefix, continuation_token: Some(token) })
                    },
                    None => ListingStep::Done(catalog_of(&self.names, scope)),
                }
            },
        }
    }
}

} // verus!
