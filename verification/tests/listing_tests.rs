use package_registry::catalog::{Catalog, CatalogEntry, ListingPage, StoredObject};
use package_registry::error::RegistryError;
use package_registry::listing::{Listing, ListingStep, PageRequest};

fn page(keys: &[&str], next: Option<&str>) -> ListingPage {
    ListingPage {
        contents: Some(
            keys.iter().map(|k| StoredObject { key: Some(k.to_string()) }).collect(),
        ),
        next_continuation_token: next.map(|t| t.to_string()),
    }
}

fn entry(name: &str, reference: &str) -> CatalogEntry {
    CatalogEntry { name: name.to_string(), reference: reference.to_string() }
}

fn request(prefix: Option<&str>, token: Option<&str>) -> PageRequest {
    PageRequest {
        prefix: prefix.map(|p| p.to_string()),
        continuation_token: token.map(|t| t.to_string()),
    }
}

#[test]
fn a_listing_of_distributions_starts_without_prefix_and_token() {
    let (_, first) = Listing::begin(None);
    assert_eq!(first, request(None, None));
}

#[test]
fn a_listing_of_artifacts_starts_with_the_prefix_of_the_distribution() {
    let (_, first) = Listing::begin(Some("foo".to_string()));
    assert_eq!(first, request(Some("foo/"), None));
}

#[test]
fn a_single_page_completes_the_catalog() {
    let (mut listing, _) = Listing::begin(None);
    let step = listing.advance(Ok(page(&["foo/1.0.0.tar.gz", "bar/1.0.0.tar.gz"], None)));
    assert_eq!(
        step,
        ListingStep::Done(Catalog {
            entries: vec![entry("bar", "/simple/bar/"), entry("foo", "/simple/foo/")],
        })
    );
}

#[test]
fn all_pages_are_fetched_before_the_catalog_is_given() {
    let (mut listing, _) = Listing::begin(None);
    let step = listing.advance(Ok(page(&["foo/1", "zeta/1"], Some("page-2"))));
    assert_eq!(step, ListingStep::Fetch(request(None, Some("page-2"))));
    let step = listing.advance(Ok(page(&["alpha/1", "foo/2"], Some("page-3"))));
    assert_eq!(step, ListingStep::Fetch(request(None, Some("page-3"))));
    let step = listing.advance(Ok(page(&["mid/1"], None)));
    assert_eq!(
        step,
        ListingStep::Done(Catalog {
            entries: vec![
                entry("alpha", "/simple/alpha/"),
                entry("foo", "/simple/foo/"),
                entry("mid", "/simple/mid/"),
                entry("zeta", "/simple/zeta/"),
            ],
        })
    );
}

#[test]
fn pages_of_artifacts_keep_prefix_and_scope() {
    let (mut listing, _) = Listing::begin(Some("foo".to_string()));
    let step = listing.advance(Ok(page(&["foo/", "foo/2.whl"], Some("more"))));
    assert_eq!(step, ListingStep::Fetch(request(Some("foo/"), Some("more"))));
    let step = listing.advance(Ok(page(&["foo/1.whl", "foo/2.whl"], None)));
    assert_eq!(
        step,
        ListingStep::Done(Catalog {
            entries: vec![entry("1.whl", "/simple/foo/1.whl"), entry("2.whl", "/simple/foo/2.whl")],
        })
    );
}

#[test]
fn a_failure_on_the_first_page_fails_the_listing() {
    let (mut listing, _) = Listing::begin(None);
    let step = listing.advance(Err("connection refused".to_string()));
    assert_eq!(
        step,
        ListingStep::Failed(RegistryError::StoreUnavailable("connection refused".to_string()))
    );
}

#[test]
fn a_failure_between_pages_fails_the_listing_and_gives_no_partial_catalog() {
    let (mut listing, _) = Listing::begin(None);
    let step = listing.advance(Ok(page(&["foo/1"], Some("page-2"))));
    assert_eq!(step, ListingStep::Fetch(request(None, Some("page-2"))));
    let step = listing.advance(Err("timed out".to_string()));
    assert_eq!(step, ListingStep::Failed(RegistryError::StoreUnavailable("timed out".to_string())));
}

#[test]
fn an_empty_store_completes_with_an_empty_catalog() {
    let (mut listing, _) = Listing::begin(None);
    let step = listing.advance(Ok(ListingPage { contents: None, next_continuation_token: None }));
    assert_eq!(step, ListingStep::Done(Catalog { entries: vec![] }));
    let (mut listing, _) = Listing::begin(Some("foo".to_string()));
    let step = listing.advance(Ok(page(&["foo/"], None)));
    assert_eq!(step, ListingStep::Done(Catalog { entries: vec![] }));
}

#[test]
fn an_empty_page_in_between_does_not_end_the_listing() {
    let (mut listing, _) = Listing::begin(None);
    let step = listing.advance(Ok(page(&[], Some("next"))));
    assert_eq!(step, ListingStep::Fetch(request(None, Some("next"))));
    let step = listing.advance(Ok(page(&["foo/1"], None)));
    assert_eq!(step, ListingStep::Done(Catalog { entries: vec![entry("foo", "/simple/foo/")] }));
}

#[test]
fn the_catalog_does_not_depend_on_how_the_store_cuts_its_pages() {
    let keys = ["foo/2.whl", "bar/1.whl", "foo/1.whl", "foo/", "", "zed/9.whl", "bar/1.whl"];
    for scope in [None, Some("foo".to_string()), Some("bar".to_string())] {
        let (mut whole, _) = Listing::begin(scope.clone());
        let expected = whole.advance(Ok(page(&keys, None)));
        for cut in 0..=keys.len() {
            let (mut listing, _) = Listing::begin(scope.clone());
            let step = listing.advance(Ok(page(&keys[cut..], Some("rest"))));
            assert!(matches!(step, ListingStep::Fetch(_)));
            assert_eq!(listing.advance(Ok(page(&keys[..cut], None))), expected);
        }
    }
}

#[test]
fn the_artifacts_of_all_pages_are_what_follows_the_prefix() {
    let (mut listing, _) = Listing::begin(Some("foo".to_string()));
    listing.advance(Ok(page(&["foo/a/b.whl", "foo/"], Some("2"))));
    listing.advance(Ok(page(&["foobar/x", "foo"], Some("3"))));
    let step = listing.advance(Ok(page(&["foo/c", "foo/a/b.whl"], None)));
    assert_eq!(
        step,
        ListingStep::Done(Catalog {
            entries: vec![entry("a/b.whl", "/simple/foo/a%2Fb.whl"), entry("c", "/simple/foo/c")],
        })
    );
}
