use package_registry::catalog::{
    catalog_of, collect_names, filter_s3_folders, filter_s3_packages, insert_name,
    list_artifacts, list_distributions, listed, reference_to, Catalog, CatalogEntry, ListingPage,
    StoredObject,
};

fn page(keys: &[&str]) -> ListingPage {
    ListingPage {
        contents: Some(
            keys.iter().map(|k| StoredObject { key: Some(k.to_string()) }).collect(),
        ),
        next_continuation_token: None,
    }
}

fn texts(items: &[&str]) -> Vec<String> {
    items.iter().map(|s| s.to_string()).collect()
}

fn entry(name: &str, reference: &str) -> CatalogEntry {
    CatalogEntry { name: name.to_string(), reference: reference.to_string() }
}

#[test]
fn distributions_are_the_distinct_first_segments() {
    let store = page(&["foo/1.0.0.tar.gz", "foo/2.0.0.tar.gz", "bar/1.0.0.tar.gz"]);
    assert_eq!(filter_s3_folders(&store), texts(&["bar", "foo"]));
    assert_eq!(
        list_distributions(&store),
        Catalog { entries: vec![entry("bar", "/simple/bar/"), entry("foo", "/simple/foo/")] }
    );
}

#[test]
fn artifacts_are_what_follows_the_distribution() {
    let store = page(&["foo/1.0.0.tar.gz", "foo/2.0.0.tar.gz", "bar/1.0.0.tar.gz"]);
    assert_eq!(filter_s3_packages(&store, "foo"), texts(&["1.0.0.tar.gz", "2.0.0.tar.gz"]));
    assert_eq!(
        list_artifacts("foo", &store),
        Catalog {
            entries: vec![
                entry("1.0.0.tar.gz", "/simple/foo/1.0.0.tar.gz"),
                entry("2.0.0.tar.gz", "/simple/foo/2.0.0.tar.gz"),
            ],
        }
    );
    assert_eq!(filter_s3_packages(&store, "bar"), texts(&["1.0.0.tar.gz"]));
}

#[test]
fn a_folder_marker_alone_lists_no_artifact() {
    let store = page(&["foo/"]);
    assert_eq!(list_artifacts("foo", &store), Catalog { entries: vec![] });
    assert_eq!(filter_s3_packages(&store, "foo"), Vec::<String>::new());
    assert_eq!(filter_s3_folders(&store), texts(&["foo"]));
}

#[test]
fn a_folder_marker_beside_artifacts_is_left_out() {
    let store = page(&["foo/", "foo/a.whl"]);
    assert_eq!(filter_s3_packages(&store, "foo"), texts(&["a.whl"]));
}

#[test]
fn malformed_keys_are_passed_over() {
    let store = page(&["foo/a.whl", "", "/orphan", "bar/b.whl", "/"]);
    assert_eq!(filter_s3_folders(&store), texts(&["bar", "foo"]));
    assert_eq!(filter_s3_packages(&store, "foo"), texts(&["a.whl"]));
    assert_eq!(filter_s3_packages(&store, ""), Vec::<String>::new());
}

#[test]
fn objects_without_a_key_are_passed_over() {
    let store = ListingPage {
        contents: Some(vec![
            StoredObject { key: None },
            StoredObject { key: Some("foo/a.whl".to_string()) },
            StoredObject { key: None },
        ]),
        next_continuation_token: None,
    };
    assert_eq!(filter_s3_folders(&store), texts(&["foo"]));
    assert_eq!(filter_s3_packages(&store, "foo"), texts(&["a.whl"]));
}

#[test]
fn an_empty_store_gives_empty_catalogs() {
    let nothing = ListingPage { contents: None, next_continuation_token: None };
    assert_eq!(list_distributions(&nothing), Catalog { entries: vec![] });
    assert_eq!(list_artifacts("foo", &nothing), Catalog { entries: vec![] });
    assert_eq!(list_distributions(&page(&[])), Catalog { entries: vec![] });
    assert_eq!(list_artifacts("foo", &page(&[])), Catalog { entries: vec![] });
}

#[test]
fn names_come_once_however_often_the_store_lists_them() {
    let store = page(&["foo/a", "foo/b", "foo/a", "foo/c", "foo/b", "foo/a"]);
    assert_eq!(filter_s3_folders(&store), texts(&["foo"]));
    assert_eq!(filter_s3_packages(&store, "foo"), texts(&["a", "b", "c"]));
}

#[test]
fn catalogs_do_not_depend_on_the_order_of_the_listing() {
    let one = page(&["zeta/1", "alpha/2", "Mid/3", "alpha/1", "beta/9"]);
    let other = page(&["beta/9", "alpha/1", "zeta/1", "Mid/3", "alpha/2", "alpha/1"]);
    assert_eq!(list_distributions(&one), list_distributions(&other));
    assert_eq!(list_artifacts("alpha", &one), list_artifacts("alpha", &other));
    assert_eq!(filter_s3_folders(&one), texts(&["Mid", "alpha", "beta", "zeta"]));
    assert_eq!(filter_s3_packages(&one, "alpha"), texts(&["1", "2"]));
}

#[test]
fn listing_twice_gives_the_same_catalog() {
    let store = page(&["foo/1.0.0.tar.gz", "bar/1.0.0.tar.gz", "foo/2.0.0.tar.gz"]);
    assert_eq!(list_distributions(&store), list_distributions(&store));
    assert_eq!(list_artifacts("foo", &store), list_artifacts("foo", &store));
}

#[test]
fn nested_paths_stay_part_of_the_artifact() {
    let store = page(&["foo/sub/dir/file.whl", "foo/sub/", "foo/top.whl"]);
    assert_eq!(filter_s3_packages(&store, "foo"), texts(&["sub/", "sub/dir/file.whl", "top.whl"]));
    assert_eq!(
        list_artifacts("foo", &store).entries[1],
        entry("sub/dir/file.whl", "/simple/foo/sub%2Fdir%2Ffile.whl")
    );
}

#[test]
fn a_key_without_separator_is_a_distribution_without_artifacts() {
    let store = page(&["lonely"]);
    assert_eq!(filter_s3_folders(&store), texts(&["lonely"]));
    assert_eq!(filter_s3_packages(&store, "lonely"), Vec::<String>::new());
}

#[test]
fn only_keys_of_the_distribution_itself_count() {
    let store = page(&["foo/a", "foobar/b", "fo/c", "Foo/d", "foo"]);
    assert_eq!(filter_s3_packages(&store, "foo"), texts(&["a"]));
    assert_eq!(filter_s3_packages(&store, "foo/"), Vec::<String>::new());
    assert_eq!(filter_s3_packages(&page(&["a/b/c"]), "a/b"), Vec::<String>::new());
    assert_eq!(filter_s3_packages(&page(&["a/b/c"]), "a"), texts(&["b/c"]));
}

#[test]
fn references_escape_what_names_show_as_it_is() {
    let store = page(&["my pkg/file one.whl", "d\u{e9}p\u{f4}t/x"]);
    assert_eq!(
        list_distributions(&store),
        Catalog {
            entries: vec![
                entry("d\u{e9}p\u{f4}t", "/simple/d%C3%A9p%C3%B4t/"),
                entry("my pkg", "/simple/my%20pkg/"),
            ],
        }
    );
    assert_eq!(
        list_artifacts("my pkg", &store),
        Catalog { entries: vec![entry("file one.whl", "/simple/my%20pkg/file%20one.whl")] }
    );
}

#[test]
fn reference_to_builds_both_kinds_of_locator() {
    assert_eq!(reference_to(None, "foo"), "/simple/foo/");
    assert_eq!(reference_to(Some("foo"), "1.0.0.tar.gz"), "/simple/foo/1.0.0.tar.gz");
    assert_eq!(reference_to(Some("a b"), "c/d"), "/simple/a%20b/c%2Fd");
    assert_eq!(reference_to(None, ""), "/simple//");
}

#[test]
fn listed_gives_the_name_of_a_key_in_each_scope() {
    assert_eq!(listed(None, "foo/a.whl"), Some("foo".to_string()));
    assert_eq!(listed(None, "foo"), Some("foo".to_string()));
    assert_eq!(listed(None, "/a.whl"), None);
    assert_eq!(listed(None, ""), None);
    assert_eq!(listed(Some("foo"), "foo/a.whl"), Some("a.whl".to_string()));
    assert_eq!(listed(Some("foo"), "foo/"), None);
    assert_eq!(listed(Some("foo"), "foo"), None);
    assert_eq!(listed(Some("foo"), "bar/a.whl"), None);
    assert_eq!(listed(Some(""), "/a.whl"), None);
}

#[test]
fn insert_name_keeps_the_order_and_adds_nothing_twice() {
    let mut names = Vec::new();
    for name in ["m", "z", "a", "m", "b", "zz", "a", ""] {
        insert_name(&mut names, name.to_string());
    }
    assert_eq!(names, texts(&["", "a", "b", "m", "z", "zz"]));
}

#[test]
fn collect_names_adds_to_what_was_gathered() {
    let mut names = texts(&["bar", "foo"]);
    collect_names(&mut names, &page(&["baz/1", "foo/2", "", "abc"]), None);
    assert_eq!(names, texts(&["abc", "bar", "baz", "foo"]));
    let mut artifacts = texts(&["1.whl"]);
    collect_names(&mut artifacts, &page(&["foo/0.whl", "bar/9.whl", "foo/1.whl"]), Some("foo"));
    assert_eq!(artifacts, texts(&["0.whl", "1.whl"]));
}

#[test]
fn catalog_of_keeps_the_names_in_the_order_given() {
    assert_eq!(
        catalog_of(&texts(&["b", "a"]), None),
        Catalog { entries: vec![entry("b", "/simple/b/"), entry("a", "/simple/a/")] }
    );
    assert_eq!(catalog_of(&vec![], Some("foo")), Catalog { entries: vec![] });
}
