//! The catalog: the distributions of a store, and the artifacts of one distribution, as
//! derived from the flat list of object keys that the store hands out.

use vstd::prelude::*;
use vstd::string::*;

use crate::encode::{escape, escaped, lemma_escaped_unreserved, unreserved_char};
use crate::key::{
    head_len, head_ends_at, head_of, lemma_head_ends, lemma_head_len_is, malformed, parse_key,
    rest_of, KeyParts, SEPARATOR,
};
use crate::order::{
    lemma_ascending_distinct, lemma_ascending_unique, lemma_before_transitive, name_before, rank,
    strictly_ascending, Rank,
};
use crate::text::{same_text, text_of, texts_of};

verus! {

/// One object as a listing of the store names it.
#[derive(Clone, Debug, PartialEq, Eq)]
pub struct StoredObject {
    /// The key of the object, where the store gave one.
    pub key: Option<String>,
}

/// One answer of the store to a listing request.
#[derive(Clone, Debug, PartialEq, Eq)]
pub struct ListingPage {
    /// The objects of this page, where the store gave any.
    pub contents: Option<Vec<StoredObject>>,
    /// Where the listing goes on: the token to ask the next page with.
    pub next_continuation_token: Option<String>,
}

impl ListingPage {
    /// The keys of the page in the order of the listing, `None` for an object without
    /// a key.
    pub open spec fn keys(&self) -> Seq<Option<Seq<char>>> {
        match self.contents {
            Some(objects) => Seq::new(objects@.len(), |i: int| text_of(objects@[i].key)),
            None => Seq::empty(),
        }
    }
}

/// One line of a catalog.
#[derive(Clone, Debug, PartialEq, Eq)]
pub struct CatalogEntry {
    /// The name as it is shown, unescaped.
    pub name: String,
    /// Where the entry leads.
    pub reference: String,
}

/// A listing of distributions, or of the artifacts of one distribution.
#[derive(Clone, Debug, PartialEq, Eq)]
pub struct Catalog {
    pub entries: Vec<CatalogEntry>,
}

/// What a catalog lists: `None` for the distributions of the store, a distribution for
/// the artifacts that belong to it.
pub open spec fn scope_of(scope: Option<&str>) -> Option<Seq<char>> {
    match scope {
        Some(d) => Some(d@),
        None => None,
    }
}

/// The name under which `key` appears in a catalog of the given scope, if it appears.
///
/// A malformed key appears nowhere. Among the distributions a key appears as its first
/// segment. Among the artifacts of a distribution it appears where that distribution
/// is its first segment and something follows the separator: as all that follows.
pub open spec fn listed_name(scope: Option<Seq<char>>, key: Seq<char>) -> Option<Seq<char>> {
    if malformed(key) {
        None
    } else {
        match scope {
            None => Some(head_of(key)),
            Some(d) => match rest_of(key) {
                Some(r) => if head_of(key) == d && r.len() > 0 {
                    Some(r)
                } else {
                    None
                },
                None => None,
            },
        }
    }
}

/// The name that the key at position `i` contributes, if any.
pub open spec fn name_at(scope: Option<Seq<char>>, keys: Seq<Option<Seq<char>>>, i: int) -> Option<
    Seq<char>,
> {
    match keys[i] {
        Some(k) => listed_name(scope, k),
        None => None,
    }
}

/// The names that the first `n` keys contribute.
pub open spec fn names_upto(scope: Option<Seq<char>>, keys: Seq<Option<Seq<char>>>, n: int) -> Set<
    Seq<char>,
> {
    Set::new(
        |x: Seq<char>|
            exists|i: int| 0 <= i < n && i < keys.len() && name_at(scope, keys, i) == Some(x),
    )
}

/// The names that a catalog of the given scope holds for `keys`.
pub open spec fn names_in(scope: Option<Seq<char>>, keys: Seq<Option<Seq<char>>>) -> Set<
    Seq<char>,
> {
    names_upto(scope, keys, keys.len() as int)
}

/// Where an entry leads: the browse path, the escaped distribution, and for an
/// artifact the escaped artifact after one more separator.
pub open spec fn locator(scope: Option<Seq<char>>, name: Seq<char>) -> Seq<char> {
    match scope {
        None => "/simple/"@ + escaped(name) + "/"@,
        Some(d) => "/simple/"@ + escaped(d) + "/"@ + escaped(name),
    }
}

impl Catalog {
    /// The names of the entries, in their order.
    pub open spec fn names(&self) -> Seq<Seq<char>> {
        Seq::new(self.entries@.len(), |i: int| self.entries@[i].name@)
    }

    /// The references of the entries, in their order.
    pub open spec fn references(&self) -> Seq<Seq<char>> {
        Seq::new(self.entries@.len(), |i: int| self.entries@[i].reference@)
    }

    /// The catalog lists exactly `names`, each once and in ascending order, and every
    /// entry leads to the locator of its name.
    pub open spec fn presents(&self, scope: Option<Seq<char>>, names: Set<Seq<char>>) -> bool {
        &&& strictly_ascending(self.names())
        &&& self.names().to_set() == names
        &&& forall|i: int|
            0 <= i < self.entries@.len() ==> #[trigger] self.references()[i] == locator(
                scope,
                self.names()[i],
            )
    }
}

/// Taking one more key into account adds the name that it contributes.
pub proof fn lemma_names_upto_step(scope: Option<Seq<char>>, keys: Seq<Option<Seq<char>>>, n: int)
    requires
        0 <= n < keys.len(),
    ensures
        names_upto(scope, keys, n + 1) == match name_at(scope, keys, n) {
            Some(x) => names_upto(scope, keys, n).insert(x),
            None => names_upto(scope, keys, n),
        },
{
    let more = names_upto(scope, keys, n + 1);
    let less = names_upto(scope, keys, n);
    assert forall|x: Seq<char>| more.contains(x) implies less.contains(x) || name_at(scope, keys, n)
        == Some(x) by {
        let i = choose|i: int| 0 <= i < n + 1 && i < keys.len() && name_at(scope, keys, i) == Some(x);
        if i < n {
            assert(less.contains(x));
        }
    }
    assert forall|x: Seq<char>| less.contains(x) implies more.contains(x) by {
        let i = choose|i: int| 0 <= i < n && i < keys.len() && name_at(scope, keys, i) == Some(x);
        assert(0 <= i < n + 1 && i < keys.len() && name_at(scope, keys, i) == Some(x));
    }
    match name_at(scope, keys, n) {
        Some(x) => {
            assert(more.contains(x));
            assert(more =~= less.insert(x));
        },
        None => {
            assert(more =~= less);
        },
    }
}

/// Putting a name at its place into an ascending sequence keeps the sequence ascending
/// and adds that name to what it holds.
pub proof fn lemma_insert_in_order(names: Seq<Seq<char>>, at: int, name: Seq<char>)
    requires
        strictly_ascending(names),
        0 <= at <= names.len(),
        forall|j: int| 0 <= j < at ==> name_before(#[trigger] names[j], name),
        at < names.len() ==> name_before(name, names[at]),
    ensures
        strictly_ascending(names.insert(at, name)),
        names.insert(at, name).to_set() == names.to_set().insert(name),
{
    let grown = names.insert(at, name);
    assert forall|i: int, j: int| 0 <= i < j < grown.len() implies name_before(
        grown[i],
        grown[j],
    ) by {
        if j < at {
        } else if j == at {
        } else if i < at {
            assert(name_before(names[i], names[j - 1]));
        } else if i == at {
            if j - 1 > at {
                assert(name_before(names[at], names[j - 1]));
                lemma_before_transitive(
                    vstd::utf8::encode_utf8(name),
                    vstd::utf8::encode_utf8(names[at]),
                    vstd::utf8::encode_utf8(names[j - 1]),
                );
            }
        } else {
            assert(name_before(names[i - 1], names[j - 1]));
        }
    }
    assert forall|x: Seq<char>| grown.to_set().contains(x) <==> names.to_set().insert(name).contains(
        x,
    ) by {
        if grown.contains(x) {
            let i = choose|i: int| 0 <= i < grown.len() && grown[i] == x;
            if i < at {
                assert(names[i] == x);
                assert(names.contains(x));
            } else if i > at {
                assert(names[i - 1] == x);
                assert(names.contains(x));
            }
        }
        if names.contains(x) {
            let i = choose|i: int| 0 <= i < names.len() && names[i] == x;
            if i < at {
                assert(grown[i] == x);
            } else {
                assert(grown[i + 1] == x);
            }
            assert(grown.contains(x));
        }
        if x == name {
            assert(grown[at] == x);
            assert(grown.contains(x));
        }
    }
    assert(grown.to_set() =~= names.to_set().insert(name));
}

/// Puts `name` at its place into the ascending `names`, unless it stands there already.
pub fn insert_name(names: &mut Vec<String>, name: String)
    requires
        strictly_ascending(texts_of(old(names)@)),
    ensures
        strictly_ascending(texts_of(final(names)@)),
        texts_of(final(names)@).to_set() == texts_of(old(names)@).to_set().insert(name@),
{
    let ghost before = texts_of(names@);
    let mut at: usize = 0;
    let mut placed = false;
    while at < names.len() && !placed
        invariant
            at <= names.len(),
            names@ == old(names)@,
            before == texts_of(names@),
            strictly_ascending(before),
            forall|j: int| 0 <= j < at ==> name_before(#[trigger] before[j], name@),
            placed ==> at < names.len() && name_before(name@, before[at as int]),
        decreases names.len() - at + (if placed { 0int } else { 1int }),
    {
        match rank(names[at].as_str(), name.as_str()) {
            Rank::Before => {
                at += 1;
            },
            Rank::Same => {
                proof {
                    assert(before[at as int] == name@);
                    assert(before.contains(name@));
                    assert(before.to_set().insert(name@) =~= before.to_set());
                }
                return ;
            },
            Rank::After => {
                placed = true;
            },
        }
    }
    proof {
        lemma_insert_in_order(before, at as int, name@);
    }
    names.insert(at, name);
    assert(texts_of(names@) =~= before.insert(at as int, name@));
}

/// The name under which `key` appears in a catalog of the given scope, if it appears.
pub fn listed(scope: Option<&str>, key: &str) -> (name: Option<String>)
    ensures
        text_of(name) == listed_name(scope_of(scope), key@),
{
    match parse_key(key) {
        None => None,
        Some(parts) => {
            let KeyParts { head, rest } = parts;
            match scope {
                None => Some(head),
                Some(d) => match rest {
                    Some(r) => {
                        if same_text(head.as_str(), d) && !r.as_str().is_empty() {
                            Some(r)
                        } else {
                            None
                        }
                    },
                    None => None,
                },
            }
        },
    }
}

/// Takes the names that `page` contributes into the ascending `names`.
pub fn collect_names(names: &mut Vec<String>, page: &ListingPage, scope: Option<&str>)
    requires
        strictly_ascending(texts_of(old(names)@)),
    ensures
        strictly_ascending(texts_of(final(names)@)),
        texts_of(final(names)@).to_set() == texts_of(old(names)@).to_set().union(
            names_in(scope_of(scope), page.keys()),
        ),
{
    let ghost start = texts_of(names@).to_set();
    let ghost keys = page.keys();
    let ghost sv = scope_of(scope);
    match &page.contents {
        None => {
            assert(names_in(sv, keys) =~= Set::empty());
            assert(start.union(names_in(sv, keys)) =~= start);
        },
        Some(objects) => {
            let mut i: usize = 0;
            assert(names_upto(sv, keys, 0) =~= Set::empty());
            assert(start.union(names_upto(sv, keys, 0)) =~= start);
            while i < objects.len()
                invariant
                    i <= objects.len(),
                    page.contents == Some(*objects),
                    keys == page.keys(),
                    sv == scope_of(scope),
                    strictly_ascending(texts_of(names@)),
                    texts_of(names@).to_set() == start.union(names_upto(sv, keys, i as int)),
                decreases objects.len() - i,
            {
                proof {
                    lemma_names_upto_step(sv, keys, i as int);
                }
                let ghost held = texts_of(names@).to_set();
                match &objects[i].key {
                    Some(key) => {
                        match listed(scope, key.as_str()) {
                            Some(name) => {
                                insert_name(names, name);
                                assert(held.insert(name@) =~= start.union(
                                    names_upto(sv, keys, i as int).insert(name@),
                                ));
                            },
                            None => {},
                        }
                    },
                    None => {},
                }
                i += 1;
            }
        },
    }
}

/// Builds the locator of the entry `name` in a catalog of the given scope.
pub fn reference_to(scope: Option<&str>, name: &str) -> (reference: String)
    ensures
        reference@ == locator(scope_of(scope), name@),
{
    let mut reference = String::from_str("/simple/");
    match scope {
        None => {
            reference.append(escape(name).as_str());
            reference.append("/");
        },
        Some(d) => {
            reference.append(escape(d).as_str());
            reference.append("/");
            reference.append(escape(name).as_str());
        },
    }
    reference
}

/// Makes one entry of each name, in the order given.
pub fn catalog_of(names: &Vec<String>, scope: Option<&str>) -> (catalog: Catalog)
    ensures
        catalog.names() == texts_of(names@),
        forall|i: int|
            0 <= i < catalog.entries@.len() ==> #[trigger] catalog.references()[i] == locator(
                scope_of(scope),
                catalog.names()[i],
            ),
{
    let mut entries: Vec<CatalogEntry> = Vec::new();
    let mut i: usize = 0;
    while i < names.len()
        invariant
            i <= names.len(),
            entries@.len() == i,
            forall|j: int| 0 <= j < i ==> (#[trigger] entries@[j]).name@ == names@[j]@,
            forall|j: int|
                0 <= j < i ==> (#[trigger] entries@[j]).reference@ == locator(
                    scope_of(scope),
                    names@[j]@,
                ),
        decreases names.len() - i,
    {
        let name = names[i].clone();
        let reference = reference_to(scope, name.as_str());
        entries.push(CatalogEntry { name, reference });
        i += 1;
    }
    let catalog = Catalog { entries };
    assert(catalog.names() =~= texts_of(names@));
    catalog
}

/// The distributions that one page of a listing names: each once, in ascending order.
pub fn filter_s3_folders(data: &ListingPage) -> (folders: Vec<String>)
    ensures
        strictly_ascending(texts_of(folders@)),
        texts_of(folders@).to_set() == names_in(None, data.keys()),
{
    let mut folders: Vec<String> = Vec::new();
    assert(texts_of(folders@).to_set() =~= Set::empty());
    collect_names(&mut folders, data, None);
    assert(Set::<Seq<char>>::empty().union(names_in(None, data.keys())) =~= names_in(
        None,
        data.keys(),
    ));
    folders
}

/// The artifacts of `distribution` that one page of a listing names: each once, in
/// ascending order. A key that ends with the separator names none.
pub fn filter_s3_packages(data: &ListingPage, distribution: &str) -> (packages: Vec<String>)
    ensures
        strictly_ascending(texts_of(packages@)),
        texts_of(packages@).to_set() == names_in(Some(distribution@), data.keys()),
{
    let mut packages: Vec<String> = Vec::new();
    assert(texts_of(packages@).to_set() =~= Set::empty());
    collect_names(&mut packages, data, Some(distribution));
    assert(Set::<Seq<char>>::empty().union(names_in(Some(distribution@), data.keys()))
        =~= names_in(Some(distribution@), data.keys()));
    packages
}

/// The catalog of the distributions of a store whose whole listing is `data`: a page
/// after which the listing goes on is no whole listing.
pub fn list_distributions(data: &ListingPage) -> (catalog: Catalog)
    requires
        data.next_continuation_token is None,
    ensures
        catalog.presents(None, names_in(None, data.keys())),
{
    let folders = filter_s3_folders(data);
    catalog_of(&folders, None)
}

/// The catalog of the artifacts of `distribution` in a store whose whole listing is
/// `data`: a page after which the listing goes on is no whole listing.
pub fn list_artifacts(distribution: &str, data: &ListingPage) -> (catalog: Catalog)
    requires
        data.next_continuation_token is None,
    ensures
        catalog.presents(Some(distribution@), names_in(Some(distribution@), data.keys())),
{
    let packages = filter_s3_packages(data, distribution);
    catalog_of(&packages, Some(distribution))
}

/// What a catalog holds depends on which keys the store has, not on the order in which
/// it lists them nor on how often.
pub proof fn lemma_names_follow_key_set(
    scope: Option<Seq<char>>,
    a: Seq<Option<Seq<char>>>,
    b: Seq<Option<Seq<char>>>,
)
    requires
        a.to_set() == b.to_set(),
    ensures
        names_in(scope, a) == names_in(scope, b),
{
    assert forall|x: Seq<char>| names_in(scope, a).contains(x) <==> names_in(scope, b).contains(
        x,
    ) by {
        if names_in(scope, a).contains(x) {
            lemma_name_found_again(scope, a, b, x);
        }
        if names_in(scope, b).contains(x) {
            lemma_name_found_again(scope, b, a, x);
        }
    }
    assert(names_in(scope, a) =~= names_in(scope, b));
}

/// A name that one listing holds is held by every listing of the same keys.
proof fn lemma_name_found_again(
    scope: Option<Seq<char>>,
    a: Seq<Option<Seq<char>>>,
    b: Seq<Option<Seq<char>>>,
    x: Seq<char>,
)
    requires
        a.to_set() == b.to_set(),
        names_in(scope, a).contains(x),
    ensures
        names_in(scope, b).contains(x),
{
    let i = choose|i: int| 0 <= i < a.len() && i < a.len() && name_at(scope, a, i) == Some(x);
    assert(a.contains(a[i]));
    assert(a.to_set().contains(a[i]));
    assert(b.contains(a[i]));
    let j = choose|j: int| 0 <= j < b.len() && b[j] == a[i];
    assert(0 <= j < b.len() && j < b.len() && name_at(scope, b, j) == Some(x));
}

/// The names of a listing that came in two parts are those of the first part together
/// with those of the second.
pub proof fn lemma_names_of_parts(
    scope: Option<Seq<char>>,
    a: Seq<Option<Seq<char>>>,
    b: Seq<Option<Seq<char>>>,
)
    ensures
        names_in(scope, a + b) == names_in(scope, a).union(names_in(scope, b)),
{
    let whole = a + b;
    assert forall|x: Seq<char>| names_in(scope, whole).contains(x) <==> names_in(scope, a).union(
        names_in(scope, b),
    ).contains(x) by {
        if names_in(scope, whole).contains(x) {
            let i = choose|i: int|
                0 <= i < whole.len() && i < whole.len() && name_at(scope, whole, i) == Some(x);
            if i < a.len() {
                assert(whole[i] == a[i]);
                assert(0 <= i < a.len() && i < a.len() && name_at(scope, a, i) == Some(x));
            } else {
                let j = i - a.len();
                assert(whole[i] == b[j]);
                assert(0 <= j < b.len() && j < b.len() && name_at(scope, b, j) == Some(x));
            }
        }
        if names_in(scope, a).contains(x) {
            let i = choose|i: int| 0 <= i < a.len() && i < a.len() && name_at(scope, a, i) == Some(x);
            assert(whole[i] == a[i]);
            assert(0 <= i < whole.len() && i < whole.len() && name_at(scope, whole, i) == Some(x));
        }
        if names_in(scope, b).contains(x) {
            let j = choose|j: int| 0 <= j < b.len() && j < b.len() && name_at(scope, b, j) == Some(x);
            let i = j + a.len();
            assert(whole[i] == b[j]);
            assert(0 <= i < whole.len() && i < whole.len() && name_at(scope, whole, i) == Some(x));
        }
    }
    assert(names_in(scope, whole) =~= names_in(scope, a).union(names_in(scope, b)));
}

/// A catalog lists every name that it presents, lists nothing else, and lists nothing
/// twice, however many keys of the store led to the same name.
pub proof fn lemma_presented_once(catalog: Catalog, scope: Option<Seq<char>>, names: Set<Seq<char>>)
    requires
        catalog.presents(scope, names),
    ensures
        catalog.names().no_duplicates(),
        forall|name: Seq<char>| names.contains(name) <==> catalog.names().contains(name),
{
    lemma_ascending_distinct(catalog.names());
    assert forall|name: Seq<char>| names.contains(name) <==> catalog.names().contains(name) by {
        assert(catalog.names().to_set().contains(name) <==> catalog.names().contains(name));
    }
}

/// Two catalogs that present the same names in the same scope agree entry by entry:
/// listing an unchanged store again gives the same catalog, in the same order.
pub proof fn lemma_catalog_determined(
    a: Catalog,
    b: Catalog,
    scope: Option<Seq<char>>,
    names: Set<Seq<char>>,
)
    requires
        a.presents(scope, names),
        b.presents(scope, names),
    ensures
        a.names() == b.names(),
        a.references() == b.references(),
{
    lemma_ascending_unique(a.names(), b.names());
    assert(a.entries@.len() == a.names().len());
    assert(b.entries@.len() == b.names().len());
    assert(a.references() =~= b.references()) by {
        assert forall|i: int| 0 <= i < a.references().len() implies a.references()[i]
            == b.references()[i] by {
            assert(a.references()[i] == locator(scope, a.names()[i]));
            assert(b.references()[i] == locator(scope, b.names()[i]));
        }
    }
}

/// `key` is `distribution`, one separator, and at least one more character.
pub open spec fn under_prefix(distribution: Seq<char>, key: Seq<char>) -> bool {
    &&& key.len() > distribution.len() + 1
    &&& key.subrange(0, distribution.len() as int + 1) == distribution.push(SEPARATOR)
}

/// A name that can be a distribution: not empty and without a separator.
pub open spec fn distribution_name(name: Seq<char>) -> bool {
    name.len() > 0 && !name.contains(SEPARATOR)
}

/// The artifacts of a distribution are the keys under its prefix, each named by all
/// that follows the prefix. The prefix itself, stored as a key, names no artifact.
pub proof fn lemma_artifacts_under_prefix(distribution: Seq<char>, key: Seq<char>)
    requires
        distribution_name(distribution),
    ensures
        listed_name(Some(distribution), key) == if under_prefix(distribution, key) {
            Some(key.skip(distribution.len() as int + 1))
        } else {
            None
        },
        listed_name(Some(distribution), distribution.push(SEPARATOR)) is None,
{
    let n = distribution.len() as int;
    lemma_head_ends(key);
    if under_prefix(distribution, key) {
        let front = key.subrange(0, n + 1);
        assert forall|j: int| 0 <= j < n implies key[j] != SEPARATOR by {
            assert(key[j] == front[j]);
            assert(front[j] == distribution[j]);
            assert(distribution.contains(distribution[j]));
        }
        assert(key[n] == front[n]);
        assert(head_ends_at(key, n));
        lemma_head_len_is(key, n);
        assert(head_of(key) =~= distribution) by {
            assert forall|j: int| 0 <= j < n implies key.take(n)[j] == distribution[j] by {
                assert(key[j] == front[j]);
            }
        }
    } else if listed_name(Some(distribution), key) is Some {
        assert(head_of(key) == distribution);
        assert(head_len(key) == n);
        assert(key.subrange(0, n + 1) =~= distribution.push(SEPARATOR)) by {
            assert forall|j: int| 0 <= j < n + 1 implies key.subrange(0, n + 1)[j]
                == distribution.push(SEPARATOR)[j] by {
                if j < n {
                    assert(head_of(key)[j] == key[j]);
                }
            }
        }
    }
    let marker = distribution.push(SEPARATOR);
    lemma_head_ends(marker);
    if listed_name(Some(distribution), marker) is Some {
        assert(head_of(marker) == distribution);
        assert(head_len(marker) == n);
        assert(rest_of(marker) == Some(marker.skip(n + 1)));
    }
}

/// Every name in a catalog of distributions can be a distribution, and under no other
/// name is any artifact listed.
pub proof fn lemma_distributions_are_first_segments(key: Seq<char>, other: Seq<char>)
    ensures
        listed_name(None, key) matches Some(name) ==> distribution_name(name),
        !distribution_name(other) ==> listed_name(Some(other), key) is None,
{
    lemma_head_ends(key);
    let n = head_len(key);
    if !malformed(key) {
        let name = head_of(key);
        if name.contains(SEPARATOR) {
            let j = choose|j: int| 0 <= j < name.len() && name[j] == SEPARATOR;
            assert(key[j] == name[j]);
        }
        if head_of(key) == other {
            assert(distribution_name(other));
        }
    }
}

/// The key at position `i` lies under the prefix of `distribution`, and `name` is all
/// that follows the prefix.
pub open spec fn names_artifact(
    distribution: Seq<char>,
    keys: Seq<Option<Seq<char>>>,
    i: int,
    name: Seq<char>,
) -> bool {
    &&& 0 <= i < keys.len()
    &&& keys[i] matches Some(key)
    &&& under_prefix(distribution, key)
    &&& key.skip(distribution.len() as int + 1) == name
}

/// The catalog of a distribution lists exactly what follows its prefix in the keys of
/// the store: a name is listed where some key is the prefix followed by that name, the
/// name not empty and taken as it stands, further separators included; and nothing else
/// is listed, nor anything twice.
pub proof fn lemma_artifact_catalog(
    catalog: Catalog,
    distribution: Seq<char>,
    keys: Seq<Option<Seq<char>>>,
)
    requires
        distribution_name(distribution),
        catalog.presents(Some(distribution), names_in(Some(distribution), keys)),
    ensures
        catalog.names().no_duplicates(),
        forall|name: Seq<char>|
            catalog.names().contains(name) <==> exists|i: int|
                names_artifact(distribution, keys, i, name),
        forall|name: Seq<char>| catalog.names().contains(name) ==> name.len() > 0,
{
    let scope = Some(distribution);
    lemma_presented_once(catalog, scope, names_in(scope, keys));
    assert forall|name: Seq<char>| catalog.names().contains(name) <==> exists|i: int|
        names_artifact(distribution, keys, i, name) by {
        if catalog.names().contains(name) {
            assert(names_in(scope, keys).contains(name));
            let i = choose|i: int| 0 <= i < keys.len() && i < keys.len() && name_at(scope, keys, i)
                == Some(name);
            lemma_artifacts_under_prefix(distribution, keys[i]->0);
            assert(names_artifact(distribution, keys, i, name));
        }
        if exists|i: int| names_artifact(distribution, keys, i, name) {
            let i = choose|i: int| names_artifact(distribution, keys, i, name);
            lemma_artifacts_under_prefix(distribution, keys[i]->0);
            assert(0 <= i < keys.len() && i < keys.len() && name_at(scope, keys, i) == Some(name));
            assert(names_in(scope, keys).contains(name));
        }
    }
    assert forall|name: Seq<char>| catalog.names().contains(name) implies name.len() > 0 by {
        let i = choose|i: int| names_artifact(distribution, keys, i, name);
        assert(names_artifact(distribution, keys, i, name));
    }
}

/// The key at position `i` is well-formed and `name` is its first segment.
pub open spec fn names_distribution(keys: Seq<Option<Seq<char>>>, i: int, name: Seq<char>) -> bool {
    &&& 0 <= i < keys.len()
    &&& keys[i] matches Some(key)
    &&& !malformed(key)
    &&& head_of(key) == name
}

/// The catalog of the distributions lists exactly the first segments of the keys of
/// the store that are well-formed: each once, however many keys begin with it.
pub proof fn lemma_distribution_catalog(catalog: Catalog, keys: Seq<Option<Seq<char>>>)
    requires
        catalog.presents(None, names_in(None, keys)),
    ensures
        catalog.names().no_duplicates(),
        forall|name: Seq<char>|
            catalog.names().contains(name) <==> exists|i: int| names_distribution(keys, i, name),
{
    lemma_presented_once(catalog, None, names_in(None, keys));
    assert forall|name: Seq<char>| catalog.names().contains(name) <==> exists|i: int|
        names_distribution(keys, i, name) by {
        if catalog.names().contains(name) {
            assert(names_in(None, keys).contains(name));
            let i = choose|i: int| 0 <= i < keys.len() && i < keys.len() && name_at(None, keys, i)
                == Some(name);
            assert(names_distribution(keys, i, name));
        }
        if exists|i: int| names_distribution(keys, i, name) {
            let i = choose|i: int| names_distribution(keys, i, name);
            assert(0 <= i < keys.len() && i < keys.len() && name_at(None, keys, i) == Some(name));
            assert(names_in(None, keys).contains(name));
        }
    }
}

/// Two listings of a store whose keys have not changed give the same catalog, entry by
/// entry and in the same order, whatever the order in which the store listed its keys
/// and however it cut the listing into pages.
pub proof fn lemma_unchanged_store_same_catalog(
    first: Catalog,
    second: Catalog,
    scope: Option<Seq<char>>,
    keys_first: Seq<Option<Seq<char>>>,
    keys_second: Seq<Option<Seq<char>>>,
)
    requires
        first.presents(scope, names_in(scope, keys_first)),
        second.presents(scope, names_in(scope, keys_second)),
        keys_first.to_set() == keys_second.to_set(),
    ensures
        first.names() == second.names(),
        first.references() == second.references(),
{
    lemma_names_follow_key_set(scope, keys_first, keys_second);
    lemma_catalog_determined(first, second, scope, names_in(scope, keys_first));
}

/// The locator of a name of unreserved characters holds the name as it stands.
pub proof fn lemma_locator_of_plain_names(distribution: Seq<char>, artifact: Seq<char>)
    requires
        forall|i: int| 0 <= i < distribution.len() ==> unreserved_char(#[trigger] distribution[i]),
        forall|i: int| 0 <= i < artifact.len() ==> unreserved_char(#[trigger] artifact[i]),
    ensures
        locator(None, distribution) == "/simple/"@ + distribution + "/"@,
        locator(Some(distribution), artifact) == "/simple/"@ + distribution + "/"@ + artifact,
{
    lemma_escaped_unreserved(distribution);
    lemma_escaped_unreserved(artifact);
}

} // verus!
