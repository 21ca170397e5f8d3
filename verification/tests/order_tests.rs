use package_registry::order::{rank, Rank};
use package_registry::text::{holds_text, same_text};

#[test]
fn names_rank_byte_by_byte() {
    assert_eq!(rank("bar", "foo"), Rank::Before);
    assert_eq!(rank("foo", "bar"), Rank::After);
    assert_eq!(rank("foo", "foo"), Rank::Same);
}

#[test]
fn a_prefix_ranks_before_its_extensions() {
    assert_eq!(rank("foo", "foobar"), Rank::Before);
    assert_eq!(rank("foobar", "foo"), Rank::After);
    assert_eq!(rank("", "a"), Rank::Before);
    assert_eq!(rank("", ""), Rank::Same);
}

#[test]
fn upper_case_ranks_before_lower_case() {
    assert_eq!(rank("Zed", "apple"), Rank::Before);
    assert_eq!(rank("a", "B"), Rank::After);
}

#[test]
fn the_rank_is_that_of_the_standard_order_of_strings() {
    let names = ["", "a", "A", "ab", "b", "\u{e9}", "z", "\u{10348}", "\u{ffff}", "1.0", "10"];
    for a in names {
        for b in names {
            let expected = if a < b {
                Rank::Before
            } else if a == b {
                Rank::Same
            } else {
                Rank::After
            };
            assert_eq!(rank(a, b), expected);
        }
    }
}

#[test]
fn texts_are_the_same_only_character_for_character() {
    assert!(same_text("read:pkg", "read:pkg"));
    assert!(!same_text("read:pkg", "read:packages"));
    assert!(!same_text("read:pkg", "Read:pkg"));
    assert!(!same_text("read:pkg", ""));
    assert!(same_text("", ""));
}

#[test]
fn a_text_is_held_only_where_one_item_is_exactly_it() {
    let items = vec!["read:pkg".to_string(), "publish".to_string()];
    assert!(holds_text(&items, "publish"));
    assert!(holds_text(&items, "read:pkg"));
    assert!(!holds_text(&items, "read"));
    assert!(!holds_text(&items, "read:pkg "));
    assert!(!holds_text(&vec![], "publish"));
}
