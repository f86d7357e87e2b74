use prototty::byte_prefix_tree::{BytePrefixTree, Found};

#[test]
fn get_longest() {
    let mut tree = BytePrefixTree::new();
    tree.insert(b"helloworld", 0);
    tree.insert(b"hello", 1);
    tree.insert(b"world", 2);
    assert_eq!(tree.get_longest(b"helloworld"), Some(Found::Exact(&0)));
    assert_eq!(tree.get_longest(b"hello"), Some(Found::Exact(&1)));
    assert_eq!(
        tree.get_longest(b"hellowo"),
        Some(Found::WithRemaining(&1, b"wo"))
    );
    assert_eq!(
        tree.get_longest(b"helloworldblah"),
        Some(Found::WithRemaining(&0, b"blah"))
    );
    assert_eq!(tree.get_longest(b"world"), Some(Found::Exact(&2)));
    assert_eq!(tree.get_longest(b"worl"), None);
    assert_eq!(tree.get_longest(b""), None);
    assert_eq!(
        tree.get_longest(b"worlds"),
        Some(Found::WithRemaining(&2, b"s"))
    );
}

#[test]
fn data_in_root() {
    let mut tree = BytePrefixTree::new();
    tree.insert(b"", 0);
    tree.insert(b"abc", 1);
    tree.insert(b"def", 2);
    assert_eq!(tree.get_longest(b""), Some(Found::Exact(&0)));
    assert_eq!(tree.get_longest(b"a"), Some(Found::WithRemaining(&0, b"a")));
    assert_eq!(
        tree.get_longest(b"ab"),
        Some(Found::WithRemaining(&0, b"ab"))
    );
    assert_eq!(tree.get_longest(b"abc"), Some(Found::Exact(&1)));
    assert_eq!(
        tree.get_longest(b"abcd"),
        Some(Found::WithRemaining(&1, b"d"))
    );
}

#[test]
fn empty_tree_finds_nothing() {
    let tree: BytePrefixTree<u32> = BytePrefixTree::new();
    assert_eq!(tree.get_longest(b""), None);
    assert_eq!(tree.get_longest(b"a"), None);
    assert_eq!(tree.get_longest(&[0u8, 255u8]), None);
    let by_default: BytePrefixTree<u32> = Default::default();
    assert_eq!(by_default.get_longest(b""), None);
    assert_eq!(by_default.get_longest(b"abc"), None);
}

#[test]
fn inserted_key_is_found_exactly() {
    let mut tree = BytePrefixTree::new();
    tree.insert(b"\x1b[A", "up");
    tree.insert(b"\x1b[B", "down");
    tree.insert(b"\x1b", "escape");
    assert_eq!(tree.get_longest(b"\x1b[A"), Some(Found::Exact(&"up")));
    assert_eq!(tree.get_longest(b"\x1b[B"), Some(Found::Exact(&"down")));
    assert_eq!(tree.get_longest(b"\x1b"), Some(Found::Exact(&"escape")));
}

#[test]
fn longer_key_wins_over_its_prefix() {
    let mut tree = BytePrefixTree::new();
    tree.insert(b"ab", 1);
    tree.insert(b"abcd", 2);
    assert_eq!(tree.get_longest(b"abcd"), Some(Found::Exact(&2)));
    assert_eq!(
        tree.get_longest(b"abcde"),
        Some(Found::WithRemaining(&2, b"e"))
    );
    let mut other_order = BytePrefixTree::new();
    other_order.insert(b"abcd", 2);
    other_order.insert(b"ab", 1);
    assert_eq!(other_order.get_longest(b"abcd"), Some(Found::Exact(&2)));
}

#[test]
fn remainder_is_what_follows_the_key() {
    let mut tree = BytePrefixTree::new();
    tree.insert(b"ab", 1);
    tree.insert(b"abcd", 2);
    assert_eq!(
        tree.get_longest(b"abc"),
        Some(Found::WithRemaining(&1, b"c"))
    );
    assert_eq!(
        tree.get_longest(b"abxyz"),
        Some(Found::WithRemaining(&1, b"xyz"))
    );
    match tree.get_longest(b"abcx") {
        Some(Found::WithRemaining(value, rest)) => {
            assert_eq!(*value, 1);
            assert_eq!(rest, b"cx");
            assert!(!rest.is_empty());
        }
        other => panic!("unexpected result {:?}", other),
    }
}

#[test]
fn no_prefix_key_finds_nothing() {
    let mut tree = BytePrefixTree::new();
    tree.insert(b"hello", 1);
    assert_eq!(tree.get_longest(b"hel"), None);
    assert_eq!(tree.get_longest(b"help"), None);
    assert_eq!(tree.get_longest(b"xhello"), None);
    assert_eq!(tree.get_longest(b""), None);
}

#[test]
fn empty_key_is_the_fallback() {
    let mut tree = BytePrefixTree::new();
    tree.insert(b"", 7);
    assert_eq!(tree.get_longest(b""), Some(Found::Exact(&7)));
    assert_eq!(
        tree.get_longest(b"zzz"),
        Some(Found::WithRemaining(&7, b"zzz"))
    );
    tree.insert(b"zz", 8);
    assert_eq!(
        tree.get_longest(b"z"),
        Some(Found::WithRemaining(&7, b"z"))
    );
    assert_eq!(
        tree.get_longest(b"zzz"),
        Some(Found::WithRemaining(&8, b"z"))
    );
}

#[test]
fn reinserting_a_key_overwrites_its_value() {
    let mut tree = BytePrefixTree::new();
    tree.insert(b"key", 1);
    tree.insert(b"other", 5);
    tree.insert(b"key", 2);
    assert_eq!(tree.get_longest(b"key"), Some(Found::Exact(&2)));
    assert_eq!(
        tree.get_longest(b"keys"),
        Some(Found::WithRemaining(&2, b"s"))
    );
    assert_eq!(tree.get_longest(b"other"), Some(Found::Exact(&5)));
    tree.insert(b"", 3);
    tree.insert(b"", 4);
    assert_eq!(tree.get_longest(b""), Some(Found::Exact(&4)));
}

#[test]
fn key_of_every_byte_value() {
    let all: Vec<u8> = (0u8..=255u8).collect();
    let mut tree = BytePrefixTree::new();
    tree.insert(&all, 1);
    tree.insert(&all[..1], 0);
    assert_eq!(tree.get_longest(&all), Some(Found::Exact(&1)));
    assert_eq!(
        tree.get_longest(&all[..255]),
        Some(Found::WithRemaining(&0, &all[1..255]))
    );
    let mut longer = all.clone();
    longer.push(0);
    assert_eq!(
        tree.get_longest(&longer),
        Some(Found::WithRemaining(&1, &[0u8][..]))
    );
    assert_eq!(tree.get_longest(&all[1..]), None);
}

#[test]
fn keys_that_differ_in_the_last_byte() {
    let mut tree = BytePrefixTree::new();
    tree.insert(&[1u8, 0u8], 'a');
    tree.insert(&[1u8, 255u8], 'b');
    assert_eq!(tree.get_longest(&[1u8, 0u8]), Some(Found::Exact(&'a')));
    assert_eq!(tree.get_longest(&[1u8, 255u8]), Some(Found::Exact(&'b')));
    assert_eq!(tree.get_longest(&[1u8, 7u8]), None);
    assert_eq!(tree.get_longest(&[1u8]), None);
}

#[test]
fn cloned_tree_answers_alike_and_stands_alone() {
    let mut tree = BytePrefixTree::new();
    tree.insert(b"", String::from("root"));
    tree.insert(b"ab", String::from("first"));
    tree.insert(b"abc", String::from("second"));
    let copy = tree.clone();
    tree.insert(b"ab", String::from("changed"));
    tree.insert(b"x", String::from("new"));
    assert_eq!(
        copy.get_longest(b"ab"),
        Some(Found::Exact(&String::from("first")))
    );
    assert_eq!(
        copy.get_longest(b"abcd"),
        Some(Found::WithRemaining(&String::from("second"), b"d"))
    );
    assert_eq!(
        copy.get_longest(b"x"),
        Some(Found::WithRemaining(&String::from("root"), b"x"))
    );
    assert_eq!(
        tree.get_longest(b"ab"),
        Some(Found::Exact(&String::from("changed")))
    );
    assert_eq!(
        tree.get_longest(b"x"),
        Some(Found::Exact(&String::from("new")))
    );
}

#[test]
fn long_key_and_long_query() {
    let key: Vec<u8> = (0..2000u32).map(|i| (i % 251) as u8).collect();
    let mut tree = BytePrefixTree::new();
    tree.insert(&key, 1);
    tree.insert(&key[..1000], 2);
    assert_eq!(tree.get_longest(&key), Some(Found::Exact(&1)));
    assert_eq!(
        tree.get_longest(&key[..1999]),
        Some(Found::WithRemaining(&2, &key[1000..1999]))
    );
    assert_eq!(tree.get_longest(&key[..999]), None);
}
