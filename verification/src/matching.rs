//! The longest-match rule, stated over a table of keys as a mathematical map.

use vstd::prelude::*;

verus! {

/// The outcome of a successful query, as a mathematical value.
pub enum Matched<T> {
    /// A key equal to the whole query, with its value.
    Exact(T),
    /// A key that is a strict prefix of the query, with its value and the
    /// part of the query after the key.
    WithRemaining(T, Seq<u8>),
}

/// The first `n` bytes of `query` are a key of `table`.
pub open spec fn is_match_len<T>(table: Map<Seq<u8>, T>, query: Seq<u8>, n: int) -> bool {
    0 <= n <= query.len() && table.contains_key(query.take(n))
}

/// The first `n` bytes of `query` are a key of `table`, and no longer prefix
/// of `query` is.
pub open spec fn is_longest_match_len<T>(table: Map<Seq<u8>, T>, query: Seq<u8>, n: int) -> bool {
    &&& is_match_len(table, query, n)
    &&& forall|j: int| n < j <= query.len() ==> !table.contains_key(#[trigger] query.take(j))
}

/// Some key of `table` is a prefix of `query`.
pub open spec fn has_match<T>(table: Map<Seq<u8>, T>, query: Seq<u8>) -> bool {
    exists|n: int| is_match_len(table, query, n)
}

/// The length of the longest key of `table` that is a prefix of `query`,
/// where there is one.
pub open spec fn longest_match_len<T>(table: Map<Seq<u8>, T>, query: Seq<u8>) -> int {
    choose|n: int| is_longest_match_len(table, query, n)
}

/// What a query for `query` yields against `table`: nothing where no key is a
/// prefix of `query`; else the value of the longest key that is one, with the
/// rest of `query` where the key is shorter than `query`.
pub open spec fn longest_match<T>(table: Map<Seq<u8>, T>, query: Seq<u8>) -> Option<Matched<T>> {
    if has_match(table, query) {
        let n = longest_match_len(table, query);
        if n == query.len() {
            Some(Matched::Exact(table[query]))
        } else {
            Some(Matched::WithRemaining(table[query.take(n)], query.skip(n)))
        }
    } else {
        None
    }
}

/// A query has at most one longest match length, and `longest_match_len` is it.
pub proof fn lemma_longest_match_len_unique<T>(table: Map<Seq<u8>, T>, query: Seq<u8>, n: int)
    requires
        is_longest_match_len(table, query, n),
    ensures
        has_match(table, query),
        longest_match_len(table, query) == n,
{
    assert(is_match_len(table, query, n));
    let m = longest_match_len(table, query);
    assert(is_longest_match_len(table, query, m));
    if m < n {
        assert(!table.contains_key(query.take(n)));
    }
    if n < m {
        assert(!table.contains_key(query.take(m)));
    }
}

/// Whenever some key is a prefix of the query, a longest one exists, and
/// `longest_match_len` is its length.
pub proof fn longest_prefix_key_exists<T>(table: Map<Seq<u8>, T>, query: Seq<u8>)
    requires
        has_match(table, query),
    ensures
        is_longest_match_len(table, query, longest_match_len(table, query)),
{
    let n0 = choose|n: int| is_match_len(table, query, n);
    lemma_longest_above(table, query, n0, query.len() as int);
}

/// Searching downwards from `top`, above which no prefix is a key, finds a
/// longest match length, given that `n` is a match length.
proof fn lemma_longest_above<T>(table: Map<Seq<u8>, T>, query: Seq<u8>, n: int, top: int)
    requires
        is_match_len(table, query, n),
        n <= top <= query.len(),
        forall|j: int| top < j <= query.len() ==> !table.contains_key(#[trigger] query.take(j)),
    ensures
        exists|m: int| is_longest_match_len(table, query, m),
        is_longest_match_len(table, query, longest_match_len(table, query)),
    decreases top - n,
{
    if table.contains_key(query.take(top)) {
        assert(is_longest_match_len(table, query, top));
    } else {
        assert(top > n);
        lemma_longest_above(table, query, n, top - 1);
    }
}

/// A query equal to a key finds that key, whole: the result is `Exact` with
/// the key's value. In particular a key finds the value it was just inserted
/// with.
pub proof fn exact_key_is_found<T>(table: Map<Seq<u8>, T>, key: Seq<u8>, value: T)
    ensures
        table.contains_key(key) ==> longest_match(table, key) == Some(Matched::Exact(table[key])),
        longest_match(table.insert(key, value), key) == Some(Matched::Exact(value)),
{
    assert(key.take(key.len() as int) =~= key);
    if table.contains_key(key) {
        assert(is_longest_match_len(table, key, key.len() as int));
        lemma_longest_match_len_unique(table, key, key.len() as int);
    }
    let grown = table.insert(key, value);
    assert(is_longest_match_len(grown, key, key.len() as int));
    lemma_longest_match_len_unique(grown, key, key.len() as int);
}

/// Where a key and a longer key that starts with it are both in the table, a
/// query equal to the longer one finds the longer one's value, never the
/// shorter one's.
pub proof fn longer_key_wins<T>(table: Map<Seq<u8>, T>, shorter: Seq<u8>, extra: Seq<u8>)
    requires
        table.contains_key(shorter),
        table.contains_key(shorter + extra),
    ensures
        longest_match(table, shorter + extra) == Some(Matched::Exact(table[shorter + extra])),
{
    exact_key_is_found(table, shorter + extra, table[shorter]);
}

/// Where a key is a strict prefix of the query and no longer prefix of the
/// query is a key, the query finds that key's value and has as its remainder
/// exactly what follows the key.
pub proof fn remainder_follows_key<T>(table: Map<Seq<u8>, T>, key: Seq<u8>, rest: Seq<u8>)
    requires
        table.contains_key(key),
        rest.len() > 0,
        forall|j: int|
            key.len() < j <= key.len() + rest.len() ==> !table.contains_key(
                #[trigger] (key + rest).take(j),
            ),
    ensures
        longest_match(table, key + rest) == Some(Matched::WithRemaining(table[key], rest)),
{
    let query = key + rest;
    let n = key.len() as int;
    assert(query.take(n) =~= key);
    assert(query.skip(n) =~= rest);
    assert(is_longest_match_len(table, query, n));
    lemma_longest_match_len_unique(table, query, n);
}

/// A query finds nothing exactly when no key of the table is a prefix of it.
pub proof fn no_prefix_key_no_match<T>(table: Map<Seq<u8>, T>, query: Seq<u8>)
    ensures
        longest_match(table, query) is None <==> forall|key: Seq<u8>|
            table.contains_key(key) ==> !key.is_prefix_of(query),
{
    if has_match(table, query) {
        let n = choose|n: int| is_match_len(table, query, n);
        assert(query.take(n).is_prefix_of(query));
    } else {
        assert forall|key: Seq<u8>| table.contains_key(key) implies !key.is_prefix_of(query) by {
            if key.is_prefix_of(query) {
                assert(query.take(key.len() as int) =~= key);
                assert(is_match_len(table, query, key.len() as int));
            }
        }
    }
}

/// Once the empty key is inserted, the empty query finds it, whole; and a
/// non-empty query none of whose non-empty prefixes is a key falls back to it,
/// with the whole query as remainder.
pub proof fn empty_key_is_fallback<T>(table: Map<Seq<u8>, T>, value: T, query: Seq<u8>)
    ensures
        longest_match(table.insert(Seq::empty(), value), Seq::empty()) == Some(
            Matched::Exact(value),
        ),
        query.len() > 0 && (forall|j: int|
            0 < j <= query.len() ==> !table.contains_key(#[trigger] query.take(j)))
            ==> longest_match(table.insert(Seq::empty(), value), query) == Some(
            Matched::WithRemaining(value, query),
        ),
{
    let empty = Seq::<u8>::empty();
    let grown = table.insert(empty, value);
    exact_key_is_found(table, empty, value);
    if query.len() > 0 && (forall|j: int|
        0 < j <= query.len() ==> !table.contains_key(#[trigger] query.take(j))) {
        assert(empty + query =~= query);
        assert forall|j: int| 0 < j <= query.len() implies !grown.contains_key(
            #[trigger] query.take(j),
        ) by {
            assert(query.take(j).len() == j);
        }
        remainder_follows_key(grown, empty, query);
    }
}

/// Inserting a key a second time replaces its value: the table is the one
/// that the second insertion alone gives, so every query sees the new value
/// only.
pub proof fn reinsert_overwrites<T>(
    table: Map<Seq<u8>, T>,
    key: Seq<u8>,
    first: T,
    second: T,
    query: Seq<u8>,
)
    ensures
        table.insert(key, first).insert(key, second) == table.insert(key, second),
        longest_match(table.insert(key, first).insert(key, second), query) == longest_match(
            table.insert(key, second),
            query,
        ),
        longest_match(table.insert(key, first).insert(key, second), key) == Some(
            Matched::Exact(second),
        ),
{
    assert(table.insert(key, first).insert(key, second) =~= table.insert(key, second));
    exact_key_is_found(table, key, second);
}

/// What a query finds is the value of a key that the query starts with. An
/// exact match is the query itself as a key. A match with a remainder splits
/// the query into a key and a non-empty rest, and no key of the table is both
/// longer than that key and a prefix of the query.
pub proof fn match_splits_query<T>(table: Map<Seq<u8>, T>, query: Seq<u8>)
    ensures
        match longest_match(table, query) {
            Some(Matched::Exact(value)) => table.contains_key(query) && table[query] == value,
            Some(Matched::WithRemaining(value, rest)) => {
                let key = query.take(query.len() - rest.len());
                &&& 0 < rest.len() <= query.len()
                &&& key + rest == query
                &&& table.contains_key(key)
                &&& table[key] == value
                &&& forall|longer: Seq<u8>|
                    table.contains_key(longer) && longer.is_prefix_of(query) ==> longer.len()
                        <= key.len()
            },
            None => true,
        },
{
    if has_match(table, query) {
        longest_prefix_key_exists(table, query);
        let n = longest_match_len(table, query);
        assert(query.take(query.len() as int) =~= query);
        if n < query.len() {
            let rest = query.skip(n);
            assert(query.take(n) + rest =~= query);
            assert forall|longer: Seq<u8>|
                table.contains_key(longer) && longer.is_prefix_of(query) implies longer.len()
                <= n by {
                assert(query.take(longer.len() as int) =~= longer);
            }
        }
    }
}

} // verus!
