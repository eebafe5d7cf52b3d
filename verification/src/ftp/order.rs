//! The order of a directory listing: directories first, then by name whatever the case.

use vstd::prelude::*;

use crate::ftp::types::{EntryView, FileEntry};
use crate::text::chars_of;

verus! {

/// The lower case of a text, as `str::to_lowercase` of the standard library gives it.
pub uninterp spec fn lowercase(s: Seq<char>) -> Seq<char>;

/// `str::to_lowercase` gives the lower case of the text. It depends on the text alone; the
/// mapping itself, which is Unicode's, is left unsaid.
pub assume_specification[ str::to_lowercase ](s: &str) -> (r: String)
    ensures
        r@ == lowercase(s@),
;

/// Whether `a` comes before `b`, or equals it, where texts are compared character by character
/// by code point and a text comes before its own extensions.
pub open spec fn text_le(a: Seq<char>, b: Seq<char>) -> bool
    decreases a.len(),
{
    if a.len() == 0 {
        true
    } else if b.len() == 0 {
        false
    } else if a[0] != b[0] {
        (a[0] as int) < (b[0] as int)
    } else {
        text_le(a.drop_first(), b.drop_first())
    }
}

/// What an entry is sorted by: whether it is a directory, and its name in lower case.
pub type SortKey = (bool, Seq<char>);

/// What the entry is sorted by.
pub open spec fn sort_key(e: EntryView) -> SortKey {
    (e.is_dir, lowercase(e.name))
}

/// Whether an entry with the key `a` may stand before one with the key `b`.
pub open spec fn key_le(a: SortKey, b: SortKey) -> bool {
    if a.0 != b.0 {
        a.0
    } else {
        text_le(a.1, b.1)
    }
}

/// The keys of the entries, in order.
pub open spec fn sort_keys(s: Seq<EntryView>) -> Seq<SortKey> {
    s.map_values(|e: EntryView| sort_key(e))
}

/// Whether the entry at `i` stands before the one at `j` once the entries are sorted: it has the
/// smaller key, or the same key and came first.
pub open spec fn precedes(keys: Seq<SortKey>, i: int, j: int) -> bool {
    key_le(keys[i], keys[j]) && (key_le(keys[j], keys[i]) ==> i < j)
}

/// Whether `order` holds each position below `n` once, sorted.
pub open spec fn is_sorted_order(order: Seq<int>, keys: Seq<SortKey>, n: int) -> bool {
    &&& order.len() == n
    &&& forall|k: int| 0 <= k < order.len() ==> 0 <= #[trigger] order[k] < n
    &&& forall|k: int, l: int|
        0 <= k < l < order.len() ==> precedes(keys, #[trigger] order[k], #[trigger] order[l])
}

/// Whether `out` is `s` sorted: directories first, each group by lower-case name, and entries
/// with the same key in the order that they had.
pub open spec fn is_sorted_listing(s: Seq<EntryView>, out: Seq<EntryView>) -> bool {
    exists|order: Seq<int>| #[trigger] sorts(order, s, out)
}

/// The one way to sort the listing `s`.
pub open spec fn sorted_listing(s: Seq<EntryView>) -> Seq<EntryView> {
    choose|out: Seq<EntryView>| is_sorted_listing(s, out)
}

/// Whether `out` is `s` sorted, with the entry at `order[k]` moved to `k`.
pub open spec fn sorts(order: Seq<int>, s: Seq<EntryView>, out: Seq<EntryView>) -> bool {
    sorts_by(order, sort_keys(s), s, out)
}

/// Whether `out` is `s` sorted by the given keys, with the entry at `order[k]` moved to `k`.
pub open spec fn sorts_by(
    order: Seq<int>,
    keys: Seq<SortKey>,
    s: Seq<EntryView>,
    out: Seq<EntryView>,
) -> bool {
    &&& is_sorted_order(order, keys, s.len() as int)
    &&& out.len() == s.len()
    &&& forall|k: int| 0 <= k < out.len() ==> #[trigger] out[k] == s[order[k]]
}

/// The keys of the entries, where the names by which they are sorted are given.
pub open spec fn keys_with(s: Seq<EntryView>, names: Seq<Seq<char>>) -> Seq<SortKey> {
    Seq::new(s.len(), |i: int| (s[i].is_dir, names[i]))
}

proof fn lemma_text_le_reflexive(a: Seq<char>)
    ensures
        text_le(a, a),
    decreases a.len(),
{
    if a.len() > 0 {
        lemma_text_le_reflexive(a.drop_first());
    }
}

proof fn lemma_text_le_total(a: Seq<char>, b: Seq<char>)
    ensures
        text_le(a, b) || text_le(b, a),
    decreases a.len(),
{
    if a.len() > 0 && b.len() > 0 {
        if a[0] == b[0] {
            lemma_text_le_total(a.drop_first(), b.drop_first());
        }
    }
}

proof fn lemma_text_le_transitive(a: Seq<char>, b: Seq<char>, c: Seq<char>)
    requires
        text_le(a, b),
        text_le(b, c),
    ensures
        text_le(a, c),
    decreases a.len(),
{
    if a.len() > 0 && b.len() > 0 && c.len() > 0 && a[0] == b[0] && b[0] == c[0] {
        lemma_text_le_transitive(a.drop_first(), b.drop_first(), c.drop_first());
    }
}

proof fn lemma_key_le_total(a: SortKey, b: SortKey)
    ensures
        key_le(a, b) || key_le(b, a),
{
    lemma_text_le_total(a.1, b.1);
}

proof fn lemma_key_le_transitive(a: SortKey, b: SortKey, c: SortKey)
    requires
        key_le(a, b),
        key_le(b, c),
    ensures
        key_le(a, c),
{
    if a.0 == b.0 && b.0 == c.0 {
        lemma_text_le_transitive(a.1, b.1, c.1);
    }
}

proof fn lemma_precedes_transitive(keys: Seq<SortKey>, i: int, j: int, k: int)
    requires
        precedes(keys, i, j),
        precedes(keys, j, k),
    ensures
        precedes(keys, i, k),
{
    lemma_key_le_transitive(keys[i], keys[j], keys[k]);
    if key_le(keys[k], keys[i]) {
        lemma_key_le_transitive(keys[k], keys[i], keys[j]);
        lemma_key_le_transitive(keys[j], keys[k], keys[i]);
    }
}

/// Whether `a` comes before `b` or equals it.
fn text_at_most(a: &[char], b: &[char]) -> (r: bool)
    ensures
        r == text_le(a@, b@),
{
    let mut i: usize = 0;
    assert(a@.skip(0) =~= a@);
    assert(b@.skip(0) =~= b@);
    while i < a.len() && i < b.len()
        invariant
            i <= a.len(),
            i <= b.len(),
            text_le(a@, b@) == text_le(a@.skip(i as int), b@.skip(i as int)),
        decreases a.len() - i,
    {
        if a[i] != b[i] {
            return a[i] < b[i];
        }
        assert(a@.skip(i as int).drop_first() =~= a@.skip(i + 1));
        assert(b@.skip(i as int).drop_first() =~= b@.skip(i + 1));
        i += 1;
    }
    i == a.len()
}

/// What an entry is sorted by.
struct Key {
    dir: bool,
    name: Vec<char>,
}

impl Key {
    spec fn value(self) -> SortKey {
        (self.dir, self.name@)
    }

    fn at_most(&self, other: &Key) -> (r: bool)
        ensures
            r == key_le(self.value(), other.value()),
    {
        if self.dir != other.dir {
            self.dir
        } else {
            text_at_most(self.name.as_slice(), other.name.as_slice())
        }
    }
}

spec fn key_values(keys: Seq<Key>) -> Seq<SortKey> {
    keys.map_values(|k: Key| k.value())
}

/// Whether `order` holds positions from `lo` up to `hi`, sorted.
spec fn is_sorted_range(order: Seq<usize>, keys: Seq<SortKey>, lo: int, hi: int) -> bool {
    &&& order.len() == hi - lo
    &&& forall|k: int| 0 <= k < order.len() ==> lo <= #[trigger] order[k] < hi
    &&& forall|k: int, l: int|
        0 <= k < l < order.len() ==> precedes(
            keys,
            #[trigger] order[k] as int,
            #[trigger] order[l] as int,
        )
}

/// Merges two sorted runs of positions, all of the first one before all of the second one.
fn merge(keys: &Vec<Key>, a: &Vec<usize>, b: &Vec<usize>, lo: usize, mid: usize, hi: usize) -> (out:
    Vec<usize>)
    requires
        lo <= mid <= hi <= keys@.len(),
        is_sorted_range(a@, key_values(keys@), lo as int, mid as int),
        is_sorted_range(b@, key_values(keys@), mid as int, hi as int),
    ensures
        is_sorted_range(out@, key_values(keys@), lo as int, hi as int),
{
    let ghost ks = key_values(keys@);
    let mut out: Vec<usize> = Vec::new();
    let mut i: usize = 0;
    let mut j: usize = 0;
    while i < a.len() || j < b.len()
        invariant
            lo <= mid <= hi <= keys@.len(),
            ks == key_values(keys@),
            is_sorted_range(a@, ks, lo as int, mid as int),
            is_sorted_range(b@, ks, mid as int, hi as int),
            i <= a@.len(),
            j <= b@.len(),
            out@.len() == i + j,
            forall|k: int| 0 <= k < out@.len() ==> lo <= #[trigger] out@[k] < hi,
            forall|k: int, l: int|
                0 <= k < l < out@.len() ==> precedes(
                    ks,
                    #[trigger] out@[k] as int,
                    #[trigger] out@[l] as int,
                ),
            forall|k: int, l: int|
                0 <= k < out@.len() && i <= l < a@.len() ==> precedes(
                    ks,
                    #[trigger] out@[k] as int,
                    #[trigger] a@[l] as int,
                ),
            forall|k: int, l: int|
                0 <= k < out@.len() && j <= l < b@.len() ==> precedes(
                    ks,
                    #[trigger] out@[k] as int,
                    #[trigger] b@[l] as int,
                ),
        decreases a@.len() - i + b@.len() - j,
    {
        let ghost done = out@;
        let left: bool = if i == a.len() {
            false
        } else if j == b.len() {
            true
        } else {
            keys[a[i]].at_most(&keys[b[j]])
        };
        if left {
            let x = a[i];
            assert forall|l: int| j <= l < b@.len() implies precedes(
                ks,
                x as int,
                #[trigger] b@[l] as int,
            ) by {
                assert(ks[x as int] == keys@[x as int].value());
                assert(ks[b@[j as int] as int] == keys@[b@[j as int] as int].value());
                assert(precedes(ks, x as int, b@[j as int] as int));
                if l > j {
                    lemma_precedes_transitive(ks, x as int, b@[j as int] as int, b@[l] as int);
                }
            }
            out.push(x);
            i += 1;
        } else {
            let x = b[j];
            assert forall|l: int| i <= l < a@.len() implies precedes(
                ks,
                x as int,
                #[trigger] a@[l] as int,
            ) by {
                assert(ks[x as int] == keys@[x as int].value());
                assert(ks[a@[i as int] as int] == keys@[a@[i as int] as int].value());
                lemma_key_le_total(ks[x as int], ks[a@[i as int] as int]);
                assert(precedes(ks, x as int, a@[i as int] as int));
                if l > i {
                    lemma_precedes_transitive(ks, x as int, a@[i as int] as int, a@[l] as int);
                }
            }
            out.push(x);
            j += 1;
        }
        assert(out@.drop_last() =~= done);
    }
    out
}

/// The positions from `lo` up to `hi`, sorted by their keys.
fn sorted_range(keys: &Vec<Key>, lo: usize, hi: usize) -> (out: Vec<usize>)
    requires
        lo <= hi <= keys@.len(),
    ensures
        is_sorted_range(out@, key_values(keys@), lo as int, hi as int),
    decreases hi - lo,
{
    let mut out: Vec<usize> = Vec::new();
    if lo == hi {
        return out;
    }
    if hi - lo == 1 {
        out.push(lo);
        return out;
    }
    let mid: usize = lo + (hi - lo) / 2;
    let a = sorted_range(keys, lo, mid);
    let b = sorted_range(keys, mid, hi);
    merge(keys, &a, &b, lo, mid, hi)
}

proof fn lemma_order_is_permutation(order: Seq<int>, keys: Seq<SortKey>, n: int)
    requires
        is_sorted_order(order, keys, n),
    ensures
        order.no_duplicates(),
        forall|i: int| 0 <= i < n ==> #[trigger] order.contains(i),
{
    assert forall|k: int, l: int| 0 <= k < l < order.len() implies order[k] != order[l] by {
        assert(precedes(keys, order[k], order[l]));
        lemma_key_le_total(keys[order[k]], keys[order[k]]);
    }
    let all = Seq::new(n as nat, |i: int| i);
    let small = order.to_set();
    let big = all.to_set();
    assert(all.no_duplicates());
    order.unique_seq_to_set();
    all.unique_seq_to_set();
    vstd::seq_lib::seq_to_set_is_finite(order);
    vstd::seq_lib::seq_to_set_is_finite(all);
    assert forall|x: int| small.contains(x) implies big.contains(x) by {
        assert(order.contains(x));
        assert(all[x] == x);
        assert(all.contains(x));
    }
    vstd::set_lib::lemma_subset_equality(small, big);
    assert forall|i: int| 0 <= i < n implies #[trigger] order.contains(i) by {
        assert(all[i] == i);
        assert(all.contains(i));
        assert(big.contains(i));
    }
}

/// The sorted positions of the entries.
fn sorted_order(entries: &[FileEntry], names: &[String]) -> (order: Vec<usize>)
    requires
        names@.len() == entries@.len(),
    ensures
        is_sorted_range(
            order@,
            keys_with(entries.deep_view(), names.deep_view()),
            0,
            entries@.len() as int,
        ),
{
    let ghost wanted = keys_with(entries.deep_view(), names.deep_view());
    let mut keys: Vec<Key> = Vec::new();
    for i in 0..entries.len()
        invariant
            names@.len() == entries@.len(),
            wanted == keys_with(entries.deep_view(), names.deep_view()),
            keys@.len() == i,
            forall|j: int| 0 <= j < i ==> (#[trigger] keys@[j]).value() == wanted[j],
    {
        keys.push(Key { dir: entries[i].is_dir, name: chars_of(names[i].as_str()) });
    }
    assert(key_values(keys@) =~= wanted) by {
        assert forall|j: int| 0 <= j < keys@.len() implies key_values(keys@)[j] == wanted[j] by {
            assert(keys@[j].value() == wanted[j]);
        }
    }
    sorted_range(&keys, 0, entries.len())
}

/// Sorts a listing by the given names: directories first, then by name. Entries that compare
/// equal keep their order.
pub fn sort_by_names(entries: &mut [FileEntry], names: &[String])
    requires
        names@.len() == old(entries)@.len(),
    ensures
        exists|order: Seq<int>| #[trigger]
            sorts_by(
                order,
                keys_with(old(entries).deep_view(), names.deep_view()),
                old(entries).deep_view(),
                final(entries).deep_view(),
            ),
{
    let ghost before = entries@;
    let ghost listing = entries.deep_view();
    let ghost keys = keys_with(listing, names.deep_view());
    let order = sorted_order(entries, names);
    let n: usize = entries.len();
    let ghost positions = order@.map_values(|i: usize| i as int);
    proof {
        assert(is_sorted_order(positions, keys, n as int));
        lemma_order_is_permutation(positions, keys, n as int);
        assert forall|k: int, l: int| 0 <= k < l < n implies order@[k] != order@[l] by {
            assert(positions[k] != positions[l]);
        }
    }
    let mut taken: Vec<FileEntry> = Vec::new();
    for k in 0..n
        invariant
            n == before.len(),
            entries@.len() == n,
            order@.len() == n,
            order@.no_duplicates(),
            forall|l: int| 0 <= l < n ==> 0 <= #[trigger] order@[l] < n,
            taken@.len() == k,
            forall|l: int| 0 <= l < k ==> #[trigger] taken@[l] == before[order@[l] as int],
            forall|l: int|
                k <= l < n ==> entries@[#[trigger] order@[l] as int] == before[order@[l] as int],
    {
        let mut entry = FileEntry::default();
        let i = order[k];
        std::mem::swap(&mut entries[i], &mut entry);
        taken.push(entry);
    }
    let mut k: usize = n;
    while k > 0
        invariant
            k <= n,
            n == before.len(),
            entries@.len() == n,
            order@.len() == n,
            taken@.len() == k,
            forall|l: int| 0 <= l < k ==> #[trigger] taken@[l] == before[order@[l] as int],
            forall|l: int| k <= l < n ==> #[trigger] entries@[l] == before[order@[l] as int],
        decreases k,
    {
        k -= 1;
        match taken.pop() {
            Some(entry) => {
                entries[k] = entry;
            },
            None => {},
        }
    }
    assert(sorts_by(positions, keys, listing, entries.deep_view()));
}

/// Sorts a listing: directories first, then by name whatever the case. Entries that compare equal
/// keep their order.
pub fn sort_entries(entries: &mut [FileEntry])
    ensures
        is_sorted_listing(old(entries).deep_view(), final(entries).deep_view()),
        final(entries).deep_view() == sorted_listing(old(entries).deep_view()),
{
    let ghost listing = entries.deep_view();
    let mut names: Vec<String> = Vec::new();
    for i in 0..entries.len()
        invariant
            listing == entries.deep_view(),
            names@.len() == i,
            forall|j: int| 0 <= j < i ==> (#[trigger] names@[j])@ == lowercase(listing[j].name),
    {
        names.push(entries[i].name.as_str().to_lowercase());
    }
    let names = names.as_slice();
    assert(keys_with(listing, names.deep_view()) =~= sort_keys(listing)) by {
        assert forall|j: int| 0 <= j < listing.len() implies keys_with(
            listing,
            names.deep_view(),
        )[j] == sort_keys(listing)[j] by {
            assert(names.deep_view()[j] == names@[j]@);
        }
    }
    sort_by_names(entries, names);
    proof {
        let order = choose|order: Seq<int>| #[trigger]
            sorts_by(order, sort_keys(listing), listing, entries.deep_view());
        assert(sorts(order, listing, entries.deep_view()));
        lemma_sorted_listing(listing, entries.deep_view());
    }
}

proof fn lemma_sorted_listing(s: Seq<EntryView>, out: Seq<EntryView>)
    requires
        is_sorted_listing(s, out),
    ensures
        out == sorted_listing(s),
{
    sorted_listing_sorts(s);
    sorted_listing_is_unique(s, out, sorted_listing(s));
}

/// Where the position `n` goes among those below it: behind the ones that precede it, at least
/// the first `k`, and before the others.
proof fn lemma_place(order: Seq<int>, keys: Seq<SortKey>, n: int, k: int) -> (p: int)
    requires
        is_sorted_order(order, keys, n),
        0 <= k <= order.len(),
        forall|l: int| 0 <= l < k ==> precedes(keys, #[trigger] order[l], n),
    ensures
        0 <= p <= order.len(),
        forall|l: int| 0 <= l < p ==> precedes(keys, #[trigger] order[l], n),
        forall|l: int| p <= l < order.len() ==> precedes(keys, n, #[trigger] order[l]),
    decreases order.len() - k,
{
    if k == order.len() {
        k
    } else if precedes(keys, order[k], n) {
        lemma_place(order, keys, n, k + 1)
    } else {
        lemma_key_le_total(keys[order[k]], keys[n]);
        assert(precedes(keys, n, order[k]));
        assert forall|l: int| k <= l < order.len() implies precedes(
            keys,
            n,
            #[trigger] order[l],
        ) by {
            if l > k {
                lemma_precedes_transitive(keys, n, order[k], order[l]);
            }
        }
        k
    }
}

proof fn lemma_sorted_order(keys: Seq<SortKey>, n: int) -> (order: Seq<int>)
    requires
        0 <= n,
    ensures
        is_sorted_order(order, keys, n),
    decreases n,
{
    if n == 0 {
        Seq::empty()
    } else {
        let rest = lemma_sorted_order(keys, n - 1);
        let p = lemma_place(rest, keys, n - 1, 0);
        let order = rest.insert(p, n - 1);
        assert forall|k: int, l: int| 0 <= k < l < order.len() implies precedes(
            keys,
            #[trigger] order[k],
            #[trigger] order[l],
        ) by {
            let before = |i: int|
                if i < p {
                    i
                } else {
                    i - 1
                };
            if k != p {
                assert(order[k] == rest[before(k)]);
            }
            if l != p {
                assert(order[l] == rest[before(l)]);
            }
        }
        order
    }
}

/// Every listing can be sorted, and [`sorted_listing`] is it sorted.
pub proof fn sorted_listing_sorts(s: Seq<EntryView>)
    ensures
        is_sorted_listing(s, sorted_listing(s)),
{
    let order = lemma_sorted_order(sort_keys(s), s.len() as int);
    let out = Seq::new(s.len(), |k: int| s[order[k]]);
    assert(sorts(order, s, out));
    assert(is_sorted_listing(s, out));
}

/// A listing can be sorted in one way only.
pub proof fn sorted_listing_is_unique(s: Seq<EntryView>, a: Seq<EntryView>, b: Seq<EntryView>)
    requires
        is_sorted_listing(s, a),
        is_sorted_listing(s, b),
    ensures
        a == b,
{
    let x = choose|order: Seq<int>| #[trigger] sorts(order, s, a);
    let y = choose|order: Seq<int>| #[trigger] sorts(order, s, b);
    let keys = sort_keys(s);
    let n = s.len() as int;
    lemma_order_is_permutation(x, keys, n);
    lemma_order_is_permutation(y, keys, n);
    lemma_same_order(x, y, keys, n, n);
    assert(x =~= y);
    assert(a =~= b);
}

proof fn lemma_same_order(x: Seq<int>, y: Seq<int>, keys: Seq<SortKey>, n: int, k: int)
    requires
        is_sorted_order(x, keys, n),
        is_sorted_order(y, keys, n),
        forall|i: int| 0 <= i < n ==> #[trigger] x.contains(i),
        forall|i: int| 0 <= i < n ==> #[trigger] y.contains(i),
        0 <= k <= n,
    ensures
        forall|l: int| 0 <= l < k ==> x[l] == y[l],
    decreases k,
{
    if k > 0 {
        lemma_same_order(x, y, keys, n, k - 1);
        let p = x[k - 1];
        let q = y[k - 1];
        if p != q {
            assert(y.contains(p));
            assert(x.contains(q));
            let i = choose|i: int| 0 <= i < y.len() && y[i] == p;
            let j = choose|j: int| 0 <= j < x.len() && x[j] == q;
            if i < k - 1 {
                assert(x[i] == p);
                assert(precedes(keys, x[i], x[k - 1]));
            }
            if j < k - 1 {
                assert(y[j] == q);
                assert(precedes(keys, y[j], y[k - 1]));
            }
            assert(precedes(keys, y[k - 1], y[i]));
            assert(precedes(keys, x[k - 1], x[j]));
        }
    }
}

/// Sorting keeps every entry as often as it was there, and puts every directory before every
/// file.
pub proof fn sorting_keeps_the_entries(s: Seq<EntryView>, out: Seq<EntryView>)
    requires
        is_sorted_listing(s, out),
    ensures
        out.to_multiset() == s.to_multiset(),
        forall|i: int, j: int|
            0 <= i < j < out.len() && #[trigger] out[j].is_dir ==> #[trigger] out[i].is_dir,
        forall|i: int, j: int|
            0 <= i < j < out.len() ==> key_le(
                sort_key(#[trigger] out[i]),
                sort_key(#[trigger] out[j]),
            ),
{
    let order = choose|order: Seq<int>| #[trigger] sorts(order, s, out);
    let keys = sort_keys(s);
    lemma_order_is_permutation(order, keys, s.len() as int);
    assert forall|i: int, j: int| 0 <= i < j < out.len() implies key_le(
        sort_key(#[trigger] out[i]),
        sort_key(#[trigger] out[j]),
    ) by {
        assert(precedes(keys, order[i], order[j]));
    }
    lemma_permuted_multiset(order, s, out);
}

proof fn lemma_permuted_multiset(order: Seq<int>, s: Seq<EntryView>, out: Seq<EntryView>)
    requires
        order.len() == s.len(),
        out.len() == s.len(),
        order.no_duplicates(),
        forall|k: int| 0 <= k < order.len() ==> 0 <= #[trigger] order[k] < s.len(),
        forall|k: int| 0 <= k < out.len() ==> #[trigger] out[k] == s[order[k]],
        forall|i: int| 0 <= i < s.len() ==> #[trigger] order.contains(i),
    ensures
        out.to_multiset() == s.to_multiset(),
    decreases s.len(),
{
    broadcast use vstd::seq_lib::group_to_multiset_ensures;

    if s.len() == 0 {
        assert(out =~= s);
    } else {
        let n = s.len() - 1;
        assert(order.contains(n));
        let k = choose|k: int| 0 <= k < order.len() && order[k] == n;
        let rest = order.remove(k);
        let t = s.drop_last();
        let u = out.remove(k);
        order.remove_ensures(k);
        out.remove_ensures(k);
        assert forall|i: int| 0 <= i < t.len() implies #[trigger] rest.contains(i) by {
            assert(order.contains(i));
            let l = choose|l: int| 0 <= l < order.len() && order[l] == i;
            if l < k {
                assert(rest[l] == order[l]);
            } else {
                assert(rest[l - 1] == order[l]);
            }
        }
        assert forall|i: int| 0 <= i < rest.len() implies 0 <= #[trigger] rest[i] < t.len() by {
            let l = if i < k {
                i
            } else {
                i + 1
            };
            assert(rest[i] == order[l]);
        }
        assert forall|i: int| 0 <= i < u.len() implies #[trigger] u[i] == t[rest[i]] by {
            let l = if i < k {
                i
            } else {
                i + 1
            };
            assert(u[i] == out[l]);
            assert(rest[i] == order[l]);
        }
        lemma_permuted_multiset(rest, t, u);
        assert(s =~= t.push(s[n]));
        assert(out[k] == s[n]);
    }
}

/// Sorting a sorted listing changes nothing.
pub proof fn sorting_is_idempotent(s: Seq<EntryView>, once: Seq<EntryView>, twice: Seq<EntryView>)
    requires
        is_sorted_listing(s, once),
        is_sorted_listing(once, twice),
    ensures
        twice == once,
{
    sorting_keeps_the_entries(s, once);
    let same = Seq::new(once.len(), |i: int| i);
    assert(sorts(same, once, once));
    sorted_listing_is_unique(once, once, twice);
}

/// Names are sorted by the first character in which they differ, and a name comes before those
/// that go on where it ends.
pub proof fn names_are_sorted_by_their_first_difference(
    head: Seq<char>,
    x: char,
    y: char,
    a: Seq<char>,
    b: Seq<char>,
)
    ensures
        (x as int) < (y as int) ==> text_le(head + seq![x] + a, head + seq![y] + b) && !text_le(
            head + seq![y] + b,
            head + seq![x] + a,
        ),
        text_le(head, head + seq![x] + a) && !text_le(head + seq![x] + a, head),
    decreases head.len(),
{
    let (s, t) = (head + seq![x] + a, head + seq![y] + b);
    if head.len() > 0 {
        let rest = head.drop_first();
        names_are_sorted_by_their_first_difference(rest, x, y, a, b);
        assert(s.drop_first() =~= rest + seq![x] + a);
        assert(t.drop_first() =~= rest + seq![y] + b);
        assert(s[0] == head[0] && t[0] == head[0]);
    } else {
        assert(s[0] == x && t[0] == y);
    }
}

/// A sorted listing holds every entry in one place, and entries that compare equal keep their
/// order.
pub proof fn sorting_is_stable(s: Seq<EntryView>, out: Seq<EntryView>)
    requires
        is_sorted_listing(s, out),
    ensures
        out.len() == s.len(),
        exists|order: Seq<int>|
            {
                &&& #[trigger] order.no_duplicates()
                &&& order.len() == s.len()
                &&& forall|k: int|
                    0 <= k < order.len() ==> 0 <= #[trigger] order[k] < s.len() && out[k]
                        == s[order[k]]
                &&& forall|k: int, l: int|
                    0 <= k < l < order.len() && sort_key(out[k]) == sort_key(out[l])
                        ==> #[trigger] order[k] < #[trigger] order[l]
            },
{
    let order = choose|order: Seq<int>| #[trigger] sorts(order, s, out);
    let keys = sort_keys(s);
    lemma_order_is_permutation(order, keys, s.len() as int);
    assert forall|k: int, l: int|
        0 <= k < l < order.len() && sort_key(out[k]) == sort_key(out[l]) implies #[trigger] order[k]
        < #[trigger] order[l] by {
        assert(precedes(keys, order[k], order[l]));
        lemma_key_le_total(keys[order[k]], keys[order[k]]);
    }
    assert(order.no_duplicates());
}

/// In a sorted listing the directories stand before the files, and each of the two goes by name,
/// whatever the case.
pub proof fn sorted_listings_go_by_name(s: Seq<EntryView>, i: int, j: int)
    requires
        0 <= i < j < s.len(),
    ensures
        ({
            let out = sorted_listing(s);
            &&& out.len() == s.len()
            &&& out[j].is_dir ==> out[i].is_dir
            &&& out[i].is_dir == out[j].is_dir ==> text_le(
                lowercase(out[i].name),
                lowercase(out[j].name),
            )
        }),
{
    sorted_listing_sorts(s);
    sorting_keeps_the_entries(s, sorted_listing(s));
    sorting_is_stable(s, sorted_listing(s));
    let out = sorted_listing(s);
    assert(key_le(sort_key(out[i]), sort_key(out[j])));
}

} // verus!
