//! Which directory entries are listed, and in what order: unreadable entries
//! and (unless asked for) hidden ones are left out, and the rest are sorted
//! by name, ignoring case, keeping the reading order among equal names.

use vstd::prelude::*;
use crate::args::Args;
use crate::clock::{valid_local, LocalTime};
use crate::entry::FileEntry;
use crate::format::{
    layout_width, long_format, long_listing_of, short_format, shown_short, times_in_range, total_blocks, OwnerNames,
};

verus! {

/// What `str::to_lowercase` returns: the Unicode lowercase mapping of the
/// text (context-sensitive for a final capital sigma, which becomes `ς`).
pub uninterp spec fn lowercase(s: Seq<char>) -> Seq<char>;

/// `str::to_lowercase`, collected into characters. The result is a function of
/// the text alone.
#[verifier::external_body]
fn lowercase_chars(s: &str) -> (r: Vec<char>)
    ensures
        r@ == lowercase(s@),
{
    s.to_lowercase().chars().collect()
}

/// The order of `String`s: lexicographic by Unicode code point (which is the
/// order of their UTF-8 bytes). `key_le(a, b)` is `a <= b`.
pub open spec fn key_le(a: Seq<char>, b: Seq<char>) -> bool
    decreases a.len(),
{
    if a.len() == 0 {
        true
    } else if b.len() == 0 {
        false
    } else if a[0] != b[0] {
        a[0] < b[0]
    } else {
        key_le(a.drop_first(), b.drop_first())
    }
}

/// The key an entry is sorted by: its name in lowercase.
pub open spec fn sort_key(e: FileEntry) -> Seq<char> {
    lowercase(e.name@)
}

/// The entries that are listed: the ones that could be read, hidden ones only
/// when `show_hidden`, in reading order.
pub open spec fn kept(items: Seq<std::io::Result<FileEntry>>, show_hidden: bool) -> Seq<FileEntry>
    decreases items.len(),
{
    if items.len() == 0 {
        Seq::empty()
    } else {
        let rest = kept(items.drop_last(), show_hidden);
        match items.last() {
            Ok(e) => if show_hidden || !e.is_hidden {
                rest.push(e)
            } else {
                rest
            },
            Err(_) => rest,
        }
    }
}

/// `perm` is a permutation of `0..n`.
pub open spec fn is_permutation(perm: Seq<int>, n: nat) -> bool {
    &&& perm.len() == n
    &&& forall|k: int| 0 <= k < n ==> 0 <= #[trigger] perm[k] < n
    &&& forall|j: int, k: int| 0 <= j < k < n ==> #[trigger] perm[j] != #[trigger] perm[k]
}

/// `result` is `input` sorted by key, stably: `perm` says where each result
/// element stood in the input; keys never decrease; entries with equal keys
/// keep their input order.
pub open spec fn stable_sorted_by(result: Seq<FileEntry>, input: Seq<FileEntry>, perm: Seq<int>) -> bool {
    &&& result.len() == input.len()
    &&& is_permutation(perm, input.len())
    &&& forall|k: int| 0 <= k < result.len() ==> #[trigger] result[k] == input[perm[k]]
    &&& forall|j: int, k: int|
        0 <= j < k < result.len() ==> key_le(sort_key(#[trigger] result[j]), sort_key(#[trigger] result[k]))
    &&& forall|j: int, k: int|
        0 <= j < k < result.len() && sort_key(#[trigger] result[j]) == sort_key(#[trigger] result[k])
            ==> perm[j] < perm[k]
}

/// Either of two keys is at most the other.
pub proof fn lemma_key_le_total(a: Seq<char>, b: Seq<char>)
    ensures
        key_le(a, b) || key_le(b, a),
    decreases a.len(),
{
    if a.len() > 0 && b.len() > 0 && a[0] == b[0] {
        lemma_key_le_total(a.drop_first(), b.drop_first());
    }
}

/// The key order is transitive.
pub proof fn lemma_key_le_trans(a: Seq<char>, b: Seq<char>, c: Seq<char>)
    requires
        key_le(a, b),
        key_le(b, c),
    ensures
        key_le(a, c),
    decreases a.len(),
{
    if a.len() > 0 && b.len() > 0 && c.len() > 0 && a[0] == b[0] && b[0] == c[0] {
        lemma_key_le_trans(a.drop_first(), b.drop_first(), c.drop_first());
    }
}

/// Keys at most each other are equal.
pub proof fn lemma_key_le_antisym(a: Seq<char>, b: Seq<char>)
    requires
        key_le(a, b),
        key_le(b, a),
    ensures
        a == b,
    decreases a.len(),
{
    if a.len() > 0 && b.len() > 0 {
        lemma_key_le_antisym(a.drop_first(), b.drop_first());
        assert(a =~= seq![a[0]] + a.drop_first());
        assert(b =~= seq![b[0]] + b.drop_first());
    }
}

/// Whether `a <= b` in the key order.
fn key_le_exec(a: &Vec<char>, b: &Vec<char>) -> (r: bool)
    ensures
        r == key_le(a@, b@),
{
    let mut i: usize = 0;
    assert(a@.skip(0) =~= a@);
    assert(b@.skip(0) =~= b@);
    while i < a.len() && i < b.len()
        invariant
            i <= a@.len(),
            i <= b@.len(),
            a@.take(i as int) == b@.take(i as int),
            key_le(a@, b@) == key_le(a@.skip(i as int), b@.skip(i as int)),
        decreases a.len() - i,
    {
        if a[i] != b[i] {
            assert(a@.skip(i as int)[0] == a@[i as int]);
            assert(b@.skip(i as int)[0] == b@[i as int]);
            return a[i] < b[i];
        }
        assert(a@.skip(i as int).drop_first() =~= a@.skip(i + 1));
        assert(b@.skip(i as int).drop_first() =~= b@.skip(i + 1));
        assert(a@.take(i + 1) =~= a@.take(i as int).push(a@[i as int]));
        assert(b@.take(i + 1) =~= b@.take(i as int).push(b@[i as int]));
        i = i + 1;
    }
    if i == a.len() {
        true
    } else {
        false
    }
}

/// Inserting `e` at `p`, after every element whose key is at most `e`'s and
/// before every other, keeps `res` a stable sort of the input extended by `e`.
proof fn lemma_insert_sorted(res: Seq<FileEntry>, input: Seq<FileEntry>, perm: Seq<int>, e: FileEntry, p: int)
    requires
        stable_sorted_by(res, input, perm),
        0 <= p <= res.len(),
        forall|q: int| 0 <= q < p ==> key_le(sort_key(#[trigger] res[q]), sort_key(e)),
        p < res.len() ==> !key_le(sort_key(res[p]), sort_key(e)),
    ensures
        stable_sorted_by(res.insert(p, e), input.push(e), perm.insert(p, input.len() as int)),
{
    let m = input.len() as int;
    let r2 = res.insert(p, e);
    let i2 = input.push(e);
    let p2 = perm.insert(p, m);
    let x = sort_key(e);
    // every element from `p` on has a key strictly above `e`'s
    assert forall|k: int| p <= k < res.len() implies key_le(x, sort_key(#[trigger] res[k])) && !key_le(
        sort_key(res[k]),
        x,
    ) by {
        lemma_key_le_total(sort_key(res[p]), x);
        if k > p {
            assert(key_le(sort_key(res[p]), sort_key(res[k])));
            lemma_key_le_trans(x, sort_key(res[p]), sort_key(res[k]));
            if key_le(sort_key(res[k]), x) {
                lemma_key_le_trans(sort_key(res[p]), sort_key(res[k]), x);
            }
        }
    }
    assert forall|k: int| 0 <= k < m + 1 implies 0 <= #[trigger] p2[k] < m + 1 by {
        if k < p {
            assert(p2[k] == perm[k]);
        } else if k > p {
            assert(p2[k] == perm[k - 1]);
        }
    }
    assert forall|j: int, k: int| 0 <= j < k < m + 1 implies #[trigger] p2[j] != #[trigger] p2[k] by {
        if j < p && k < p {
            assert(perm[j] != perm[k]);
        } else if j < p && k > p {
            assert(perm[j] != perm[k - 1]);
        } else if j > p && k > p {
            assert(perm[j - 1] != perm[k - 1]);
        } else if j == p {
            assert(0 <= perm[k - 1] < m);
        } else {
            assert(0 <= perm[j] < m);
        }
    }
    assert forall|k: int| 0 <= k < r2.len() implies #[trigger] r2[k] == i2[p2[k]] by {
        if k < p {
            assert(r2[k] == res[k]);
            assert(p2[k] == perm[k]);
            assert(0 <= perm[k] < m);
        } else if k > p {
            assert(r2[k] == res[k - 1]);
            assert(p2[k] == perm[k - 1]);
            assert(0 <= perm[k - 1] < m);
        }
    }
    assert forall|j: int, k: int| 0 <= j < k < r2.len() implies key_le(
        sort_key(#[trigger] r2[j]),
        sort_key(#[trigger] r2[k]),
    ) by {
        if j < p && k < p {
            assert(key_le(sort_key(res[j]), sort_key(res[k])));
        } else if j < p && k == p {
            assert(key_le(sort_key(res[j]), x));
        } else if j < p && k > p {
            assert(key_le(sort_key(res[j]), sort_key(res[k - 1])));
        } else if j == p {
            assert(key_le(x, sort_key(res[k - 1])));
        } else {
            assert(key_le(sort_key(res[j - 1]), sort_key(res[k - 1])));
        }
    }
    assert forall|j: int, k: int|
        0 <= j < k < r2.len() && sort_key(#[trigger] r2[j]) == sort_key(#[trigger] r2[k]) implies p2[j]
        < p2[k] by {
        if j < p && k < p {
            assert(sort_key(res[j]) == sort_key(res[k]));
        } else if j < p && k == p {
            assert(0 <= perm[j] < m);
        } else if j < p && k > p {
            assert(sort_key(res[j]) == sort_key(res[k - 1]));
        } else if j == p {
            assert(!key_le(sort_key(res[k - 1]), x));
            assert(key_le(x, x)) by {
                lemma_key_le_total(x, x);
            }
        } else {
            assert(sort_key(res[j - 1]) == sort_key(res[k - 1]));
        }
    }
}

/// Item `i` of `items` was read, as `e`.
pub open spec fn read_as(items: Seq<std::io::Result<FileEntry>>, i: int, e: FileEntry) -> bool {
    0 <= i < items.len() && (items[i] matches Ok(x) && x == e)
}

/// `e` is one to list: shown when `show_hidden`, else only when not hidden.
pub open spec fn to_show(e: FileEntry, show_hidden: bool) -> bool {
    show_hidden || !e.is_hidden
}

/// `idx` says where each of the listed entries `r` was read among `items`:
/// each listed entry is a read item that is to be shown, no item is listed
/// twice, and every read item that is to be shown is listed.
pub open spec fn listed_from(
    r: Seq<FileEntry>,
    items: Seq<std::io::Result<FileEntry>>,
    show_hidden: bool,
    idx: Seq<int>,
) -> bool {
    &&& idx.len() == r.len()
    &&& forall|k: int| 0 <= k < r.len() ==> #[trigger] read_as(items, idx[k], r[k])
    &&& forall|k: int| 0 <= k < r.len() ==> to_show(#[trigger] r[k], show_hidden)
    &&& forall|j: int, k: int| 0 <= j < k < r.len() ==> #[trigger] idx[j] != #[trigger] idx[k]
    &&& forall|i: int, e: FileEntry|
        #[trigger] read_as(items, i, e) && to_show(e, show_hidden) ==> exists|k: int|
            0 <= k < r.len() && #[trigger] idx[k] == i
}

/// The listed entries `r` (read at positions `idx`) are in order of their
/// lowercase names, and entries whose lowercase names are equal stand in the
/// order they were read.
pub open spec fn ordered_by_name(r: Seq<FileEntry>, idx: Seq<int>) -> bool {
    &&& forall|j: int, k: int|
        0 <= j < k < r.len() ==> key_le(
            lowercase((#[trigger] r[j]).name@),
            lowercase((#[trigger] r[k]).name@),
        )
    &&& forall|j: int, k: int|
        0 <= j < k < r.len() && lowercase((#[trigger] r[j]).name@) == lowercase(
            (#[trigger] r[k]).name@,
        ) ==> idx[j] < idx[k]
}

/// The key order is the lexicographic order of code points: `a` is at most
/// `b` just when `a` begins `b`, or at the first position where they differ
/// `a`'s character is below `b`'s.
pub proof fn lemma_key_le_lexicographic(a: Seq<char>, b: Seq<char>)
    ensures
        key_le(a, b) <==> ((a.len() <= b.len() && a == b.take(a.len() as int)) || exists|i: int|
            0 <= i < a.len() && i < b.len() && a.take(i) == b.take(i) && #[trigger] a[i] < b[i]),
    decreases a.len(),
{
    if a.len() == 0 {
        assert(a =~= b.take(0));
    } else if b.len() == 0 {
    } else if a[0] != b[0] {
        if a[0] < b[0] {
            assert(a.take(0) =~= b.take(0));
            assert(a[0] < b[0]);
        } else {
            assert(!(a.len() <= b.len() && a == b.take(a.len() as int))) by {
                if a.len() <= b.len() {
                    assert(b.take(a.len() as int)[0] == b[0]);
                }
            }
            assert forall|i: int|
                0 <= i < a.len() && i < b.len() && a.take(i) == b.take(i) implies !(a[i] < b[i]) by {
                if i > 0 {
                    assert(a.take(i)[0] == b.take(i)[0]);
                }
            }
        }
    } else {
        let a1 = a.drop_first();
        let b1 = b.drop_first();
        lemma_key_le_lexicographic(a1, b1);
        if a.len() <= b.len() && a == b.take(a.len() as int) {
            assert(a1 =~= b1.take(a1.len() as int));
        }
        if a1.len() <= b1.len() && a1 == b1.take(a1.len() as int) {
            assert forall|i: int| 0 <= i < a.len() implies a[i] == b.take(a.len() as int)[i] by {
                if i > 0 {
                    assert(a[i] == a1[i - 1]);
                    assert(b1.take(a1.len() as int)[i - 1] == b[i]);
                }
            }
            assert(a =~= b.take(a.len() as int));
        }
        if exists|i: int| 0 <= i < a.len() && i < b.len() && a.take(i) == b.take(i) && #[trigger] a[i] < b[i] {
            let i = choose|i: int| 0 <= i < a.len() && i < b.len() && a.take(i) == b.take(i) && #[trigger] a[i] < b[i];
            assert(i > 0);
            assert(a1.take(i - 1) =~= a.take(i).drop_first());
            assert(b1.take(i - 1) =~= b.take(i).drop_first());
            assert(a1[i - 1] < b1[i - 1]);
        }
        if exists|i: int| 0 <= i < a1.len() && i < b1.len() && a1.take(i) == b1.take(i) && #[trigger] a1[i] < b1[i] {
            let i = choose|i: int| 0 <= i < a1.len() && i < b1.len() && a1.take(i) == b1.take(i) && #[trigger] a1[i] < b1[i];
            assert(a.take(i + 1) =~= seq![a[0]] + a1.take(i));
            assert(b.take(i + 1) =~= seq![b[0]] + b1.take(i));
            assert(a[i + 1] < b[i + 1]);
        }
    }
}

/// The positions among `items` of the entries that `kept` keeps, in order.
proof fn lemma_kept_positions(items: Seq<std::io::Result<FileEntry>>, show_hidden: bool) -> (pos: Seq<int>)
    ensures
        pos.len() == kept(items, show_hidden).len(),
        forall|j: int|
            0 <= j < pos.len() ==> #[trigger] read_as(items, pos[j], kept(items, show_hidden)[j])
                && to_show(kept(items, show_hidden)[j], show_hidden),
        forall|j: int, k: int| 0 <= j < k < pos.len() ==> #[trigger] pos[j] < #[trigger] pos[k],
        forall|i: int, e: FileEntry|
            #[trigger] read_as(items, i, e) && to_show(e, show_hidden) ==> exists|j: int|
                0 <= j < pos.len() && #[trigger] pos[j] == i,
    decreases items.len(),
{
    if items.len() == 0 {
        Seq::empty()
    } else {
        let front = items.drop_last();
        let n = items.len() - 1;
        let pos0 = lemma_kept_positions(front, show_hidden);
        let rest = kept(front, show_hidden);
        assert forall|i: int, e: FileEntry| read_as(front, i, e) implies read_as(items, i, e) by {
            assert(items[i] == front[i]);
        }
        let take_last = match items.last() {
            Ok(e) => to_show(e, show_hidden),
            Err(_) => false,
        };
        if take_last {
            let e = items.last()->Ok_0;
            let pos = pos0.push(n);
            assert(kept(items, show_hidden) == rest.push(e));
            assert forall|j: int| 0 <= j < pos.len() implies #[trigger] read_as(
                items,
                pos[j],
                kept(items, show_hidden)[j],
            ) && to_show(kept(items, show_hidden)[j], show_hidden) by {
                if j < pos0.len() {
                    assert(read_as(front, pos0[j], rest[j]));
                }
            }
            assert forall|j: int, k: int| 0 <= j < k < pos.len() implies #[trigger] pos[j]
                < #[trigger] pos[k] by {
                if k < pos0.len() {
                    assert(pos0[j] < pos0[k]);
                } else {
                    assert(read_as(front, pos0[j], rest[j]));
                }
            }
            assert forall|i: int, e2: FileEntry|
                #[trigger] read_as(items, i, e2) && to_show(e2, show_hidden) implies exists|j: int|
                0 <= j < pos.len() && #[trigger] pos[j] == i by {
                if i < n {
                    assert(front[i] == items[i]);
                    assert(read_as(front, i, e2));
                    let j = choose|j: int| 0 <= j < pos0.len() && #[trigger] pos0[j] == i;
                    assert(pos[j] == i);
                } else {
                    assert(pos[pos0.len() as int] == i);
                }
            }
            pos
        } else {
            assert(kept(items, show_hidden) == rest);
            assert forall|i: int, e2: FileEntry|
                #[trigger] read_as(items, i, e2) && to_show(e2, show_hidden) implies exists|j: int|
                0 <= j < pos0.len() && #[trigger] pos0[j] == i by {
                if i < n {
                    assert(front[i] == items[i]);
                    assert(read_as(front, i, e2));
                }
            }
            assert forall|j: int| 0 <= j < pos0.len() implies #[trigger] read_as(
                items,
                pos0[j],
                kept(items, show_hidden)[j],
            ) && to_show(kept(items, show_hidden)[j], show_hidden) by {
                assert(read_as(front, pos0[j], rest[j]));
            }
            pos0
        }
    }
}

/// What is listed from the items read: every listed entry is an item that was
/// read and is to be shown (so without `show_hidden` none is hidden, whatever
/// its kind), and every read item that is to be shown is listed exactly once.
pub proof fn lemma_listed_entries(
    r: Seq<FileEntry>,
    items: Seq<std::io::Result<FileEntry>>,
    show_hidden: bool,
    perm: Seq<int>,
) -> (idx: Seq<int>)
    requires
        stable_sorted_by(r, kept(items, show_hidden), perm),
    ensures
        listed_from(r, items, show_hidden, idx),
        ordered_by_name(r, idx),
        !show_hidden ==> forall|k: int| 0 <= k < r.len() ==> !(#[trigger] r[k]).is_hidden,
{
    let ks = kept(items, show_hidden);
    let pos = lemma_kept_positions(items, show_hidden);
    let idx = Seq::new(r.len(), |k: int| pos[perm[k]]);
    assert forall|k: int| 0 <= k < r.len() implies #[trigger] read_as(items, idx[k], r[k])
        && to_show(r[k], show_hidden) by {
        assert(0 <= perm[k] < ks.len());
        assert(r[k] == ks[perm[k]]);
        assert(read_as(items, pos[perm[k]], ks[perm[k]]));
    }
    assert forall|k: int| 0 <= k < r.len() implies to_show(#[trigger] r[k], show_hidden) by {
        assert(read_as(items, idx[k], r[k]));
    }
    assert forall|j: int, k: int| 0 <= j < k < r.len() implies #[trigger] idx[j] != #[trigger] idx[k] by {
        assert(perm[j] != perm[k]);
        assert(0 <= perm[j] < ks.len() && 0 <= perm[k] < ks.len());
        if perm[j] < perm[k] {
            assert(pos[perm[j]] < pos[perm[k]]);
        } else {
            assert(pos[perm[k]] < pos[perm[j]]);
        }
    }
    assert forall|i: int, e: FileEntry|
        #[trigger] read_as(items, i, e) && to_show(e, show_hidden) implies exists|k: int|
        0 <= k < r.len() && #[trigger] idx[k] == i by {
        let j = choose|j: int| 0 <= j < pos.len() && #[trigger] pos[j] == i;
        lemma_permutation_onto(perm, ks.len(), j);
        let k = choose|k: int| 0 <= k < perm.len() && #[trigger] perm[k] == j;
        assert(idx[k] == i);
    }
    assert forall|j: int, k: int|
        0 <= j < k < r.len() && lowercase((#[trigger] r[j]).name@) == lowercase(
            (#[trigger] r[k]).name@,
        ) implies idx[j] < idx[k] by {
        assert(sort_key(r[j]) == sort_key(r[k]));
        assert(perm[j] < perm[k]);
        assert(0 <= perm[j] < ks.len() && 0 <= perm[k] < ks.len());
        assert(pos[perm[j]] < pos[perm[k]]);
    }
    assert forall|j: int, k: int| 0 <= j < k < r.len() implies key_le(
        lowercase((#[trigger] r[j]).name@),
        lowercase((#[trigger] r[k]).name@),
    ) by {
        assert(key_le(sort_key(r[j]), sort_key(r[k])));
    }
    assert forall|k: int| 0 <= k < r.len() && !show_hidden implies !(#[trigger] r[k]).is_hidden by {
        assert(to_show(r[k], show_hidden));
    }
    idx
}

/// A permutation of `0..n` takes every value below `n`.
proof fn lemma_permutation_onto(perm: Seq<int>, n: nat, v: int)
    requires
        is_permutation(perm, n),
        0 <= v < n,
    ensures
        exists|k: int| 0 <= k < perm.len() && #[trigger] perm[k] == v,
{
    if !(exists|k: int| 0 <= k < perm.len() && #[trigger] perm[k] == v) {
        assert(perm.no_duplicates()) by {
            assert forall|i: int, j: int|
                0 <= i < perm.len() && 0 <= j < perm.len() && i != j implies perm[i] != perm[j] by {
                if i < j {
                    assert(perm[i] != perm[j]);
                } else {
                    assert(perm[j] != perm[i]);
                }
            }
        }
        perm.unique_seq_to_set();
        let range = vstd::set_lib::set_int_range(0, n as int).remove(v);
        vstd::set_lib::lemma_int_range(0, n as int);
        assert(perm.to_set().subset_of(range)) by {
            assert forall|x: int| perm.to_set().contains(x) implies range.contains(x) by {
                let k = choose|k: int| 0 <= k < perm.len() && perm[k] == x;
                assert(perm[k] == x);
            }
        }
        vstd::set_lib::lemma_len_subset(perm.to_set(), range);
    }
}

/// The entries to list, from the results of reading a directory's entries:
/// unreadable ones dropped, hidden ones dropped unless `show_hidden`, the rest
/// sorted by lowercase name, entries with equal keys in reading order.
pub fn select_entries(items: Vec<std::io::Result<FileEntry>>, show_hidden: bool) -> (r: Vec<FileEntry>)
    ensures
        exists|perm: Seq<int>| #[trigger] stable_sorted_by(r@, kept(items@, show_hidden), perm),
        exists|idx: Seq<int>|
            #[trigger] listed_from(r@, items@, show_hidden, idx) && ordered_by_name(r@, idx),
        !show_hidden ==> forall|k: int| 0 <= k < r@.len() ==> !(#[trigger] r@[k]).is_hidden,
{
    let ghost input = items@;
    let mut items = items;
    let mut res: Vec<FileEntry> = Vec::new();
    let mut keys: Vec<Vec<char>> = Vec::new();
    let ghost mut perm: Seq<int> = Seq::empty();
    let ghost mut i: int = 0;
    assert(input.skip(0) =~= input);
    assert(stable_sorted_by(res@, kept(input.take(0), show_hidden), perm));
    while items.len() > 0
        invariant
            0 <= i <= input.len(),
            items@ == input.skip(i),
            stable_sorted_by(res@, kept(input.take(i), show_hidden), perm),
            keys@.len() == res@.len(),
            forall|k: int| 0 <= k < keys@.len() ==> #[trigger] keys@[k]@ == sort_key(res@[k]),
        decreases items@.len(),
    {
        let item = items.remove(0);
        assert(input.take(i + 1).drop_last() =~= input.take(i));
        assert(input.take(i + 1).last() == item);
        assert(input.skip(i).drop_first() =~= input.skip(i + 1));
        match item {
            Ok(e) => {
                if show_hidden || !e.is_hidden {
                    let key = lowercase_chars(e.name.as_str());
                    let mut p: usize = 0;
                    while p < res.len() && key_le_exec(&keys[p], &key)
                        invariant
                            p <= res@.len(),
                            keys@.len() == res@.len(),
                            forall|k: int| 0 <= k < keys@.len() ==> #[trigger] keys@[k]@ == sort_key(res@[k]),
                            key@ == sort_key(e),
                            forall|q: int| 0 <= q < p ==> key_le(sort_key(#[trigger] res@[q]), sort_key(e)),
                        decreases res@.len() - p,
                    {
                        p = p + 1;
                    }
                    proof {
                        if p < res@.len() {
                            assert(keys@[p as int]@ == sort_key(res@[p as int]));
                        }
                        lemma_insert_sorted(res@, kept(input.take(i), show_hidden), perm, e, p as int);
                        perm = perm.insert(p as int, res@.len() as int);
                    }
                    let ghost old_keys = keys@;
                    let ghost old_res = res@;
                    res.insert(p, e);
                    keys.insert(p, key);
                    assert forall|k: int| 0 <= k < keys@.len() implies #[trigger] keys@[k]@ == sort_key(res@[k]) by {
                        if k < p {
                        } else if k > p {
                            assert(keys@[k] == old_keys[k - 1]);
                            assert(res@[k] == old_res[k - 1]);
                        }
                    }
                }
            },
            Err(_) => {},
        }
        proof {
            i = i + 1;
        }
    }
    assert(input.take(i) =~= input);
    proof {
        let idx = lemma_listed_entries(res@, input, show_hidden, perm);
    }
    res
}

/// The entries listed for a path: the path's own entry alone when it is not a
/// directory (even when hidden), else the directory's entries as
/// `select_entries` keeps and orders them.
pub fn collect_entries(
    target: FileEntry,
    children: Vec<std::io::Result<FileEntry>>,
    show_hidden: bool,
) -> (r: Vec<FileEntry>)
    ensures
        !target.is_dir ==> r@ == seq![target],
        target.is_dir ==> exists|perm: Seq<int>|
            #[trigger] stable_sorted_by(r@, kept(children@, show_hidden), perm),
        target.is_dir ==> exists|idx: Seq<int>|
            #[trigger] listed_from(r@, children@, show_hidden, idx) && ordered_by_name(r@, idx),
        target.is_dir && !show_hidden ==> forall|k: int|
            0 <= k < r@.len() ==> !(#[trigger] r@[k]).is_hidden,
{
    if !target.is_dir {
        let mut r: Vec<FileEntry> = Vec::new();
        r.push(target);
        assert(r@ =~= seq![target]);
        r
    } else {
        select_entries(children, show_hidden)
    }
}

/// The text printed for `entries`: the long listing with `--long` (owners
/// named as `owners` gives them), the short one otherwise.
pub fn listing_text(args: &Args, entries: &[FileEntry], owners: &OwnerNames) -> (r: String)
    requires
        args.long ==> total_blocks(entries@) <= u64::MAX,
        args.long ==> times_in_range(entries@),
    ensures
        args.long ==> exists|now: Option<LocalTime>, times: Seq<LocalTime>, rows: Seq<[String; 7]>|
            (now matches Some(t) ==> valid_local(t)) && #[trigger] long_listing_of(
                entries@,
                *owners,
                now,
                times,
                rows,
                r@,
            ),
        !args.long && entries@.len() == 0 ==> r@ == seq!['\n'],
        !args.long && entries@.len() > 0 ==> exists|cells: Seq<Seq<char>>, reported: Option<u16>|
            #[trigger] shown_short(entries@, cells, layout_width(reported), r@),
{
    if args.long {
        long_format(entries, owners)
    } else {
        short_format(entries)
    }
}

} // verus!
