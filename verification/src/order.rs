//! The listing order: directories before files, and within each class names
//! ascending case-insensitively. The sort is stable — children that compare
//! equal keep the order in which the directory handed them out.

use crate::entry::{models, Entry, EntryModel};
use vstd::prelude::*;

verus! {

/// What `str::to_lowercase` returns for a string with these characters: a
/// function of the characters alone.
pub uninterp spec fn lower_of(s: Seq<char>) -> Seq<char>;

/// Relies on `str::to_lowercase`: the lowercase form of the string, a pure
/// function of its characters; an empty string stays empty.
#[verifier::external_body]
fn lower_chars(s: &str) -> (r: Vec<char>)
    ensures
        r@ == lower_of(s@),
        s@.len() == 0 ==> r@.len() == 0,
{
    s.to_lowercase().chars().collect()
}

/// Strict lexicographic order on character sequences by code point; a proper
/// prefix sorts before its extensions.
pub open spec fn lex_lt(a: Seq<char>, b: Seq<char>) -> bool
    decreases a.len(),
{
    if b.len() == 0 {
        false
    } else if a.len() == 0 {
        true
    } else if (a[0] as u32) < (b[0] as u32) {
        true
    } else if (b[0] as u32) < (a[0] as u32) {
        false
    } else {
        lex_lt(a.skip(1), b.skip(1))
    }
}

/// Directories rank before files.
pub open spec fn entry_rank(e: EntryModel) -> int {
    if e.is_dir {
        0int
    } else {
        1int
    }
}

/// The listing order: first by class (directories before files), then by the
/// lowercase form of the name.
pub open spec fn entry_lt(a: EntryModel, b: EntryModel) -> bool {
    entry_rank(a) < entry_rank(b) || (entry_rank(a) == entry_rank(b) && lex_lt(
        lower_of(a.name),
        lower_of(b.name),
    ))
}

/// No later element may sort strictly before an earlier one.
pub open spec fn listing_sorted(s: Seq<EntryModel>) -> bool {
    forall|i: int, j: int| 0 <= i < j < s.len() ==> !entry_lt(s[j], s[i])
}

/// Stable insertion of one element into a sorted sequence: the element lands
/// after every element it does not sort strictly before.
pub open spec fn insert_sorted(s: Seq<EntryModel>, x: EntryModel) -> Seq<EntryModel>
    decreases s.len(),
{
    if s.len() == 0 {
        seq![x]
    } else if entry_lt(x, s.last()) {
        insert_sorted(s.drop_last(), x).push(s.last())
    } else {
        s.push(x)
    }
}

/// Stable insertion sort of a listing under [`entry_lt`].
pub open spec fn sort_entries(s: Seq<EntryModel>) -> Seq<EntryModel>
    decreases s.len(),
{
    if s.len() == 0 {
        Seq::empty()
    } else {
        insert_sorted(sort_entries(s.drop_last()), s.last())
    }
}

proof fn lemma_lex_asym(a: Seq<char>, b: Seq<char>)
    ensures
        lex_lt(a, b) ==> !lex_lt(b, a),
    decreases a.len(),
{
    if a.len() > 0 && b.len() > 0 && !((a[0] as u32) < (b[0] as u32)) && !((b[0] as u32) < (
    a[0] as u32)) {
        lemma_lex_asym(a.skip(1), b.skip(1));
    }
}

/// From `a` strictly below `b`, and `c` not strictly below `b`, it follows
/// that `a` is strictly below `c`.
proof fn lemma_lex_weak_trans(a: Seq<char>, b: Seq<char>, c: Seq<char>)
    requires
        lex_lt(a, b),
        !lex_lt(c, b),
    ensures
        lex_lt(a, c),
    decreases a.len(),
{
    if a.len() > 0 && b.len() > 0 && c.len() > 0 && !((a[0] as u32) < (b[0] as u32)) && !((
    b[0] as u32) < (a[0] as u32)) && !((c[0] as u32) < (b[0] as u32)) && !((b[0] as u32) < (
    c[0] as u32)) {
        lemma_lex_weak_trans(a.skip(1), b.skip(1), c.skip(1));
    }
}

proof fn lemma_entry_lt_asym(a: EntryModel, b: EntryModel)
    requires
        entry_lt(a, b),
    ensures
        !entry_lt(b, a),
{
    lemma_lex_asym(lower_of(a.name), lower_of(b.name));
}

/// From `a` strictly before `b`, and `c` not strictly before `b`, it follows
/// that `a` is strictly before `c`.
proof fn lemma_entry_lt_weak_trans(a: EntryModel, b: EntryModel, c: EntryModel)
    requires
        entry_lt(a, b),
        !entry_lt(c, b),
    ensures
        entry_lt(a, c),
{
    let ka = lower_of(a.name);
    let kb = lower_of(b.name);
    let kc = lower_of(c.name);
    if entry_rank(a) == entry_rank(b) && entry_rank(b) == entry_rank(c) && lex_lt(ka, kb)
        && !lex_lt(kc, kb) {
        lemma_lex_weak_trans(ka, kb, kc);
    }
}

/// Inserting into a sorted listing keeps it sorted, lengthens it by one, adds
/// exactly the new element to its contents, and invents no element.
proof fn lemma_insert_sorted(s: Seq<EntryModel>, x: EntryModel)
    requires
        listing_sorted(s),
    ensures
        listing_sorted(insert_sorted(s, x)),
        insert_sorted(s, x).len() == s.len() + 1,
        insert_sorted(s, x).to_multiset() == s.to_multiset().insert(x),
        forall|k: int|
            0 <= k < insert_sorted(s, x).len() ==> insert_sorted(s, x)[k] == x || s.contains(
                insert_sorted(s, x)[k],
            ),
    decreases s.len(),
{
    broadcast use vstd::seq_lib::group_to_multiset_ensures;

    let r = insert_sorted(s, x);
    if s.len() == 0 {
        assert(r =~= Seq::empty().push(x));
        assert(s =~= Seq::<EntryModel>::empty());
        assert(r.to_multiset() =~= s.to_multiset().insert(x));
    } else if entry_lt(x, s.last()) {
        let t = s.drop_last();
        assert(listing_sorted(t));
        lemma_insert_sorted(t, x);
        let inner = insert_sorted(t, x);
        assert(r == inner.push(s.last()));
        // no element of the result is new
        assert forall|k: int| 0 <= k < r.len() implies r[k] == x || s.contains(r[k]) by {
            if k < inner.len() {
                assert(r[k] == inner[k]);
                if inner[k] != x {
                    let j = choose|j: int| 0 <= j < t.len() && t[j] == inner[k];
                    assert(s[j] == r[k]);
                }
            } else {
                assert(r[k] == s.last());
                assert(s[s.len() - 1] == s.last());
            }
        }
        // sortedness
        assert forall|i: int, j: int| 0 <= i < j < r.len() implies !entry_lt(r[j], r[i]) by {
            if j < inner.len() {
            } else {
                assert(r[j] == s.last());
                if r[i] == x {
                    lemma_entry_lt_asym(x, s.last());
                } else {
                    let j0 = choose|j0: int| 0 <= j0 < t.len() && t[j0] == r[i];
                    assert(s[j0] == r[i]);
                    assert(!entry_lt(s.last(), s[j0]));
                }
            }
        }
        // contents
        assert(s =~= t.push(s.last()));
        assert(s.to_multiset() == t.to_multiset().insert(s.last()));
        assert(r.to_multiset() == inner.to_multiset().insert(s.last()));
        assert(t.to_multiset().insert(x).insert(s.last()) =~= t.to_multiset().insert(
            s.last(),
        ).insert(x));
    } else {
        assert(r == s.push(x));
        assert forall|i: int, j: int| 0 <= i < j < r.len() implies !entry_lt(r[j], r[i]) by {
            if j == s.len() {
                assert(r[j] == x);
                assert(r[i] == s[i]);
                if entry_lt(x, s[i]) {
                    if i < s.len() - 1 {
                        assert(!entry_lt(s.last(), s[i]));
                        lemma_entry_lt_weak_trans(x, s[i], s.last());
                    }
                    assert(false);
                }
            }
        }
        assert forall|k: int| 0 <= k < r.len() implies r[k] == x || s.contains(r[k]) by {
            if k < s.len() {
                assert(r[k] == s[k]);
            }
        }
    }
}

/// The law of the listing order: sorting rearranges exactly the given rows
/// (same multiset of rows), every directory row precedes every file row, and
/// within each class the lowercase names ascend.
pub proof fn lemma_sort_entries_ordered(s: Seq<EntryModel>)
    ensures
        listing_sorted(sort_entries(s)),
        sort_entries(s).len() == s.len(),
        sort_entries(s).to_multiset() == s.to_multiset(),
        forall|i: int, j: int|
            0 <= i < j < s.len() && sort_entries(s)[j].is_dir ==> sort_entries(s)[i].is_dir,
        forall|i: int, j: int|
            0 <= i < j < s.len() && sort_entries(s)[i].is_dir == sort_entries(s)[j].is_dir
                ==> !lex_lt(lower_of(sort_entries(s)[j].name), lower_of(sort_entries(s)[i].name)),
    decreases s.len(),
{
    broadcast use vstd::seq_lib::group_to_multiset_ensures;

    let r = sort_entries(s);
    if s.len() == 0 {
        assert(s =~= Seq::<EntryModel>::empty());
        assert(r.to_multiset() =~= s.to_multiset());
    } else {
        let t = s.drop_last();
        lemma_sort_entries_ordered(t);
        lemma_insert_sorted(sort_entries(t), s.last());
        assert(s =~= t.push(s.last()));
        assert(s.to_multiset() == t.to_multiset().insert(s.last()));
    }
    assert forall|i: int, j: int| 0 <= i < j < s.len() && r[j].is_dir implies r[i].is_dir by {
        assert(!entry_lt(r[j], r[i]));
    }
    assert forall|i: int, j: int|
        0 <= i < j < s.len() && r[i].is_dir == r[j].is_dir implies !lex_lt(
        lower_of(r[j].name),
        lower_of(r[i].name),
    ) by {
        assert(!entry_lt(r[j], r[i]));
    }
}

/// Compares two entries in listing order.
fn entry_before(a: &Entry, b: &Entry) -> (r: bool)
    ensures
        r == entry_lt(a@, b@),
{
    if a.is_dir && !b.is_dir {
        true
    } else if !a.is_dir && b.is_dir {
        false
    } else {
        let ka = lower_chars(a.name.as_str());
        let kb = lower_chars(b.name.as_str());
        chars_lt(&ka, &kb)
    }
}

/// Compares two character vectors lexicographically by code point.
fn chars_lt(a: &Vec<char>, b: &Vec<char>) -> (r: bool)
    ensures
        r == lex_lt(a@, b@),
{
    let mut i: usize = 0;
    proof {
        assert(a@.skip(0) =~= a@);
        assert(b@.skip(0) =~= b@);
    }
    while i < a.len() && i < b.len()
        invariant
            i <= a@.len(),
            i <= b@.len(),
            lex_lt(a@, b@) == lex_lt(a@.skip(i as int), b@.skip(i as int)),
        decreases a@.len() - i,
    {
        let ca = a[i];
        let cb = b[i];
        proof {
            assert(a@.skip(i as int)[0] == a@[i as int]);
            assert(b@.skip(i as int)[0] == b@[i as int]);
        }
        if (ca as u32) < (cb as u32) {
            return true;
        }
        if (cb as u32) < (ca as u32) {
            return false;
        }
        proof {
            assert(a@.skip(i as int).skip(1) =~= a@.skip(i + 1));
            assert(b@.skip(i as int).skip(1) =~= b@.skip(i + 1));
        }
        i = i + 1;
    }
    proof {
        if i == a@.len() {
            assert(a@.skip(i as int) =~= Seq::<char>::empty());
        }
        if i == b@.len() {
            assert(b@.skip(i as int) =~= Seq::<char>::empty());
        }
    }
    i < b.len()
}

/// Inserts one entry into an already sorted vector at its stable position.
fn insert_entry(out: &mut Vec<Entry>, x: Entry)
    ensures
        models(final(out)@) == insert_sorted(models(old(out)@), x@),
{
    let ghost m = models(old(out)@);
    let mut j: usize = out.len();
    proof {
        assert(m.take(j as int) =~= m);
        assert(m.skip(j as int) =~= Seq::<EntryModel>::empty());
        assert(insert_sorted(m, x@) + m.skip(j as int) =~= insert_sorted(m, x@));
    }
    while j > 0 && entry_before(&x, &out[j - 1])
        invariant
            j <= out@.len(),
            out@ == old(out)@,
            m == models(old(out)@),
            insert_sorted(m, x@) == insert_sorted(m.take(j as int), x@) + m.skip(j as int),
        decreases j,
    {
        proof {
            let tk = m.take(j as int);
            assert(tk.last() == m[j - 1]);
            assert(m[j - 1] == old(out)@[j - 1]@);
            assert(entry_lt(x@, tk.last()));
            assert(insert_sorted(tk, x@) == insert_sorted(tk.drop_last(), x@).push(tk.last()));
            assert(tk.drop_last() =~= m.take(j - 1));
            assert(insert_sorted(m.take(j - 1), x@).push(m[j - 1]) + m.skip(j as int)
                =~= insert_sorted(m.take(j - 1), x@) + m.skip(j - 1));
        }
        j = j - 1;
    }
    proof {
        if j > 0 {
            assert(m.take(j as int).last() == m[j - 1]);
            assert(m[j - 1] == old(out)@[j - 1]@);
            assert(!entry_lt(x@, m.take(j as int).last()));
        }
        assert(insert_sorted(m.take(j as int), x@) =~= m.take(j as int).push(x@));
    }
    out.insert(j, x);
    proof {
        assert(models(out@) =~= m.insert(j as int, x@)) by {
            assert forall|i: int| 0 <= i < models(out@).len() implies models(out@)[i] == m.insert(
                j as int,
                x@,
            )[i] by {
                assert(models(out@)[i] == out@[i]@);
            }
        }
        assert(m.insert(j as int, x@) =~= m.take(j as int).push(x@) + m.skip(j as int));
    }
}

/// Sorts listing rows into the listing order: directories before files, then
/// lowercase names ascending; rows that compare equal keep their order.
pub fn sort_listing(entries: Vec<Entry>) -> (r: Vec<Entry>)
    ensures
        models(r@) == sort_entries(models(entries@)),
{
    let mut v = entries;
    let ghost orig = models(v@);
    let mut out: Vec<Entry> = Vec::new();
    proof {
        assert(orig.take(0) =~= Seq::<EntryModel>::empty());
        assert(models(out@) =~= sort_entries(orig.take(0)));
        assert(models(v@) =~= orig.skip(0));
    }
    while v.len() > 0
        invariant
            v@.len() <= orig.len(),
            models(v@) == orig.skip(orig.len() - v@.len()),
            models(out@) == sort_entries(orig.take(orig.len() - v@.len())),
        decreases v@.len(),
    {
        let ghost k = orig.len() - v@.len();
        let ghost vpre = v@;
        let x = v.remove(0);
        proof {
            assert(models(vpre)[0] == vpre[0]@);
            assert(x@ == orig.skip(k)[0]);
            assert(orig.skip(k)[0] == orig[k]);
            assert(v@ =~= vpre.skip(1));
            assert(models(v@) =~= orig.skip(k + 1)) by {
                assert forall|i: int| 0 <= i < models(v@).len() implies models(v@)[i] == orig.skip(
                    k + 1,
                )[i] by {
                    assert(models(v@)[i] == v@[i]@);
                    assert(v@[i] == vpre[i + 1]);
                    assert(models(vpre)[i + 1] == vpre[i + 1]@);
                    assert(orig.skip(k)[i + 1] == orig[k + 1 + i]);
                    assert(orig.skip(k + 1)[i] == orig[k + 1 + i]);
                }
            }
        }
        insert_entry(&mut out, x);
        proof {
            assert(orig.take(k + 1).drop_last() =~= orig.take(k));
            assert(orig.take(k + 1).last() == orig[k]);
            assert(sort_entries(orig.take(k + 1)) == insert_sorted(
                sort_entries(orig.take(k)),
                orig[k],
            ));
        }
    }
    proof {
        assert(orig.take(orig.len() as int) =~= orig);
    }
    out
}

} // verus!
