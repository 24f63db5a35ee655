use vstd::prelude::*;
use crate::text::{chars_of, has_prefix};

verus! {

broadcast use vstd::string::group_string_axioms;

// ---------------------------------------------------------------------------
// Lexicographic order of names
// ---------------------------------------------------------------------------

/// `a` sorts strictly before `b`: compared character by character by code
/// point, a proper prefix first. On UTF-8 strings this is the order of `Ord`
/// for `String`, which compares the bytes.
pub open spec fn lex_lt(a: Seq<char>, b: Seq<char>) -> bool
    decreases a.len(),
{
    if a.len() == 0 {
        b.len() > 0
    } else if b.len() == 0 {
        false
    } else if a[0] != b[0] {
        a[0] < b[0]
    } else {
        lex_lt(a.drop_first(), b.drop_first())
    }
}

pub proof fn lemma_lex_irreflexive(a: Seq<char>)
    ensures
        !lex_lt(a, a),
    decreases a.len(),
{
    if a.len() > 0 {
        lemma_lex_irreflexive(a.drop_first());
    }
}

pub proof fn lemma_lex_asymmetric(a: Seq<char>, b: Seq<char>)
    ensures
        lex_lt(a, b) ==> !lex_lt(b, a),
    decreases a.len(),
{
    if a.len() > 0 && b.len() > 0 && a[0] == b[0] {
        lemma_lex_asymmetric(a.drop_first(), b.drop_first());
    }
}

pub proof fn lemma_lex_transitive(a: Seq<char>, b: Seq<char>, c: Seq<char>)
    requires
        lex_lt(a, b),
        lex_lt(b, c),
    ensures
        lex_lt(a, c),
    decreases a.len(),
{
    if a.len() > 0 && b.len() > 0 && c.len() > 0 && a[0] == b[0] && b[0] == c[0] {
        lemma_lex_transitive(a.drop_first(), b.drop_first(), c.drop_first());
    }
}

pub proof fn lemma_lex_total(a: Seq<char>, b: Seq<char>)
    ensures
        a != b ==> lex_lt(a, b) || lex_lt(b, a),
    decreases a.len(),
{
    if a.len() > 0 && b.len() > 0 && a[0] == b[0] {
        lemma_lex_total(a.drop_first(), b.drop_first());
        if a.drop_first() == b.drop_first() {
            assert(a =~= seq![a[0]] + a.drop_first());
            assert(b =~= seq![b[0]] + b.drop_first());
        }
    } else if a.len() == 0 && b.len() == 0 {
        assert(a =~= b);
    }
}

/// Whether `a` sorts strictly before `b`.
pub fn less_than(a: &Vec<char>, b: &Vec<char>) -> (r: bool)
    ensures
        r == lex_lt(a@, b@),
{
    let mut i: usize = 0;
    assert(a@.skip(0) =~= a@);
    assert(b@.skip(0) =~= b@);
    while i < a.len() && i < b.len() && a[i] == b[i]
        invariant
            i <= a.len(),
            i <= b.len(),
            forall|k: int| 0 <= k < i ==> a@[k] == b@[k],
            lex_lt(a@, b@) == lex_lt(a@.skip(i as int), b@.skip(i as int)),
        decreases a.len() - i,
    {
        assert(a@.skip(i as int).drop_first() =~= a@.skip(i + 1));
        assert(b@.skip(i as int).drop_first() =~= b@.skip(i + 1));
        i = i + 1;
    }
    if i == a.len() {
        i < b.len()
    } else if i == b.len() {
        false
    } else {
        assert(a@.skip(i as int)[0] == a@[i as int]);
        assert(b@.skip(i as int)[0] == b@[i as int]);
        a[i] < b[i]
    }
}

/// Every name is at most its successors.
pub open spec fn is_sorted(s: Seq<Seq<char>>) -> bool {
    forall|i: int, j: int| 0 <= i < j < s.len() ==> !lex_lt(#[trigger] s[j], #[trigger] s[i])
}

/// The names `s` in sorted order: the sorted sequence with the same names,
/// which is unique (`lemma_sorted_unique`).
pub open spec fn sorted(s: Seq<Seq<char>>) -> Seq<Seq<char>> {
    choose|r: Seq<Seq<char>>| is_sorted(r) && r.to_multiset() == s.to_multiset()
}

/// Two sorted sequences that hold the same names are equal.
pub proof fn lemma_sorted_unique(r1: Seq<Seq<char>>, r2: Seq<Seq<char>>)
    requires
        is_sorted(r1),
        is_sorted(r2),
        r1.to_multiset() == r2.to_multiset(),
    ensures
        r1 == r2,
    decreases r1.len(),
{
    broadcast use vstd::seq_lib::group_to_multiset_ensures;

    vstd::seq_lib::to_multiset_len(r1);
    vstd::seq_lib::to_multiset_len(r2);
    if r1.len() == 0 {
        assert(r2.len() == 0);
        assert(r1 =~= r2);
    } else {
        assert(r2.len() == r1.len());
        let a = r1[0];
        let b = r2[0];
        assert(r1.to_multiset().count(b) > 0) by {
            assert(r2.to_multiset().count(b) > 0);
        }
        assert(r2.to_multiset().count(a) > 0) by {
            assert(r1.to_multiset().count(a) > 0);
        }
        assert(r1.contains(b));
        assert(r2.contains(a));
        let ib = choose|i: int| 0 <= i < r1.len() && r1[i] == b;
        let ia = choose|i: int| 0 <= i < r2.len() && r2[i] == a;
        if ib > 0 {
            assert(!lex_lt(r1[ib], r1[0]));
        }
        if ia > 0 {
            assert(!lex_lt(r2[ia], r2[0]));
        }
        lemma_lex_total(a, b);
        assert(a == b);
        vstd::seq_lib::to_multiset_remove(r1, 0);
        vstd::seq_lib::to_multiset_remove(r2, 0);
        assert(r1.remove(0) =~= r1.drop_first());
        assert(r2.remove(0) =~= r2.drop_first());
        let t1 = r1.drop_first();
        let t2 = r2.drop_first();
        assert(is_sorted(t1)) by {
            assert forall|i: int, j: int| 0 <= i < j < t1.len() implies !lex_lt(
                #[trigger] t1[j],
                #[trigger] t1[i],
            ) by {
                assert(t1[j] == r1[j + 1] && t1[i] == r1[i + 1]);
            }
        }
        assert(is_sorted(t2)) by {
            assert forall|i: int, j: int| 0 <= i < j < t2.len() implies !lex_lt(
                #[trigger] t2[j],
                #[trigger] t2[i],
            ) by {
                assert(t2[j] == r2[j + 1] && t2[i] == r2[i + 1]);
            }
        }
        lemma_sorted_unique(t1, t2);
        assert(r1 =~= seq![a] + t1);
        assert(r2 =~= seq![b] + t2);
    }
}

/// `x` put into the sorted names `r` before the first name it sorts before.
pub open spec fn insert_in_order(r: Seq<Seq<char>>, x: Seq<char>) -> Seq<Seq<char>>
    decreases r.len(),
{
    if r.len() == 0 {
        seq![x]
    } else if lex_lt(x, r[0]) {
        seq![x] + r
    } else {
        seq![r[0]] + insert_in_order(r.drop_first(), x)
    }
}

/// A name that sorts at or before every name of `r`, put first, keeps `r` sorted.
proof fn lemma_sorted_cons(y: Seq<char>, r: Seq<Seq<char>>)
    requires
        is_sorted(r),
        forall|j: int| 0 <= j < r.len() ==> !lex_lt(#[trigger] r[j], y),
    ensures
        is_sorted(seq![y] + r),
{
    let t = seq![y] + r;
    assert forall|i: int, j: int| 0 <= i < j < t.len() implies !lex_lt(
        #[trigger] t[j],
        #[trigger] t[i],
    ) by {
        if i == 0 {
            assert(t[j] == r[j - 1]);
        } else {
            assert(t[i] == r[i - 1] && t[j] == r[j - 1]);
        }
    }
}

proof fn lemma_sorted_tail(r: Seq<Seq<char>>)
    requires
        is_sorted(r),
        r.len() > 0,
    ensures
        is_sorted(r.drop_first()),
{
    let t = r.drop_first();
    assert forall|i: int, j: int| 0 <= i < j < t.len() implies !lex_lt(
        #[trigger] t[j],
        #[trigger] t[i],
    ) by {
        assert(t[i] == r[i + 1] && t[j] == r[j + 1]);
    }
}

proof fn lemma_multiset_cons(y: Seq<char>, r: Seq<Seq<char>>)
    ensures
        (seq![y] + r).to_multiset() == r.to_multiset().insert(y),
{
    vstd::seq_lib::to_multiset_insert(r, 0, y);
    assert(r.insert(0, y) =~= seq![y] + r);
}

/// Inserting in order keeps the names sorted and adds `x`.
pub proof fn lemma_insert_in_order(r: Seq<Seq<char>>, x: Seq<char>)
    requires
        is_sorted(r),
    ensures
        is_sorted(insert_in_order(r, x)),
        insert_in_order(r, x).to_multiset() == r.to_multiset().insert(x),
    decreases r.len(),
{
    broadcast use vstd::seq_lib::group_to_multiset_ensures;

    if r.len() == 0 {
        lemma_multiset_cons(x, r);
        assert(seq![x] + r =~= seq![x]);
        lemma_sorted_cons(x, r);
    } else if lex_lt(x, r[0]) {
        assert forall|j: int| 0 <= j < r.len() implies !lex_lt(#[trigger] r[j], x) by {
            if j > 0 {
                lemma_lex_total(r[j], r[0]);
                if r[j] != r[0] {
                    lemma_lex_transitive(x, r[0], r[j]);
                }
            }
            lemma_lex_asymmetric(x, r[j]);
        }
        lemma_sorted_cons(x, r);
        lemma_multiset_cons(x, r);
    } else {
        let t = r.drop_first();
        lemma_sorted_tail(r);
        lemma_insert_in_order(t, x);
        let u = insert_in_order(t, x);
        assert forall|j: int| 0 <= j < u.len() implies !lex_lt(#[trigger] u[j], r[0]) by {
            assert(u.to_multiset().count(u[j]) > 0);
            if u[j] != x {
                assert(t.to_multiset().count(u[j]) > 0);
                assert(t.contains(u[j]));
                let k = choose|k: int| 0 <= k < t.len() && t[k] == u[j];
                assert(r[k + 1] == t[k]);
            } else {
                lemma_lex_total(x, r[0]);
                if x != r[0] {
                    lemma_lex_asymmetric(r[0], x);
                } else {
                    lemma_lex_irreflexive(x);
                }
            }
        }
        lemma_sorted_cons(r[0], u);
        lemma_multiset_cons(r[0], u);
        lemma_multiset_cons(r[0], t);
        assert(seq![r[0]] + t =~= r);
        assert(u.to_multiset().insert(r[0]) =~= t.to_multiset().insert(r[0]).insert(x));
    }
}

/// Every list of names has a sorted arrangement, and `sorted` gives it.
pub proof fn lemma_sorted(s: Seq<Seq<char>>)
    ensures
        is_sorted(sorted(s)),
        sorted(s).to_multiset() == s.to_multiset(),
    decreases s.len(),
{
    broadcast use vstd::seq_lib::group_to_multiset_ensures;

    if s.len() == 0 {
        let e = Seq::<Seq<char>>::empty();
        assert(is_sorted(e));
        assert(e =~= s);
    } else {
        lemma_sorted(s.drop_last());
        let r = sorted(s.drop_last());
        lemma_insert_in_order(r, s.last());
        let w = insert_in_order(r, s.last());
        vstd::seq_lib::to_multiset_build(s.drop_last(), s.last());
        assert(s.drop_last().push(s.last()) =~= s);
        assert(is_sorted(w) && w.to_multiset() == s.to_multiset());
    }
}

/// Sorting keeps the number of names.
pub proof fn lemma_sorted_len(s: Seq<Seq<char>>)
    ensures
        sorted(s).len() == s.len(),
{
    lemma_sorted(s);
    vstd::seq_lib::to_multiset_len(s);
    vstd::seq_lib::to_multiset_len(sorted(s));
}

/// The names of `s` and of `sorted(s)` are the same.
pub proof fn lemma_sorted_contains(s: Seq<Seq<char>>, x: Seq<char>)
    ensures
        sorted(s).contains(x) <==> s.contains(x),
{
    broadcast use vstd::seq_lib::group_to_multiset_ensures;

    lemma_sorted(s);
    if s.contains(x) {
        assert(sorted(s).to_multiset().count(x) > 0);
    }
    if sorted(s).contains(x) {
        assert(s.to_multiset().count(x) > 0);
    }
}

/// A sorted rearrangement of `s` is `sorted(s)`.
pub proof fn lemma_is_sorted_arrangement(r: Seq<Seq<char>>, s: Seq<Seq<char>>)
    requires
        is_sorted(r),
        r.to_multiset() == s.to_multiset(),
    ensures
        r == sorted(s),
{
    let c = sorted(s);
    assert(is_sorted(c) && c.to_multiset() == s.to_multiset());
    lemma_sorted_unique(r, c);
}

/// The first position where `x` sorts strictly before the name there, or the end.
fn insert_position(r: &Vec<String>, x: &Vec<char>) -> (p: usize)
    ensures
        p <= r.len(),
        forall|q: int| 0 <= q < p ==> !lex_lt(x@, #[trigger] r@[q]@),
        p < r.len() ==> lex_lt(x@, r@[p as int]@),
{
    let mut p: usize = 0;
    while p < r.len()
        invariant
            p <= r.len(),
            forall|q: int| 0 <= q < p ==> !lex_lt(x@, #[trigger] r@[q]@),
        decreases r.len() - p,
    {
        let y = chars_of(r[p].as_str());
        if less_than(x, &y) {
            return p;
        }
        p = p + 1;
    }
    p
}

/// `v` sorted, as `Vec::sort` sorts names.
pub fn sort_names(v: Vec<String>) -> (r: Vec<String>)
    ensures
        is_sorted(r.deep_view()),
        r.deep_view().to_multiset() == v.deep_view().to_multiset(),
        r.deep_view() == sorted(v.deep_view()),
{
    broadcast use vstd::seq_lib::group_to_multiset_ensures;

    let mut r: Vec<String> = Vec::new();
    let mut i: usize = 0;
    while i < v.len()
        invariant
            i <= v.len(),
            is_sorted(r.deep_view()),
            r.deep_view().to_multiset() == v.deep_view().take(i as int).to_multiset(),
        decreases v.len() - i,
    {
        let x = chars_of(v[i].as_str());
        let p = insert_position(&r, &x);
        let ghost old_r = r.deep_view();
        proof {
            assert forall|q: int| 0 <= q < p implies !lex_lt(x@, #[trigger] old_r[q]) by {
                assert(old_r[q] == r@[q]@);
            }
            if p < r.len() {
                assert(old_r[p as int] == r@[p as int]@);
            }
        }
        r.insert(p, v[i].clone());
        let ghost new_r = r.deep_view();
        assert(new_r =~= old_r.insert(p as int, x@));
        proof {
            assert forall|a: int, b: int|
                0 <= a < b < new_r.len() implies !lex_lt(#[trigger] new_r[b], #[trigger] new_r[a]) by {
                if b < p {
                } else if b == p {
                    assert(new_r[b] == x@);
                    assert(new_r[a] == old_r[a]);
                    assert(!lex_lt(x@, old_r[a]));
                } else if a == p {
                    assert(new_r[a] == x@);
                    assert(new_r[b] == old_r[b - 1]);
                    assert(lex_lt(x@, old_r[p as int]));
                    if p < b - 1 {
                        assert(!lex_lt(old_r[b - 1], old_r[p as int]));
                        lemma_lex_total(old_r[b - 1], old_r[p as int]);
                        if old_r[b - 1] != old_r[p as int] {
                            lemma_lex_transitive(x@, old_r[p as int], old_r[b - 1]);
                        }
                    }
                    lemma_lex_asymmetric(x@, old_r[b - 1]);
                } else if a < p {
                    assert(new_r[a] == old_r[a]);
                    assert(new_r[b] == old_r[b - 1]);
                } else {
                    assert(new_r[a] == old_r[a - 1]);
                    assert(new_r[b] == old_r[b - 1]);
                }
            }
            vstd::seq_lib::to_multiset_insert(old_r, p as int, x@);
            assert(v.deep_view().take(i + 1) =~= v.deep_view().take(i as int).push(x@));
            vstd::seq_lib::to_multiset_build(v.deep_view().take(i as int), x@);
        }
        i = i + 1;
    }
    assert(v.deep_view().take(i as int) =~= v.deep_view());
    proof {
        lemma_is_sorted_arrangement(r.deep_view(), v.deep_view());
    }
    r
}

// ---------------------------------------------------------------------------
// Directory listings
// ---------------------------------------------------------------------------

/// One item of a directory listing: its file name, and whether it is a
/// directory or a regular file.
pub struct DirItem {
    pub name: String,
    pub is_dir: bool,
    pub is_file: bool,
}

/// A listing item as plain values.
pub struct DirItemView {
    pub name: Seq<char>,
    pub is_dir: bool,
    pub is_file: bool,
}

impl View for DirItem {
    type V = DirItemView;

    open spec fn view(&self) -> DirItemView {
        DirItemView { name: self.name@, is_dir: self.is_dir, is_file: self.is_file }
    }
}

/// The listing `v`, item by item.
pub open spec fn listing_view(v: Seq<DirItem>) -> Seq<DirItemView> {
    v.map_values(|d: DirItem| d@)
}

/// A category is a directory whose name does not begin with a dot.
pub open spec fn is_category(d: DirItemView) -> bool {
    d.is_dir && !has_prefix(d.name, seq!['.'])
}

/// The names of the categories in a listing, in listing order.
pub open spec fn category_names(items: Seq<DirItemView>) -> Seq<Seq<char>>
    decreases items.len(),
{
    if items.len() == 0 {
        seq![]
    } else {
        let rest = category_names(items.drop_last());
        if is_category(items.last()) {
            rest.push(items.last().name)
        } else {
            rest
        }
    }
}

/// An entry is a regular file; it is stored under the entry's name.
pub open spec fn is_entry(d: DirItemView) -> bool {
    d.is_file
}

/// The names of the entries in a listing, in listing order.
pub open spec fn entry_names(items: Seq<DirItemView>) -> Seq<Seq<char>>
    decreases items.len(),
{
    if items.len() == 0 {
        seq![]
    } else {
        let rest = entry_names(items.drop_last());
        if is_entry(items.last()) {
            rest.push(items.last().name)
        } else {
            rest
        }
    }
}

/// The names of the categories in the listing of the data directory, sorted.
pub fn categories(listing: &Vec<DirItem>) -> (cats: Vec<String>)
    ensures
        is_sorted(cats.deep_view()),
        cats.deep_view().to_multiset() == category_names(listing_view(listing@)).to_multiset(),
        cats.deep_view() == sorted(category_names(listing_view(listing@))),
{
    let mut found: Vec<String> = Vec::new();
    let mut i: usize = 0;
    let dot = vec!['.'];
    while i < listing.len()
        invariant
            i <= listing.len(),
            dot@ == seq!['.'],
            found.deep_view() == category_names(listing_view(listing@).take(i as int)),
        decreases listing.len() - i,
    {
        let ghost items = listing_view(listing@).take(i + 1);
        assert(items.drop_last() =~= listing_view(listing@).take(i as int));
        assert(items.last() == listing@[i as int]@);
        let item = &listing[i];
        let name = chars_of(item.name.as_str());
        let hidden = crate::text::starts_with_at(&name, 0, &dot);
        assert(name@.skip(0) =~= name@);
        if item.is_dir && !hidden {
            let ghost before = found.deep_view();
            found.push(item.name.clone());
            assert(found.deep_view() =~= before.push(item.name@));
        }
        i = i + 1;
    }
    assert(listing_view(listing@).take(i as int) =~= listing_view(listing@));
    sort_names(found)
}

/// A listing names no more categories, and no more entries, than it has items.
pub proof fn lemma_names_len(items: Seq<DirItemView>)
    ensures
        category_names(items).len() <= items.len(),
        entry_names(items).len() <= items.len(),
    decreases items.len(),
{
    if items.len() > 0 {
        lemma_names_len(items.drop_last());
    }
}

/// The names of the entries in the listing of a category directory: its
/// regular files, each named by its entry, sorted.
pub fn entries(listing: &Vec<DirItem>) -> (names: Vec<String>)
    ensures
        is_sorted(names.deep_view()),
        names.deep_view().to_multiset() == entry_names(listing_view(listing@)).to_multiset(),
        names.deep_view() == sorted(entry_names(listing_view(listing@))),
{
    let mut found: Vec<String> = Vec::new();
    let mut i: usize = 0;
    while i < listing.len()
        invariant
            i <= listing.len(),
            found.deep_view() == entry_names(listing_view(listing@).take(i as int)),
        decreases listing.len() - i,
    {
        let ghost items = listing_view(listing@).take(i + 1);
        assert(items.drop_last() =~= listing_view(listing@).take(i as int));
        assert(items.last() == listing@[i as int]@);
        let item = &listing[i];
        if item.is_file {
            let ghost before = found.deep_view();
            found.push(item.name.clone());
            assert(found.deep_view() =~= before.push(item.name@));
        }
        i = i + 1;
    }
    assert(listing_view(listing@).take(i as int) =~= listing_view(listing@));
    sort_names(found)
}

/// An entry is stored as a plain file named by the entry; a category's
/// listing that holds such a file lists the entry under that name.
pub proof fn law_stored_entry_is_listed(items: Seq<DirItemView>, k: int, n: Seq<char>)
    requires
        0 <= k < items.len(),
        items[k].is_file,
        items[k].name == n,
    ensures
        entry_names(items).contains(n),
    decreases items.len(),
{
    if k == items.len() - 1 {
        assert(entry_names(items).last() == n);
    } else {
        law_stored_entry_is_listed(items.drop_last(), k, n);
        let rest = entry_names(items.drop_last());
        let j = choose|j: int| 0 <= j < rest.len() && rest[j] == n;
        assert(entry_names(items)[j] == n);
    }
}

/// What the listings keep: a name is a category exactly when some directory
/// of the listing has it and it does not begin with a dot; a name is an
/// entry exactly when some regular file of the listing has it.
pub proof fn law_listing_names(items: Seq<DirItemView>, n: Seq<char>)
    ensures
        category_names(items).contains(n) <==> exists|k: int|
            0 <= k < items.len() && (#[trigger] items[k]).is_dir && items[k].name == n && !(
            n.len() > 0 && n[0] == '.'),
        entry_names(items).contains(n) <==> exists|k: int|
            0 <= k < items.len() && (#[trigger] items[k]).is_file && items[k].name == n,
    decreases items.len(),
{
    if items.len() > 0 {
        let init = items.drop_last();
        law_listing_names(init, n);
        let last = items.last();
        assert(has_prefix(n, seq!['.']) <==> (n.len() > 0 && n[0] == '.')) by {
            if n.len() > 0 && n[0] == '.' {
                assert(n.take(1) =~= seq!['.']);
            }
            if has_prefix(n, seq!['.']) {
                assert(n.take(1)[0] == seq!['.'][0]);
            }
        }
        let cs = category_names(items);
        let es = entry_names(items);
        if category_names(init).contains(n) {
            let k = choose|k: int|
                0 <= k < init.len() && (#[trigger] init[k]).is_dir && init[k].name == n && !(
                n.len() > 0 && n[0] == '.');
            assert(items[k] == init[k]);
            let j = choose|j: int| 0 <= j < category_names(init).len() && category_names(init)[j] == n;
            assert(cs[j] == n);
        }
        if entry_names(init).contains(n) {
            let k = choose|k: int| 0 <= k < init.len() && (#[trigger] init[k]).is_file && init[k].name == n;
            assert(items[k] == init[k]);
            let j = choose|j: int| 0 <= j < entry_names(init).len() && entry_names(init)[j] == n;
            assert(es[j] == n);
        }
        if is_category(last) && last.name == n {
            assert(cs[cs.len() - 1] == n);
        }
        if is_entry(last) && last.name == n {
            assert(es[es.len() - 1] == n);
        }
        if cs.contains(n) {
            let j = choose|j: int| 0 <= j < cs.len() && cs[j] == n;
            if !(is_category(last) && j == cs.len() - 1) {
                assert(category_names(init)[j] == n);
            }
        }
        if es.contains(n) {
            let j = choose|j: int| 0 <= j < es.len() && es[j] == n;
            if !(is_entry(last) && j == es.len() - 1) {
                assert(entry_names(init)[j] == n);
            }
        }
        assert forall|k: int| 0 <= k < items.len() && k != items.len() - 1 implies #[trigger] items[k] == init[k] by {}
    }
}

} // verus!

