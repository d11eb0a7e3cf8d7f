//! Lexical ordering of version strings.
//!
//! Installed kit versions are zero-padded dotted numerics of uniform width,
//! so lexical ordering of the strings is a valid total order for ranking
//! them from newest to oldest.
use vstd::prelude::*;
use vstd::string::StrSliceExecFns;

verus! {

/// Strict lexical order on character sequences: `a` comes before `b` when,
/// at the first differing position, `a` holds the smaller scalar value, or
/// when `a` is a proper prefix of `b`.
pub open spec fn lex_lt(a: Seq<char>, b: Seq<char>) -> bool
    decreases a.len(),
{
    if b.len() == 0 {
        false
    } else if a.len() == 0 {
        true
    } else if a[0] != b[0] {
        (a[0] as u32) < (b[0] as u32)
    } else {
        lex_lt(a.drop_first(), b.drop_first())
    }
}

/// Reflexive companion of `lex_lt`.
pub open spec fn lex_le(a: Seq<char>, b: Seq<char>) -> bool {
    !lex_lt(b, a)
}

/// `lex_lt` never holds both ways.
pub proof fn lemma_lex_lt_asymmetric(a: Seq<char>, b: Seq<char>)
    requires
        lex_lt(a, b),
    ensures
        !lex_lt(b, a),
    decreases a.len(),
{
    if a.len() > 0 && b.len() > 0 && a[0] == b[0] {
        lemma_lex_lt_asymmetric(a.drop_first(), b.drop_first());
    }
}

/// Two sequences that are not ordered either way are equal.
pub proof fn lemma_lex_lt_connex(a: Seq<char>, b: Seq<char>)
    requires
        !lex_lt(a, b),
        !lex_lt(b, a),
    ensures
        a == b,
    decreases a.len(),
{
    if a.len() == 0 || b.len() == 0 {
        assert(a =~= b);
    } else if a[0] != b[0] {
        assert((a[0] as u32) == (b[0] as u32));
        vstd::utf8::char_u32_cast(a[0], a[0] as u32);
        vstd::utf8::char_u32_cast(b[0], b[0] as u32);
        assert(a[0] == b[0]);
    } else {
        lemma_lex_lt_connex(a.drop_first(), b.drop_first());
        assert(a =~= seq![a[0]] + a.drop_first());
        assert(b =~= seq![b[0]] + b.drop_first());
        assert(a =~= b);
    }
}

/// `lex_lt` is transitive.
pub proof fn lemma_lex_lt_transitive(a: Seq<char>, b: Seq<char>, c: Seq<char>)
    requires
        lex_lt(a, b),
        lex_lt(b, c),
    ensures
        lex_lt(a, c),
    decreases a.len(),
{
    if a.len() > 0 && b.len() > 0 && c.len() > 0 && a[0] == b[0] && b[0] == c[0] {
        lemma_lex_lt_transitive(a.drop_first(), b.drop_first(), c.drop_first());
    }
}

/// Appending two sequences to a common prefix keeps their relative order.
pub proof fn lemma_lex_lt_common_prefix(p: Seq<char>, a: Seq<char>, b: Seq<char>)
    ensures
        lex_lt(p + a, p + b) == lex_lt(a, b),
    decreases p.len(),
{
    if p.len() == 0 {
        assert(p + a =~= a);
        assert(p + b =~= b);
    } else {
        lemma_lex_lt_common_prefix(p.drop_first(), a, b);
        assert((p + a).drop_first() =~= p.drop_first() + a);
        assert((p + b).drop_first() =~= p.drop_first() + b);
    }
}

/// Insertion of one entry into a sequence that is already in descending
/// lexical order, keeping it descending.
pub open spec fn insert_desc(x: Seq<char>, s: Seq<Seq<char>>) -> Seq<Seq<char>>
    decreases s.len(),
{
    if s.len() == 0 {
        seq![x]
    } else if !lex_lt(x, s[0]) {
        seq![x] + s
    } else {
        seq![s[0]] + insert_desc(x, s.drop_first())
    }
}

/// Descending insertion sort of a sequence of version strings.
pub open spec fn sort_desc(s: Seq<Seq<char>>) -> Seq<Seq<char>>
    decreases s.len(),
{
    if s.len() == 0 {
        Seq::empty()
    } else {
        insert_desc(s[0], sort_desc(s.drop_first()))
    }
}

/// Every earlier entry is at least as large as every later one.
pub open spec fn sorted_descending(s: Seq<Seq<char>>) -> bool {
    forall|i: int, j: int| 0 <= i < j < s.len() ==> lex_le(#[trigger] s[j], #[trigger] s[i])
}

/// Every earlier entry is strictly larger than every later one.
pub open spec fn strictly_descending(s: Seq<Seq<char>>) -> bool {
    forall|i: int, j: int| 0 <= i < j < s.len() ==> lex_lt(#[trigger] s[j], #[trigger] s[i])
}

pub proof fn lemma_insert_desc_len(x: Seq<char>, s: Seq<Seq<char>>)
    ensures
        insert_desc(x, s).len() == s.len() + 1,
    decreases s.len(),
{
    if s.len() > 0 && lex_lt(x, s[0]) {
        lemma_insert_desc_len(x, s.drop_first());
    }
}

pub proof fn lemma_sort_desc_len(s: Seq<Seq<char>>)
    ensures
        sort_desc(s).len() == s.len(),
    decreases s.len(),
{
    if s.len() > 0 {
        lemma_sort_desc_len(s.drop_first());
        lemma_insert_desc_len(s[0], sort_desc(s.drop_first()));
    }
}

/// Each entry of the insertion's result is the inserted entry or one of the
/// original ones.
pub proof fn lemma_insert_desc_elements(x: Seq<char>, s: Seq<Seq<char>>)
    ensures
        forall|k: int|
            0 <= k < insert_desc(x, s).len() ==> #[trigger] insert_desc(x, s)[k] == x
                || s.contains(insert_desc(x, s)[k]),
    decreases s.len(),
{
    if s.len() > 0 && lex_lt(x, s[0]) {
        lemma_insert_desc_elements(x, s.drop_first());
        assert forall|k: int| 0 <= k < insert_desc(x, s).len() implies #[trigger] insert_desc(
            x,
            s,
        )[k] == x || s.contains(insert_desc(x, s)[k]) by {
            if k > 0 {
                let t = insert_desc(x, s.drop_first());
                assert(insert_desc(x, s)[k] == t[k - 1]);
                if t[k - 1] != x {
                    let e = t[k - 1];
                    let m = choose|m: int| 0 <= m < s.drop_first().len() && s.drop_first()[m] == e;
                    assert(s[m + 1] == t[k - 1]);
                }
            }
        }
    }
}

/// Sorting neither adds nor loses entries.
pub proof fn lemma_sort_desc_elements(s: Seq<Seq<char>>)
    ensures
        sort_desc(s).to_multiset() =~= s.to_multiset(),
    decreases s.len(),
{
    broadcast use vstd::seq_lib::group_to_multiset_ensures;

    if s.len() > 0 {
        lemma_sort_desc_elements(s.drop_first());
        lemma_insert_desc_multiset(s[0], sort_desc(s.drop_first()));
        assert(s =~= s.drop_first().insert(0, s[0]));
    }
}

pub proof fn lemma_insert_desc_multiset(x: Seq<char>, s: Seq<Seq<char>>)
    ensures
        insert_desc(x, s).to_multiset() =~= s.to_multiset().insert(x),
    decreases s.len(),
{
    broadcast use vstd::seq_lib::group_to_multiset_ensures;

    if s.len() == 0 {
        assert(seq![x] =~= Seq::<Seq<char>>::empty().insert(0, x));
    } else if !lex_lt(x, s[0]) {
        assert(seq![x] + s =~= s.insert(0, x));
    } else {
        lemma_insert_desc_multiset(x, s.drop_first());
        let t = insert_desc(x, s.drop_first());
        assert(seq![s[0]] + t =~= t.insert(0, s[0]));
        assert(s =~= s.drop_first().insert(0, s[0]));
        assert(insert_desc(x, s).to_multiset() =~= t.to_multiset().insert(s[0]));
        assert(s.to_multiset() =~= s.drop_first().to_multiset().insert(s[0]));
        assert(insert_desc(x, s).to_multiset() =~= s.drop_first().to_multiset().insert(x).insert(
            s[0],
        ));
    }
}

/// Inserting into a descending sequence keeps it descending.
pub proof fn lemma_insert_desc_sorted(x: Seq<char>, s: Seq<Seq<char>>)
    requires
        sorted_descending(s),
    ensures
        sorted_descending(insert_desc(x, s)),
    decreases s.len(),
{
    let r = insert_desc(x, s);
    lemma_insert_desc_len(x, s);
    if s.len() == 0 {
    } else if !lex_lt(x, s[0]) {
        assert forall|i: int, j: int| 0 <= i < j < r.len() implies lex_le(
            #[trigger] r[j],
            #[trigger] r[i],
        ) by {
            if i == 0 && j > 1 {
                if lex_lt(x, s[j - 1]) {
                    if lex_lt(s[j - 1], s[0]) {
                        lemma_lex_lt_transitive(x, s[j - 1], s[0]);
                    } else {
                        lemma_lex_lt_connex(s[0], s[j - 1]);
                    }
                }
            }
        }
    } else {
        lemma_insert_desc_sorted(x, s.drop_first());
        lemma_insert_desc_elements(x, s.drop_first());
        let t = insert_desc(x, s.drop_first());
        assert forall|i: int, j: int| 0 <= i < j < r.len() implies lex_le(
            #[trigger] r[j],
            #[trigger] r[i],
        ) by {
            if i == 0 {
                assert(r[j] == t[j - 1]);
                if t[j - 1] == x {
                    lemma_lex_lt_asymmetric(x, s[0]);
                } else {
                    let e = t[j - 1];
                    let m = choose|m: int| 0 <= m < s.drop_first().len() && s.drop_first()[m] == e;
                    assert(s[m + 1] == t[j - 1]);
                    assert(lex_le(s[m + 1], s[0]));
                }
            } else {
                assert(r[i] == t[i - 1] && r[j] == t[j - 1]);
            }
        }
    }
}

/// The result of the sort is in descending lexical order.
pub proof fn lemma_sort_desc_sorted(s: Seq<Seq<char>>)
    ensures
        sorted_descending(sort_desc(s)),
    decreases s.len(),
{
    if s.len() > 0 {
        lemma_sort_desc_sorted(s.drop_first());
        lemma_insert_desc_sorted(s[0], sort_desc(s.drop_first()));
    }
}

/// On entries that are pairwise distinct the descending order is strict.
pub proof fn lemma_sort_desc_strict(s: Seq<Seq<char>>)
    requires
        s.no_duplicates(),
    ensures
        strictly_descending(sort_desc(s)),
    decreases s.len(),
{
    broadcast use vstd::seq_lib::group_to_multiset_ensures;

    if s.len() > 0 {
        assert(s.drop_first().no_duplicates());
        lemma_sort_desc_strict(s.drop_first());
        lemma_sort_desc_elements(s.drop_first());
        assert(!s.drop_first().contains(s[0])) by {
            if s.drop_first().contains(s[0]) {
                let m = choose|m: int| 0 <= m < s.drop_first().len() && s.drop_first()[m] == s[0];
                assert(s[m + 1] == s[0]);
            }
        }
        assert(!sort_desc(s.drop_first()).contains(s[0])) by {
            if sort_desc(s.drop_first()).contains(s[0]) {
                assert(sort_desc(s.drop_first()).to_multiset().count(s[0]) > 0);
                assert(s.drop_first().to_multiset().count(s[0]) > 0);
                assert(s.drop_first().contains(s[0]));
            }
        }
        lemma_insert_desc_strict(s[0], sort_desc(s.drop_first()));
    }
}

/// Inserting an entry that is not yet present into a strictly descending
/// sequence keeps it strictly descending.
pub proof fn lemma_insert_desc_strict(x: Seq<char>, s: Seq<Seq<char>>)
    requires
        strictly_descending(s),
        !s.contains(x),
    ensures
        strictly_descending(insert_desc(x, s)),
    decreases s.len(),
{
    let r = insert_desc(x, s);
    lemma_insert_desc_len(x, s);
    if s.len() == 0 {
    } else if !lex_lt(x, s[0]) {
        assert(x != s[0]);
        assert(lex_lt(s[0], x)) by {
            if !lex_lt(s[0], x) {
                lemma_lex_lt_connex(x, s[0]);
            }
        }
        assert forall|i: int, j: int| 0 <= i < j < r.len() implies lex_lt(
            #[trigger] r[j],
            #[trigger] r[i],
        ) by {
            if i == 0 && j > 1 {
                lemma_lex_lt_transitive(s[j - 1], s[0], x);
            }
        }
    } else {
        assert(!s.drop_first().contains(x)) by {
            if s.drop_first().contains(x) {
                let m = choose|m: int| 0 <= m < s.drop_first().len() && s.drop_first()[m] == x;
                assert(s[m + 1] == x);
            }
        }
        lemma_insert_desc_strict(x, s.drop_first());
        lemma_insert_desc_elements(x, s.drop_first());
        let t = insert_desc(x, s.drop_first());
        assert forall|i: int, j: int| 0 <= i < j < r.len() implies lex_lt(
            #[trigger] r[j],
            #[trigger] r[i],
        ) by {
            if i == 0 {
                assert(r[j] == t[j - 1]);
                if t[j - 1] != x {
                    let e = t[j - 1];
                    let m = choose|m: int| 0 <= m < s.drop_first().len() && s.drop_first()[m] == e;
                    assert(s[m + 1] == t[j - 1]);
                    assert(lex_lt(s[m + 1], s[0]));
                }
            } else {
                assert(r[i] == t[i - 1] && r[j] == t[j - 1]);
            }
        }
    }
}

/// Inserts `x` into the already-descending `sorted` vector.
fn insert_version(x: String, sorted: Vec<String>) -> (r: Vec<String>)
    ensures
        r.deep_view() == insert_desc(x@, sorted.deep_view()),
    decreases sorted@.len(),
{
    let ghost xv = x@;
    let ghost sv = sorted.deep_view();
    if sorted.len() == 0 {
        let mut r: Vec<String> = Vec::new();
        r.push(x);
        proof {
            assert(r.deep_view() =~= seq![xv]);
        }
        r
    } else if !str_lex_lt(x.as_str(), sorted[0].as_str()) {
        let mut s = sorted;
        s.insert(0, x);
        proof {
            assert(s.deep_view() =~= seq![xv] + sv);
        }
        s
    } else {
        let mut s = sorted;
        let first = s.remove(0);
        proof {
            assert(s.deep_view() =~= sv.drop_first());
        }
        let rest = insert_version(x, s);
        let mut r = rest;
        r.insert(0, first);
        proof {
            assert(r.deep_view() =~= seq![sv[0]] + insert_desc(xv, sv.drop_first()));
        }
        r
    }
}

fn sort_versions_from(versions: &Vec<String>, start: usize) -> (r: Vec<String>)
    requires
        start <= versions@.len(),
    ensures
        r.deep_view() == sort_desc(versions.deep_view().skip(start as int)),
    decreases versions@.len() - start,
{
    if start == versions.len() {
        let r: Vec<String> = Vec::new();
        proof {
            assert(versions.deep_view().skip(start as int) =~= Seq::empty());
            assert(r.deep_view() =~= Seq::<Seq<char>>::empty());
        }
        r
    } else {
        let rest = sort_versions_from(versions, start + 1);
        let x = versions[start].clone();
        proof {
            let dv = versions.deep_view();
            assert(dv.skip(start as int).drop_first() =~= dv.skip(start as int + 1));
            assert(dv.skip(start as int)[0] == dv[start as int]);
        }
        insert_version(x, rest)
    }
}

/// Ranks the discovered version strings from newest to oldest by sorting
/// them in descending lexical order.
pub fn sort_versions_descending(versions: &Vec<String>) -> (r: Vec<String>)
    ensures
        r.deep_view() == sort_desc(versions.deep_view()),
{
    let r = sort_versions_from(versions, 0);
    proof {
        assert(versions.deep_view().skip(0) =~= versions.deep_view());
    }
    r
}

/// Decides `lex_lt` on the views of two string slices.
pub fn str_lex_lt(a: &str, b: &str) -> (r: bool)
    ensures
        r == lex_lt(a@, b@),
{
    let a_len: usize = a.unicode_len();
    let b_len: usize = b.unicode_len();
    let mut i: usize = 0;
    proof {
        assert(a@.skip(0) =~= a@);
        assert(b@.skip(0) =~= b@);
    }
    loop
        invariant
            i <= a_len,
            i <= b_len,
            a_len == a@.len(),
            b_len == b@.len(),
            lex_lt(a@, b@) == lex_lt(a@.skip(i as int), b@.skip(i as int)),
        decreases a_len - i,
    {
        if i == b_len {
            assert(b@.skip(i as int).len() == 0);
            return false;
        }
        if i == a_len {
            assert(a@.skip(i as int).len() == 0);
            return true;
        }
        let ca = a.get_char(i);
        let cb = b.get_char(i);
        assert(a@.skip(i as int)[0] == a@[i as int]);
        assert(b@.skip(i as int)[0] == b@[i as int]);
        if ca != cb {
            return (ca as u32) < (cb as u32);
        }
        proof {
            assert(a@.skip(i as int).drop_first() =~= a@.skip(i as int + 1));
            assert(b@.skip(i as int).drop_first() =~= b@.skip(i as int + 1));
        }
        i = i + 1;
    }
}

} // verus!
