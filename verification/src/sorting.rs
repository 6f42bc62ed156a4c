use vstd::prelude::*;
use vstd::seq_lib::group_to_multiset_ensures;
use vstd::seq_lib::lemma_multiset_commutative;
use crate::assign_parser::names_of;

verus! {

/// Lexicographic order on character sequences by code point. On ASCII names
/// this is exactly the order in which Rust compares strings, since UTF-8
/// preserves code-point order byte for byte.
pub open spec fn lex_leq(a: Seq<char>, b: Seq<char>) -> bool
    decreases a.len(),
{
    if a.len() == 0 {
        true
    } else if b.len() == 0 {
        false
    } else if (a[0] as u32) < (b[0] as u32) {
        true
    } else if (a[0] as u32) > (b[0] as u32) {
        false
    } else {
        lex_leq(a.skip(1), b.skip(1))
    }
}

pub open spec fn sorted_names(s: Seq<Seq<char>>) -> bool {
    forall|i: int, j: int| #![trigger s[i], s[j]] 0 <= i < j < s.len() ==> lex_leq(s[i], s[j])
}

/// Insert before the first element that `x` is not above.
pub open spec fn sp_insert(x: Seq<char>, s: Seq<Seq<char>>) -> Seq<Seq<char>>
    decreases s.len(),
{
    if s.len() == 0 {
        seq![x]
    } else if lex_leq(x, s[0]) {
        seq![x] + s
    } else {
        seq![s[0]] + sp_insert(x, s.skip(1))
    }
}

/// Insertion sort, taking the names left to right.
pub open spec fn sp_sort(s: Seq<Seq<char>>) -> Seq<Seq<char>>
    decreases s.len(),
{
    if s.len() == 0 {
        Seq::empty()
    } else {
        sp_insert(s.last(), sp_sort(s.drop_last()))
    }
}

pub proof fn lemma_lex_total(a: Seq<char>, b: Seq<char>)
    ensures
        lex_leq(a, b) || lex_leq(b, a),
    decreases a.len(),
{
    if a.len() > 0 && b.len() > 0 && a[0] as u32 == b[0] as u32 {
        lemma_lex_total(a.skip(1), b.skip(1));
    }
}

pub proof fn lemma_lex_trans(a: Seq<char>, b: Seq<char>, c: Seq<char>)
    requires
        lex_leq(a, b),
        lex_leq(b, c),
    ensures
        lex_leq(a, c),
    decreases a.len(),
{
    if a.len() > 0 && b.len() > 0 && c.len() > 0 && a[0] as u32 == b[0] as u32 && b[0] as u32 == c[
        0
    ] as u32 {
        lemma_lex_trans(a.skip(1), b.skip(1), c.skip(1));
    }
}

proof fn lemma_sp_insert_multiset(x: Seq<char>, s: Seq<Seq<char>>)
    ensures
        sp_insert(x, s).to_multiset() == s.to_multiset().insert(x),
        sp_insert(x, s).len() == s.len() + 1,
    decreases s.len(),
{
    broadcast use group_to_multiset_ensures;

    if s.len() == 0 {
        assert(seq![x] =~= Seq::<Seq<char>>::empty().push(x));
        assert(sp_insert(x, s).to_multiset() =~= s.to_multiset().insert(x));
    } else if lex_leq(x, s[0]) {
        lemma_multiset_commutative(seq![x], s);
        assert(seq![x] =~= Seq::<Seq<char>>::empty().push(x));
        assert(sp_insert(x, s).to_multiset() =~= s.to_multiset().insert(x));
    } else {
        lemma_sp_insert_multiset(x, s.skip(1));
        lemma_multiset_commutative(seq![s[0]], sp_insert(x, s.skip(1)));
        assert(s =~= seq![s[0]] + s.skip(1));
        lemma_multiset_commutative(seq![s[0]], s.skip(1));
        assert(sp_insert(x, s).to_multiset() =~= s.to_multiset().insert(x));
    }
}

proof fn lemma_sp_insert_sorted(x: Seq<char>, s: Seq<Seq<char>>)
    requires
        sorted_names(s),
    ensures
        sorted_names(sp_insert(x, s)),
    decreases s.len(),
{
    broadcast use group_to_multiset_ensures;

    if s.len() == 0 {
    } else if lex_leq(x, s[0]) {
        let res = seq![x] + s;
        assert forall|i: int, j: int| 0 <= i < j < res.len() implies lex_leq(
            #[trigger] res[i],
            #[trigger] res[j],
        ) by {
            if i == 0 && j > 1 {
                lemma_lex_trans(x, s[0], s[j - 1]);
            }
        }
    } else {
        lemma_lex_total(x, s[0]);
        assert forall|i: int, j: int| #![trigger s.skip(1)[i], s.skip(1)[j]]
            0 <= i < j < s.skip(1).len() implies lex_leq(s.skip(1)[i], s.skip(1)[j]) by {
            assert(s.skip(1)[i] == s[i + 1]);
            assert(s.skip(1)[j] == s[j + 1]);
        }
        lemma_sp_insert_sorted(x, s.skip(1));
        lemma_sp_insert_multiset(x, s.skip(1));
        let rest = sp_insert(x, s.skip(1));
        assert forall|m: int| 0 <= m < rest.len() implies lex_leq(s[0], #[trigger] rest[m]) by {
            assert(rest.contains(rest[m]));
            assert(rest.to_multiset().count(rest[m]) > 0);
            if rest[m] != x {
                assert(s.skip(1).to_multiset().count(rest[m]) > 0);
                assert(s.skip(1).contains(rest[m]));
                let k = choose|k: int| 0 <= k < s.skip(1).len() && s.skip(1)[k] == rest[m];
                assert(s.skip(1)[k] == s[k + 1]);
            }
        }
        let res = seq![s[0]] + rest;
        assert forall|i: int, j: int| 0 <= i < j < res.len() implies lex_leq(
            #[trigger] res[i],
            #[trigger] res[j],
        ) by {
            if i > 0 {
                assert(res[i] == rest[i - 1]);
                assert(res[j] == rest[j - 1]);
            } else {
                assert(res[j] == rest[j - 1]);
            }
        }
    }
}

/// Sorting the names yields them in ascending lexicographic order, none
/// added, none lost.
pub proof fn lemma_sp_sort_sorted(s: Seq<Seq<char>>)
    ensures
        sorted_names(sp_sort(s)),
        sp_sort(s).to_multiset() == s.to_multiset(),
        sp_sort(s).len() == s.len(),
    decreases s.len(),
{
    broadcast use group_to_multiset_ensures;

    if s.len() > 0 {
        lemma_sp_sort_sorted(s.drop_last());
        lemma_sp_insert_sorted(s.last(), sp_sort(s.drop_last()));
        lemma_sp_insert_multiset(s.last(), sp_sort(s.drop_last()));
        assert(s =~= s.drop_last().push(s.last()));
        assert(sp_sort(s).to_multiset() =~= s.to_multiset());
    }
}

/// Compare two names in the order `lex_leq` states.
fn str_lex_leq(a: &String, b: &String) -> (r: bool)
    ensures
        r == lex_leq(a@, b@),
{
    let na = a.as_str().unicode_len();
    let nb = b.as_str().unicode_len();
    let mut i: usize = 0;
    proof {
        assert(a@.skip(0) =~= a@);
        assert(b@.skip(0) =~= b@);
    }
    loop
        invariant
            i <= na,
            i <= nb,
            na == a@.len(),
            nb == b@.len(),
            lex_leq(a@, b@) == lex_leq(a@.skip(i as int), b@.skip(i as int)),
        decreases na - i,
    {
        if i >= na {
            return true;
        }
        if i >= nb {
            return false;
        }
        let ca = a.as_str().get_char(i) as u32;
        let cb = b.as_str().get_char(i) as u32;
        if ca < cb {
            return true;
        }
        if ca > cb {
            return false;
        }
        proof {
            assert(a@.skip(i as int).skip(1) =~= a@.skip(i + 1));
            assert(b@.skip(i as int).skip(1) =~= b@.skip(i + 1));
        }
        i = i + 1;
    }
}

proof fn lemma_sp_insert_at(x: Seq<char>, s: Seq<Seq<char>>, j: int)
    requires
        0 <= j <= s.len(),
        forall|m: int| 0 <= m < j ==> !lex_leq(x, #[trigger] s[m]),
        j < s.len() ==> lex_leq(x, s[j]),
    ensures
        sp_insert(x, s) == s.take(j) + seq![x] + s.skip(j),
    decreases s.len(),
{
    if s.len() == 0 {
        assert(sp_insert(x, s) =~= s.take(j) + seq![x] + s.skip(j));
    } else if lex_leq(x, s[0]) {
        assert(j == 0);
        assert(sp_insert(x, s) =~= s.take(j) + seq![x] + s.skip(j));
    } else {
        assert(j >= 1);
        assert forall|m: int| 0 <= m < j - 1 implies !lex_leq(x, #[trigger] s.skip(1)[m]) by {
            assert(s.skip(1)[m] == s[m + 1]);
        }
        assert(j - 1 < s.skip(1).len() ==> lex_leq(x, s.skip(1)[j - 1]));
        lemma_sp_insert_at(x, s.skip(1), j - 1);
        assert(sp_insert(x, s) =~= s.take(j) + seq![x] + s.skip(j));
    }
}

/// Insert one name into an already sorted vector, where `sp_insert` says.
fn insert_name(r: &mut Vec<String>, x: String)
    ensures
        names_of(final(r)@) == sp_insert(x@, names_of(old(r)@)),
{
    let n = r.len();
    let mut j: usize = 0;
    let mut found = false;
    while j < n && !found
        invariant
            j <= n,
            n == r@.len(),
            *r == *old(r),
            forall|m: int| 0 <= m < j ==> !lex_leq(x@, #[trigger] names_of(r@)[m]),
            found ==> j < n && lex_leq(x@, names_of(r@)[j as int]),
        decreases n - j + (if found { 0int } else { 1int }),
    {
        if str_lex_leq(&x, &r[j]) {
            found = true;
        } else {
            j = j + 1;
        }
    }
    proof {
        lemma_sp_insert_at(x@, names_of(r@), j as int);
    }
    let ghost before = r@;
    r.insert(j, x);
    proof {
        assert(names_of(r@) =~= names_of(before).take(j as int) + seq![x@] + names_of(
            before,
        ).skip(j as int));
    }
}

/// The independent variables in the order the header lists them.
pub fn sorted_name_vec(v: &Vec<String>) -> (r: Vec<String>)
    ensures
        names_of(r@) == sp_sort(names_of(v@)),
{
    let n = v.len();
    let mut r: Vec<String> = Vec::new();
    proof {
        assert(names_of(r@) =~= sp_sort(names_of(v@).take(0)));
    }
    let mut i: usize = 0;
    while i < n
        invariant
            i <= n,
            n == v@.len(),
            names_of(r@) == sp_sort(names_of(v@).take(i as int)),
        decreases n - i,
    {
        insert_name(&mut r, v[i].clone());
        proof {
            assert(names_of(v@).take(i + 1).drop_last() =~= names_of(v@).take(i as int));
            assert(names_of(v@).take(i + 1).last() == v@[i as int]@);
        }
        i = i + 1;
    }
    proof {
        assert(names_of(v@).take(n as int) =~= names_of(v@));
    }
    r
}

} // verus!
