//! The total order on strings that sorted listings and hash maps use: the
//! lexicographic order of their characters, which is also the byte order of
//! their UTF-8 encodings.
use vstd::prelude::*;

verus! {

/// `a` sorts strictly before `b`.
pub open spec fn str_less(a: Seq<char>, b: Seq<char>) -> bool
    decreases a.len(),
{
    if a.len() == 0 {
        b.len() > 0
    } else if b.len() == 0 {
        false
    } else if a[0] != b[0] {
        (a[0] as u32) < (b[0] as u32)
    } else {
        str_less(a.drop_first(), b.drop_first())
    }
}

/// Each element sorts strictly before every later one.
pub open spec fn strictly_sorted(s: Seq<Seq<char>>) -> bool {
    forall|i: int, j: int| 0 <= i < j < s.len() ==> str_less(#[trigger] s[i], #[trigger] s[j])
}

pub proof fn lemma_str_less_irreflexive(a: Seq<char>)
    ensures
        !str_less(a, a),
    decreases a.len(),
{
    if a.len() > 0 {
        lemma_str_less_irreflexive(a.drop_first());
    }
}

pub proof fn lemma_str_less_total(a: Seq<char>, b: Seq<char>)
    ensures
        a == b || str_less(a, b) || str_less(b, a),
        !(str_less(a, b) && str_less(b, a)),
    decreases a.len(),
{
    if a.len() > 0 && b.len() > 0 {
        if a[0] == b[0] {
            lemma_str_less_total(a.drop_first(), b.drop_first());
            if a.drop_first() == b.drop_first() {
                assert(a =~= seq![a[0]] + a.drop_first());
                assert(b =~= seq![b[0]] + b.drop_first());
            }
        } else if (a[0] as u32) == (b[0] as u32) {
            vstd::utf8::char_u32_cast(a[0], a[0] as u32);
            vstd::utf8::char_u32_cast(b[0], b[0] as u32);
        }
    } else if a.len() == 0 && b.len() == 0 {
        assert(a =~= b);
    }
}

pub proof fn lemma_str_less_transitive(a: Seq<char>, b: Seq<char>, c: Seq<char>)
    requires
        str_less(a, b),
        str_less(b, c),
    ensures
        str_less(a, c),
    decreases a.len(),
{
    if a.len() > 0 && b.len() > 0 && c.len() > 0 && a[0] == b[0] && b[0] == c[0] {
        lemma_str_less_transitive(a.drop_first(), b.drop_first(), c.drop_first());
    }
}

/// Whether `a` sorts strictly before `b`.
pub fn str_lt(a: &str, b: &str) -> (r: bool)
    ensures
        r == str_less(a@, b@),
{
    let n = a.unicode_len();
    let m = b.unicode_len();
    let mut i: usize = 0;
    assert(a@.skip(0) =~= a@);
    assert(b@.skip(0) =~= b@);
    while i < n && i < m
        invariant
            n == a@.len(),
            m == b@.len(),
            i <= n,
            i <= m,
            str_less(a@, b@) == str_less(a@.skip(i as int), b@.skip(i as int)),
        decreases n - i,
    {
        let x = a.get_char(i);
        let y = b.get_char(i);
        assert(a@.skip(i as int)[0] == x);
        assert(b@.skip(i as int)[0] == y);
        if x != y {
            return (x as u32) < (y as u32);
        }
        assert(a@.skip(i as int).drop_first() =~= a@.skip(i + 1));
        assert(b@.skip(i as int).drop_first() =~= b@.skip(i + 1));
        i = i + 1;
    }
    i < m && i == n
}

/// Where `x` belongs in the strictly sorted `keys`: whether it is there
/// already, and the first index whose key sorts after it.
pub fn locate(keys: &Vec<String>, x: &str) -> (r: (bool, usize))
    requires
        strictly_sorted(keys@.map_values(|k: String| k@)),
    ensures
        r.1 <= keys@.len(),
        r.0 <==> exists|k: int| 0 <= k < keys@.len() && keys@[k]@ == x@,
        !r.0 ==> forall|k: int| 0 <= k < r.1 ==> str_less(#[trigger] keys@[k]@, x@),
        !r.0 ==> forall|k: int| r.1 <= k < keys@.len() ==> str_less(x@, #[trigger] keys@[k]@),
{
    let ghost ks = keys@.map_values(|k: String| k@);
    let mut i: usize = 0;
    while i < keys.len()
        invariant
            i <= keys@.len(),
            ks == keys@.map_values(|k: String| k@),
            strictly_sorted(ks),
            forall|k: int| 0 <= k < i ==> str_less(#[trigger] keys@[k]@, x@),
        decreases keys.len() - i,
    {
        let k = keys[i].as_str();
        if str_lt(x, k) {
            proof {
                assert forall|j: int| i <= j < keys@.len() implies str_less(x@, #[trigger] keys@[j]@) by {
                    if j > i {
                        assert(ks[i as int] == keys@[i as int]@);
                        assert(ks[j] == keys@[j]@);
                        lemma_str_less_transitive(x@, keys@[i as int]@, keys@[j]@);
                    }
                }
                assert forall|j: int| 0 <= j < keys@.len() implies keys@[j]@ != x@ by {
                    lemma_str_less_irreflexive(x@);
                }
            }
            return (false, i);
        }
        if !str_lt(k, x) {
            proof {
                lemma_str_less_total(k@, x@);
            }
            return (true, i);
        }
        proof {
            lemma_str_less_total(k@, x@);
            if k@ == x@ {
                lemma_str_less_irreflexive(x@);
            }
        }
        i = i + 1;
    }
    proof {
        assert forall|j: int| 0 <= j < keys@.len() implies keys@[j]@ != x@ by {
            lemma_str_less_irreflexive(x@);
        }
    }
    (false, i)
}

/// Inserting `x` where it belongs keeps a sequence strictly sorted.
pub proof fn lemma_insert_sorted(s: Seq<Seq<char>>, pos: int, x: Seq<char>)
    requires
        0 <= pos <= s.len(),
        strictly_sorted(s),
        forall|k: int| 0 <= k < pos ==> str_less(#[trigger] s[k], x),
        forall|k: int| pos <= k < s.len() ==> str_less(x, #[trigger] s[k]),
    ensures
        strictly_sorted(s.insert(pos, x)),
{
    let t = s.insert(pos, x);
    assert forall|a: int, b: int| 0 <= a < b < t.len() implies str_less(#[trigger] t[a], #[trigger] t[b]) by {
        if a < pos && b < pos {
            assert(t[a] == s[a] && t[b] == s[b]);
        } else if a < pos && b == pos {
            assert(t[a] == s[a]);
        } else if a < pos {
            assert(t[a] == s[a] && t[b] == s[b - 1]);
        } else if a == pos {
            assert(t[b] == s[b - 1]);
        } else {
            assert(t[a] == s[a - 1] && t[b] == s[b - 1]);
        }
    }
}

/// Two strictly sorted sequences with the same elements are equal.
pub proof fn lemma_sorted_unique(a: Seq<Seq<char>>, b: Seq<Seq<char>>)
    requires
        strictly_sorted(a),
        strictly_sorted(b),
        forall|x: Seq<char>| a.contains(x) <==> b.contains(x),
    ensures
        a == b,
    decreases a.len(),
{
    if a.len() == 0 {
        if b.len() > 0 {
            assert(b.contains(b[0]));
        }
        assert(a =~= b);
        return;
    }
    if b.len() == 0 {
        assert(a.contains(a[0]));
        return;
    }
    assert(a.contains(a[0]));
    assert(b.contains(b[0]));
    let k = choose|k: int| 0 <= k < b.len() && b[k] == a[0];
    let m = choose|m: int| 0 <= m < a.len() && a[m] == b[0];
    if a[0] != b[0] {
        assert(k > 0 && m > 0);
        assert(str_less(b[0], b[k]));
        assert(str_less(a[0], a[m]));
        lemma_str_less_total(a[0], b[0]);
    }
    let a2 = a.drop_first();
    let b2 = b.drop_first();
    assert forall|x: Seq<char>| a2.contains(x) implies b2.contains(x) by {
        let i = choose|i: int| 0 <= i < a2.len() && a2[i] == x;
        assert(a.contains(x) && a[i + 1] == x);
        assert(str_less(a[0], a[i + 1]));
        lemma_str_less_irreflexive(x);
        let j = choose|j: int| 0 <= j < b.len() && b[j] == x;
        assert(j != 0);
        assert(b2[j - 1] == x);
    }
    assert forall|x: Seq<char>| b2.contains(x) implies a2.contains(x) by {
        let i = choose|i: int| 0 <= i < b2.len() && b2[i] == x;
        assert(b.contains(x) && b[i + 1] == x);
        assert(str_less(b[0], b[i + 1]));
        lemma_str_less_irreflexive(x);
        let j = choose|j: int| 0 <= j < a.len() && a[j] == x;
        assert(j != 0);
        assert(a2[j - 1] == x);
    }
    assert forall|i: int, j: int| 0 <= i < j < a2.len() implies str_less(#[trigger] a2[i], #[trigger] a2[j]) by {
        assert(a2[i] == a[i + 1] && a2[j] == a[j + 1]);
    }
    assert forall|i: int, j: int| 0 <= i < j < b2.len() implies str_less(#[trigger] b2[i], #[trigger] b2[j]) by {
        assert(b2[i] == b[i + 1] && b2[j] == b[j + 1]);
    }
    lemma_sorted_unique(a2, b2);
    assert(a =~= seq![a[0]] + a2);
    assert(b =~= seq![b[0]] + b2);
}

} // verus!
