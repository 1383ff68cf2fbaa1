//! Facts about sequences that the other modules share.

use vstd::prelude::*;

verus! {

/// The first `n` parts, one after the other.
pub open spec fn concat<A>(parts: Seq<Seq<A>>, n: nat) -> Seq<A>
    decreases n,
{
    if n == 0 {
        Seq::empty()
    } else {
        concat(parts, (n - 1) as nat) + parts[n - 1]
    }
}

/// All parts, one after the other.
pub open spec fn concat_all<A>(parts: Seq<Seq<A>>) -> Seq<A> {
    concat(parts, parts.len())
}

/// An element is in `s.push(v)` exactly if it is `v` or in `s`.
pub proof fn lemma_push_contains<A>(s: Seq<A>, v: A, x: A)
    ensures
        s.push(v).contains(x) <==> (x == v || s.contains(x)),
{
    if s.contains(x) {
        let j = choose|j: int| 0 <= j < s.len() && s[j] == x;
        assert(s.push(v)[j] == x);
    }
    if x == v {
        assert(s.push(v)[s.len() as int] == x);
    }
    if s.push(v).contains(x) {
        let j = choose|j: int| 0 <= j < s.push(v).len() && s.push(v)[j] == x;
        if j < s.len() {
            assert(s[j] == x);
        }
    }
}

/// An element is in `a + b` exactly if it is in `a` or in `b`.
pub proof fn lemma_add_contains<A>(a: Seq<A>, b: Seq<A>, x: A)
    ensures
        (a + b).contains(x) <==> (a.contains(x) || b.contains(x)),
{
    if a.contains(x) {
        let j = choose|j: int| 0 <= j < a.len() && a[j] == x;
        assert((a + b)[j] == x);
    }
    if b.contains(x) {
        let j = choose|j: int| 0 <= j < b.len() && b[j] == x;
        assert((a + b)[a.len() + j] == x);
    }
    if (a + b).contains(x) {
        let j = choose|j: int| 0 <= j < (a + b).len() && (a + b)[j] == x;
        if j < a.len() {
            assert(a[j] == x);
        } else {
            assert(b[j - a.len()] == x);
        }
    }
}

/// Two sequences without repetition and without a common element join into
/// one without repetition.
pub proof fn lemma_add_distinct<A>(a: Seq<A>, b: Seq<A>)
    requires
        a.no_duplicates(),
        b.no_duplicates(),
        forall|x: A| !(a.contains(x) && b.contains(x)),
    ensures
        (a + b).no_duplicates(),
{
    assert forall|i: int, j: int| 0 <= i < (a + b).len() && 0 <= j < (a + b).len() && i != j implies (
    a + b)[i] != (a + b)[j] by {
        if i < a.len() && j >= a.len() {
            assert(a.contains(a[i]));
            assert(b.contains(b[j - a.len()]));
        }
        if j < a.len() && i >= a.len() {
            assert(a.contains(a[j]));
            assert(b.contains(b[i - a.len()]));
        }
    }
}

/// What is left when one element is taken out of a sequence without
/// repetition: everything else, still without repetition.
pub proof fn lemma_remove_distinct<A>(s: Seq<A>, k: int)
    requires
        s.no_duplicates(),
        0 <= k < s.len(),
    ensures
        s.remove(k).no_duplicates(),
        forall|x: A| s.remove(k).contains(x) <==> (s.contains(x) && x != s[k]),
{
    let r = s.remove(k);
    assert forall|i: int| 0 <= i < r.len() implies #[trigger] r[i] == s[if i < k {
        i
    } else {
        i + 1
    }] by {}
    assert forall|x: A| r.contains(x) <==> (s.contains(x) && x != s[k]) by {
        if r.contains(x) {
            let i = choose|i: int| 0 <= i < r.len() && r[i] == x;
            let j = if i < k {
                i
            } else {
                i + 1
            };
            assert(r[i] == s[j]);
        }
        if s.contains(x) && x != s[k] {
            let j = choose|j: int| 0 <= j < s.len() && s[j] == x;
            let i = if j < k {
                j
            } else {
                j - 1
            };
            assert(r[i] == s[if i < k {
                i
            } else {
                i + 1
            }]);
        }
    }
}

/// An element is in the concatenation of the first `n` parts exactly if it
/// is in one of them.
pub proof fn lemma_concat_members<A>(parts: Seq<Seq<A>>, n: nat)
    requires
        n <= parts.len(),
    ensures
        forall|x: A|
            #![trigger concat(parts, n).contains(x)]
            concat(parts, n).contains(x) <==> exists|i: int|
                0 <= i < n && #[trigger] parts[i].contains(x),
    decreases n,
{
    if n > 0 {
        lemma_concat_members(parts, (n - 1) as nat);
        let rest = concat(parts, (n - 1) as nat);
        assert forall|x: A| #![trigger concat(parts, n).contains(x)]
            concat(parts, n).contains(x) <==> exists|i: int|
                0 <= i < n && #[trigger] parts[i].contains(x) by {
            lemma_add_contains(rest, parts[n - 1], x);
            if rest.contains(x) {
                let i = choose|i: int| 0 <= i < n - 1 && #[trigger] parts[i].contains(x);
                assert(parts[i].contains(x));
            }
            if exists|i: int| 0 <= i < n && #[trigger] parts[i].contains(x) {
                let i = choose|i: int| 0 <= i < n && #[trigger] parts[i].contains(x);
                if i < n - 1 {
                    assert(parts[i].contains(x));
                    assert(rest.contains(x));
                }
            }
        }
    } else {
        assert(concat(parts, n).len() == 0);
    }
}

/// Parts without repetition, no two of which share an element, concatenate
/// into a sequence without repetition.
pub proof fn lemma_concat_distinct<A>(parts: Seq<Seq<A>>, n: nat)
    requires
        n <= parts.len(),
        forall|i: int| 0 <= i < parts.len() ==> (#[trigger] parts[i]).no_duplicates(),
        forall|i: int, j: int, x: A|
            0 <= i < j < parts.len() ==> !(#[trigger] parts[i].contains(x)
                && #[trigger] parts[j].contains(x)),
    ensures
        concat(parts, n).no_duplicates(),
    decreases n,
{
    if n > 0 {
        lemma_concat_distinct(parts, (n - 1) as nat);
        lemma_concat_members(parts, (n - 1) as nat);
        let rest = concat(parts, (n - 1) as nat);
        assert forall|x: A| !(rest.contains(x) && parts[n - 1].contains(x)) by {
            if rest.contains(x) && parts[n - 1].contains(x) {
                let i = choose|i: int| 0 <= i < n - 1 && #[trigger] parts[i].contains(x);
                assert(parts[i].contains(x) && parts[n - 1].contains(x));
            }
        }
        lemma_add_distinct(rest, parts[n - 1]);
    }
}

/// Concatenating the parts of `a + b` gives the concatenation of `a`
/// followed by that of `b`.
pub proof fn lemma_concat_append<A>(a: Seq<Seq<A>>, b: Seq<Seq<A>>, n: nat)
    requires
        n <= b.len(),
    ensures
        concat(a + b, a.len() + n) == concat_all(a) + concat(b, n),
    decreases n,
{
    if n == 0 {
        lemma_concat_prefix(a + b, a, a.len());
        assert(concat_all(a) + concat(b, 0) =~= concat_all(a));
    } else {
        lemma_concat_append(a, b, (n - 1) as nat);
        assert((a + b)[a.len() + n - 1] == b[n - 1]);
        assert(concat(a + b, a.len() + n) =~= concat_all(a) + concat(b, n));
    }
}

/// The concatenation of the first `n` parts depends on those parts only.
pub proof fn lemma_concat_prefix<A>(p: Seq<Seq<A>>, q: Seq<Seq<A>>, n: nat)
    requires
        n <= p.len(),
        n <= q.len(),
        forall|i: int| 0 <= i < n ==> p[i] == q[i],
    ensures
        concat(p, n) == concat(q, n),
    decreases n,
{
    if n > 0 {
        lemma_concat_prefix(p, q, (n - 1) as nat);
    }
}

/// Empty parts concatenate into the empty sequence.
pub proof fn lemma_concat_empty<A>(parts: Seq<Seq<A>>, n: nat)
    requires
        n <= parts.len(),
        forall|i: int| 0 <= i < n ==> (#[trigger] parts[i]).len() == 0,
    ensures
        concat(parts, n).len() == 0,
    decreases n,
{
    if n > 0 {
        lemma_concat_empty(parts, (n - 1) as nat);
    }
}

} // verus!
