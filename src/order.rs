//! Byte-wise lexicographic order on strings, as Rust's `Ord` for `str` uses,
//! and the canonical sorted form of a set of strings.
use vstd::prelude::*;

verus! {

/// Strict lexicographic order on byte sequences (a proper prefix comes first).
pub open spec fn bytes_lt(a: Seq<u8>, b: Seq<u8>) -> bool
    decreases a.len(),
{
    if b.len() == 0 {
        false
    } else if a.len() == 0 {
        true
    } else if a[0] != b[0] {
        a[0] < b[0]
    } else {
        bytes_lt(a.drop_first(), b.drop_first())
    }
}

/// The bytes of a string: its UTF-8 encoding.
pub open spec fn text_bytes(s: Seq<char>) -> Seq<u8> {
    vstd::utf8::encode_utf8(s)
}

/// Strings ordered as Rust orders `str`: by their UTF-8 bytes.
pub open spec fn text_lt(a: Seq<char>, b: Seq<char>) -> bool {
    bytes_lt(text_bytes(a), text_bytes(b))
}

/// The views of a list of strings.
pub open spec fn texts(v: Seq<String>) -> Seq<Seq<char>> {
    v.map_values(|s: String| s@)
}

/// Strictly increasing in the string order (hence without repetition).
pub open spec fn strictly_sorted(s: Seq<Seq<char>>) -> bool {
    forall|i: int, j: int| 0 <= i < j < s.len() ==> text_lt(#[trigger] s[i], #[trigger] s[j])
}

/// The canonical sequence of a finite set of strings: its members in increasing order.
pub open spec fn sorted_members(m: Set<Seq<char>>) -> Seq<Seq<char>> {
    choose|s: Seq<Seq<char>>| strictly_sorted(s) && s.to_set() == m
}

pub proof fn lemma_bytes_lt_irreflexive(a: Seq<u8>)
    ensures
        !bytes_lt(a, a),
    decreases a.len(),
{
    if a.len() > 0 {
        lemma_bytes_lt_irreflexive(a.drop_first());
    }
}

pub proof fn lemma_bytes_lt_transitive(a: Seq<u8>, b: Seq<u8>, c: Seq<u8>)
    requires
        bytes_lt(a, b),
        bytes_lt(b, c),
    ensures
        bytes_lt(a, c),
    decreases a.len(),
{
    if a.len() > 0 && b.len() > 0 && c.len() > 0 && a[0] == b[0] && b[0] == c[0] {
        lemma_bytes_lt_transitive(a.drop_first(), b.drop_first(), c.drop_first());
    }
}

pub proof fn lemma_bytes_lt_total(a: Seq<u8>, b: Seq<u8>)
    requires
        a != b,
    ensures
        bytes_lt(a, b) || bytes_lt(b, a),
    decreases a.len(),
{
    if a.len() > 0 && b.len() > 0 && a[0] == b[0] {
        if a.drop_first() == b.drop_first() {
            assert(a =~= seq![a[0]] + a.drop_first());
            assert(b =~= seq![b[0]] + b.drop_first());
        }
        lemma_bytes_lt_total(a.drop_first(), b.drop_first());
    } else if a.len() == 0 && b.len() == 0 {
        assert(a =~= b);
    }
}

pub proof fn lemma_bytes_lt_asymmetric(a: Seq<u8>, b: Seq<u8>)
    requires
        bytes_lt(a, b),
    ensures
        !bytes_lt(b, a),
{
    if bytes_lt(b, a) {
        lemma_bytes_lt_transitive(a, b, a);
        lemma_bytes_lt_irreflexive(a);
    }
}

pub proof fn lemma_text_bytes_injective(a: Seq<char>, b: Seq<char>)
    requires
        a != b,
    ensures
        text_bytes(a) != text_bytes(b),
{
    vstd::utf8::encode_utf8_decode_utf8(a);
    vstd::utf8::encode_utf8_decode_utf8(b);
}

pub proof fn lemma_text_lt_total(a: Seq<char>, b: Seq<char>)
    requires
        a != b,
    ensures
        text_lt(a, b) || text_lt(b, a),
{
    lemma_text_bytes_injective(a, b);
    lemma_bytes_lt_total(text_bytes(a), text_bytes(b));
}

/// Two strictly sorted sequences with the same members are the same sequence.
pub proof fn lemma_sorted_unique(a: Seq<Seq<char>>, b: Seq<Seq<char>>)
    requires
        strictly_sorted(a),
        strictly_sorted(b),
        a.to_set() == b.to_set(),
    ensures
        a == b,
    decreases a.len(),
{
    if a.len() == 0 {
        if b.len() > 0 {
            assert(b.to_set().contains(b[0]));
            assert(a.to_set().contains(b[0]));
        }
        assert(a =~= b);
    } else if b.len() == 0 {
        assert(a.to_set().contains(a[0]));
        assert(b.to_set().contains(a[0]));
    } else {
        assert(a.to_set().contains(a[0]));
        assert(b.to_set().contains(b[0]));
        let i = choose|i: int| 0 <= i < b.len() && b[i] == a[0];
        let j = choose|j: int| 0 <= j < a.len() && a[j] == b[0];
        if a[0] != b[0] {
            assert(i > 0 && j > 0);
            assert(text_lt(b[0], b[i]));
            assert(text_lt(a[0], a[j]));
            lemma_bytes_lt_asymmetric(text_bytes(a[0]), text_bytes(b[0]));
        }
        let at = a.drop_first();
        let bt = b.drop_first();
        assert forall|x: Seq<char>| at.to_set().contains(x) implies bt.to_set().contains(x) by {
            let k = choose|k: int| 0 <= k < at.len() && at[k] == x;
            assert(a[k + 1] == x);
            assert(text_lt(a[0], x));
            lemma_bytes_lt_irreflexive(text_bytes(x));
            assert(b.to_set().contains(x));
            let l = choose|l: int| 0 <= l < b.len() && b[l] == x;
            assert(l != 0);
            assert(bt[l - 1] == x);
        }
        assert forall|x: Seq<char>| bt.to_set().contains(x) implies at.to_set().contains(x) by {
            let k = choose|k: int| 0 <= k < bt.len() && bt[k] == x;
            assert(b[k + 1] == x);
            assert(text_lt(b[0], x));
            lemma_bytes_lt_irreflexive(text_bytes(x));
            assert(a.to_set().contains(x));
            let l = choose|l: int| 0 <= l < a.len() && a[l] == x;
            assert(l != 0);
            assert(at[l - 1] == x);
        }
        assert(at.to_set() =~= bt.to_set());
        lemma_sorted_unique(at, bt);
        assert(a =~= seq![a[0]] + at);
        assert(b =~= seq![b[0]] + bt);
    }
}

/// A strictly sorted sequence is the canonical sequence of its members.
pub proof fn lemma_sorted_is_canonical(s: Seq<Seq<char>>)
    requires
        strictly_sorted(s),
    ensures
        sorted_members(s.to_set()) == s,
{
    let c = sorted_members(s.to_set());
    lemma_sorted_unique(c, s);
}

/// Inserting a string at its place keeps a sequence strictly sorted.
pub proof fn lemma_insert_sorted(s: Seq<Seq<char>>, p: int, x: Seq<char>)
    requires
        strictly_sorted(s),
        0 <= p <= s.len(),
        forall|k: int| 0 <= k < p ==> text_lt(#[trigger] s[k], x),
        forall|k: int| p <= k < s.len() ==> text_lt(x, #[trigger] s[k]),
    ensures
        strictly_sorted(s.insert(p, x)),
{
    let t = s.insert(p, x);
    assert forall|a: int, b: int| 0 <= a < b < t.len() implies text_lt(#[trigger] t[a], #[trigger] t[b]) by {
        if a < p && b > p {
            assert(text_lt(x, s[b - 1]));
            lemma_bytes_lt_transitive(text_bytes(s[a]), text_bytes(x), text_bytes(s[b - 1]));
        } else if a == p {
            assert(text_lt(x, s[b - 1]));
        } else if b == p {
            assert(text_lt(s[a], x));
        } else if a > p {
            assert(text_lt(s[a - 1], s[b - 1]));
        } else {
            assert(text_lt(s[a], s[b]));
        }
    }
}

/// Removing an element keeps a sequence strictly sorted.
pub proof fn lemma_remove_sorted(s: Seq<Seq<char>>, p: int)
    requires
        strictly_sorted(s),
        0 <= p < s.len(),
    ensures
        strictly_sorted(s.remove(p)),
{
    let t = s.remove(p);
    assert forall|a: int, b: int| 0 <= a < b < t.len() implies text_lt(#[trigger] t[a], #[trigger] t[b]) by {
        let a2 = if a < p { a } else { a + 1 };
        let b2 = if b < p { b } else { b + 1 };
        assert(t[a] == s[a2] && t[b] == s[b2]);
    }
}

proof fn lemma_push_to_set<T>(s: Seq<T>, x: T)
    ensures
        s.push(x).to_set() == s.to_set().insert(x),
{
    assert forall|y: T| s.push(x).to_set().contains(y) implies s.to_set().insert(x).contains(y) by {
        let k = choose|k: int| 0 <= k < s.push(x).len() && s.push(x)[k] == y;
        if k < s.len() {
            assert(s[k] == y);
        }
    }
    assert forall|y: T| s.to_set().insert(x).contains(y) implies s.push(x).to_set().contains(y) by {
        if y == x {
            assert(s.push(x)[s.len() as int] == y);
        } else {
            let k = choose|k: int| 0 <= k < s.len() && s[k] == y;
            assert(s.push(x)[k] == y);
        }
    }
    assert(s.push(x).to_set() =~= s.to_set().insert(x));
}

/// Compares two byte slices in the lexicographic order.
pub fn bytes_less(a: &[u8], b: &[u8]) -> (r: bool)
    ensures
        r == bytes_lt(a@, b@),
{
    let mut i: usize = 0;
    assert(a@.skip(0) =~= a@);
    assert(b@.skip(0) =~= b@);
    while i < a.len() && i < b.len()
        invariant
            i <= a@.len(),
            i <= b@.len(),
            bytes_lt(a@, b@) == bytes_lt(a@.skip(i as int), b@.skip(i as int)),
        decreases a.len() - i,
    {
        if a[i] != b[i] {
            return a[i] < b[i];
        }
        assert(a@.skip(i as int).drop_first() =~= a@.skip(i + 1));
        assert(b@.skip(i as int).drop_first() =~= b@.skip(i + 1));
        i = i + 1;
    }
    i < b.len()
}

/// Whether two strings are equal.
pub fn same_text(a: &str, b: &str) -> (r: bool)
    ensures
        r == (a@ == b@),
{
    let lt = bytes_less(a.as_bytes(), b.as_bytes());
    let gt = bytes_less(b.as_bytes(), a.as_bytes());
    proof {
        if a@ == b@ {
            lemma_bytes_lt_irreflexive(text_bytes(a@));
        } else {
            lemma_text_lt_total(a@, b@);
        }
    }
    !lt && !gt
}

/// Compares two strings in the order Rust gives `str`.
pub fn text_less(a: &String, b: &String) -> (r: bool)
    ensures
        r == text_lt(a@, b@),
{
    bytes_less(a.as_str().as_bytes(), b.as_str().as_bytes())
}

/// The members of `items`, each once, in increasing order.
pub fn sorted_distinct(items: &Vec<String>) -> (r: Vec<String>)
    ensures
        strictly_sorted(texts(r@)),
        texts(r@).to_set() == texts(items@).to_set(),
{
    let mut out: Vec<String> = Vec::new();
    let mut i: usize = 0;
    while i < items.len()
        invariant
            i <= items@.len(),
            strictly_sorted(texts(out@)),
            texts(out@).to_set() == texts(items@.subrange(0, i as int)).to_set(),
        decreases items.len() - i,
    {
        let x = &items[i];
        let ghost ov = texts(out@);
        let mut p: usize = 0;
        while p < out.len() && text_less(&out[p], x)
            invariant
                p <= out@.len(),
                ov == texts(out@),
                forall|k: int| 0 <= k < p ==> text_lt(#[trigger] ov[k], x@),
            decreases out.len() - p,
        {
            p = p + 1;
        }
        let dup = p < out.len() && out[p] == *x;
        proof {
            assert(texts(items@.subrange(0, i + 1)) =~= texts(items@.subrange(0, i as int)).push(x@));
        }
        if !dup {
            let ghost old_out = out@;
            out.insert(p, x.clone());
            proof {
                let nv = texts(out@);
                assert(nv =~= ov.insert(p as int, x@));
                if p < ov.len() {
                    lemma_text_lt_total(ov[p as int], x@);
                }
                assert forall|k: int| p <= k < ov.len() implies text_lt(x@, #[trigger] ov[k]) by {
                    if k > p {
                        assert(text_lt(ov[p as int], ov[k]));
                        lemma_bytes_lt_transitive(
                            text_bytes(x@),
                            text_bytes(ov[p as int]),
                            text_bytes(ov[k]),
                        );
                    }
                }
                assert forall|a: int, b: int| 0 <= a < b < nv.len() implies text_lt(
                    #[trigger] nv[a],
                    #[trigger] nv[b],
                ) by {
                    if a < p && b > p {
                        assert(text_lt(x@, ov[b - 1]));
                        lemma_bytes_lt_transitive(
                            text_bytes(ov[a]),
                            text_bytes(x@),
                            text_bytes(ov[b - 1]),
                        );
                    } else if a == p && b > p {
                        assert(text_lt(x@, ov[b - 1]));
                    }
                }
                assert(nv.to_set() =~= ov.to_set().insert(x@)) by {
                    assert forall|y: Seq<char>| nv.to_set().contains(y) implies ov.to_set().insert(
                        x@,
                    ).contains(y) by {
                        let k = choose|k: int| 0 <= k < nv.len() && nv[k] == y;
                        if k < p {
                            assert(ov[k] == y);
                        } else if k > p {
                            assert(ov[k - 1] == y);
                        }
                    }
                    assert forall|y: Seq<char>| ov.to_set().insert(x@).contains(y) implies nv.to_set().contains(
                        y,
                    ) by {
                        if y == x@ {
                            assert(nv[p as int] == y);
                        } else {
                            let k = choose|k: int| 0 <= k < ov.len() && ov[k] == y;
                            if k < p {
                                assert(nv[k] == y);
                            } else {
                                assert(nv[k + 1] == y);
                            }
                        }
                    }
                }
                lemma_push_to_set(texts(items@.subrange(0, i as int)), x@);
            }
        } else {
            proof {
                assert(ov[p as int] == x@);
                assert(ov.to_set().contains(x@));
                lemma_push_to_set(texts(items@.subrange(0, i as int)), x@);
                assert(ov.to_set().insert(x@) =~= ov.to_set());
            }
        }
        i = i + 1;
    }
    proof {
        assert(items@.subrange(0, items@.len() as int) =~= items@);
    }
    out
}

} // verus!
