//! Ordering flow names the way `str` orders them (byte by byte), and the
//! sorted list of distinct names that an inclusive gateway forks into.
use vstd::prelude::*;
use vstd::utf8::{encode_utf8, encode_utf8_decode_utf8};

verus! {

/// `a` comes before `b` in the byte-wise (lexicographic) order of `str`.
pub open spec fn lex_lt(a: Seq<u8>, b: Seq<u8>) -> bool
    decreases a.len(),
{
    if a.len() == 0 {
        b.len() > 0
    } else if b.len() == 0 {
        false
    } else if a[0] != b[0] {
        a[0] < b[0]
    } else {
        lex_lt(a.drop_first(), b.drop_first())
    }
}

/// The bytes of a string in UTF-8.
pub open spec fn spec_key(s: String) -> Seq<u8> {
    encode_utf8(s@)
}

/// The names in strictly increasing order.
pub open spec fn spec_strictly_sorted(v: Seq<String>) -> bool {
    forall|i: int, j: int| 0 <= i < j < v.len() ==> lex_lt(spec_key(#[trigger] v[i]), spec_key(#[trigger] v[j]))
}

/// `v` holds a name equal to `s`.
pub open spec fn spec_has_name(v: Seq<String>, s: Seq<char>) -> bool {
    exists|i: int| 0 <= i < v.len() && (#[trigger] v[i])@ == s
}

/// No byte sequence comes before itself.
pub proof fn lemma_lex_lt_irreflexive(a: Seq<u8>)
    ensures
        !lex_lt(a, a),
    decreases a.len(),
{
    if a.len() > 0 {
        lemma_lex_lt_irreflexive(a.drop_first());
    }
}

/// The order is transitive.
pub proof fn lemma_lex_lt_transitive(a: Seq<u8>, b: Seq<u8>, c: Seq<u8>)
    requires
        lex_lt(a, b),
        lex_lt(b, c),
    ensures
        lex_lt(a, c),
    decreases a.len(),
{
    if a.len() > 0 && b.len() > 0 && c.len() > 0 && a[0] == b[0] && b[0] == c[0] {
        lemma_lex_lt_transitive(a.drop_first(), b.drop_first(), c.drop_first());
    }
}

/// Two byte sequences are equal, or one comes before the other.
pub proof fn lemma_lex_lt_total(a: Seq<u8>, b: Seq<u8>)
    ensures
        lex_lt(a, b) || lex_lt(b, a) || a == b,
    decreases a.len(),
{
    if a.len() > 0 && b.len() > 0 && a[0] == b[0] {
        lemma_lex_lt_total(a.drop_first(), b.drop_first());
        if a.drop_first() == b.drop_first() {
            assert(a =~= seq![a[0]] + a.drop_first());
            assert(b =~= seq![b[0]] + b.drop_first());
        }
    } else if a.len() == 0 && b.len() == 0 {
        assert(a =~= b);
    }
}

/// Strings with the same bytes are the same string.
pub proof fn lemma_key_injective(a: String, b: String)
    requires
        spec_key(a) == spec_key(b),
    ensures
        a@ == b@,
{
    encode_utf8_decode_utf8(a@);
    encode_utf8_decode_utf8(b@);
}

/// Whether `a` comes before `b`, byte by byte.
pub fn lex_less(a: &Vec<u8>, b: &Vec<u8>) -> (r: bool)
    ensures
        r == lex_lt(a@, b@),
{
    let mut i: usize = 0;
    proof {
        assert(a@.skip(0) =~= a@);
        assert(b@.skip(0) =~= b@);
    }
    while i < a.len() && i < b.len()
        invariant
            i <= a@.len(),
            i <= b@.len(),
            lex_lt(a@, b@) == lex_lt(a@.skip(i as int), b@.skip(i as int)),
        decreases a@.len() - i,
    {
        if a[i] != b[i] {
            return a[i] < b[i];
        }
        proof {
            assert(a@.skip(i as int).drop_first() =~= a@.skip(i + 1));
            assert(b@.skip(i as int).drop_first() =~= b@.skip(i + 1));
        }
        i = i + 1;
    }
    i == a.len() && i < b.len()
}

/// The names sorted in the order of `str`, each once.
pub fn sorted_distinct(values: &Vec<String>) -> (r: Vec<String>)
    ensures
        spec_strictly_sorted(r@),
        forall|k: int| 0 <= k < values@.len() ==> spec_has_name(r@, (#[trigger] values@[k])@),
        forall|i: int| 0 <= i < r@.len() ==> spec_has_name(values@, (#[trigger] r@[i])@),
{
    let mut r: Vec<String> = Vec::new();
    let mut keys: Vec<Vec<u8>> = Vec::new();
    let mut k: usize = 0;
    while k < values.len()
        invariant
            k <= values@.len(),
            keys@.len() == r@.len(),
            forall|i: int| 0 <= i < r@.len() ==> (#[trigger] keys@[i])@ == spec_key(r@[i]),
            spec_strictly_sorted(r@),
            forall|m: int| 0 <= m < k ==> spec_has_name(r@, (#[trigger] values@[m])@),
            forall|i: int| 0 <= i < r@.len() ==> spec_has_name(values@, (#[trigger] r@[i])@),
        decreases values@.len() - k,
    {
        let v = &values[k];
        let key = v.as_str().as_bytes_vec();
        let mut pos: usize = 0;
        while pos < keys.len() && lex_less(&keys[pos], &key)
            invariant
                pos <= keys@.len(),
                keys@.len() == r@.len(),
                forall|i: int| 0 <= i < pos ==> lex_lt(spec_key(#[trigger] r@[i]), key@),
                forall|i: int| 0 <= i < r@.len() ==> (#[trigger] keys@[i])@ == spec_key(r@[i]),
            decreases keys@.len() - pos,
        {
            pos = pos + 1;
        }
        let present = pos < keys.len() && !lex_less(&key, &keys[pos]);
        if present {
            proof {
                lemma_lex_lt_total(keys@[pos as int]@, key@);
                lemma_key_injective(r@[pos as int], *v);
                assert(r@[pos as int]@ == values@[k as int]@);
            }
        } else {
            let ghost old_r = r@;
            proof {
                if pos < keys@.len() {
                    lemma_lex_lt_total(keys@[pos as int]@, key@);
                }
            }
            r.insert(pos, v.clone());
            keys.insert(pos, key);
            proof {
                assert forall|i: int, j: int| 0 <= i < j < r@.len() implies
                    lex_lt(spec_key(#[trigger] r@[i]), spec_key(#[trigger] r@[j])) by {
                    if j < pos {
                        assert(r@[i] == old_r[i] && r@[j] == old_r[j]);
                    } else if j == pos {
                        assert(r@[i] == old_r[i]);
                    } else if i < pos {
                        assert(r@[i] == old_r[i] && r@[j] == old_r[j - 1]);
                        assert(lex_lt(spec_key(old_r[i]), spec_key(*v)));
                        assert(lex_lt(spec_key(*v), spec_key(old_r[pos as int]))) by {
                            lemma_lex_lt_irreflexive(spec_key(*v));
                        }
                        if j - 1 > pos {
                            assert(lex_lt(spec_key(old_r[pos as int]), spec_key(old_r[j - 1])));
                            lemma_lex_lt_transitive(spec_key(*v), spec_key(old_r[pos as int]), spec_key(old_r[j - 1]));
                        }
                        lemma_lex_lt_transitive(spec_key(old_r[i]), spec_key(*v), spec_key(old_r[j - 1]));
                    } else if i == pos {
                        assert(r@[j] == old_r[j - 1]);
                        if j - 1 > pos {
                            assert(lex_lt(spec_key(old_r[pos as int]), spec_key(old_r[j - 1])));
                            lemma_lex_lt_transitive(spec_key(*v), spec_key(old_r[pos as int]), spec_key(old_r[j - 1]));
                        }
                    } else {
                        assert(r@[i] == old_r[i - 1] && r@[j] == old_r[j - 1]);
                    }
                }
                assert forall|m: int| 0 <= m < k + 1 implies spec_has_name(r@, (#[trigger] values@[m])@) by {
                    if m < k {
                        let i = choose|i: int| 0 <= i < old_r.len() && (#[trigger] old_r[i])@ == values@[m]@;
                        if i < pos {
                            assert(r@[i] == old_r[i]);
                        } else {
                            assert(r@[i + 1] == old_r[i]);
                        }
                    } else {
                        assert(r@[pos as int]@ == values@[m]@);
                    }
                }
                assert forall|i: int| 0 <= i < r@.len() implies spec_has_name(values@, (#[trigger] r@[i])@) by {
                    if i < pos {
                        assert(r@[i] == old_r[i]);
                    } else if i == pos {
                        assert(values@[k as int]@ == r@[i]@);
                    } else {
                        assert(r@[i] == old_r[i - 1]);
                    }
                }
                assert forall|i: int| 0 <= i < r@.len() implies (#[trigger] keys@[i])@ == spec_key(r@[i]) by {
                    if i < pos {
                        assert(r@[i] == old_r[i]);
                    } else if i > pos {
                        assert(r@[i] == old_r[i - 1]);
                    }
                }
            }
        }
        k = k + 1;
    }
    r
}

/// Strictly sorted names hold each name once.
pub proof fn lemma_strictly_sorted_distinct(v: Seq<String>, i: int, j: int)
    requires
        spec_strictly_sorted(v),
        0 <= i < v.len(),
        0 <= j < v.len(),
        i != j,
    ensures
        v[i]@ != v[j]@,
{
    if i < j {
        assert(lex_lt(spec_key(v[i]), spec_key(v[j])));
        lemma_lex_lt_irreflexive(spec_key(v[i]));
    } else {
        assert(lex_lt(spec_key(v[j]), spec_key(v[i])));
        lemma_lex_lt_irreflexive(spec_key(v[j]));
    }
}

/// Two strictly sorted lists with the same names are the same list: sorting
/// and dropping duplicates gives one answer for a set of names, whatever order
/// and repetitions they came in.
pub proof fn lemma_sorted_unique(a: Seq<String>, b: Seq<String>)
    requires
        spec_strictly_sorted(a),
        spec_strictly_sorted(b),
        forall|i: int| 0 <= i < a.len() ==> spec_has_name(b, (#[trigger] a[i])@),
        forall|i: int| 0 <= i < b.len() ==> spec_has_name(a, (#[trigger] b[i])@),
    ensures
        a.len() == b.len(),
        forall|i: int| 0 <= i < a.len() ==> (#[trigger] a[i])@ == b[i]@,
    decreases a.len() + b.len(),
{
    if a.len() == 0 {
        if b.len() > 0 {
            assert(spec_has_name(a, b[0]@));
        }
    } else if b.len() == 0 {
        assert(spec_has_name(b, a[0]@));
    } else {
        assert(spec_has_name(b, a[0]@));
        let j = choose|j: int| 0 <= j < b.len() && (#[trigger] b[j])@ == a[0]@;
        assert(spec_has_name(a, b[0]@));
        let k = choose|k: int| 0 <= k < a.len() && (#[trigger] a[k])@ == b[0]@;
        if j > 0 {
            assert(lex_lt(spec_key(b[0]), spec_key(b[j])));
            if k > 0 {
                assert(lex_lt(spec_key(a[0]), spec_key(a[k])));
                lemma_lex_lt_transitive(spec_key(b[0]), spec_key(b[j]), spec_key(a[k]));
            }
            lemma_lex_lt_irreflexive(spec_key(b[0]));
        }
        assert(a[0]@ == b[0]@);
        let a1 = a.drop_first();
        let b1 = b.drop_first();
        assert forall|i: int| 0 <= i < a1.len() implies spec_has_name(b1, (#[trigger] a1[i])@) by {
            assert(a1[i] == a[i + 1]);
            assert(spec_has_name(b, a[i + 1]@));
            let m = choose|m: int| 0 <= m < b.len() && (#[trigger] b[m])@ == a[i + 1]@;
            if m == 0 {
                assert(lex_lt(spec_key(a[0]), spec_key(a[i + 1])));
                lemma_lex_lt_irreflexive(spec_key(a[0]));
            }
            assert(b1[m - 1] == b[m]);
        }
        assert forall|i: int| 0 <= i < b1.len() implies spec_has_name(a1, (#[trigger] b1[i])@) by {
            assert(b1[i] == b[i + 1]);
            assert(spec_has_name(a, b[i + 1]@));
            let m = choose|m: int| 0 <= m < a.len() && (#[trigger] a[m])@ == b[i + 1]@;
            if m == 0 {
                assert(lex_lt(spec_key(b[0]), spec_key(b[i + 1])));
                lemma_lex_lt_irreflexive(spec_key(b[0]));
            }
            assert(a1[m - 1] == a[m]);
        }
        assert forall|i: int, j2: int| 0 <= i < j2 < a1.len() implies
            lex_lt(spec_key(#[trigger] a1[i]), spec_key(#[trigger] a1[j2])) by {
            assert(a1[i] == a[i + 1] && a1[j2] == a[j2 + 1]);
        }
        assert forall|i: int, j2: int| 0 <= i < j2 < b1.len() implies
            lex_lt(spec_key(#[trigger] b1[i]), spec_key(#[trigger] b1[j2])) by {
            assert(b1[i] == b[i + 1] && b1[j2] == b[j2 + 1]);
        }
        lemma_sorted_unique(a1, b1);
        assert forall|i: int| 0 <= i < a.len() implies (#[trigger] a[i])@ == b[i]@ by {
            if i > 0 {
                assert(a[i] == a1[i - 1] && b[i] == b1[i - 1]);
            }
        }
    }
}

} // verus!
