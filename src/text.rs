//! Text helpers shared across the library: copying optional strings,
//! comparing and ordering texts, and counting them.
use vstd::prelude::*;

verus! {

/// The text of an optional string, as an optional sequence of characters.
pub open spec fn opt_view(o: Option<String>) -> Option<Seq<char>> {
    match o {
        Some(s) => Some(s@),
        None => None,
    }
}

/// Copies an optional string, keeping its text.
pub fn clone_opt(o: &Option<String>) -> (r: Option<String>)
    ensures
        opt_view(r) == opt_view(*o),
{
    match o {
        Some(s) => Some(s.clone()),
        None => None,
    }
}

/// Lexicographic order on character sequences, by code point: the order in
/// which ISO-8601 date strings compare, and the order of UTF-8 bytes.
pub open spec fn text_lt(a: Seq<char>, b: Seq<char>) -> bool
    decreases a.len(),
{
    if b.len() == 0 {
        false
    } else if a.len() == 0 {
        true
    } else if a[0] < b[0] {
        true
    } else if a[0] > b[0] {
        false
    } else {
        text_lt(a.drop_first(), b.drop_first())
    }
}

/// `a <= b` in the order of [`text_lt`].
pub open spec fn text_le(a: Seq<char>, b: Seq<char>) -> bool {
    text_lt(a, b) || a == b
}

proof fn lemma_text_lt_suffix(a: Seq<char>, b: Seq<char>, i: int)
    requires
        0 <= i <= a.len(),
        i <= b.len(),
        a.subrange(0, i) == b.subrange(0, i),
    ensures
        text_lt(a, b) == text_lt(a.subrange(i, a.len() as int), b.subrange(i, b.len() as int)),
    decreases i,
{
    if i > 0 {
        assert(a[0] == a.subrange(0, i)[0]);
        assert(b[0] == b.subrange(0, i)[0]);
        let a1 = a.drop_first();
        let b1 = b.drop_first();
        assert(a1.subrange(0, i - 1) =~= a.subrange(0, i).drop_first());
        assert(b1.subrange(0, i - 1) =~= b.subrange(0, i).drop_first());
        lemma_text_lt_suffix(a1, b1, i - 1);
        assert(a1.subrange(i - 1, a1.len() as int) =~= a.subrange(i, a.len() as int));
        assert(b1.subrange(i - 1, b1.len() as int) =~= b.subrange(i, b.len() as int));
    } else {
        assert(a.subrange(0, a.len() as int) =~= a);
        assert(b.subrange(0, b.len() as int) =~= b);
    }
}

/// [`text_lt`] is transitive.
pub proof fn lemma_text_lt_transitive(a: Seq<char>, b: Seq<char>, c: Seq<char>)
    requires
        text_lt(a, b),
        text_lt(b, c),
    ensures
        text_lt(a, c),
    decreases a.len(),
{
    if a.len() > 0 && b.len() > 0 && c.len() > 0 && a[0] == b[0] && b[0] == c[0] {
        lemma_text_lt_transitive(a.drop_first(), b.drop_first(), c.drop_first());
    } else if a.len() > 0 && b.len() > 0 && c.len() > 0 {
        assert(a[0] <= b[0] && b[0] <= c[0]);
    }
}

/// [`text_lt`] is irreflexive and total on distinct sequences.
pub proof fn lemma_text_lt_total(a: Seq<char>, b: Seq<char>)
    ensures
        !text_lt(a, a),
        a != b ==> (text_lt(a, b) || text_lt(b, a)),
        !(text_lt(a, b) && text_lt(b, a)),
    decreases a.len(),
{
    if a.len() > 0 {
        lemma_text_lt_total(a.drop_first(), a.drop_first());
        if b.len() > 0 {
            lemma_text_lt_total(a.drop_first(), b.drop_first());
            if a[0] == b[0] && a.drop_first() == b.drop_first() {
                assert(a =~= seq![a[0]] + a.drop_first());
                assert(b =~= seq![b[0]] + b.drop_first());
            }
        }
    } else if b.len() == 0 {
        assert(a =~= b);
    }
}

/// Compares two strings in the order of [`text_lt`].
pub fn str_lt(a: &str, b: &str) -> (r: bool)
    ensures
        r == text_lt(a@, b@),
{
    let la = a.unicode_len();
    let lb = b.unicode_len();
    let mut i: usize = 0;
    while i < la && i < lb
        invariant
            la == a@.len(),
            lb == b@.len(),
            0 <= i <= la,
            i <= lb,
            a@.subrange(0, i as int) == b@.subrange(0, i as int),
        decreases la - i,
    {
        let ca = a.get_char(i);
        let cb = b.get_char(i);
        if ca != cb {
            proof {
                lemma_text_lt_suffix(a@, b@, i as int);
                let sa = a@.subrange(i as int, la as int);
                let sb = b@.subrange(i as int, lb as int);
                assert(sa[0] == ca);
                assert(sb[0] == cb);
            }
            return ca < cb;
        }
        proof {
            assert(ca == cb);
            assert(a@.subrange(0, i + 1) =~= a@.subrange(0, i as int).push(ca));
            assert(b@.subrange(0, i + 1) =~= b@.subrange(0, i as int).push(cb));
        }
        i = i + 1;
    }
    proof {
        lemma_text_lt_suffix(a@, b@, i as int);
        let sa = a@.subrange(i as int, la as int);
        let sb = b@.subrange(i as int, lb as int);
        assert(sa.len() == 0 || sb.len() == 0);
    }
    i < lb
}

/// `s` holds the place `i`.
pub open spec fn holds_index(s: Seq<usize>, i: int) -> bool {
    exists|k: int| 0 <= k < s.len() && s[k] == i
}

/// Entry `i` with key `x` comes before entry `j` with key `y`: by key, then
/// by place.
pub open spec fn keyed_before(x: Seq<char>, i: int, y: Seq<char>, j: int) -> bool {
    text_lt(x, y) || (x == y && i < j)
}

/// The places `0..keys.len()`, each once, ordered by key and then by place.
pub fn order_by_text(keys: &Vec<String>) -> (r: Vec<usize>)
    ensures
        r@.len() == keys@.len(),
        forall|k: int| 0 <= k < r@.len() ==> (#[trigger] r@[k]) < keys@.len(),
        forall|i: int| 0 <= i < keys@.len() ==> #[trigger] holds_index(r@, i),
        forall|a: int, b: int|
            0 <= a < b < r@.len() ==> keyed_before(
                keys@[(#[trigger] r@[a]) as int]@,
                r@[a] as int,
                keys@[(#[trigger] r@[b]) as int]@,
                r@[b] as int,
            ),
{
    let mut out: Vec<usize> = Vec::new();
    let mut i: usize = 0;
    while i < keys.len()
        invariant
            0 <= i <= keys@.len(),
            out@.len() == i,
            forall|k: int| 0 <= k < out@.len() ==> (#[trigger] out@[k]) < i,
            forall|m: int| 0 <= m < i ==> #[trigger] holds_index(out@, m),
            forall|a: int, b: int|
                0 <= a < b < out@.len() ==> keyed_before(
                    keys@[(#[trigger] out@[a]) as int]@,
                    out@[a] as int,
                    keys@[(#[trigger] out@[b]) as int]@,
                    out@[b] as int,
                ),
        decreases keys@.len() - i,
    {
        let ghost x = keys@[i as int]@;
        let mut j: usize = 0;
        while j < out.len() && !str_lt(keys[i].as_str(), keys[out[j]].as_str())
            invariant
                0 <= j <= out@.len(),
                i < keys@.len(),
                x == keys@[i as int]@,
                forall|k: int| 0 <= k < out@.len() ==> (#[trigger] out@[k]) < i,
                forall|k: int| 0 <= k < j ==> !text_lt(x, keys@[(#[trigger] out@[k]) as int]@),
            decreases out@.len() - j,
        {
            j = j + 1;
        }
        let ghost old_out = out@;
        proof {
            assert forall|k: int| 0 <= k < j implies keyed_before(
                keys@[(#[trigger] old_out[k]) as int]@,
                old_out[k] as int,
                x,
                i as int,
            ) by {
                lemma_text_lt_total(keys@[old_out[k] as int]@, x);
            }
            assert forall|k: int| j <= k < old_out.len() implies keyed_before(
                x,
                i as int,
                keys@[(#[trigger] old_out[k]) as int]@,
                old_out[k] as int,
            ) by {
                let y = keys@[old_out[j as int] as int]@;
                let z = keys@[old_out[k] as int]@;
                assert(text_lt(x, y));
                if k > j {
                    assert(keyed_before(y, old_out[j as int] as int, z, old_out[k] as int));
                    if text_lt(y, z) {
                        lemma_text_lt_transitive(x, y, z);
                    }
                }
            }
        }
        out.insert(j, i);
        proof {
            assert forall|a: int, b: int| 0 <= a < b < out@.len() implies keyed_before(
                keys@[(#[trigger] out@[a]) as int]@,
                out@[a] as int,
                keys@[(#[trigger] out@[b]) as int]@,
                out@[b] as int,
            ) by {
                if b < j {
                    assert(out@[a] == old_out[a] && out@[b] == old_out[b]);
                } else if b == j {
                    assert(out@[a] == old_out[a]);
                } else if a < j {
                    assert(out@[a] == old_out[a] && out@[b] == old_out[b - 1]);
                    let p = keys@[out@[a] as int]@;
                    let q = keys@[out@[b] as int]@;
                    if text_lt(p, x) && text_lt(x, q) {
                        lemma_text_lt_transitive(p, x, q);
                    }
                } else if a == j {
                    assert(out@[b] == old_out[b - 1]);
                } else {
                    assert(out@[a] == old_out[a - 1] && out@[b] == old_out[b - 1]);
                }
            }
            assert forall|m: int| 0 <= m < i + 1 implies #[trigger] holds_index(out@, m) by {
                if m == i {
                    assert(out@[j as int] == m);
                } else {
                    assert(holds_index(old_out, m));
                    let k = choose|k: int| 0 <= k < old_out.len() && old_out[k] == m;
                    if k < j {
                        assert(out@[k] == m);
                    } else {
                        assert(out@[k + 1] == m);
                    }
                }
            }
            assert forall|k: int| 0 <= k < out@.len() implies (#[trigger] out@[k]) < i + 1 by {
                if k < j {
                    assert(out@[k] == old_out[k]);
                } else if k > j {
                    assert(out@[k] == old_out[k - 1]);
                }
            }
        }
        i = i + 1;
    }
    out
}

/// Number of entries of `keys` whose text is `k`.
pub open spec fn occurrences(keys: Seq<Seq<char>>, k: Seq<char>) -> int
    decreases keys.len(),
{
    if keys.len() == 0 {
        0
    } else {
        occurrences(keys.drop_last(), k) + if keys.last() == k {
            1int
        } else {
            0int
        }
    }
}

/// The texts of a list of strings.
pub open spec fn texts(v: Seq<String>) -> Seq<Seq<char>> {
    v.map_values(|s: String| s@)
}

/// `t` counts `keys`: its texts are distinct, hold every key and every
/// seed, start with the seeds in order, and each comes with the number of
/// its occurrences among the keys.
pub open spec fn tally_of(t: Seq<(String, i64)>, seeds: Seq<Seq<char>>, keys: Seq<Seq<char>>) -> bool {
    &&& seeds.len() <= t.len()
    &&& forall|i: int| 0 <= i < seeds.len() ==> (#[trigger] t[i]).0@ == seeds[i]
    &&& forall|a: int, b: int| 0 <= a < b < t.len() ==> (#[trigger] t[a]).0@ != (#[trigger] t[b]).0@
    &&& forall|i: int| 0 <= i < t.len() ==> (#[trigger] t[i]).1 == occurrences(keys, t[i].0@)
    &&& forall|j: int| 0 <= j < keys.len() ==> has_text(t, #[trigger] keys[j])
}

/// Some entry of `t` has the text `k`.
pub open spec fn has_text(t: Seq<(String, i64)>, k: Seq<char>) -> bool {
    exists|i: int| 0 <= i < t.len() && t[i].0@ == k
}

proof fn lemma_occurrences_positive(keys: Seq<Seq<char>>, k: Seq<char>)
    requires
        occurrences(keys, k) > 0,
    ensures
        exists|j: int| 0 <= j < keys.len() && keys[j] == k,
    decreases keys.len(),
{
    if keys.last() != k {
        lemma_occurrences_positive(keys.drop_last(), k);
        let j = choose|j: int| 0 <= j < keys.drop_last().len() && keys.drop_last()[j] == k;
        assert(keys[j] == k);
    } else {
        assert(keys[keys.len() - 1] == k);
    }
}

proof fn lemma_occurrences_bounded(keys: Seq<Seq<char>>, k: Seq<char>)
    ensures
        0 <= occurrences(keys, k) <= keys.len(),
    decreases keys.len(),
{
    if keys.len() > 0 {
        lemma_occurrences_bounded(keys.drop_last(), k);
    }
}

/// Counts each distinct text of `keys`, listing the `seeds` (distinct)
/// first, then the other texts in the order they first occur.
pub fn tally(seeds: &Vec<String>, keys: &Vec<String>) -> (r: Vec<(String, i64)>)
    requires
        forall|a: int, b: int| 0 <= a < b < seeds@.len() ==> (#[trigger] seeds@[a])@ != (#[trigger] seeds@[b])@,
        keys@.len() < 0x7fff_ffff_ffff_ffff,
    ensures
        tally_of(r@, texts(seeds@), texts(keys@)),
{
    let ghost ks = texts(keys@);
    let mut out: Vec<(String, i64)> = Vec::new();
    let mut i: usize = 0;
    while i < seeds.len()
        invariant
            0 <= i <= seeds@.len(),
            out@.len() == i,
            forall|a: int, b: int| 0 <= a < b < seeds@.len() ==> (#[trigger] seeds@[a])@ != (#[trigger] seeds@[b])@,
            forall|a: int| 0 <= a < i ==> (#[trigger] out@[a]).0@ == seeds@[a]@ && out@[a].1 == 0,
        decreases seeds@.len() - i,
    {
        out.push((seeds[i].clone(), 0));
        i = i + 1;
    }
    let ghost n_seeds = seeds@.len();
    let mut j: usize = 0;
    assert(ks.subrange(0, 0) =~= Seq::<Seq<char>>::empty());
    while j < keys.len()
        invariant
            ks == texts(keys@),
            keys@.len() < 0x7fff_ffff_ffff_ffff,
            n_seeds == seeds@.len(),
            0 <= j <= keys@.len(),
            n_seeds <= out@.len(),
            forall|a: int| 0 <= a < n_seeds ==> (#[trigger] out@[a]).0@ == seeds@[a]@,
            forall|a: int, b: int| 0 <= a < b < out@.len() ==> (#[trigger] out@[a]).0@ != (#[trigger] out@[b]).0@,
            forall|a: int| 0 <= a < out@.len() ==> (#[trigger] out@[a]).1 == occurrences(ks.subrange(0, j as int), out@[a].0@),
            forall|b: int| 0 <= b < j ==> has_text(out@, #[trigger] ks[b]),
        decreases keys@.len() - j,
    {
        let ghost pre = ks.subrange(0, j as int + 1);
        assert(pre.drop_last() =~= ks.subrange(0, j as int));
        assert(pre.last() == keys@[j as int]@);
        let key = &keys[j];
        let mut a: usize = 0;
        while a < out.len() && !str_eq(out[a].0.as_str(), key.as_str())
            invariant
                0 <= a <= out@.len(),
                forall|c: int| 0 <= c < a ==> (#[trigger] out@[c]).0@ != key@,
            decreases out@.len() - a,
        {
            a = a + 1;
        }
        let ghost before = out@;
        proof {
            lemma_occurrences_bounded(ks.subrange(0, j as int), key@);
        }
        if a < out.len() {
            let (name, count) = out.remove(a);
            out.insert(a, (name, count + 1));
            proof {
                assert forall|c: int| 0 <= c < out@.len() implies (#[trigger] out@[c]).0@ == before[c].0@ by {}
            }
        } else {
            out.push((key.clone(), 1));
        }
        proof {
            let prev = ks.subrange(0, j as int);
            assert(pre =~= prev.push(key@));
            if a == before.len() {
                if occurrences(prev, key@) > 0 {
                    lemma_occurrences_positive(prev, key@);
                    let b = choose|b: int| 0 <= b < prev.len() && prev[b] == key@;
                    assert(ks[b] == key@);
                    assert(has_text(before, ks[b]));
                    let c = choose|c: int| 0 <= c < before.len() && before[c].0@ == ks[b];
                }
            }
            assert forall|c: int| 0 <= c < out@.len() implies (#[trigger] out@[c]).1 == occurrences(pre, out@[c].0@) by {
                assert(occurrences(pre, out@[c].0@) == occurrences(prev, out@[c].0@) + if key@ == out@[c].0@ {
                    1int
                } else {
                    0int
                });
                if c < before.len() && c != a {
                    assert(out@[c] == before[c]);
                }
            }
            assert forall|b: int| 0 <= b < j + 1 implies has_text(out@, #[trigger] ks[b]) by {
                if b == j {
                    assert(out@[a as int].0@ == ks[b]);
                } else {
                    assert(has_text(before, ks[b]));
                    let c = choose|c: int| 0 <= c < before.len() && before[c].0@ == ks[b];
                    assert(out@[c].0@ == before[c].0@);
                }
            }
        }
        j = j + 1;
    }
    assert(ks.subrange(0, j as int) =~= ks);
    out
}

/// Compares two strings in the order of [`text_le`].
pub fn str_le(a: &str, b: &str) -> (r: bool)
    ensures
        r == text_le(a@, b@),
{
    if str_lt(a, b) {
        true
    } else {
        str_eq(a, b)
    }
}

/// Whether two strings hold the same text.
pub fn str_eq(a: &str, b: &str) -> (r: bool)
    ensures
        r == (a@ == b@),
{
    let la = a.unicode_len();
    let lb = b.unicode_len();
    if la != lb {
        return false;
    }
    let mut i: usize = 0;
    while i < la
        invariant
            la == a@.len(),
            lb == b@.len(),
            la == lb,
            0 <= i <= la,
            a@.subrange(0, i as int) == b@.subrange(0, i as int),
        decreases la - i,
    {
        let ca = a.get_char(i);
        let cb = b.get_char(i);
        if ca != cb {
            assert(a@[i as int] != b@[i as int]);
            return false;
        }
        assert(a@.subrange(0, i + 1) =~= a@.subrange(0, i as int).push(ca));
        assert(b@.subrange(0, i + 1) =~= b@.subrange(0, i as int).push(cb));
        i = i + 1;
    }
    assert(a@.subrange(0, la as int) =~= a@);
    assert(b@.subrange(0, lb as int) =~= b@);
    true
}

} // verus!
