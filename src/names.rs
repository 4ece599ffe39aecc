//! File names: substring matching and ascending order.
use vstd::multiset::Multiset;
use vstd::prelude::*;

verus! {

/// `a` comes before `b`, or equals it, in the order of their characters'
/// code points: the order of `str`.
pub open spec fn chars_le(a: Seq<char>, b: Seq<char>) -> bool
    decreases a.len(),
{
    if a.len() == 0 {
        true
    } else if b.len() == 0 {
        false
    } else if a[0] != b[0] {
        (a[0] as int) < (b[0] as int)
    } else {
        chars_le(a.drop_first(), b.drop_first())
    }
}

pub proof fn lemma_chars_le_total(a: Seq<char>, b: Seq<char>)
    ensures
        chars_le(a, b) || chars_le(b, a),
    decreases a.len(),
{
    if a.len() > 0 && b.len() > 0 {
        if a[0] == b[0] {
            lemma_chars_le_total(a.drop_first(), b.drop_first());
        } else {
            assert((a[0] as int) != (b[0] as int));
        }
    }
}

pub proof fn lemma_chars_le_transitive(a: Seq<char>, b: Seq<char>, c: Seq<char>)
    requires
        chars_le(a, b),
        chars_le(b, c),
    ensures
        chars_le(a, c),
    decreases a.len(),
{
    if a.len() > 0 && b.len() > 0 && c.len() > 0 && a[0] == b[0] && b[0] == c[0] {
        lemma_chars_le_transitive(a.drop_first(), b.drop_first(), c.drop_first());
    }
}

/// `s` holds `m` somewhere.
pub open spec fn holds_chars(s: Seq<char>, m: Seq<char>) -> bool {
    exists|i: int| 0 <= i && i + m.len() <= s.len() && #[trigger] s.subrange(i, i + m.len()) == m
}

/// The names in ascending order.
pub open spec fn ascending(names: Seq<String>) -> bool {
    forall|i: int, j: int| 0 <= i < j < names.len() ==> chars_le(names[i]@, names[j]@)
}

/// Compares two names in the order of `str`.
pub fn name_le(a: &str, b: &str) -> (r: bool)
    ensures
        r == chars_le(a@, b@),
{
    let alen = a.unicode_len();
    let blen = b.unicode_len();
    let mut i: usize = 0;
    assert(a@.skip(0) =~= a@);
    assert(b@.skip(0) =~= b@);
    while i < alen
        invariant
            alen == a@.len(),
            blen == b@.len(),
            i <= alen,
            i <= blen,
            chars_le(a@, b@) == chars_le(a@.skip(i as int), b@.skip(i as int)),
        decreases alen - i,
    {
        assert(a@.skip(i as int).drop_first() == a@.skip(i + 1));
        if i == blen {
            return false;
        }
        assert(b@.skip(i as int).drop_first() == b@.skip(i + 1));
        let x = a.get_char(i);
        let y = b.get_char(i);
        if x != y {
            return (x as u32) < (y as u32);
        }
        i = i + 1;
    }
    true
}

/// Whether `s` holds `m` somewhere.
pub fn name_holds(s: &str, m: &str) -> (r: bool)
    ensures
        r == holds_chars(s@, m@),
{
    let slen = s.unicode_len();
    let mlen = m.unicode_len();
    if mlen > slen {
        return false;
    }
    let target = String::from_str(m);
    let last = slen - mlen;
    let mut i: usize = 0;
    while i <= last
        invariant
            slen == s@.len(),
            mlen == m@.len(),
            mlen <= slen,
            last == slen - mlen,
            i <= last + 1,
            target@ == m@,
            forall|j: int| 0 <= j < i ==> #[trigger] s@.subrange(j, j + mlen) != m@,
        decreases last + 1 - i,
    {
        let part = String::from_str(s.substring_char(i, i + mlen));
        if part == target {
            return true;
        }
        if i == last {
            return false;
        }
        i = i + 1;
    }
    false
}

/// The names that hold `matching`, in ascending order.
pub fn sorted_matching(names: &Vec<String>, matching: &str) -> (r: Vec<String>)
    ensures
        ascending(r@),
        r@.to_multiset() == names@.filter(|n: String| holds_chars(n@, matching@)).to_multiset(),
        forall|i: int| 0 <= i < r.len() ==> holds_chars((#[trigger] r@[i])@, matching@) && names@.contains(r@[i]),
        forall|m: int| 0 <= m < names.len() && holds_chars((#[trigger] names@[m])@, matching@) ==> r@.contains(names@[m]),
        (forall|a: int, b: int| 0 <= a < b < names.len() ==> names@[a]@ != names@[b]@) ==> (forall|a: int, b: int|
            0 <= a < b < r.len() ==> r@[a]@ != r@[b]@),
{
    broadcast use vstd::seq_lib::group_to_multiset_ensures;

    let ghost keep = |n: String| holds_chars(n@, matching@);
    let mut out: Vec<String> = Vec::new();
    proof {
        reveal(Seq::filter);
        assert(names@.take(0).filter(keep) =~= Seq::<String>::empty());
        assert(out@.to_multiset() =~= Multiset::<String>::empty());
        assert(names@.take(0).filter(keep).to_multiset() =~= Multiset::<String>::empty());
    }
    let mut i: usize = 0;
    while i < names.len()
        invariant
            i <= names.len(),
            ascending(out@),
            keep == (|n: String| holds_chars(n@, matching@)),
            out@.to_multiset() == names@.take(i as int).filter(keep).to_multiset(),
            forall|j: int| 0 <= j < out.len() ==> holds_chars((#[trigger] out@[j])@, matching@) && names@.contains(out@[j]),
            forall|j: int| 0 <= j < out.len() ==> exists|m: int| 0 <= m < i && names@[m] == #[trigger] out@[j],
            forall|m: int| 0 <= m < i && holds_chars((#[trigger] names@[m])@, matching@) ==> out@.contains(names@[m]),
            (forall|a: int, b: int| 0 <= a < b < names.len() ==> names@[a]@ != names@[b]@) ==> (forall|a: int, b: int|
                0 <= a < b < out.len() ==> out@[a]@ != out@[b]@),
        decreases names.len() - i,
    {
        let ghost taken = names@.take(i as int);
        assert(names@.take(i + 1) == taken.push(names@[i as int]));
        reveal(Seq::filter);
        assert(taken.push(names@[i as int]).drop_last() == taken);
        if name_holds(names[i].as_str(), matching) {
            let name = names[i].clone();
            let mut k: usize = 0;
            while k < out.len() && name_le(out[k].as_str(), name.as_str())
                invariant
                    k <= out.len(),
                    forall|j: int| 0 <= j < k ==> chars_le(#[trigger] out@[j]@, name@),
                decreases out.len() - k,
            {
                k = k + 1;
            }
            proof {
                if k < out.len() {
                    lemma_chars_le_total(out@[k as int]@, name@);
                    assert forall|j: int| k <= j < out.len() implies chars_le(name@, #[trigger] out@[j]@) by {
                        if j > k {
                            lemma_chars_le_transitive(name@, out@[k as int]@, out@[j]@);
                        }
                    }
                }
                vstd::seq_lib::to_multiset_insert(out@, k as int, name);
                vstd::seq_lib::to_multiset_build(taken.filter(keep), name);
            }
            let ghost before = out@;
            let ghost added = name;
            assert(names@[i as int] == added);
            out.insert(k, name);
            assert forall|j: int| 0 <= j < out.len() implies holds_chars((#[trigger] out@[j])@, matching@)
                && names@.contains(out@[j]) by {
                if j < k {
                    assert(out@[j] == before[j]);
                } else if j > k {
                    assert(out@[j] == before[j - 1]);
                } else {
                    assert(out@[j] == added);
                }
            }
            assert forall|j: int| 0 <= j < out.len() implies exists|m: int| 0 <= m < i + 1 && names@[m] == #[trigger] out@[j] by {
                if j < k {
                    assert(out@[j] == before[j]);
                } else if j > k {
                    assert(out@[j] == before[j - 1]);
                } else {
                    assert(names@[i as int] == out@[j]);
                }
            }
            assert forall|m: int| 0 <= m < i + 1 && holds_chars((#[trigger] names@[m])@, matching@) implies out@.contains(names@[m]) by {
                if m < i {
                    let j = choose|j: int| 0 <= j < before.len() && before[j] == names@[m];
                    if j < k {
                        assert(out@[j] == before[j]);
                    } else {
                        assert(out@[j + 1] == before[j]);
                    }
                } else {
                    assert(out@[k as int] == names@[m]);
                }
            }
            proof {
                if forall|a: int, b: int| 0 <= a < b < names.len() ==> names@[a]@ != names@[b]@ {
                    assert forall|a: int, b: int| 0 <= a < b < out.len() implies out@[a]@ != out@[b]@ by {
                        let ma = choose|m: int| 0 <= m < i + 1 && names@[m] == out@[a];
                        let mb = choose|m: int| 0 <= m < i + 1 && names@[m] == out@[b];
                        if a < k && b < k {
                            assert(out@[a] == before[a] && out@[b] == before[b]);
                        } else if a > k && b > k {
                            assert(out@[a] == before[a - 1] && out@[b] == before[b - 1]);
                        } else if a < k && b > k {
                            assert(out@[a] == before[a] && out@[b] == before[b - 1]);
                        }
                        assert(ma != mb);
                    }
                }
            }
            assert(ascending(out@)) by {
                assert forall|a: int, b: int| 0 <= a < b < out@.len() implies chars_le(
                    out@[a]@,
                    out@[b]@,
                ) by {
                    if a < k && b > k {
                        lemma_chars_le_transitive(out@[a]@, name@, out@[b]@);
                    }
                }
            }
        }
        proof {
            if !holds_chars(names@[i as int]@, matching@) {
                assert forall|m: int| 0 <= m < i + 1 && holds_chars((#[trigger] names@[m])@, matching@) implies out@.contains(names@[m]) by {
                }
            }
        }
        i = i + 1;
    }
    assert(names@.take(names.len() as int) == names@);
    out
}

} // verus!
