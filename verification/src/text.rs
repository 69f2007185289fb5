use vstd::prelude::*;

verus! {

broadcast use vstd::string::group_string_axioms;

/// The characters of a string slice.
pub fn chars_of(s: &str) -> (res: Vec<char>)
    ensures
        res@ == s@,
{
    let mut res: Vec<char> = Vec::new();
    for c in it: s.chars()
        invariant
            res@ == it.seq().take(it.index() as int),
            it.seq() == s@,
    {
        res.push(c);
    }
    res
}

/// A string made of the given characters, in order: `String::from_iter`
/// appends each character it is handed.
#[verifier::external_body]
pub(crate) fn string_from_chars(v: &Vec<char>) -> (res: String)
    ensures
        res@ == v@,
{
    String::from_iter(v.iter())
}

/// `s` with every occurrence of `from` replaced by `to`, occurrences being
/// found from left to right without overlapping, as `str::replace` does for
/// a non-empty pattern. (For an empty pattern this leaves `s` as it is, which
/// is not what `str::replace` does; the functions below take non-empty
/// patterns only.)
pub open spec fn replace_all(s: Seq<char>, from: Seq<char>, to: Seq<char>) -> Seq<char>
    decreases s.len(),
{
    if from.len() == 0 || s.len() < from.len() {
        s
    } else if s.take(from.len() as int) == from {
        to + replace_all(s.skip(from.len() as int), from, to)
    } else {
        seq![s[0]] + replace_all(s.drop_first(), from, to)
    }
}

/// Whether `from` occurs in `s` at position `i`.
pub(crate) fn occurs_at(s: &Vec<char>, i: usize, from: &Vec<char>) -> (res: bool)
    requires
        i + from@.len() <= s@.len(),
    ensures
        res == (s@.subrange(i as int, i + from@.len()) == from@),
{
    let m = from.len();
    let mut k: usize = 0;
    while k < m
        invariant
            k <= m,
            m == from@.len(),
            i + m <= s.len(),
            forall|j: int| 0 <= j < k ==> s@[i + j] == from@[j],
        decreases m - k,
    {
        if s[i + k] != from[k] {
            assert(s@.subrange(i as int, i + m)[k as int] != from@[k as int]);
            return false;
        }
        k = k + 1;
    }
    assert(s@.subrange(i as int, i + m) =~= from@);
    true
}

/// Replaces every occurrence of `from` in `s` by `to`, from left to right.
pub fn replace_chars(s: &Vec<char>, from: &Vec<char>, to: &Vec<char>) -> (res: Vec<char>)
    requires
        from@.len() > 0,
    ensures
        res@ == replace_all(s@, from@, to@),
{
    let n = s.len();
    let m = from.len();
    let mut out: Vec<char> = Vec::new();
    let mut i: usize = 0;
    assert(s@.skip(0) =~= s@);
    while i < n
        invariant
            i <= n,
            n == s@.len(),
            m == from@.len(),
            m > 0,
            out@ + replace_all(s@.skip(i as int), from@, to@) == replace_all(s@, from@, to@),
        decreases n - i,
    {
        let ghost rest = s@.skip(i as int);
        if m <= n - i && occurs_at(s, i, from) {
            assert(rest.take(m as int) =~= s@.subrange(i as int, i + m));
            assert(rest.skip(m as int) =~= s@.skip(i + m));
            let ghost before = out@;
            for k in 0..to.len()
                invariant
                    out@ == before + to@.take(k as int),
            {
                out.push(to[k]);
                assert(out@ =~= before + to@.take(k + 1));
            }
            assert(to@.take(to@.len() as int) =~= to@);
            assert(out@ + replace_all(s@.skip(i + m), from@, to@) =~= before + replace_all(
                rest,
                from@,
                to@,
            ));
            i = i + m;
        } else {
            proof {
                assert(rest.drop_first() =~= s@.skip(i + 1));
                if rest.len() >= m {
                    assert(rest.take(m as int) =~= s@.subrange(i as int, i + m));
                } else {
                    assert(rest =~= seq![rest[0]] + rest.drop_first());
                }
            }
            let ghost before = out@;
            out.push(s[i]);
            assert(out@ + replace_all(s@.skip(i + 1), from@, to@) =~= before + replace_all(
                rest,
                from@,
                to@,
            ));
            i = i + 1;
        }
    }
    assert(s@.skip(n as int) =~= Seq::<char>::empty());
    assert(out@ + Seq::<char>::empty() =~= out@);
    out
}

/// Replaces every occurrence of `from` in `s` by `to`, from left to right.
pub fn replace_str(s: &str, from: &str, to: &str) -> (res: String)
    requires
        from@.len() > 0,
    ensures
        res@ == replace_all(s@, from@, to@),
{
    let r = replace_chars(&chars_of(s), &chars_of(from), &chars_of(to));
    string_from_chars(&r)
}

/// The characters of `v` from position `k` on.
pub(crate) fn chars_from(v: &Vec<char>, k: usize) -> (res: Vec<char>)
    requires
        k <= v@.len(),
    ensures
        res@ == v@.skip(k as int),
{
    let mut res: Vec<char> = Vec::new();
    let mut i = k;
    while i < v.len()
        invariant
            k <= i <= v@.len(),
            res@ == v@.subrange(k as int, i as int),
        decreases v@.len() - i,
    {
        res.push(v[i]);
        i = i + 1;
        assert(res@ =~= v@.subrange(k as int, i as int));
    }
    assert(v@.skip(k as int) =~= v@.subrange(k as int, v@.len() as int));
    res
}

/// The first `k` characters of `v`.
pub(crate) fn chars_upto(v: &Vec<char>, k: usize) -> (res: Vec<char>)
    requires
        k <= v@.len(),
    ensures
        res@ == v@.take(k as int),
{
    let mut res: Vec<char> = Vec::new();
    for i in 0..k
        invariant
            k <= v@.len(),
            res@ == v@.take(i as int),
    {
        res.push(v[i]);
        assert(res@ =~= v@.take(i + 1));
    }
    res
}

// ------------------------------------------------------------------
// Laws of replacement
// ------------------------------------------------------------------

/// `w` occurs in `s` at position `i`.
pub open spec fn occurs_in(s: Seq<char>, w: Seq<char>, i: int) -> bool {
    0 <= i && i + w.len() <= s.len() && s.subrange(i, i + w.len()) == w
}

/// `w` occurs nowhere in `s`.
pub open spec fn free_of(s: Seq<char>, w: Seq<char>) -> bool {
    forall|i: int| !occurs_in(s, w, i)
}

/// The first position at which `from` occurs in `s`.
pub open spec fn first_occurrence(s: Seq<char>, from: Seq<char>) -> Option<int>
    decreases s.len(),
{
    if from.len() == 0 || s.len() < from.len() {
        None
    } else if s.take(from.len() as int) == from {
        Some(0)
    } else {
        match first_occurrence(s.drop_first(), from) {
            Some(q) => Some(q + 1),
            None => None,
        }
    }
}

/// Replacement copies everything up to the first occurrence, puts `to` in
/// its place and goes on after it; a text without occurrence is copied whole.
proof fn lemma_first_occurrence(s: Seq<char>, from: Seq<char>, to: Seq<char>)
    requires
        from.len() > 0,
    ensures
        match first_occurrence(s, from) {
            Some(p) => {
                &&& occurs_in(s, from, p)
                &&& forall|q: int| 0 <= q < p ==> !occurs_in(s, from, q)
                &&& replace_all(s, from, to) == s.take(p) + to + replace_all(
                    s.skip(p + from.len()),
                    from,
                    to,
                )
            },
            None => free_of(s, from) && replace_all(s, from, to) == s,
        },
    decreases s.len(),
{
    let m = from.len() as int;
    if s.len() < from.len() {
        assert forall|i: int| !occurs_in(s, from, i) by {}
    } else if s.take(m) == from {
        assert(s.subrange(0, m) == s.take(m));
        assert(s.take(0) =~= Seq::<char>::empty());
        assert(s.take(0) + to + replace_all(s.skip(m), from, to) =~= to + replace_all(
            s.skip(m),
            from,
            to,
        ));
    } else {
        let d = s.drop_first();
        lemma_first_occurrence(d, from, to);
        assert(!occurs_in(s, from, 0)) by {
            if occurs_in(s, from, 0) {
                assert(s.subrange(0, m) == s.take(m));
            }
        }
        assert forall|i: int| 1 <= i && occurs_in(s, from, i) implies occurs_in(d, from, i - 1) by {
            assert(d.subrange(i - 1, i - 1 + m) =~= s.subrange(i, i + m));
        }
        assert forall|i: int| 0 <= i && occurs_in(d, from, i) implies occurs_in(s, from, i + 1) by {
            assert(d.subrange(i, i + m) =~= s.subrange(i + 1, i + 1 + m));
        }
        match first_occurrence(d, from) {
            Some(q) => {
                assert(seq![s[0]] + d.take(q) =~= s.take(q + 1));
                assert(d.skip(q + m) =~= s.skip(q + 1 + m));
                assert(seq![s[0]] + (d.take(q) + to + replace_all(d.skip(q + m), from, to))
                    =~= s.take(q + 1) + to + replace_all(s.skip(q + 1 + m), from, to));
                assert forall|k: int| 0 <= k < q + 1 implies !occurs_in(s, from, k) by {
                    if k >= 1 {
                        assert(!occurs_in(d, from, k - 1));
                    }
                }
            },
            None => {
                assert(seq![s[0]] + d =~= s);
                assert forall|i: int| !occurs_in(s, from, i) by {
                    if i >= 1 && occurs_in(s, from, i) {
                        assert(occurs_in(d, from, i - 1));
                    }
                }
            },
        }
    }
}

/// After replacing `from` by `to` no `from` is left, provided `to` cannot
/// start or end an occurrence of `from`: `from` starts with a character found
/// in `to` only at its start, `to` starts with a character that `from` holds
/// only at its start, and `to` departs from `from` early when both start
/// alike.
pub proof fn lemma_replace_all_removes(s: Seq<char>, from: Seq<char>, to: Seq<char>)
    requires
        from.len() > 0,
        to.len() > 0,
        forall|j: int| 1 <= j < to.len() ==> to[j] != from[0],
        forall|k: int| 1 <= k < from.len() ==> from[k] != to[0],
        to[0] == from[0] ==> exists|k: int|
            1 <= k < to.len() && k < from.len() && to[k] != from[k],
    ensures
        free_of(replace_all(s, from, to), from),
    decreases s.len(),
{
    lemma_first_occurrence(s, from, to);
    let r = replace_all(s, from, to);
    let m = from.len() as int;
    let t = to.len() as int;
    match first_occurrence(s, from) {
        None => {},
        Some(p) => {
            let rest = s.skip(p + m);
            lemma_replace_all_removes(rest, from, to);
            let r2 = replace_all(rest, from, to);
            assert(r == s.take(p) + to + r2);
            assert forall|i: int| !occurs_in(r, from, i) by {
                if occurs_in(r, from, i) {
                    let occ = r.subrange(i, i + m);
                    assert(occ == from);
                    if i >= p + t {
                        assert(r2.subrange(i - p - t, i - p - t + m) =~= occ);
                        assert(occurs_in(r2, from, i - p - t));
                    } else if i > p {
                        assert(r[i] == to[i - p]);
                        assert(occ[0] == r[i]);
                    } else if i == p {
                        assert(r[i] == to[0]);
                        assert(occ[0] == r[i]);
                        let k = choose|k: int| 1 <= k < to.len() && k < from.len() && to[k] != from[k];
                        assert(r[i + k] == to[k]);
                        assert(occ[k] == r[i + k]);
                    } else if i + m <= p {
                        assert(s.subrange(i, i + m) =~= occ);
                        assert(occurs_in(s, from, i));
                    } else {
                        let k = p - i;
                        assert(r[p] == to[0]);
                        assert(occ[k] == r[p]);
                    }
                }
            }
        },
    }
}

/// Replacing by text that shares no character with `w` never creates an
/// occurrence of `w`.
pub proof fn lemma_replace_all_keeps_free(
    s: Seq<char>,
    from: Seq<char>,
    to: Seq<char>,
    w: Seq<char>,
)
    requires
        from.len() > 0,
        to.len() > 0,
        w.len() > 0,
        free_of(s, w),
        forall|j: int, k: int| 0 <= j < to.len() && 0 <= k < w.len() ==> to[j] != w[k],
    ensures
        free_of(replace_all(s, from, to), w),
    decreases s.len(),
{
    lemma_first_occurrence(s, from, to);
    let r = replace_all(s, from, to);
    let m = from.len() as int;
    let t = to.len() as int;
    let n = w.len() as int;
    match first_occurrence(s, from) {
        None => {},
        Some(p) => {
            let rest = s.skip(p + m);
            assert forall|i: int| !occurs_in(rest, w, i) by {
                if occurs_in(rest, w, i) {
                    assert(s.subrange(p + m + i, p + m + i + n) =~= rest.subrange(i, i + n));
                    assert(occurs_in(s, w, p + m + i));
                }
            }
            lemma_replace_all_keeps_free(rest, from, to, w);
            let r2 = replace_all(rest, from, to);
            assert(r == s.take(p) + to + r2);
            assert forall|i: int| !occurs_in(r, w, i) by {
                if occurs_in(r, w, i) {
                    let occ = r.subrange(i, i + n);
                    assert(occ == w);
                    if i >= p + t {
                        assert(r2.subrange(i - p - t, i - p - t + n) =~= occ);
                        assert(occurs_in(r2, w, i - p - t));
                    } else if i + n <= p {
                        assert(s.subrange(i, i + n) =~= occ);
                        assert(occurs_in(s, w, i));
                    } else {
                        let c = if i >= p { i } else { p };
                        assert(r[c] == to[c - p]);
                        assert(occ[c - i] == r[c]);
                    }
                }
            }
        },
    }
}

/// Replacing a pattern that does not occur changes nothing.
pub proof fn lemma_replace_all_absent(s: Seq<char>, from: Seq<char>, to: Seq<char>)
    requires
        from.len() > 0,
        free_of(s, from),
    ensures
        replace_all(s, from, to) == s,
{
    lemma_first_occurrence(s, from, to);
}

} // verus!
