//! Verified character-level string helpers: splitting on a delimiter, joining
//! with a separator, trimming path slashes, substring tests, and byte-slice
//! comparison. All contracts are stated over `Seq<char>` views.

use vstd::prelude::*;
use vstd::slice::slice_index_get;
use vstd::string::StrSliceExecFns;
use vstd::string::StringExecFns;

verus! {

/// The fields of `s` split on the delimiter `sep`: always at least one field,
/// one more field per occurrence of `sep`, matching `str::split`.
pub open spec fn split_spec(s: Seq<char>, sep: char) -> Seq<Seq<char>>
    decreases s.len(),
{
    if s.len() == 0 {
        seq![Seq::<char>::empty()]
    } else if s[0] == sep {
        seq![Seq::<char>::empty()] + split_spec(s.drop_first(), sep)
    } else {
        let rest = split_spec(s.drop_first(), sep);
        seq![seq![s[0]] + rest[0]] + rest.drop_first()
    }
}

pub proof fn lemma_split_len_pos(s: Seq<char>, sep: char)
    ensures
        split_spec(s, sep).len() >= 1,
    decreases s.len(),
{
    if s.len() != 0 {
        lemma_split_len_pos(s.drop_first(), sep);
    }
}

/// A string without the delimiter splits into the one field it is.
pub proof fn lemma_split_no_sep(s: Seq<char>, sep: char)
    requires
        forall|j: int| 0 <= j < s.len() ==> s[j] != sep,
    ensures
        split_spec(s, sep) =~= seq![s],
    decreases s.len(),
{
    if s.len() == 0 {
        assert(s =~= Seq::<char>::empty());
        assert(split_spec(s, sep) =~= seq![s]);
    } else {
        assert(forall|j: int| 0 <= j < s.drop_first().len() ==> s.drop_first()[j] != sep) by {
            assert(forall|j: int|
                0 <= j < s.drop_first().len() ==> s.drop_first()[j] == s[j + 1]);
        }
        lemma_split_no_sep(s.drop_first(), sep);
        assert(seq![s[0]] + s.drop_first() =~= s);
        let rest = split_spec(s.drop_first(), sep);
        assert(rest[0] == s.drop_first());
        assert(rest.drop_first() =~= Seq::<Seq<char>>::empty());
        assert(split_spec(s, sep) =~= seq![seq![s[0]] + rest[0]]);
    }
}

/// Splitting at the first delimiter: a delimiter-free prefix becomes the first
/// field, and the rest splits on its own.
pub proof fn lemma_split_at_sep(p: Seq<char>, sep: char, rest: Seq<char>)
    requires
        forall|j: int| 0 <= j < p.len() ==> p[j] != sep,
    ensures
        split_spec(p + seq![sep] + rest, sep) =~= seq![p] + split_spec(rest, sep),
    decreases p.len(),
{
    let s = p + seq![sep] + rest;
    if p.len() == 0 {
        assert(s[0] == sep);
        assert(s.drop_first() =~= rest);
        assert(p =~= Seq::<char>::empty());
        assert(split_spec(s, sep) == seq![Seq::<char>::empty()] + split_spec(rest, sep));
        assert(split_spec(s, sep) =~= seq![p] + split_spec(rest, sep));
    } else {
        assert(s[0] == p[0]);
        assert(s[0] != sep);
        assert(s.drop_first() =~= p.drop_first() + seq![sep] + rest);
        assert(forall|j: int| 0 <= j < p.drop_first().len() ==> p.drop_first()[j] != sep) by {
            assert(forall|j: int|
                0 <= j < p.drop_first().len() ==> p.drop_first()[j] == p[j + 1]);
        }
        lemma_split_at_sep(p.drop_first(), sep, rest);
        lemma_split_len_pos(rest, sep);
        let inner = split_spec(p.drop_first() + seq![sep] + rest, sep);
        assert(inner =~= seq![p.drop_first()] + split_spec(rest, sep));
        assert(split_spec(s.drop_first(), sep) == inner);
        assert(split_spec(s, sep) == seq![seq![s[0]] + inner[0]] + inner.drop_first());
        assert(seq![s[0]] + inner[0] =~= p);
        assert(inner.drop_first() =~= split_spec(rest, sep));
        assert(split_spec(s, sep) =~= seq![p] + split_spec(rest, sep));
    }
}

/// The fields of `s` split on `sep`, as owned strings.
pub fn split_on_char(s: &str, sep: char) -> (r: Vec<String>)
    ensures
        r.deep_view() == split_spec(s@, sep),
        r@.len() >= 1,
{
    let n = s.unicode_len();
    let mut r: Vec<String> = Vec::new();
    let mut start: usize = 0;
    let mut i: usize = 0;
    proof {
        assert(s@.skip(0) =~= s@);
        assert(r.deep_view() + split_spec(s@, sep) =~= split_spec(s@, sep));
    }
    while i < n
        invariant
            n == s@.len(),
            0 <= start <= i <= n,
            forall|j: int| start <= j < i ==> s@[j] != sep,
            r.deep_view() + split_spec(s@.skip(start as int), sep) =~= split_spec(s@, sep),
        decreases n - i,
    {
        let c = s.get_char(i);
        if c == sep {
            let piece = s.substring_char(start, i).to_owned();
            let ghost dv0 = r.deep_view();
            proof {
                assert(s@.skip(start as int) =~= s@.subrange(start as int, i as int) + seq![
                    s@[i as int],
                ] + s@.skip(i as int + 1));
                lemma_split_at_sep(s@.subrange(start as int, i as int), sep, s@.skip(i as int + 1));
            }
            r.push(piece);
            proof {
                assert(r.deep_view() =~= dv0.push(piece@));
                assert(dv0.push(piece@) + split_spec(s@.skip(i as int + 1), sep) =~= dv0 + (seq![
                    piece@,
                ] + split_spec(s@.skip(i as int + 1), sep)));
            }
            start = i + 1;
        }
        i += 1;
    }
    let piece = s.substring_char(start, n).to_owned();
    let ghost dv0 = r.deep_view();
    proof {
        assert(s@.skip(start as int) =~= s@.subrange(start as int, n as int));
        lemma_split_no_sep(s@.skip(start as int), sep);
    }
    r.push(piece);
    proof {
        assert(r.deep_view() =~= dv0.push(piece@));
        assert(dv0.push(piece@) + Seq::<Seq<char>>::empty() =~= dv0 + seq![piece@]);
        assert(r.deep_view() =~= split_spec(s@, sep));
    }
    r
}

/// The fields joined with the separator between each pair of neighbours.
pub open spec fn join_spec(parts: Seq<Seq<char>>, sep: Seq<char>) -> Seq<char>
    decreases parts.len(),
{
    if parts.len() == 0 {
        Seq::empty()
    } else if parts.len() == 1 {
        parts[0]
    } else {
        parts[0] + sep + join_spec(parts.drop_first(), sep)
    }
}

pub proof fn lemma_join_push(parts: Seq<Seq<char>>, sep: Seq<char>, last: Seq<char>)
    ensures
        parts.len() == 0 ==> join_spec(parts.push(last), sep) == last,
        parts.len() > 0 ==> join_spec(parts.push(last), sep) == join_spec(parts, sep) + sep
            + last,
    decreases parts.len(),
{
    if parts.len() == 0 {
        assert(parts.push(last)[0] == last);
    } else if parts.len() == 1 {
        assert(parts.push(last).drop_first() =~= seq![last]);
        assert(join_spec(seq![last], sep) == last);
        assert(parts.push(last)[0] == parts[0]);
        assert(join_spec(parts.push(last), sep) == parts[0] + sep + last);
    } else {
        lemma_join_push(parts.drop_first(), sep, last);
        assert(parts.push(last).drop_first() =~= parts.drop_first().push(last));
        assert(join_spec(parts, sep) + sep + last =~= parts[0] + sep + (join_spec(
            parts.drop_first(),
            sep,
        ) + sep + last));
    }
}

/// The parts joined with `sep` between each pair of neighbours.
pub fn join_with(parts: &Vec<String>, sep: &str) -> (r: String)
    ensures
        r@ == join_spec(parts.deep_view(), sep@),
{
    let mut r = String::new();
    let mut i: usize = 0;
    while i < parts.len()
        invariant
            0 <= i <= parts@.len(),
            r@ == join_spec(parts.deep_view().take(i as int), sep@),
        decreases parts@.len() - i,
    {
        if i > 0 {
            r.append(sep);
        }
        r.append(parts[i].as_str());
        proof {
            lemma_join_push(parts.deep_view().take(i as int), sep@, parts@[i as int]@);
            assert(parts.deep_view().take(i as int).push(parts@[i as int]@) =~= parts.deep_view()
                .take(i as int + 1));
        }
        i += 1;
    }
    proof {
        assert(parts.deep_view().take(parts@.len() as int) =~= parts.deep_view());
    }
    r
}

/// `s` with every leading `c` removed.
pub open spec fn drop_leading(s: Seq<char>, c: char) -> Seq<char>
    decreases s.len(),
{
    if s.len() > 0 && s[0] == c {
        drop_leading(s.drop_first(), c)
    } else {
        s
    }
}

/// `s` with every trailing `c` removed.
pub open spec fn drop_trailing(s: Seq<char>, c: char) -> Seq<char>
    decreases s.len(),
{
    if s.len() > 0 && s[s.len() - 1] == c {
        drop_trailing(s.drop_last(), c)
    } else {
        s
    }
}

/// A cleartext path with the slashes at its start and end removed.
pub open spec fn trimmed_path(s: Seq<char>) -> Seq<char> {
    drop_trailing(drop_leading(s, '/'), '/')
}

proof fn lemma_drop_leading_skip(s: Seq<char>, c: char, k: int)
    requires
        0 <= k <= s.len(),
        forall|j: int| 0 <= j < k ==> s[j] == c,
        k == s.len() || s[k] != c,
    ensures
        drop_leading(s, c) =~= s.skip(k),
    decreases k,
{
    if k == 0 {
        assert(s.skip(0) =~= s);
    } else {
        assert(s.len() > 0 && s[0] == c);
        assert(s.drop_first() =~= s.skip(1));
        lemma_drop_leading_skip(s.drop_first(), c, k - 1);
        assert(s.drop_first().skip(k - 1) =~= s.skip(k));
    }
}

proof fn lemma_drop_trailing_take(s: Seq<char>, c: char, k: int)
    requires
        0 <= k <= s.len(),
        forall|j: int| k <= j < s.len() ==> s[j] == c,
        k == 0 || s[k - 1] != c,
    ensures
        drop_trailing(s, c) =~= s.take(k),
    decreases s.len() - k,
{
    if k == s.len() {
        if s.len() > 0 && s[s.len() - 1] == c {
            assert(s[k - 1] == c);
            assert(false);
        }
        assert(s.take(k) =~= s);
    } else {
        assert(s[s.len() - 1] == c);
        assert(s.drop_last() =~= s.take(s.len() - 1));
        lemma_drop_trailing_take(s.drop_last(), c, k);
        assert(s.drop_last().take(k) =~= s.take(k));
    }
}

/// The path with slashes removed at the start and the end, as `str::trim_matches('/')`.
pub fn prepare_entry_path(path: &str) -> (r: &str)
    ensures
        r@ == trimmed_path(path@),
{
    let n = path.unicode_len();
    let mut lo: usize = 0;
    while lo < n && path.get_char(lo) == '/'
        invariant
            n == path@.len(),
            0 <= lo <= n,
            forall|j: int| 0 <= j < lo ==> path@[j] == '/',
        decreases n - lo,
    {
        lo += 1;
    }
    let mut hi: usize = n;
    while hi > lo && path.get_char(hi - 1) == '/'
        invariant
            n == path@.len(),
            lo <= hi <= n,
            forall|j: int| hi <= j < n ==> path@[j] == '/',
        decreases hi,
    {
        hi -= 1;
    }
    proof {
        lemma_drop_leading_skip(path@, '/', lo as int);
        let t = path@.skip(lo as int);
        lemma_drop_trailing_take(t, '/', hi as int - lo as int);
        assert(t.take(hi as int - lo as int) =~= path@.subrange(lo as int, hi as int));
    }
    path.substring_char(lo, hi)
}

/// Whether `p` occurs in `s` as a contiguous substring.
pub open spec fn contains_seq(s: Seq<char>, p: Seq<char>) -> bool {
    exists|k: int| 0 <= k <= s.len() - p.len() && p == #[trigger] s.subrange(k, k + p.len())
}

/// Whether `p` is a prefix of `s`, as `str::starts_with`.
pub fn str_starts_with(s: &str, p: &str) -> (r: bool)
    ensures
        r == p@.is_prefix_of(s@),
{
    let n = s.unicode_len();
    let m = p.unicode_len();
    if m > n {
        return false;
    }
    let mut i: usize = 0;
    while i < m
        invariant
            n == s@.len(),
            m == p@.len(),
            m <= n,
            0 <= i <= m,
            forall|j: int| 0 <= j < i ==> s@[j] == p@[j],
        decreases m - i,
    {
        if s.get_char(i) != p.get_char(i) {
            assert(!p@.is_prefix_of(s@));
            return false;
        }
        i += 1;
    }
    proof {
        assert(p@ =~= s@.subrange(0, m as int));
    }
    true
}

/// Whether the two strings hold the same characters.
pub fn str_eq(a: &str, b: &str) -> (r: bool)
    ensures
        r == (a@ == b@),
{
    let r = str_starts_with(a, b) && str_starts_with(b, a);
    proof {
        if r {
            assert(a@ =~= b@);
        }
    }
    r
}

/// Whether `p` occurs in `s` as a contiguous substring, as `str::contains`.
pub fn str_contains(s: &str, p: &str) -> (r: bool)
    ensures
        r == contains_seq(s@, p@),
{
    let n = s.unicode_len();
    let m = p.unicode_len();
    if m > n {
        return false;
    }
    let mut k: usize = 0;
    while k <= n - m
        invariant
            n == s@.len(),
            m == p@.len(),
            m <= n,
            0 <= k <= n - m + 1,
            forall|t: int| 0 <= t < k ==> p@ != #[trigger] s@.subrange(t, t + p@.len()),
        decreases n - m + 1 - k,
    {
        let mut i: usize = 0;
        let mut all_match = true;
        while i < m
            invariant
                n == s@.len(),
                m == p@.len(),
                m <= n,
                0 <= k <= n - m,
                0 <= i <= m,
                all_match <==> (forall|j: int| 0 <= j < i ==> s@[k + j] == p@[j]),
            decreases m - i,
        {
            if s.get_char(k + i) != p.get_char(i) {
                all_match = false;
                assert(s@[k as int + i as int] != p@[i as int]);
                i = m;
            } else {
                i += 1;
            }
        }
        if all_match {
            proof {
                assert(p@ =~= s@.subrange(k as int, k as int + p@.len()));
            }
            return true;
        }
        proof {
            if p@ == s@.subrange(k as int, k as int + p@.len()) {
                assert(forall|j: int| 0 <= j < m ==> s@[k + j] == p@.index(j)) by {
                    assert(forall|j: int|
                        0 <= j < m ==> #[trigger] s@.subrange(
                            k as int,
                            k as int + p@.len(),
                        ).index(j) == s@[k + j]);
                };
                assert(false);
            }
        }
        k += 1;
    }
    false
}

/// Whether the two byte slices hold the same bytes; the comparison examines
/// every position rather than stopping at the first mismatch.
pub fn slices_equal(a: &[u8], b: &[u8]) -> (r: bool)
    ensures
        r == (a@ == b@),
{
    if a.len() != b.len() {
        return false;
    }
    let n = a.len();
    let mut differs = false;
    let mut i: usize = 0;
    while i < n
        invariant
            n == a@.len(),
            n == b@.len(),
            0 <= i <= n,
            differs <==> (exists|j: int| 0 <= j < i && a@[j] != b@[j]),
        decreases n - i,
    {
        if *slice_index_get(a, i) != *slice_index_get(b, i) {
            differs = true;
        }
        i += 1;
    }
    if differs {
        proof {
            assert(a@ != b@);
        }
        false
    } else {
        proof {
            assert(a@ =~= b@);
        }
        true
    }
}

} // verus!
