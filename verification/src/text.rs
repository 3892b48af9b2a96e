//! Character-level building blocks: whitespace trimming, splitting on a
//! separator, suffix stripping, substring search and decimal numbers, each
//! stated over `Seq<char>` and implemented on `&str`.
use vstd::prelude::*;

verus! {

// ---------------------------------------------------------------------------
// Whitespace and trimming
// ---------------------------------------------------------------------------

/// The Unicode `White_Space` property, which is what `char::is_whitespace`
/// and hence `str::trim` use.
pub open spec fn is_ws(c: char) -> bool {
    let n = c as int;
    ||| 0x09 <= n <= 0x0d
    ||| n == 0x20
    ||| n == 0x85
    ||| n == 0xa0
    ||| n == 0x1680
    ||| 0x2000 <= n <= 0x200a
    ||| n == 0x2028
    ||| n == 0x2029
    ||| n == 0x202f
    ||| n == 0x205f
    ||| n == 0x3000
}

/// `s` without its leading whitespace.
pub open spec fn trim_start(s: Seq<char>) -> Seq<char>
    decreases s.len(),
{
    if s.len() > 0 && is_ws(s[0]) {
        trim_start(s.drop_first())
    } else {
        s
    }
}

/// `s` without its trailing whitespace.
pub open spec fn trim_end(s: Seq<char>) -> Seq<char>
    decreases s.len(),
{
    if s.len() > 0 && is_ws(s.last()) {
        trim_end(s.drop_last())
    } else {
        s
    }
}

/// `s` without leading and trailing whitespace (`str::trim`).
pub open spec fn trim(s: Seq<char>) -> Seq<char> {
    trim_end(trim_start(s))
}

pub fn is_whitespace_char(c: char) -> (b: bool)
    ensures
        b == is_ws(c),
{
    let n = c as u32;
    (0x09 <= n && n <= 0x0d) || n == 0x20 || n == 0x85 || n == 0xa0 || n == 0x1680 || (0x2000 <= n
        && n <= 0x200a) || n == 0x2028 || n == 0x2029 || n == 0x202f || n == 0x205f || n == 0x3000
}

/// Trailing whitespace after a non-whitespace character is all that
/// `trim_end` removes.
pub proof fn lemma_trim_end_concat(a: Seq<char>, b: Seq<char>)
    requires
        a.len() > 0,
        !is_ws(a.last()),
    ensures
        trim_end(a + b) == a + trim_end(b),
    decreases b.len(),
{
    if b.len() == 0 {
        assert(a + b =~= a);
        assert(a + trim_end(b) =~= a);
    } else {
        assert((a + b).drop_last() =~= a + b.drop_last());
        assert((a + b).last() == b.last());
        lemma_trim_end_concat(a, b.drop_last());
    }
}

/// A lone line break trims to nothing.
pub proof fn lemma_trim_newline()
    ensures
        trim_end(seq!['\n']) == Seq::<char>::empty(),
{
    let nl = seq!['\n'];
    assert(('\n' as int) == 10);
    assert(is_ws(nl.last()));
    assert(nl.drop_last() =~= Seq::<char>::empty());
    assert(trim_end(Seq::<char>::empty()) == Seq::<char>::empty());
}

/// Text that starts with a non-whitespace character keeps its start.
pub proof fn lemma_trim_start_keeps(s: Seq<char>)
    requires
        s.len() > 0,
        !is_ws(s[0]),
    ensures
        trim_start(s) == s,
{
}

/// Copies the characters of `s` into a vector.
pub fn chars_of(s: &str) -> (v: Vec<char>)
    ensures
        v@ == s@,
{
    let mut v: Vec<char> = Vec::new();
    for c in it: s.chars()
        invariant
            v@ == it.seq().take(it.index() as int),
            it.seq() == s@,
    {
        v.push(c);
    }
    v
}

/// The bounds `(lo, hi)` of the trimmed part of `s`.
pub fn trim_bounds(s: &Vec<char>) -> (r: (usize, usize))
    ensures
        r.0 <= r.1 <= s@.len(),
        s@.subrange(r.0 as int, r.1 as int) == trim(s@),
        forall|j: int| 0 <= j < r.0 ==> is_ws(#[trigger] s@[j]),
        forall|j: int| r.1 <= j < s@.len() ==> is_ws(#[trigger] s@[j]),
        r.0 < r.1 ==> !is_ws(s@[r.0 as int]) && !is_ws(s@[r.1 - 1]),
{
    let n = s.len();
    let mut lo: usize = 0;
    assert(s@.subrange(0, n as int) =~= s@);
    while lo < n && is_whitespace_char(s[lo])
        invariant
            lo <= n == s@.len(),
            trim_start(s@) == trim_start(s@.subrange(lo as int, n as int)),
            forall|j: int| 0 <= j < lo ==> is_ws(#[trigger] s@[j]),
        decreases n - lo,
    {
        assert(s@.subrange(lo as int, n as int).drop_first() =~= s@.subrange(lo + 1, n as int));
        lo = lo + 1;
    }
    let ghost ts = s@.subrange(lo as int, n as int);
    assert(trim_start(ts) == ts);
    let mut hi: usize = n;
    while hi > lo && is_whitespace_char(s[hi - 1])
        invariant
            lo <= hi <= n == s@.len(),
            trim_start(s@) == ts,
            ts == s@.subrange(lo as int, n as int),
            trim_end(ts) == trim_end(s@.subrange(lo as int, hi as int)),
            forall|j: int| 0 <= j < lo ==> is_ws(#[trigger] s@[j]),
            forall|j: int| hi <= j < n ==> is_ws(#[trigger] s@[j]),
            lo < n ==> !is_ws(s@[lo as int]),
        decreases hi - lo,
    {
        assert(s@.subrange(lo as int, hi as int).drop_last() =~= s@.subrange(lo as int, hi - 1));
        hi = hi - 1;
    }
    (lo, hi)
}

/// `str::trim`, as an owned string.
pub fn trimmed(s: &str) -> (r: String)
    ensures
        r@ == trim(s@),
        exists|lo: int, hi: int|
            0 <= lo <= hi <= s@.len() && r@ == #[trigger] s@.subrange(lo, hi) && (forall|j: int|
                0 <= j < lo ==> is_ws(#[trigger] s@[j])) && (forall|j: int|
                hi <= j < s@.len() ==> is_ws(#[trigger] s@[j])) && (lo < hi ==> !is_ws(s@[lo])
                && !is_ws(s@[hi - 1])),
{
    let v = chars_of(s);
    let (lo, hi) = trim_bounds(&v);
    let r = s.substring_char(lo, hi).to_owned();
    assert(r@ == s@.subrange(lo as int, hi as int));
    r
}


// ---------------------------------------------------------------------------
// Splitting
// ---------------------------------------------------------------------------

/// The pieces of `s` between occurrences of `sep` (`str::split` with a
/// character pattern); there is always at least one piece.
pub open spec fn split(s: Seq<char>, sep: char) -> Seq<Seq<char>>
    decreases s.len(),
{
    if s.len() == 0 {
        seq![Seq::<char>::empty()]
    } else {
        let p = split(s.drop_last(), sep);
        if s.last() == sep {
            p.push(Seq::<char>::empty())
        } else {
            p.update(p.len() - 1, p.last().push(s.last()))
        }
    }
}

/// The pieces joined back together, `sep` between neighbours
/// (`[T]::join` with a one-character separator).
pub open spec fn join_pieces(parts: Seq<Seq<char>>, sep: char) -> Seq<char>
    decreases parts.len(),
{
    if parts.len() <= 1 {
        if parts.len() == 1 {
            parts[0]
        } else {
            Seq::empty()
        }
    } else {
        join_pieces(parts.drop_last(), sep) + seq![sep] + parts.last()
    }
}

/// Joining pieces puts the first piece, then the separator, then the rest.
pub proof fn lemma_join_front(parts: Seq<Seq<char>>, sep: char)
    requires
        parts.len() >= 2,
    ensures
        join_pieces(parts, sep) == parts[0] + seq![sep] + join_pieces(parts.drop_first(), sep),
    decreases parts.len(),
{
    let init = parts.drop_last();
    let tail = parts.drop_first();
    assert(join_pieces(parts, sep) == join_pieces(init, sep) + seq![sep] + parts.last());
    if parts.len() == 2 {
        assert(init =~= seq![parts[0]]);
        assert(tail =~= seq![parts[1]]);
        assert(join_pieces(init, sep) == parts[0]);
        assert(join_pieces(tail, sep) == parts[1]);
        assert(join_pieces(parts, sep) =~= parts[0] + seq![sep] + join_pieces(tail, sep));
    } else {
        lemma_join_front(init, sep);
        assert(init.drop_first() =~= tail.drop_last());
        assert(tail.last() == parts.last());
        assert(join_pieces(tail, sep) == join_pieces(tail.drop_last(), sep) + seq![sep] + tail.last());
        assert(join_pieces(parts, sep) =~= parts[0] + seq![sep] + join_pieces(tail, sep));
    }
}

/// Splitting loses nothing: the pieces joined with the separator give back
/// the text, and no piece holds the separator.
pub proof fn law_split_joins_back(s: Seq<char>, sep: char)
    ensures
        join_pieces(split(s, sep), sep) == s,
        forall|i: int| 0 <= i < split(s, sep).len() ==> !has_char(#[trigger] split(s, sep)[i], sep),
    decreases s.len(),
{
    if s.len() == 0 {
        assert(!has_char(Seq::<char>::empty(), sep));
    } else {
        let t = s.drop_last();
        let c = s.last();
        law_split_joins_back(t, sep);
        lemma_split_nonempty(t, sep);
        let p = split(t, sep);
        let q = split(s, sep);
        if c == sep {
            assert(q == p.push(Seq::<char>::empty()));
            assert(q.drop_last() =~= p);
            assert(join_pieces(q, sep) == join_pieces(p, sep) + seq![sep] + Seq::<char>::empty());
            assert(join_pieces(q, sep) =~= s);
            assert forall|i: int| 0 <= i < q.len() implies !has_char(#[trigger] q[i], sep) by {
                if i < p.len() {
                    assert(q[i] == p[i]);
                } else {
                    assert(q[i] =~= Seq::<char>::empty());
                }
            }
        } else {
            let last = p.last().push(c);
            assert(q == p.update(p.len() - 1, last));
            if p.len() == 1 {
                assert(join_pieces(p, sep) == p[0]);
                assert(join_pieces(q, sep) == q[0]);
                assert(q[0] == last);
                assert(last =~= s);
            } else {
                assert(q.drop_last() =~= p.drop_last());
                assert(join_pieces(p, sep) == join_pieces(p.drop_last(), sep) + seq![sep] + p.last());
                assert(join_pieces(q, sep) == join_pieces(p.drop_last(), sep) + seq![sep] + last);
                assert(join_pieces(q, sep) =~= t.push(c));
                assert(t.push(c) =~= s);
            }
            assert forall|i: int| 0 <= i < q.len() implies !has_char(#[trigger] q[i], sep) by {
                if i < p.len() - 1 {
                    assert(q[i] == p[i]);
                } else {
                    assert(q[i] == last);
                    assert(!has_char(p[p.len() - 1], sep));
                    if has_char(last, sep) {
                        let j = choose|j: int| 0 <= j < last.len() && last[j] == sep;
                        assert(p.last()[j] == sep);
                    }
                }
            }
        }
    }
}

/// The views of a vector of strings.
pub open spec fn views(v: Seq<String>) -> Seq<Seq<char>> {
    v.map_values(|x: String| x@)
}

pub proof fn lemma_split_nonempty(s: Seq<char>, sep: char)
    ensures
        split(s, sep).len() >= 1,
    decreases s.len(),
{
    if s.len() > 0 {
        lemma_split_nonempty(s.drop_last(), sep);
    }
}

/// A text without the separator is a single piece.
pub proof fn lemma_split_single(s: Seq<char>, sep: char)
    requires
        !has_char(s, sep),
    ensures
        split(s, sep) == seq![s],
    decreases s.len(),
{
    if s.len() > 0 {
        assert(!has_char(s.drop_last(), sep)) by {
            if has_char(s.drop_last(), sep) {
                let i = choose|i: int| 0 <= i < s.drop_last().len() && s.drop_last()[i] == sep;
                assert(s[i] == sep);
            }
        }
        lemma_split_single(s.drop_last(), sep);
        assert(s.last() != sep) by {
            if s.last() == sep {
                assert(s[s.len() - 1] == sep);
            }
        }
        assert(s.drop_last().push(s.last()) =~= s);
    } else {
        assert(s =~= Seq::<char>::empty());
    }
}

/// Splitting at a separator joins the pieces of both sides.
pub proof fn lemma_split_join(a: Seq<char>, b: Seq<char>, sep: char)
    ensures
        split(a + seq![sep] + b, sep) == split(a, sep) + split(b, sep),
    decreases b.len(),
{
    let s = a + seq![sep] + b;
    lemma_split_nonempty(a, sep);
    if b.len() == 0 {
        assert(s.drop_last() =~= a);
        assert(split(b, sep) =~= seq![Seq::<char>::empty()]);
        assert(split(a, sep).push(Seq::<char>::empty()) =~= split(a, sep) + split(b, sep));
    } else {
        let b2 = b.drop_last();
        lemma_split_join(a, b2, sep);
        lemma_split_nonempty(b2, sep);
        assert(s.drop_last() =~= a + seq![sep] + b2);
        assert(s.last() == b.last());
        let p = split(a + seq![sep] + b2, sep);
        let q = split(b2, sep);
        if b.last() == sep {
            assert(split(a, sep) + q.push(Seq::<char>::empty()) =~= p.push(Seq::<char>::empty()));
        } else {
            assert(split(a, sep) + q.update(q.len() - 1, q.last().push(b.last())) =~= p.update(
                p.len() - 1,
                p.last().push(b.last()),
            ));
        }
    }
}

/// `str::split(sep)` collected into owned strings.
pub fn split_on(s: &str, sep: char) -> (parts: Vec<String>)
    ensures
        views(parts@) == split(s@, sep),
{
    let v = chars_of(s);
    let n = v.len();
    let mut parts: Vec<String> = Vec::new();
    let mut start: usize = 0;
    let mut i: usize = 0;
    assert(s@.take(0) =~= Seq::<char>::empty());
    assert(views(parts@).push(s@.subrange(0, 0)) =~= split(s@.take(0), sep));
    while i < n
        invariant
            n == v@.len() == s@.len(),
            v@ == s@,
            start <= i <= n,
            views(parts@).push(s@.subrange(start as int, i as int)) == split(s@.take(i as int), sep),
        decreases n - i,
    {
        let ghost before = views(parts@);
        let ghost t = s@.take(i + 1);
        let ghost p = split(s@.take(i as int), sep);
        assert(t.drop_last() =~= s@.take(i as int));
        assert(t.last() == s@[i as int]);
        assert(t.len() > 0);
        assert(split(t, sep) == if t.last() == sep {
            p.push(Seq::<char>::empty())
        } else {
            p.update(p.len() - 1, p.last().push(t.last()))
        });
        if v[i] == sep {
            let piece = s.substring_char(start, i).to_owned();
            parts.push(piece);
            assert(views(parts@) =~= before.push(s@.subrange(start as int, i as int)));
            i = i + 1;
            start = i;
            assert(s@.subrange(start as int, i as int) =~= Seq::<char>::empty());
            assert(views(parts@).push(s@.subrange(start as int, i as int)) =~= split(t, sep));
        } else {
            let ghost old_start = start;
            i = i + 1;
            assert(s@.subrange(start as int, i as int) =~= s@.subrange(start as int, i - 1).push(
                s@[i - 1],
            ));
            assert(views(parts@).push(s@.subrange(start as int, i as int)) =~= split(t, sep));
        }
    }
    let ghost before = views(parts@);
    let last = s.substring_char(start, n).to_owned();
    parts.push(last);
    assert(views(parts@) =~= before.push(s@.subrange(start as int, n as int)));
    assert(s@.take(n as int) =~= s@);
    parts
}


// ---------------------------------------------------------------------------
// Comparisons and searches
// ---------------------------------------------------------------------------

/// Whether two texts are equal.
pub fn same_text(a: &str, b: &str) -> (r: bool)
    ensures
        r == (a@ == b@),
{
    let x = chars_of(a);
    let y = chars_of(b);
    if x.len() != y.len() {
        return false;
    }
    let mut i: usize = 0;
    while i < x.len()
        invariant
            x@ == a@,
            y@ == b@,
            x@.len() == y@.len(),
            i <= x@.len(),
            x@.take(i as int) == y@.take(i as int),
        decreases x@.len() - i,
    {
        if x[i] != y[i] {
            return false;
        }
        assert(x@.take(i + 1) =~= x@.take(i as int).push(x@[i as int]));
        assert(y@.take(i + 1) =~= y@.take(i as int).push(y@[i as int]));
        i = i + 1;
    }
    assert(x@ =~= x@.take(i as int));
    assert(y@ =~= y@.take(i as int));
    true
}

/// The part of `s` before the first occurrence of `c`, or all of `s`
/// (`s.split(c).next()`).
pub open spec fn before_first(s: Seq<char>, c: char) -> Seq<char>
    decreases s.len(),
{
    if s.len() == 0 {
        s
    } else if s[0] == c {
        Seq::<char>::empty()
    } else {
        seq![s[0]] + before_first(s.drop_first(), c)
    }
}

/// The index of the first occurrence of `c` in `s`, or its length.
pub fn find_char(s: &Vec<char>, c: char) -> (k: usize)
    ensures
        k <= s@.len(),
        k < s@.len() ==> s@[k as int] == c,
        forall|j: int| 0 <= j < k ==> s@[j] != c,
        before_first(s@, c) == s@.take(k as int),
{
    let mut k: usize = 0;
    while k < s.len() && s[k] != c
        invariant
            k <= s@.len(),
            forall|j: int| 0 <= j < k ==> s@[j] != c,
        decreases s@.len() - k,
    {
        k = k + 1;
    }
    proof {
        lemma_before_first(s@, c, k as int);
    }
    k
}

pub proof fn lemma_before_first(s: Seq<char>, c: char, k: int)
    requires
        0 <= k <= s.len(),
        k < s.len() ==> s[k] == c,
        forall|j: int| 0 <= j < k ==> s[j] != c,
    ensures
        before_first(s, c) == s.take(k),
    decreases s.len(),
{
    if s.len() > 0 && k > 0 {
        lemma_before_first(s.drop_first(), c, k - 1);
        assert(s.take(k) =~= seq![s[0]] + s.drop_first().take(k - 1));
    } else if s.len() == 0 {
        assert(s.take(k) =~= s);
    } else {
        assert(s.take(k) =~= Seq::<char>::empty());
    }
}

/// The part before the first `c` is a prefix of `s` holding no `c`, and it is
/// either all of `s` or followed in `s` by a `c`.
pub proof fn law_before_first_shape(s: Seq<char>, c: char)
    ensures
        before_first(s, c).len() <= s.len(),
        before_first(s, c) == s.take(before_first(s, c).len() as int),
        !has_char(before_first(s, c), c),
        before_first(s, c).len() < s.len() ==> s[before_first(s, c).len() as int] == c,
    decreases s.len(),
{
    if s.len() > 0 && s[0] != c {
        let t = s.drop_first();
        law_before_first_shape(t, c);
        let b = before_first(t, c);
        assert(before_first(s, c) == seq![s[0]] + b);
        assert(s.take(b.len() as int + 1) =~= seq![s[0]] + t.take(b.len() as int));
        if has_char(seq![s[0]] + b, c) {
            let i = choose|i: int| 0 <= i < b.len() + 1 && (seq![s[0]] + b)[i] == c;
            assert(b[i - 1] == c);
        }
        if b.len() < t.len() {
            assert(s[b.len() as int + 1] == t[b.len() as int]);
        }
    } else if s.len() > 0 {
        assert(s.take(0) =~= Seq::<char>::empty());
    } else {
        assert(s.take(0) =~= s);
    }
}

/// Whether `s` ends with `pat`.
pub open spec fn ends_with(s: Seq<char>, pat: Seq<char>) -> bool {
    pat.len() <= s.len() && s.subrange(s.len() - pat.len(), s.len() as int) == pat
}

/// `s` with every trailing repetition of the non-empty `pat` removed
/// (`str::trim_end_matches`).
pub open spec fn trim_end_matches(s: Seq<char>, pat: Seq<char>) -> Seq<char>
    decreases s.len(),
{
    if pat.len() > 0 && ends_with(s, pat) {
        trim_end_matches(s.subrange(0, s.len() - pat.len()), pat)
    } else {
        s
    }
}

/// `trim_end_matches` keeps a prefix of `s` that no longer ends with `pat`,
/// and what it removes is whole copies of `pat`, one after another.
pub proof fn law_trim_end_matches_shape(s: Seq<char>, pat: Seq<char>)
    requires
        pat.len() > 0,
    ensures
        trim_end_matches(s, pat).len() <= s.len(),
        trim_end_matches(s, pat) == s.take(trim_end_matches(s, pat).len() as int),
        !ends_with(trim_end_matches(s, pat), pat),
        (s.len() - trim_end_matches(s, pat).len()) % (pat.len() as int) == 0,
        forall|j: int|
            trim_end_matches(s, pat).len() <= j < s.len() ==> #[trigger] s[j] == pat[(j
                - trim_end_matches(s, pat).len()) % (pat.len() as int)],
    decreases s.len(),
{
    let p = pat.len() as int;
    if ends_with(s, pat) {
        let t = s.subrange(0, s.len() - p);
        law_trim_end_matches_shape(t, pat);
        let r = trim_end_matches(t, pat);
        assert(trim_end_matches(s, pat) == r);
        let d = t.len() - r.len();
        vstd::arithmetic::div_mod::lemma_mod_add_multiples_vanish(d, p);
        assert(s.len() - r.len() == p + d);
        assert(r =~= s.take(r.len() as int));
        vstd::arithmetic::div_mod::lemma_fundamental_div_mod(d, p);
        let q = d / p;
        vstd::arithmetic::mul::lemma_mul_is_commutative(p, q);
        assert forall|j: int| r.len() <= j < s.len() implies #[trigger] s[j] == pat[(j - r.len())
            % p] by {
            if j < t.len() {
                assert(s[j] == t[j]);
            } else {
                let x = j - t.len();
                assert(s.subrange(s.len() - p, s.len() as int)[x] == pat[x]);
                assert(s[j] == pat[x]);
                assert(j - r.len() == q * p + x);
                vstd::arithmetic::div_mod::lemma_fundamental_div_mod_converse_mod(j - r.len(), p, q, x);
            }
        }
    } else {
        assert(s.take(s.len() as int) =~= s);
        assert((s.len() - s.len()) % p == 0) by {
            vstd::arithmetic::div_mod::lemma_small_mod(0, p as nat);
        }
    }
}

/// Whether the first `len` characters of `s` end with `pat`.
fn prefix_ends_with(s: &Vec<char>, len: usize, pat: &Vec<char>) -> (r: bool)
    requires
        len <= s@.len(),
    ensures
        r == ends_with(s@.take(len as int), pat@),
{
    if pat.len() > len {
        return false;
    }
    let off = len - pat.len();
    let mut i: usize = 0;
    while i < pat.len()
        invariant
            off + pat@.len() == len <= s@.len(),
            i <= pat@.len(),
            forall|j: int| 0 <= j < i ==> s@[off + j] == pat@[j],
        decreases pat@.len() - i,
    {
        if s[off + i] != pat[i] {
            assert(s@.take(len as int).subrange(off as int, len as int)[i as int] != pat@[i as int]);
            return false;
        }
        i = i + 1;
    }
    assert(s@.take(len as int).subrange(off as int, len as int) =~= pat@);
    true
}

/// `s.trim_end_matches(pat)` for a non-empty pattern.
pub fn trim_end_matching(s: &str, pat: &str) -> (r: String)
    requires
        pat@.len() > 0,
    ensures
        r@ == trim_end_matches(s@, pat@),
        r@.len() <= s@.len(),
        r@ == s@.take(r@.len() as int),
        !ends_with(r@, pat@),
        (s@.len() - r@.len()) % (pat@.len() as int) == 0,
        forall|j: int|
            r@.len() <= j < s@.len() ==> #[trigger] s@[j] == pat@[(j - r@.len()) % (
            pat@.len() as int)],
{
    proof {
        law_trim_end_matches_shape(s@, pat@);
    }
    let v = chars_of(s);
    let p = chars_of(pat);
    let mut len: usize = v.len();
    assert(v@.take(len as int) =~= s@);
    while prefix_ends_with(&v, len, &p)
        invariant
            v@ == s@,
            p@ == pat@,
            p@.len() > 0,
            len <= v@.len(),
            trim_end_matches(s@, pat@) == trim_end_matches(v@.take(len as int), pat@),
        decreases len,
    {
        assert(v@.take(len as int).subrange(0, len - p@.len()) =~= v@.take(len - p@.len()));
        len = len - p.len();
    }
    s.substring_char(0, len).to_owned()
}

/// `s.trim_end_matches(c)` for a single character.
pub fn trim_end_char(s: &str, c: char) -> (r: String)
    ensures
        r@ == trim_end_matches(s@, seq![c]),
        r@.len() <= s@.len(),
        r@ == s@.take(r@.len() as int),
        r@.len() > 0 ==> r@.last() != c,
        forall|j: int| r@.len() <= j < s@.len() ==> #[trigger] s@[j] == c,
{
    proof {
        let t = trim_end_matches(s@, seq![c]);
        law_trim_end_matches_shape(s@, seq![c]);
        if t.len() > 0 && t.last() == c {
            assert(t.subrange(t.len() - 1, t.len() as int) =~= seq![c]);
        }
        assert forall|j: int| t.len() <= j < s@.len() implies #[trigger] s@[j] == c by {
            assert(s@[j] == seq![c][(j - t.len()) % 1]);
        }
    }
    let v = chars_of(s);
    let mut len: usize = v.len();
    assert(v@.take(len as int) =~= s@);
    while len > 0 && v[len - 1] == c
        invariant
            v@ == s@,
            len <= v@.len(),
            trim_end_matches(s@, seq![c]) == trim_end_matches(v@.take(len as int), seq![c]),
        decreases len,
    {
        let ghost t = v@.take(len as int);
        assert(t.subrange(len - 1, len as int) =~= seq![c]);
        assert(t.subrange(0, len - 1) =~= v@.take(len - 1));
        len = len - 1;
    }
    let ghost t = v@.take(len as int);
    if len > 0 {
        assert(t.subrange(len - 1, len as int)[0] != c);
    }
    s.substring_char(0, len).to_owned()
}

/// Whether `pat` occurs in `s` (`str::contains`).
pub open spec fn contains_text(s: Seq<char>, pat: Seq<char>) -> bool {
    exists|i: int| 0 <= i && i + pat.len() <= s.len() && #[trigger] s.subrange(i, i + pat.len()) == pat
}

/// Whether `s` holds the character `c` (`str::contains` with a char).
pub open spec fn has_char(s: Seq<char>, c: char) -> bool {
    exists|i: int| 0 <= i < s.len() && s[i] == c
}

/// Whether `pat` occurs in `s`.
pub fn contains_str(s: &str, pat: &str) -> (r: bool)
    ensures
        r == contains_text(s@, pat@),
{
    let v = chars_of(s);
    let p = chars_of(pat);
    if p.len() > v.len() {
        return false;
    }
    if p.len() == 0 {
        assert(s@.subrange(0int, 0int + pat@.len()) =~= pat@);
        return true;
    }
    let last = v.len() - p.len();
    let mut i: usize = 0;
    while i <= last
        invariant
            v@ == s@,
            p@ == pat@,
            p@.len() > 0,
            last + p@.len() == v@.len(),
            i <= last + 1,
            forall|j: int| 0 <= j < i ==> #[trigger] s@.subrange(j, j + pat@.len()) != pat@,
        decreases last + 1 - i,
    {
        let mut k: usize = 0;
        let mut matched = true;
        while k < p.len()
            invariant
                v@ == s@,
                p@ == pat@,
                i + p@.len() <= v@.len(),
                v@.len() == v.len(),
                k <= p@.len(),
                matched ==> forall|j: int| 0 <= j < k ==> v@[i + j] == p@[j],
                !matched ==> s@.subrange(i as int, i + pat@.len()) != pat@,
            decreases p@.len() - k,
        {
            if v[i + k] != p[k] {
                assert(s@.subrange(i as int, i + pat@.len())[k as int] != pat@[k as int]);
                matched = false;
            }
            k = k + 1;
        }
        if matched {
            assert(s@.subrange(i as int, i + pat@.len()) =~= pat@);
            return true;
        }
        i = i + 1;
    }
    assert forall|j: int| 0 <= j && j + pat@.len() <= s@.len() implies #[trigger] s@.subrange(
        j,
        j + pat@.len(),
    ) != pat@ by {}
    false
}

/// Whether `s` holds the character `c`.
pub fn contains_char(s: &str, c: char) -> (r: bool)
    ensures
        r == has_char(s@, c),
{
    let v = chars_of(s);
    let k = find_char(&v, c);
    k < v.len()
}


// ---------------------------------------------------------------------------
// Decimal numbers
// ---------------------------------------------------------------------------

/// The character of the decimal digit `d < 10`.
pub open spec fn digit_char(d: int) -> char {
    (48 + d) as char
}

/// Whether `c` is one of `0`..`9`.
pub open spec fn is_digit(c: char) -> bool {
    '0' <= c && c <= '9'
}

/// The decimal representation of `n` without leading zeros (`n.to_string()`).
pub open spec fn decimal(n: nat) -> Seq<char>
    decreases n,
{
    if n < 10 {
        seq![digit_char(n as int)]
    } else {
        decimal(n / 10).push(digit_char((n % 10) as int))
    }
}

/// The value of a string of decimal digits.
pub open spec fn digits_value(s: Seq<char>) -> nat
    decreases s.len(),
{
    if s.len() == 0 {
        0
    } else {
        (digits_value(s.drop_last()) * 10 + ((s.last() as int) - 48)) as nat
    }
}

/// Whether every character of `s` is a decimal digit.
pub open spec fn all_digits(s: Seq<char>) -> bool {
    forall|i: int| 0 <= i < s.len() ==> is_digit(#[trigger] s[i])
}

/// The digits that `str::parse::<u64>` reads: `s` without one leading `+`.
pub open spec fn unsigned_digits(s: Seq<char>) -> Seq<char> {
    if s.len() > 0 && s[0] == '+' {
        s.drop_first()
    } else {
        s
    }
}

/// What `str::parse::<u64>` gives: an optional `+`, then at least one
/// decimal digit and nothing else, with a value that fits.
pub open spec fn parse_u64(s: Seq<char>) -> Option<u64> {
    let d = unsigned_digits(s);
    if d.len() > 0 && all_digits(d) && digits_value(d) <= u64::MAX {
        Some(digits_value(d) as u64)
    } else {
        None
    }
}

/// The one-character text of a decimal digit.
pub fn digit_text(d: u64) -> (r: &'static str)
    requires
        d < 10,
    ensures
        r@ == seq![digit_char(d as int)],
{
    match d {
        0 => {
            proof { reveal_strlit("0"); }
            "0"
        },
        1 => {
            proof { reveal_strlit("1"); }
            "1"
        },
        2 => {
            proof { reveal_strlit("2"); }
            "2"
        },
        3 => {
            proof { reveal_strlit("3"); }
            "3"
        },
        4 => {
            proof { reveal_strlit("4"); }
            "4"
        },
        5 => {
            proof { reveal_strlit("5"); }
            "5"
        },
        6 => {
            proof { reveal_strlit("6"); }
            "6"
        },
        7 => {
            proof { reveal_strlit("7"); }
            "7"
        },
        8 => {
            proof { reveal_strlit("8"); }
            "8"
        },
        _ => {
            proof { reveal_strlit("9"); }
            "9"
        },
    }
}

/// Appends the decimal representation of `n` to `out`.
pub fn push_decimal(out: &mut String, n: u64)
    ensures
        final(out)@ == old(out)@ + decimal(n as nat),
    decreases n,
{
    if n < 10 {
        out.append(digit_text(n));
    } else {
        push_decimal(out, n / 10);
        out.append(digit_text(n % 10));
        assert(decimal(n as nat) == decimal((n / 10) as nat).push(digit_char((n % 10) as int)));
    }
}

/// The decimal representation of `n`.
pub fn decimal_text(n: u64) -> (r: String)
    ensures
        r@ == decimal(n as nat),
{
    let mut out = String::new();
    push_decimal(&mut out, n);
    assert(out@ =~= decimal(n as nat));
    out
}

pub proof fn lemma_digit_char(d: int)
    requires
        0 <= d < 10,
    ensures
        digit_char(d) as int == 48 + d,
        is_digit(digit_char(d)),
        digit_char(d) != '+',
{
}

pub proof fn lemma_all_digits_push(s: Seq<char>, c: char)
    requires
        all_digits(s),
        is_digit(c),
    ensures
        all_digits(s.push(c)),
{
    assert forall|i: int| 0 <= i < s.push(c).len() implies is_digit(#[trigger] s.push(c)[i]) by {
        if i < s.len() {
            assert(s.push(c)[i] == s[i]);
        }
    }
}

pub proof fn lemma_digits_value_prefix(s: Seq<char>, k: int)
    requires
        0 <= k <= s.len(),
        all_digits(s),
    ensures
        digits_value(s.take(k)) <= digits_value(s),
    decreases s.len(),
{
    if k < s.len() {
        assert(is_digit(s[s.len() - 1]));
        lemma_digits_value_prefix(s.drop_last(), k);
        assert(s.drop_last().take(k) =~= s.take(k));
    } else {
        assert(s.take(k) =~= s);
    }
}

/// `str::parse::<u64>`, with `None` for every input it rejects.
pub fn parse_u64_text(s: &str) -> (r: Option<u64>)
    ensures
        r == parse_u64(s@),
{
    let v = chars_of(s);
    let start: usize = if v.len() > 0 && v[0] == '+' { 1 } else { 0 };
    let ghost d = unsigned_digits(s@);
    assert(d =~= v@.subrange(start as int, v@.len() as int));
    if start >= v.len() {
        return None;
    }
    let mut value: u64 = 0;
    let mut i: usize = start;
    assert(d.take(0) =~= Seq::<char>::empty());
    while i < v.len()
        invariant
            v@ == s@,
            start <= i <= v@.len(),
            d == v@.subrange(start as int, v@.len() as int),
            d == unsigned_digits(s@),
            d.len() > 0,
            all_digits(d.take(i - start)),
            value == digits_value(d.take(i - start)),
        decreases v@.len() - i,
    {
        let c = v[i];
        let ghost t = d.take(i - start + 1);
        assert(t.drop_last() =~= d.take(i - start));
        assert(t.last() == c);
        if !('0' <= c && c <= '9') {
            assert(!is_digit(d[i - start]));
            assert(!all_digits(d));
            return None;
        }
        let digit = (c as u32 - 48) as u64;
        if value > (u64::MAX - digit) / 10 {
            proof {
                assert(value * 10 + digit > u64::MAX) by (nonlinear_arith)
                    requires
                        value > (u64::MAX - digit) / 10,
                        digit <= 9,
                ;
                lemma_all_digits_push(d.take(i - start), c);
                assert(t =~= d.take(i - start).push(c));
                assert(all_digits(t));
                assert(digits_value(t) > u64::MAX);
                if all_digits(d) {
                    lemma_digits_value_prefix(d, i - start + 1);
                }
            }
            return None;
        }
        proof {
            assert(value * 10 + digit <= u64::MAX) by (nonlinear_arith)
                requires
                    value <= (u64::MAX - digit) / 10,
                    digit <= 9,
            ;
        }
        value = value * 10 + digit;
        i = i + 1;
        proof {
            lemma_all_digits_push(d.take(i - 1 - start), c);
            assert(t =~= d.take(i - 1 - start).push(c));
        }
    }
    assert(d.take(i - start) =~= d);
    Some(value)
}

pub proof fn lemma_decimal_shape(n: nat)
    ensures
        decimal(n).len() > 0,
        all_digits(decimal(n)),
        digits_value(decimal(n)) == n,
        decimal(n)[0] != '+',
    decreases n,
{
    lemma_digit_char((n % 10) as int);
    if n < 10 {
        let e = Seq::<char>::empty();
        assert(decimal(n) == seq![digit_char(n as int)]);
        assert(decimal(n).drop_last() =~= e);
        assert(decimal(n).last() == digit_char(n as int));
        assert(digits_value(e) == 0);
        assert(digits_value(decimal(n)) == (digits_value(e) * 10 + ((digit_char(n as int) as int) - 48)) as nat);
    } else {
        lemma_decimal_shape(n / 10);
        let p = decimal(n / 10);
        assert(decimal(n).drop_last() =~= p);
        assert((n / 10) * 10 + n % 10 == n) by (nonlinear_arith);
        assert(decimal(n)[0] == p[0]);
        assert forall|i: int| 0 <= i < decimal(n).len() implies is_digit(#[trigger] decimal(n)[i]) by {
            if i < p.len() {
                assert(decimal(n)[i] == p[i]);
            }
        }
    }
}

/// Reading back a written number gives the number.
pub proof fn lemma_parse_decimal(n: u64)
    ensures
        parse_u64(decimal(n as nat)) == Some(n),
{
    lemma_decimal_shape(n as nat);
}


// ---------------------------------------------------------------------------
// Ordering of texts
// ---------------------------------------------------------------------------

/// The order of `String`: lexicographic by character (which is the order of
/// the UTF-8 bytes).
pub open spec fn text_lt(a: Seq<char>, b: Seq<char>) -> bool
    decreases a.len(),
{
    if a.len() == 0 {
        b.len() > 0
    } else if b.len() == 0 {
        false
    } else if a[0] != b[0] {
        (a[0] as int) < (b[0] as int)
    } else {
        text_lt(a.drop_first(), b.drop_first())
    }
}

pub proof fn lemma_text_lt_total(a: Seq<char>, b: Seq<char>)
    ensures
        !text_lt(a, a),
        text_lt(a, b) ==> !text_lt(b, a),
        a != b ==> text_lt(a, b) || text_lt(b, a),
    decreases a.len(),
{
    if a.len() > 0 && b.len() > 0 {
        lemma_text_lt_total(a.drop_first(), b.drop_first());
        lemma_text_lt_total(a.drop_first(), a.drop_first());
        if a[0] == b[0] && a.drop_first() == b.drop_first() {
            assert(a =~= seq![a[0]] + a.drop_first());
            assert(b =~= seq![b[0]] + b.drop_first());
        }
    } else if a.len() > 0 {
        lemma_text_lt_total(a.drop_first(), a.drop_first());
    } else if b.len() == 0 {
        assert(a =~= b);
    }
}

pub proof fn lemma_text_lt_transitive(a: Seq<char>, b: Seq<char>, c: Seq<char>)
    requires
        text_lt(a, b),
        text_lt(b, c),
    ensures
        text_lt(a, c),
    decreases a.len(),
{
    if a.len() > 0 && b.len() > 0 && c.len() > 0 {
        if a[0] == b[0] && b[0] == c[0] {
            lemma_text_lt_transitive(a.drop_first(), b.drop_first(), c.drop_first());
        }
    }
}

/// Whether `a` sorts before `b`.
pub fn text_less(a: &Vec<char>, b: &Vec<char>) -> (r: bool)
    ensures
        r == text_lt(a@, b@),
{
    let mut i: usize = 0;
    assert(a@.skip(0) =~= a@);
    assert(b@.skip(0) =~= b@);
    while i < a.len() && i < b.len() && a[i] == b[i]
        invariant
            i <= a@.len(),
            i <= b@.len(),
            text_lt(a@, b@) == text_lt(a@.skip(i as int), b@.skip(i as int)),
        decreases a@.len() - i,
    {
        assert(a@.skip(i as int).drop_first() =~= a@.skip(i + 1));
        assert(b@.skip(i as int).drop_first() =~= b@.skip(i + 1));
        i = i + 1;
    }
    let ghost sa = a@.skip(i as int);
    let ghost sb = b@.skip(i as int);
    if i == a.len() {
        assert(sa.len() == 0);
        i < b.len()
    } else if i == b.len() {
        assert(sb.len() == 0);
        false
    } else {
        assert(sa[0] == a@[i as int]);
        assert(sb[0] == b@[i as int]);
        a[i] < b[i]
    }
}

/// Every text of `s` sorts strictly before the ones after it, so no text
/// occurs twice.
pub open spec fn strictly_ascending(s: Seq<Seq<char>>) -> bool {
    forall|i: int, j: int| 0 <= i < j < s.len() ==> text_lt(#[trigger] s[i], #[trigger] s[j])
}

/// Whether `x` is one of the texts of `v`.
pub open spec fn holds_text(v: Seq<String>, x: Seq<char>) -> bool {
    exists|i: int| 0 <= i < v.len() && #[trigger] v[i]@ == x
}

/// The texts of `items`, sorted and with repetitions removed
/// (`sort` followed by `dedup`).
pub fn sorted_unique(items: Vec<String>) -> (r: Vec<String>)
    ensures
        strictly_ascending(views(r@)),
        forall|x: Seq<char>| holds_text(r@, x) <==> holds_text(items@, x),
{
    let mut res: Vec<String> = Vec::new();
    let mut i: usize = 0;
    while i < items.len()
        invariant
            i <= items@.len(),
            strictly_ascending(views(res@)),
            forall|x: Seq<char>| holds_text(res@, x) <==> holds_text(items@.take(i as int), x),
        decreases items@.len() - i,
    {
        let item = &items[i];
        let key = chars_of(item.as_str());
        let mut lo: usize = 0;
        let mut hi: usize = res.len();
        while lo < hi
            invariant
                0 <= lo <= hi <= res@.len(),
                key@ == item@,
                strictly_ascending(views(res@)),
                forall|j: int| 0 <= j < lo ==> text_lt(#[trigger] res@[j]@, key@),
                forall|j: int| hi <= j < res@.len() ==> !text_lt(#[trigger] res@[j]@, key@),
            decreases hi - lo,
        {
            let mid = lo + (hi - lo) / 2;
            let mk = chars_of(res[mid].as_str());
            if text_less(&mk, &key) {
                proof {
                    assert forall|j: int| 0 <= j < mid + 1 implies text_lt(#[trigger] res@[j]@, key@) by {
                        if j < mid {
                            assert(views(res@)[j] == res@[j]@);
                            assert(views(res@)[mid as int] == res@[mid as int]@);
                            lemma_text_lt_transitive(res@[j]@, res@[mid as int]@, key@);
                        }
                    }
                }
                lo = mid + 1;
            } else {
                proof {
                    assert forall|j: int| mid <= j < res@.len() implies !text_lt(#[trigger] res@[j]@, key@) by {
                        if j > mid {
                            assert(views(res@)[j] == res@[j]@);
                            assert(views(res@)[mid as int] == res@[mid as int]@);
                            if text_lt(res@[j]@, key@) {
                                lemma_text_lt_transitive(res@[mid as int]@, res@[j]@, key@);
                            }
                        }
                    }
                }
                hi = mid;
            }
        }
        let ghost prev = res@;
        let mut present = false;
        if lo < res.len() {
            let pk = chars_of(res[lo].as_str());
            present = !text_less(&key, &pk);
            proof {
                lemma_text_lt_total(pk@, key@);
            }
        }
        assert(items@.take(i + 1) =~= items@.take(i as int).push(items@[i as int]));
        if present {
            proof {
                assert forall|x: Seq<char>| holds_text(res@, x) <==> holds_text(items@.take(i + 1), x) by {
                    let t = items@.take(i + 1);
                    if holds_text(t, x) {
                        let k = choose|k: int| 0 <= k < t.len() && #[trigger] t[k]@ == x;
                        if k == i {
                            assert(res@[lo as int]@ == x);
                        } else {
                            assert(items@.take(i as int)[k] == t[k]);
                        }
                    }
                    if holds_text(res@, x) {
                        let k = choose|k: int| 0 <= k < items@.take(i as int).len() && #[trigger] items@.take(i as int)[k]@ == x;
                        assert(t[k] == items@.take(i as int)[k]);
                    }
                }
            }
        } else {
            let owned = item.clone();
            res.insert(lo, owned);
            proof {
                let p = lo as int;
                assert(views(res@) =~= views(prev).insert(p, key@));
                assert forall|a: int, b: int| 0 <= a < b < views(res@).len() implies text_lt(
                    #[trigger] views(res@)[a],
                    #[trigger] views(res@)[b],
                ) by {
                    let w = views(prev);
                    if b < p {
                        assert(text_lt(w[a], w[b]));
                    } else if b == p {
                        assert(w[a] == prev[a]@);
                    } else if a < p {
                        assert(w[a] == prev[a]@);
                        assert(w[b - 1] == prev[b - 1]@);
                        assert(text_lt(w[a], w[b - 1]));
                    } else if a == p {
                        assert(w[b - 1] == prev[b - 1]@);
                        assert(!text_lt(prev[b - 1]@, key@));
                        lemma_text_lt_total(prev[b - 1]@, key@);
                        if p < prev.len() && b - 1 > p {
                            assert(w[p] == prev[p]@);
                            assert(text_lt(w[p], w[b - 1]));
                            lemma_text_lt_total(prev[p]@, key@);
                            if prev[b - 1]@ == key@ {
                                lemma_text_lt_total(prev[p]@, prev[b - 1]@);
                            }
                        } else {
                            lemma_text_lt_total(prev[p]@, key@);
                        }
                    } else {
                        assert(text_lt(w[a - 1], w[b - 1]));
                    }
                }
                assert forall|x: Seq<char>| holds_text(res@, x) <==> holds_text(items@.take(i + 1), x) by {
                    let t = items@.take(i + 1);
                    if holds_text(t, x) {
                        let k = choose|k: int| 0 <= k < t.len() && #[trigger] t[k]@ == x;
                        if k == i {
                            assert(res@[p]@ == x);
                        } else {
                            assert(items@.take(i as int)[k] == t[k]);
                            assert(holds_text(prev, x));
                            let m = choose|m: int| 0 <= m < prev.len() && #[trigger] prev[m]@ == x;
                            if m < p {
                                assert(res@[m] == prev[m]);
                            } else {
                                assert(res@[m + 1] == prev[m]);
                            }
                        }
                    }
                    if holds_text(res@, x) {
                        let m = choose|m: int| 0 <= m < res@.len() && #[trigger] res@[m]@ == x;
                        if m == p {
                            assert(t[i as int]@ == x);
                        } else if m < p {
                            assert(prev[m] == res@[m]);
                            assert(holds_text(prev, x));
                            let k = choose|k: int| 0 <= k < items@.take(i as int).len() && #[trigger] items@.take(i as int)[k]@ == x;
                            assert(t[k] == items@.take(i as int)[k]);
                        } else {
                            assert(prev[m - 1] == res@[m]);
                            assert(holds_text(prev, x));
                            let k = choose|k: int| 0 <= k < items@.take(i as int).len() && #[trigger] items@.take(i as int)[k]@ == x;
                            assert(t[k] == items@.take(i as int)[k]);
                        }
                    }
                }
            }
        }
        i = i + 1;
    }
    assert(items@.take(i as int) =~= items@);
    res
}

} // verus!
