//! Character-level text helpers shared by the configuration parsers:
//! whitespace, trimming, searching for a character, and splitting into lines.
use vstd::prelude::*;

verus! {

/// Whether `c` has the Unicode `White_Space` property (what `char::is_whitespace` tests).
pub open spec fn is_ws(c: char) -> bool {
    let u = c as u32;
    ||| (9 <= u && u <= 13)
    ||| u == 32
    ||| u == 0x85
    ||| u == 0xA0
    ||| u == 0x1680
    ||| (0x2000 <= u && u <= 0x200A)
    ||| u == 0x2028
    ||| u == 0x2029
    ||| u == 0x202F
    ||| u == 0x205F
    ||| u == 0x3000
}

/// `s` without its leading whitespace.
pub open spec fn trim_start(s: Seq<char>) -> Seq<char>
    decreases s.len(),
{
    if s.len() > 0 && is_ws(s[0]) {
        trim_start(s.drop_first())
    } else {
        s
    }
}

/// `s` without its trailing whitespace.
pub open spec fn trim_end(s: Seq<char>) -> Seq<char>
    decreases s.len(),
{
    if s.len() > 0 && is_ws(s.last()) {
        trim_end(s.drop_last())
    } else {
        s
    }
}

/// `s` without leading and trailing whitespace (what `str::trim` returns).
pub open spec fn trim(s: Seq<char>) -> Seq<char> {
    trim_end(trim_start(s))
}

/// `s` neither begins nor ends with whitespace.
pub open spec fn is_trimmed(s: Seq<char>) -> bool {
    s.len() > 0 ==> !is_ws(s[0]) && !is_ws(s.last())
}

/// Position of the first `c` in `s`, if there is one.
pub open spec fn find_char(s: Seq<char>, c: char) -> Option<int>
    decreases s.len(),
{
    if s.len() == 0 {
        None
    } else if s[0] == c {
        Some(0)
    } else {
        match find_char(s.drop_first(), c) {
            Some(i) => Some(i + 1),
            None => None,
        }
    }
}

/// The lines of `s`: the pieces between `'\n'` characters, where a final
/// `'\n'` does not start an extra empty line.
pub open spec fn split_lines(s: Seq<char>) -> Seq<Seq<char>>
    decreases s.len(),
{
    if s.len() == 0 {
        Seq::empty()
    } else {
        match find_char(s, '\n') {
            None => seq![s],
            Some(i) => if 0 <= i < s.len() {
                seq![s.take(i)] + split_lines(s.skip(i + 1))
            } else {
                Seq::empty()
            },
        }
    }
}

/// The pieces of `ls` joined with `'\n'` between consecutive pieces.
pub open spec fn join_lines(ls: Seq<Seq<char>>) -> Seq<char>
    decreases ls.len(),
{
    if ls.len() == 0 {
        Seq::empty()
    } else if ls.len() == 1 {
        ls[0]
    } else {
        ls[0] + seq!['\n'] + join_lines(ls.drop_first())
    }
}

/// `needle` occurs in `hay` as a contiguous piece.
pub open spec fn contains_seq(hay: Seq<char>, needle: Seq<char>) -> bool {
    exists|i: int| 0 <= i <= hay.len() - needle.len() && #[trigger] hay.subrange(i, i + needle.len()) == needle
}

// ---------------------------------------------------------------------------
// Lemmas

/// `find_char` gives the first occurrence, and `None` exactly when there is none.
pub proof fn lemma_find_char(s: Seq<char>, c: char)
    ensures
        match find_char(s, c) {
            Some(i) => 0 <= i < s.len() && s[i] == c && forall|j: int| 0 <= j < i ==> s[j] != c,
            None => forall|j: int| 0 <= j < s.len() ==> s[j] != c,
        },
    decreases s.len(),
{
    if s.len() > 0 && s[0] != c {
        lemma_find_char(s.drop_first(), c);
        match find_char(s.drop_first(), c) {
            Some(i) => {
                assert forall|j: int| 0 <= j < i + 1 implies s[j] != c by {
                    if j > 0 {
                        assert(s[j] == s.drop_first()[j - 1]);
                    }
                }
            },
            None => {
                assert forall|j: int| 0 <= j < s.len() implies s[j] != c by {
                    if j > 0 {
                        assert(s[j] == s.drop_first()[j - 1]);
                    }
                }
            },
        }
    }
}

/// A first occurrence at `i` is what `find_char` reports.
pub proof fn lemma_find_char_at(s: Seq<char>, c: char, i: int)
    requires
        0 <= i < s.len(),
        s[i] == c,
        forall|j: int| 0 <= j < i ==> s[j] != c,
    ensures
        find_char(s, c) == Some(i),
{
    lemma_find_char(s, c);
    match find_char(s, c) {
        Some(k) => {
            if k < i {
                assert(s[k] != c);
            } else if k > i {
                assert(s[i] != c);
            }
        },
        None => {
            assert(s[i] != c);
        },
    }
}

/// No occurrence at all means `find_char` reports `None`.
pub proof fn lemma_find_char_none(s: Seq<char>, c: char)
    requires
        forall|j: int| 0 <= j < s.len() ==> s[j] != c,
    ensures
        find_char(s, c) is None,
{
    lemma_find_char(s, c);
    if let Some(k) = find_char(s, c) {
        assert(s[k] != c);
    }
}

/// `trim_start` drops exactly the leading whitespace run.
pub proof fn lemma_trim_start_skip(s: Seq<char>, k: int)
    requires
        0 <= k <= s.len(),
        forall|j: int| 0 <= j < k ==> is_ws(s[j]),
        k == s.len() || !is_ws(s[k]),
    ensures
        trim_start(s) == s.skip(k),
    decreases k,
{
    if k == 0 {
        assert(s.skip(0) =~= s);
    } else {
        let t = s.drop_first();
        assert forall|j: int| 0 <= j < k - 1 implies is_ws(t[j]) by {
            assert(t[j] == s[j + 1]);
        }
        if k - 1 < t.len() {
            assert(t[k - 1] == s[k]);
        }
        lemma_trim_start_skip(t, k - 1);
        assert(t.skip(k - 1) =~= s.skip(k));
    }
}

/// `trim_end` drops exactly the trailing whitespace run.
pub proof fn lemma_trim_end_take(s: Seq<char>, k: int)
    requires
        0 <= k <= s.len(),
        forall|j: int| k <= j < s.len() ==> is_ws(s[j]),
        k == 0 || !is_ws(s[k - 1]),
    ensures
        trim_end(s) == s.take(k),
    decreases s.len() - k,
{
    if k == s.len() {
        assert(s.take(k) =~= s);
    } else {
        let t = s.drop_last();
        assert forall|j: int| k <= j < t.len() implies is_ws(t[j]) by {
            assert(t[j] == s[j]);
        }
        if k > 0 {
            assert(t[k - 1] == s[k - 1]);
        }
        lemma_trim_end_take(t, k);
        assert(t.take(k) =~= s.take(k));
    }
}

/// Trimming a piece that has no whitespace at its ends changes nothing.
pub proof fn lemma_trim_trimmed(s: Seq<char>)
    requires
        is_trimmed(s),
    ensures
        trim(s) == s,
{
    lemma_trim_start_skip(s, 0);
    assert(s.skip(0) =~= s);
    lemma_trim_end_take(s, s.len() as int);
    assert(s.take(s.len() as int) =~= s);
}

/// `trim(s)` is the piece of `s` between its first and last non-whitespace characters.
pub proof fn lemma_trim_range(s: Seq<char>, a: int, b: int)
    requires
        0 <= a <= b <= s.len(),
        forall|j: int| 0 <= j < a ==> is_ws(s[j]),
        forall|j: int| b <= j < s.len() ==> is_ws(s[j]),
        a == b ==> b == s.len(),
        a < b ==> !is_ws(s[a]) && !is_ws(s[b - 1]),
    ensures
        trim(s) == s.subrange(a, b),
{
    if a == b {
        lemma_trim_start_skip(s, a);
        assert(s.skip(a).len() == 0);
        assert(trim_end(s.skip(a)) == s.skip(a));
        assert(s.skip(a) =~= s.subrange(a, b));
    } else {
        lemma_trim_start_skip(s, a);
        let t = s.skip(a);
        assert forall|j: int| b - a <= j < t.len() implies is_ws(t[j]) by {
            assert(t[j] == s[j + a]);
        }
        assert(t[b - a - 1] == s[b - 1]);
        lemma_trim_end_take(t, b - a);
        assert(t.take(b - a) =~= s.subrange(a, b));
    }
}

/// A trimmed piece is trimmed, and trimming twice is trimming once.
pub proof fn lemma_trim_is_trimmed(s: Seq<char>)
    ensures
        is_trimmed(trim(s)),
        trim(trim(s)) == trim(s),
        exists|a: int, b: int| 0 <= a <= b <= s.len() && #[trigger] s.subrange(a, b) == trim(s),
    decreases s.len(),
{
    // first non-whitespace position
    let a = first_non_ws(s, 0);
    lemma_first_non_ws(s, 0);
    let b = last_non_ws_end(s, a);
    lemma_last_non_ws_end(s, a);
    if a == s.len() {
        lemma_trim_range(s, a, a);
    } else {
        lemma_trim_range(s, a, b);
    }
    let t = trim(s);
    lemma_trim_trimmed(t);
}

/// First position at or after `i` that does not hold whitespace (or `s.len()`).
pub open spec fn first_non_ws(s: Seq<char>, i: int) -> int
    decreases s.len() - i,
{
    if i < 0 || i >= s.len() {
        s.len() as int
    } else if is_ws(s[i]) {
        first_non_ws(s, i + 1)
    } else {
        i
    }
}

/// End of the last non-whitespace character at or after `a` (or `a` when there is none).
pub open spec fn last_non_ws_end(s: Seq<char>, a: int) -> int
    decreases s.len(),
{
    if s.len() <= a || s.len() == 0 {
        a
    } else if is_ws(s.last()) {
        last_non_ws_end(s.drop_last(), a)
    } else {
        s.len() as int
    }
}

pub proof fn lemma_first_non_ws(s: Seq<char>, i: int)
    requires
        0 <= i <= s.len(),
        forall|j: int| 0 <= j < i ==> is_ws(s[j]),
    ensures
        i <= first_non_ws(s, i) <= s.len(),
        forall|j: int| 0 <= j < first_non_ws(s, i) ==> is_ws(s[j]),
        first_non_ws(s, i) < s.len() ==> !is_ws(s[first_non_ws(s, i)]),
    decreases s.len() - i,
{
    if i < s.len() && is_ws(s[i]) {
        lemma_first_non_ws(s, i + 1);
    }
}

pub proof fn lemma_last_non_ws_end(s: Seq<char>, a: int)
    requires
        0 <= a <= s.len(),
        a < s.len() ==> !is_ws(s[a]),
    ensures
        a <= last_non_ws_end(s, a) <= s.len(),
        forall|j: int| last_non_ws_end(s, a) <= j < s.len() ==> is_ws(s[j]),
        a < s.len() ==> a < last_non_ws_end(s, a) && !is_ws(s[last_non_ws_end(s, a) - 1]),
    decreases s.len(),
{
    if s.len() > a && is_ws(s.last()) {
        let t = s.drop_last();
        if a < t.len() {
            assert(t[a] == s[a]);
        } else {
            // a == s.len() - 1, but s[a] is whitespace: impossible
            assert(s[a] == s.last());
        }
        lemma_last_non_ws_end(t, a);
        let e = last_non_ws_end(t, a);
        assert forall|j: int| e <= j < s.len() implies is_ws(s[j]) by {
            if j < t.len() {
                assert(t[j] == s[j]);
            }
        }
        if a < s.len() {
            assert(t[e - 1] == s[e - 1]);
        }
    }
}

/// Splitting the join of non-empty, newline-free pieces gives the pieces back.
pub proof fn lemma_split_join(ls: Seq<Seq<char>>)
    requires
        forall|i: int| 0 <= i < ls.len() ==> #[trigger] ls[i].len() > 0 && !ls[i].contains('\n'),
    ensures
        split_lines(join_lines(ls)) == ls,
    decreases ls.len(),
{
    if ls.len() == 0 {
        assert(split_lines(join_lines(ls)) =~= ls);
    } else if ls.len() == 1 {
        let s = ls[0];
        assert(ls[0].len() > 0);
        assert forall|j: int| 0 <= j < s.len() implies s[j] != '\n' by {
            if s[j] == '\n' {
                assert(s.contains('\n'));
            }
        }
        lemma_find_char_none(s, '\n');
        assert(split_lines(s) =~= seq![s]);
        assert(ls =~= seq![s]);
    } else {
        let first = ls[0];
        let rest = ls.drop_first();
        assert(ls[0].len() > 0);
        assert forall|i: int| 0 <= i < rest.len() implies #[trigger] rest[i].len() > 0 && !rest[i].contains('\n') by {
            assert(rest[i] == ls[i + 1]);
            assert(ls[i + 1].len() > 0);
        }
        lemma_split_join(rest);
        let j = join_lines(ls);
        assert(j == first + seq!['\n'] + join_lines(rest));
        let n = first.len() as int;
        assert forall|k: int| 0 <= k < n implies j[k] != '\n' by {
            assert(j[k] == first[k]);
            if first[k] == '\n' {
                assert(first.contains('\n'));
            }
        }
        assert(j[n] == '\n');
        lemma_find_char_at(j, '\n', n);
        assert(j.take(n) =~= first);
        assert(j.skip(n + 1) =~= join_lines(rest));
        assert(split_lines(j) =~= seq![first] + rest);
        assert(ls =~= seq![first] + rest);
    }
}

/// Appending one more piece to a join adds a newline and the piece.
pub proof fn lemma_join_push(ls: Seq<Seq<char>>, l: Seq<char>)
    requires
        ls.len() > 0,
    ensures
        join_lines(ls.push(l)) == join_lines(ls) + seq!['\n'] + l,
    decreases ls.len(),
{
    assert(ls.push(l)[0] == ls[0]);
    if ls.len() == 1 {
        assert(ls.push(l).drop_first() =~= seq![l]);
        assert(seq![l][0] == l);
        assert(join_lines(seq![l]) == l);
        assert(join_lines(ls) == ls[0]);
        assert(join_lines(ls.push(l)) == ls[0] + seq!['\n'] + join_lines(ls.push(l).drop_first()));
    } else {
        lemma_join_push(ls.drop_first(), l);
        assert(ls.push(l).drop_first() =~= ls.drop_first().push(l));
        assert(join_lines(ls.push(l)) =~= join_lines(ls) + seq!['\n'] + l);
    }
}

/// The lines of `s` start with the piece up to the first newline.
pub proof fn lemma_split_lines_step(s: Seq<char>, e: int)
    requires
        0 <= e <= s.len(),
        s.len() > 0,
        forall|j: int| 0 <= j < e ==> s[j] != '\n',
        e < s.len() ==> s[e] == '\n',
    ensures
        e == s.len() ==> split_lines(s) == seq![s],
        e < s.len() ==> split_lines(s) == seq![s.take(e)] + split_lines(s.skip(e + 1)),
{
    if e < s.len() {
        lemma_find_char_at(s, '\n', e);
    } else {
        lemma_find_char_none(s, '\n');
    }
}

// ---------------------------------------------------------------------------
// Executable helpers

/// Whether `c` is Unicode whitespace.
pub fn is_whitespace(c: char) -> (r: bool)
    ensures
        r == is_ws(c),
{
    let u = c as u32;
    (9 <= u && u <= 13) || u == 32 || u == 0x85 || u == 0xA0 || u == 0x1680 || (0x2000 <= u && u
        <= 0x200A) || u == 0x2028 || u == 0x2029 || u == 0x202F || u == 0x205F || u == 0x3000
}

/// The characters of `s`, in order.
pub fn chars_of(s: &str) -> (v: Vec<char>)
    ensures
        v@ == s@,
{
    let mut v: Vec<char> = Vec::new();
    for c in it: s.chars()
        invariant
            v@ == it.seq().take(it.index() as int),
    {
        v.push(c);
    }
    v
}

/// Bounds of the trimmed piece of `v[lo..hi]`.
pub fn trim_bounds(v: &Vec<char>, lo: usize, hi: usize) -> (r: (usize, usize))
    requires
        lo <= hi <= v.len(),
    ensures
        lo <= r.0 <= r.1 <= hi,
        v@.subrange(r.0 as int, r.1 as int) == trim(v@.subrange(lo as int, hi as int)),
{
    let ghost s = v@.subrange(lo as int, hi as int);
    let mut a = lo;
    while a < hi && is_whitespace(v[a])
        invariant
            lo <= a <= hi <= v.len(),
            s == v@.subrange(lo as int, hi as int),
            forall|j: int| 0 <= j < a - lo ==> is_ws(s[j]),
        decreases hi - a,
    {
        a = a + 1;
    }
    let mut b = hi;
    while b > a && is_whitespace(v[b - 1])
        invariant
            lo <= a <= b <= hi <= v.len(),
            s == v@.subrange(lo as int, hi as int),
            forall|j: int| b - lo <= j < s.len() ==> is_ws(s[j]),
        decreases b - a,
    {
        b = b - 1;
    }
    proof {
        if a == b {
            assert forall|j: int| 0 <= j < s.len() implies is_ws(s[j]) by {
                if j >= a - lo {
                    assert(j >= b - lo);
                }
            }
            if a < hi {
                assert(s[a - lo] == v@[a as int]);
            }
            assert(a == hi);
            lemma_trim_range(s, (a - lo) as int, (a - lo) as int);
            assert(s.subrange((a - lo) as int, (a - lo) as int) =~= v@.subrange(a as int, b as int));
        } else {
            assert(!is_ws(s[a - lo]));
            assert(!is_ws(s[b - lo - 1]));
            lemma_trim_range(s, (a - lo) as int, (b - lo) as int);
            assert(s.subrange((a - lo) as int, (b - lo) as int) =~= v@.subrange(a as int, b as int));
        }
    }
    (a, b)
}

/// Position of the first `c` in `v[lo..hi]` (as an index into `v`), or `hi` when there is none.
pub fn find_char_in(v: &Vec<char>, lo: usize, hi: usize, c: char) -> (r: usize)
    requires
        lo <= hi <= v.len(),
    ensures
        lo <= r <= hi,
        forall|j: int| lo <= j < r ==> v@[j] != c,
        r < hi ==> v@[r as int] == c,
        r < hi ==> find_char(v@.subrange(lo as int, hi as int), c) == Some(r - lo),
        r == hi ==> find_char(v@.subrange(lo as int, hi as int), c) is None,
{
    let mut i = lo;
    while i < hi && v[i] != c
        invariant
            lo <= i <= hi <= v.len(),
            forall|j: int| lo <= j < i ==> v@[j] != c,
        decreases hi - i,
    {
        i = i + 1;
    }
    proof {
        let s = v@.subrange(lo as int, hi as int);
        if i < hi {
            lemma_find_char_at(s, c, (i - lo) as int);
        } else {
            lemma_find_char_none(s, c);
        }
    }
    i
}

/// Whether `v[lo..hi]` holds exactly the characters of `w`.
pub fn range_equals(v: &Vec<char>, lo: usize, hi: usize, w: &str) -> (r: bool)
    requires
        lo <= hi <= v.len(),
    ensures
        r == (v@.subrange(lo as int, hi as int) == w@),
{
    let n = w.unicode_len();
    if hi - lo != n {
        return false;
    }
    let mut i: usize = 0;
    while i < n
        invariant
            lo <= hi <= v.len(),
            hi - lo == n,
            n == w@.len(),
            i <= n,
            forall|j: int| 0 <= j < i ==> v@[lo + j] == w@[j],
        decreases n - i,
    {
        if v[lo + i] != w.get_char(i) {
            assert(v@.subrange(lo as int, hi as int)[i as int] != w@[i as int]);
            return false;
        }
        i = i + 1;
    }
    assert(v@.subrange(lo as int, hi as int) =~= w@);
    true
}

/// Whether `needle` occurs in `hay` (what `str::contains` answers for a text pattern).
pub fn contains_text(hay: &str, needle: &str) -> (r: bool)
    ensures
        r == contains_seq(hay@, needle@),
{
    let h = chars_of(hay);
    let w = chars_of(needle);
    let n = h.len();
    let m = w.len();
    if m > n {
        proof {
            if contains_seq(hay@, needle@) {
                let i = choose|i: int| 0 <= i <= hay@.len() - needle@.len() && #[trigger] hay@.subrange(i, i + needle@.len()) == needle@;
            }
        }
        return false;
    }
    let mut i: usize = 0;
    while i <= n - m
        invariant
            h@ == hay@,
            w@ == needle@,
            n == h.len(),
            m == w.len(),
            m <= n,
            i <= n - m + 1,
            forall|k: int| 0 <= k < i ==> #[trigger] hay@.subrange(k, k + m) != needle@,
        decreases n - m + 1 - i,
    {
        let mut j: usize = 0;
        while j < m && h[i + j] == w[j]
            invariant
                h@ == hay@,
                w@ == needle@,
                n == h.len(),
                m == w.len(),
                i + m <= n,
                j <= m,
                forall|t: int| 0 <= t < j ==> h@[i + t] == w@[t],
            decreases m - j,
        {
            j = j + 1;
        }
        if j == m {
            assert(hay@.subrange(i as int, i + m) =~= needle@);
            return true;
        }
        assert(hay@.subrange(i as int, i + m)[j as int] != needle@[j as int]);
        i = i + 1;
    }
    proof {
        if contains_seq(hay@, needle@) {
            let k = choose|k: int| 0 <= k <= hay@.len() - needle@.len() && #[trigger] hay@.subrange(k, k + needle@.len()) == needle@;
            assert(hay@.subrange(k, k + m) != needle@);
        }
    }
    false
}

/// The characters `v[lo..hi]` of `s` (whose characters are `v`), as a new string.
pub fn substring(s: &str, v: &Vec<char>, lo: usize, hi: usize) -> (r: String)
    requires
        v@ == s@,
        lo <= hi <= v.len(),
    ensures
        r@ == v@.subrange(lo as int, hi as int),
{
    String::from_str(s.substring_char(lo, hi))
}

} // verus!
