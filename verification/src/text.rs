use vstd::prelude::*;
use vstd::string::*;

verus! {

/// Whitespace characters, matching the Unicode `White_Space` property that
/// `str::trim` strips.
pub open spec fn is_space_char(c: char) -> bool {
    let u = c as u32;
    u == 0x09 || u == 0x0A || u == 0x0B || u == 0x0C || u == 0x0D || u == 0x20 || u == 0x85
        || u == 0xA0 || u == 0x1680 || (0x2000 <= u && u <= 0x200A) || u == 0x2028 || u == 0x2029
        || u == 0x202F || u == 0x205F || u == 0x3000
}

pub fn is_space(c: char) -> (r: bool)
    ensures
        r == is_space_char(c),
{
    let u = c as u32;
    u == 0x09 || u == 0x0A || u == 0x0B || u == 0x0C || u == 0x0D || u == 0x20 || u == 0x85
        || u == 0xA0 || u == 0x1680 || (0x2000 <= u && u <= 0x200A) || u == 0x2028 || u == 0x2029
        || u == 0x202F || u == 0x205F || u == 0x3000
}

/// Character-for-character equality of two string slices.
pub fn str_eq(a: &str, b: &str) -> (r: bool)
    ensures
        r == (a@ == b@),
{
    let alen = a.unicode_len();
    let blen = b.unicode_len();
    if alen != blen {
        return false;
    }
    let mut i: usize = 0;
    while i < alen
        invariant
            alen == a@.len(),
            blen == b@.len(),
            alen == blen,
            0 <= i <= alen,
            forall|j: int| 0 <= j < i ==> a@[j] == b@[j],
        decreases alen - i,
    {
        if a.get_char(i) != b.get_char(i) {
            return false;
        }
        i += 1;
    }
    proof {
        assert(a@ =~= b@);
    }
    true
}

pub open spec fn spec_starts_with(s: Seq<char>, p: Seq<char>) -> bool {
    s.len() >= p.len() && s.subrange(0, p.len() as int) == p
}

pub fn starts_with_str(s: &str, p: &str) -> (r: bool)
    ensures
        r == spec_starts_with(s@, p@),
{
    let slen = s.unicode_len();
    let plen = p.unicode_len();
    if slen < plen {
        assert(!spec_starts_with(s@, p@));
        return false;
    }
    let mut i: usize = 0;
    while i < plen
        invariant
            slen == s@.len(),
            plen == p@.len(),
            plen <= slen,
            0 <= i <= plen,
            forall|j: int| 0 <= j < i ==> s@[j] == p@[j],
        decreases plen - i,
    {
        if s.get_char(i) != p.get_char(i) {
            assert(s@.subrange(0, p@.len() as int)[i as int] != p@[i as int]);
            return false;
        }
        i += 1;
    }
    proof {
        assert(s@.subrange(0, p@.len() as int) =~= p@);
    }
    true
}

pub open spec fn spec_ends_with(s: Seq<char>, p: Seq<char>) -> bool {
    s.len() >= p.len() && s.subrange(s.len() - p.len(), s.len() as int) == p
}

pub fn ends_with_str(s: &str, p: &str) -> (r: bool)
    ensures
        r == spec_ends_with(s@, p@),
{
    let slen = s.unicode_len();
    let plen = p.unicode_len();
    if slen < plen {
        assert(!spec_ends_with(s@, p@));
        return false;
    }
    let off = slen - plen;
    let mut i: usize = 0;
    while i < plen
        invariant
            slen == s@.len(),
            plen == p@.len(),
            plen <= slen,
            off == slen - plen,
            0 <= i <= plen,
            forall|j: int| 0 <= j < i ==> s@[off + j] == p@[j],
        decreases plen - i,
    {
        if s.get_char(off + i) != p.get_char(i) {
            assert(s@.subrange(s@.len() - p@.len(), s@.len() as int)[i as int] != p@[i as int]);
            return false;
        }
        i += 1;
    }
    proof {
        assert(s@.subrange(s@.len() - p@.len(), s@.len() as int) =~= p@);
    }
    true
}

pub open spec fn trim_front(s: Seq<char>) -> Seq<char>
    decreases s.len(),
{
    if s.len() > 0 && is_space_char(s[0]) {
        trim_front(s.skip(1))
    } else {
        s
    }
}

pub open spec fn trim_back(s: Seq<char>) -> Seq<char>
    decreases s.len(),
{
    if s.len() > 0 && is_space_char(s[s.len() - 1]) {
        trim_back(s.take(s.len() - 1))
    } else {
        s
    }
}

/// What `str::trim` keeps: the input with leading and trailing whitespace removed.
pub open spec fn trim_spec(s: Seq<char>) -> Seq<char> {
    trim_back(trim_front(s))
}

proof fn lemma_trim_front_skip(s: Seq<char>, i: int)
    requires
        0 <= i <= s.len(),
        forall|j: int| 0 <= j < i ==> is_space_char(s[j]),
        i == s.len() || !is_space_char(s[i]),
    ensures
        trim_front(s) == s.skip(i),
    decreases i,
{
    if i == 0 {
        assert(s.skip(0) =~= s);
    } else {
        assert(is_space_char(s[0]));
        lemma_trim_front_skip(s.skip(1), i - 1);
        assert(s.skip(1).skip(i - 1) =~= s.skip(i));
    }
}

proof fn lemma_trim_back_take(t: Seq<char>, e: int)
    requires
        0 <= e <= t.len(),
        forall|j: int| e <= j < t.len() ==> is_space_char(t[j]),
        e == 0 || !is_space_char(t[e - 1]),
    ensures
        trim_back(t) == t.take(e),
    decreases t.len() - e,
{
    if e == t.len() {
        assert(t.take(e) =~= t);
    } else {
        assert(is_space_char(t[t.len() - 1]));
        lemma_trim_back_take(t.take(t.len() - 1), e);
        assert(t.take(t.len() - 1).take(e) =~= t.take(e));
    }
}

/// The input with leading and trailing whitespace removed, as `str::trim` does.
pub fn trim(s: &str) -> (r: &str)
    ensures
        r@ == trim_spec(s@),
{
    let n = s.unicode_len();
    let mut start: usize = 0;
    while start < n && is_space(s.get_char(start))
        invariant
            n == s@.len(),
            0 <= start <= n,
            forall|j: int| 0 <= j < start ==> is_space_char(s@[j]),
        decreases n - start,
    {
        start += 1;
    }
    let mut end: usize = n;
    while end > start && is_space(s.get_char(end - 1))
        invariant
            n == s@.len(),
            0 <= start <= end <= n,
            forall|j: int| end <= j < n ==> is_space_char(s@[j]),
        decreases end,
    {
        end -= 1;
    }
    proof {
        lemma_trim_front_skip(s@, start as int);
        let t = s@.skip(start as int);
        lemma_trim_back_take(t, end - start);
        assert(t.take(end - start) =~= s@.subrange(start as int, end as int));
    }
    s.substring_char(start, end)
}

pub open spec fn is_bracket_char(c: char) -> bool {
    c == '[' || c == ']'
}

fn is_bracket(c: char) -> (r: bool)
    ensures
        r == is_bracket_char(c),
{
    c == '[' || c == ']'
}

pub open spec fn bracket_trim_front(s: Seq<char>) -> Seq<char>
    decreases s.len(),
{
    if s.len() > 0 && is_bracket_char(s[0]) {
        bracket_trim_front(s.skip(1))
    } else {
        s
    }
}

pub open spec fn bracket_trim_back(s: Seq<char>) -> Seq<char>
    decreases s.len(),
{
    if s.len() > 0 && is_bracket_char(s[s.len() - 1]) {
        bracket_trim_back(s.take(s.len() - 1))
    } else {
        s
    }
}

/// The input with leading and trailing square brackets removed.
pub open spec fn bracket_trim_spec(s: Seq<char>) -> Seq<char> {
    bracket_trim_back(bracket_trim_front(s))
}

proof fn lemma_bracket_trim_front_skip(s: Seq<char>, i: int)
    requires
        0 <= i <= s.len(),
        forall|j: int| 0 <= j < i ==> is_bracket_char(s[j]),
        i == s.len() || !is_bracket_char(s[i]),
    ensures
        bracket_trim_front(s) == s.skip(i),
    decreases i,
{
    if i == 0 {
        assert(s.skip(0) =~= s);
    } else {
        assert(is_bracket_char(s[0]));
        lemma_bracket_trim_front_skip(s.skip(1), i - 1);
        assert(s.skip(1).skip(i - 1) =~= s.skip(i));
    }
}

proof fn lemma_bracket_trim_back_take(t: Seq<char>, e: int)
    requires
        0 <= e <= t.len(),
        forall|j: int| e <= j < t.len() ==> is_bracket_char(t[j]),
        e == 0 || !is_bracket_char(t[e - 1]),
    ensures
        bracket_trim_back(t) == t.take(e),
    decreases t.len() - e,
{
    if e == t.len() {
        assert(t.take(e) =~= t);
    } else {
        assert(is_bracket_char(t[t.len() - 1]));
        lemma_bracket_trim_back_take(t.take(t.len() - 1), e);
        assert(t.take(t.len() - 1).take(e) =~= t.take(e));
    }
}

/// Strips leading and trailing square brackets, as the section-header scan
/// does.
pub fn bracket_trim(s: &str) -> (r: &str)
    ensures
        r@ == bracket_trim_spec(s@),
{
    let n = s.unicode_len();
    let mut start: usize = 0;
    while start < n && is_bracket(s.get_char(start))
        invariant
            n == s@.len(),
            0 <= start <= n,
            forall|j: int| 0 <= j < start ==> is_bracket_char(s@[j]),
        decreases n - start,
    {
        start += 1;
    }
    let mut end: usize = n;
    while end > start && is_bracket(s.get_char(end - 1))
        invariant
            n == s@.len(),
            0 <= start <= end <= n,
            forall|j: int| end <= j < n ==> is_bracket_char(s@[j]),
        decreases end,
    {
        end -= 1;
    }
    proof {
        lemma_bracket_trim_front_skip(s@, start as int);
        let t = s@.skip(start as int);
        lemma_bracket_trim_back_take(t, end - start);
        assert(t.take(end - start) =~= s@.subrange(start as int, end as int));
    }
    s.substring_char(start, end)
}

/// The position of the last occurrence of `c`, or `-1` when there is none.
pub open spec fn last_idx(s: Seq<char>, c: char) -> int
    decreases s.len(),
{
    if s.len() == 0 {
        -1
    } else if s.last() == c {
        s.len() - 1
    } else {
        last_idx(s.drop_last(), c)
    }
}

pub proof fn lemma_last_idx(s: Seq<char>, c: char)
    ensures
        -1 <= last_idx(s, c) < s.len(),
        last_idx(s, c) >= 0 ==> s[last_idx(s, c)] == c,
        forall|q: int| last_idx(s, c) < q < s.len() ==> s[q] != c,
    decreases s.len(),
{
    if s.len() > 0 && s.last() != c {
        lemma_last_idx(s.drop_last(), c);
        assert(forall|q: int| 0 <= q < s.len() - 1 ==> s.drop_last()[q] == s[q]);
    }
}

/// Finds the last occurrence of `c`, as `last_idx` describes it.
pub fn rfind_last(s: &str, c: char) -> (r: Option<usize>)
    ensures
        match r {
            Some(i) => i == last_idx(s@, c),
            None => last_idx(s@, c) == -1,
        },
{
    proof {
        lemma_last_idx(s@, c);
    }
    let n = s.unicode_len();
    let mut i: usize = n;
    while i > 0
        invariant
            n == s@.len(),
            0 <= i <= n,
            forall|q: int| i <= q < n ==> s@[q] != c,
        decreases i,
    {
        i -= 1;
        if s.get_char(i) == c {
            proof {
                lemma_last_idx(s@, c);
                let l = last_idx(s@, c);
                if l < i {
                    assert(s@[i as int] == c && l < i < s@.len());
                }
                if l > i {
                    assert(s@[l] != c && s@[l] == c);
                }
                assert(l == i as int);
            }
            return Some(i);
        }
    }
    proof {
        let l = last_idx(s@, c);
        if l >= 0 {
            assert(s@[l] == c);
        }
    }
    None
}

/// The position of the first occurrence of `c` at or after `from`, or the
/// text length when there is none.
pub open spec fn first_idx(s: Seq<char>, c: char, from: int) -> int
    decreases s.len() - from,
    when 0 <= from
{
    if from >= s.len() {
        s.len() as int
    } else if s[from] == c {
        from
    } else {
        first_idx(s, c, from + 1)
    }
}

pub proof fn lemma_first_idx(s: Seq<char>, c: char, from: int)
    requires
        0 <= from <= s.len(),
    ensures
        from <= first_idx(s, c, from) <= s.len(),
        first_idx(s, c, from) < s.len() ==> s[first_idx(s, c, from)] == c,
        forall|q: int| from <= q < first_idx(s, c, from) ==> s[q] != c,
    decreases s.len() - from,
{
    if from < s.len() && s[from] != c {
        lemma_first_idx(s, c, from + 1);
    }
}

/// Finds the first occurrence of `c` at or after `from`, returning the text
/// length when there is none.
pub fn find_from(s: &str, c: char, from: usize) -> (r: usize)
    requires
        from <= s@.len(),
    ensures
        r == first_idx(s@, c, from as int),
        from <= r <= s@.len(),
        r < s@.len() ==> s@[r as int] == c,
{
    let n = s.unicode_len();
    let mut i = from;
    while i < n && s.get_char(i) != c
        invariant
            n == s@.len(),
            from <= i <= n,
            forall|q: int| from <= q < i ==> s@[q] != c,
        decreases n - i,
    {
        i += 1;
    }
    proof {
        lemma_first_idx(s@, c, from as int);
        let r = first_idx(s@, c, from as int);
        if i < n {
            if r < i {
                assert(s@[r] == c);
            }
            assert(r == i as int);
        } else {
            if r < n {
                assert(s@[r] == c);
            }
            assert(r == n as int);
        }
    }
    i
}

/// The position of the first occurrence of `pat` at or after `from`, or `-1`
/// when there is none.
pub open spec fn find_sub(s: Seq<char>, pat: Seq<char>, from: int) -> int
    decreases s.len() - from,
    when 0 <= from && pat.len() > 0
{
    if from + pat.len() > s.len() {
        -1
    } else if s.subrange(from, from + pat.len()) == pat {
        from
    } else {
        find_sub(s, pat, from + 1)
    }
}

pub proof fn lemma_find_sub(s: Seq<char>, pat: Seq<char>, from: int)
    requires
        0 <= from,
        pat.len() > 0,
    ensures
        find_sub(s, pat, from) == -1 || (from <= find_sub(s, pat, from) && find_sub(s, pat, from)
            + pat.len() <= s.len()),
        find_sub(s, pat, from) >= 0 ==> s.subrange(
            find_sub(s, pat, from),
            find_sub(s, pat, from) + pat.len(),
        ) == pat,
        forall|q: int|
            from <= q < find_sub(s, pat, from) ==> #[trigger] s.subrange(q, q + pat.len()) != pat,
        find_sub(s, pat, from) == -1 ==> forall|q: int|
            from <= q && q + pat.len() <= s.len() ==> #[trigger] s.subrange(q, q + pat.len())
                != pat,
    decreases s.len() - from,
{
    if from + pat.len() > s.len() {
    } else if s.subrange(from, from + pat.len()) == pat {
    } else {
        lemma_find_sub(s, pat, from + 1);
    }
}

/// Every occurrence of `pat` replaced by `rep`, scanning left to right and
/// not rescanning what was substituted, as `str::replace` does.
pub open spec fn replace_all(s: Seq<char>, pat: Seq<char>, rep: Seq<char>) -> Seq<char>
    decreases s.len(),
    when pat.len() > 0
    via replace_all_decreases
{
    let i = find_sub(s, pat, 0);
    if i < 0 {
        s
    } else {
        s.take(i) + rep + replace_all(s.skip(i + pat.len()), pat, rep)
    }
}

#[via_fn]
proof fn replace_all_decreases(s: Seq<char>, pat: Seq<char>, rep: Seq<char>) {
    lemma_find_sub(s, pat, 0);
}

/// Whether `pat` occurs in `s` at position `pos`.
fn match_at(s: &str, pat: &str, pos: usize) -> (r: bool)
    requires
        pos <= s@.len(),
    ensures
        r == (pos + pat@.len() <= s@.len() && s@.subrange(pos as int, pos + pat@.len()) == pat@),
{
    let n = s.unicode_len();
    let m = pat.unicode_len();
    if m > n - pos {
        return false;
    }
    let mut i: usize = 0;
    while i < m
        invariant
            n == s@.len(),
            m == pat@.len(),
            pos + m <= n,
            0 <= i <= m,
            forall|j: int| 0 <= j < i ==> s@[pos + j] == pat@[j],
        decreases m - i,
    {
        if s.get_char(pos + i) != pat.get_char(i) {
            proof {
                assert(s@.subrange(pos as int, pos + pat@.len())[i as int] != pat@[i as int]);
            }
            return false;
        }
        i += 1;
    }
    proof {
        assert(s@.subrange(pos as int, pos + pat@.len()) =~= pat@);
    }
    true
}

/// Replaces every occurrence of `pat` by `rep`, as `replace_all` describes.
pub fn str_replace(s: &str, pat: &str, rep: &str) -> (r: String)
    requires
        pat@.len() > 0,
    ensures
        r@ == replace_all(s@, pat@, rep@),
{
    let n = s.unicode_len();
    let m = pat.unicode_len();
    let mut out = String::new();
    let mut idx: usize = 0;
    proof {
        assert(s@.skip(0) =~= s@);
        assert(Seq::<char>::empty() + replace_all(s@, pat@, rep@) =~= replace_all(s@, pat@, rep@));
    }
    while idx < n
        invariant
            n == s@.len(),
            m == pat@.len(),
            m > 0,
            0 <= idx <= n,
            replace_all(s@, pat@, rep@) == out@ + replace_all(s@.skip(idx as int), pat@, rep@),
        decreases n - idx,
    {
        let ghost t = s@.skip(idx as int);
        let ghost out0 = out@;
        let mut j = idx;
        while j < n && !match_at(s, pat, j)
            invariant
                n == s@.len(),
                m == pat@.len(),
                idx <= j <= n,
                forall|q: int|
                    idx <= q < j && q + m <= n ==> #[trigger] s@.subrange(q, q + m as int)
                        != pat@,
            decreases n - j,
        {
            j += 1;
        }
        proof {
            lemma_find_sub(t, pat@, 0);
            let f = find_sub(t, pat@, 0);
            assert(forall|a: int, b: int|
                0 <= a && a <= b <= t.len() ==> t.subrange(a, b) =~= s@.subrange(
                    idx + a,
                    idx + b,
                ));
            if j < n {
                assert(s@.subrange(j as int, j + m as int) == pat@);
                assert(t.subrange(j - idx, j - idx + m as int) == pat@);
                if 0 <= f < j - idx {
                    assert(t.subrange(f, f + m as int) == pat@);
                    assert(s@.subrange(idx + f, idx + f + m as int) == pat@);
                }
                assert(f == j - idx);
            } else {
                if f >= 0 {
                    assert(t.subrange(f, f + m as int) == pat@);
                    assert(s@.subrange(idx + f, idx + f + m as int) == pat@);
                    assert(idx + f + m <= n);
                    assert(false);
                }
                assert(f == -1);
            }
        }
        if j < n {
            out.append(s.substring_char(idx, j));
            out.append(rep);
            proof {
                assert(s@.subrange(idx as int, j as int) =~= t.take(j - idx));
                assert(t.skip(j - idx + m as int) =~= s@.skip(j + m as int));
                assert(replace_all(t, pat@, rep@) == t.take(j - idx) + rep@ + replace_all(
                    s@.skip(j + m as int),
                    pat@,
                    rep@,
                ));
                assert(out@ =~= out0 + (t.take(j - idx) + rep@));
                assert(out0 + (t.take(j - idx) + rep@) + replace_all(
                    s@.skip(j + m as int),
                    pat@,
                    rep@,
                ) =~= out0 + (t.take(j - idx) + rep@ + replace_all(s@.skip(j + m as int), pat@, rep@)));
            }
            idx = j + m;
        } else {
            out.append(s.substring_char(idx, n));
            proof {
                assert(replace_all(t, pat@, rep@) == t);
                assert(s@.subrange(idx as int, n as int) =~= t);
                assert(out@ =~= out0 + t);
                assert(s@.skip(n as int).len() == 0);
                assert(replace_all(s@.skip(n as int), pat@, rep@) == s@.skip(n as int));
                assert(out@ + s@.skip(n as int) =~= out@);
            }
            idx = n;
        }
    }
    proof {
        if n == 0 {
            assert(s@.skip(0) =~= s@);
            assert(replace_all(s@, pat@, rep@) == s@);
            assert(out@ + s@ =~= out@);
        } else {
            assert(s@.skip(n as int).len() == 0);
            assert(replace_all(s@.skip(n as int), pat@, rep@) == s@.skip(n as int));
            assert(out@ + s@.skip(n as int) =~= out@);
        }
    }
    out
}

/// A run of `n` space characters.
pub fn spaces(n: usize) -> (r: String)
    ensures
        r@.len() == n,
        forall|j: int| 0 <= j < n ==> r@[j] == ' ',
{
    let mut out = String::new();
    let mut i: usize = 0;
    while i < n
        invariant
            0 <= i <= n,
            out@.len() == i,
            forall|j: int| 0 <= j < i ==> out@[j] == ' ',
        decreases n - i,
    {
        out.append(" ");
        proof {
            reveal_strlit(" ");
        }
        i += 1;
    }
    out
}

/// What `str::to_lowercase` returns: a function of the characters alone.
pub uninterp spec fn lower_of(s: Seq<char>) -> Seq<char>;

/// Relies on str::to_lowercase: the result depends on the characters alone,
/// and an empty string stays empty.
#[verifier::external_body]
pub fn lowercase(s: &str) -> (r: String)
    ensures
        r@ == lower_of(s@),
        s@.len() == 0 ==> r@.len() == 0,
{
    s.to_lowercase()
}

/// What `str::to_uppercase` returns: a function of the characters alone.
pub uninterp spec fn upper_of(s: Seq<char>) -> Seq<char>;

/// Relies on str::to_uppercase: the result depends on the characters alone,
/// and an empty string stays empty.
#[verifier::external_body]
pub fn uppercase(s: &str) -> (r: String)
    ensures
        r@ == upper_of(s@),
        s@.len() == 0 ==> r@.len() == 0,
{
    s.to_uppercase()
}

pub open spec fn strip_cr(l: Seq<char>) -> Seq<char> {
    if l.len() > 0 && l[l.len() - 1] == '\r' {
        l.take(l.len() - 1)
    } else {
        l
    }
}

pub open spec fn lines_rec(s: Seq<char>, cur: Seq<char>) -> Seq<Seq<char>>
    decreases s.len(),
{
    if s.len() == 0 {
        if cur.len() == 0 {
            Seq::empty()
        } else {
            seq![strip_cr(cur)]
        }
    } else if s[0] == '\n' {
        seq![strip_cr(cur)] + lines_rec(s.skip(1), Seq::empty())
    } else {
        lines_rec(s.skip(1), cur.push(s[0]))
    }
}

/// The lines of a text, as `str::lines` yields them: split on `'\n'`, a final
/// `'\r'` stripped from each line, and no final empty line after a trailing
/// newline.
pub open spec fn lines_spec(s: Seq<char>) -> Seq<Seq<char>> {
    lines_rec(s, Seq::empty())
}

/// Splits a text into its lines.
pub fn split_lines(s: &str) -> (r: Vec<String>)
    ensures
        r.deep_view() == lines_spec(s@),
{
    let n = s.unicode_len();
    let mut res: Vec<String> = Vec::new();
    let mut start: usize = 0;
    let mut i: usize = 0;
    proof {
        assert(s@.skip(0) =~= s@);
        assert(s@.subrange(0, 0) =~= Seq::<char>::empty());
        assert(res.deep_view() + lines_rec(s@, Seq::empty()) =~= lines_rec(s@, Seq::empty()));
    }
    while i < n
        invariant
            n == s@.len(),
            0 <= start <= i <= n,
            lines_spec(s@) == res.deep_view() + lines_rec(
                s@.skip(i as int),
                s@.subrange(start as int, i as int),
            ),
        decreases n - i,
    {
        let c = s.get_char(i);
        proof {
            assert(s@.skip(i as int)[0] == c);
            assert(s@.skip(i as int).skip(1) =~= s@.skip(i + 1));
        }
        if c == '\n' {
            let end = if i > start && s.get_char(i - 1) == '\r' {
                i - 1
            } else {
                i
            };
            let line = String::from_str(s.substring_char(start, end));
            proof {
                assert(strip_cr(s@.subrange(start as int, i as int)) =~= s@.subrange(
                    start as int,
                    end as int,
                ));
            }
            res.push(line);
            proof {
                assert(res.deep_view() =~= res.deep_view().subrange(
                    0,
                    res.deep_view().len() - 1,
                ).push(s@.subrange(start as int, end as int)));
                assert(s@.subrange(i + 1, i + 1) =~= Seq::<char>::empty());
            }
            start = i + 1;
        } else {
            proof {
                assert(s@.subrange(start as int, i as int).push(c) =~= s@.subrange(
                    start as int,
                    i + 1,
                ));
            }
        }
        i += 1;
    }
    if start < n {
        let end = if s.get_char(n - 1) == '\r' {
            n - 1
        } else {
            n
        };
        let line = String::from_str(s.substring_char(start, end));
        proof {
            assert(s@.skip(n as int).len() == 0);
            assert(strip_cr(s@.subrange(start as int, n as int)) =~= s@.subrange(
                start as int,
                end as int,
            ));
        }
        res.push(line);
        proof {
            assert(res.deep_view() =~= res.deep_view().subrange(
                0,
                res.deep_view().len() - 1,
            ).push(s@.subrange(start as int, end as int)));
        }
    } else {
        proof {
            assert(s@.skip(n as int).len() == 0);
            assert(s@.subrange(start as int, n as int).len() == 0);
            assert(res.deep_view() + Seq::<Seq<char>>::empty() =~= res.deep_view());
        }
    }
    res
}

} // verus!
