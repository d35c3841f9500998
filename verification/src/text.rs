//! Character-sequence lexing: whitespace classification, whitespace-separated
//! tokens, line splitting, and trimming. These spec functions are the
//! vocabulary in which the parsers of this crate state their contracts; the
//! exec functions are proved to compute exactly them.
use vstd::prelude::*;

verus! {

/// The whitespace characters recognized when splitting utility output.
pub open spec fn is_space(c: char) -> bool {
    c == ' ' || c == '\t' || c == '\n' || c == '\r' || c == '\u{b}' || c == '\u{c}'
}

/// Exec mirror of `is_space`.
pub fn is_space_char(c: char) -> (r: bool)
    ensures
        r == is_space(c),
{
    c == ' ' || c == '\t' || c == '\n' || c == '\r' || c == '\u{b}' || c == '\u{c}'
}

/// The views of a sequence of owned strings.
pub open spec fn str_views(s: Seq<String>) -> Seq<Seq<char>> {
    s.map_values(|t: String| t@)
}

/// Length of the maximal non-whitespace run at the head of `s`.
pub open spec fn token_len(s: Seq<char>) -> nat
    decreases s.len(),
{
    if s.len() == 0 || is_space(s[0]) {
        0
    } else {
        (1 + token_len(s.drop_first())) as nat
    }
}

pub proof fn lemma_token_len_le(s: Seq<char>)
    ensures
        token_len(s) <= s.len(),
    decreases s.len(),
{
    if s.len() != 0 && !is_space(s[0]) {
        lemma_token_len_le(s.drop_first());
    }
}

/// If the first `k` characters are non-whitespace and position `k` is either
/// the end or whitespace, the head token has length exactly `k`.
pub proof fn lemma_token_len_at(s: Seq<char>, k: int)
    requires
        0 <= k <= s.len(),
        forall|m: int| 0 <= m < k ==> !is_space(s[m]),
        k == s.len() || is_space(s[k]),
    ensures
        token_len(s) == k,
    decreases k,
{
    if k > 0 {
        lemma_token_len_at(s.drop_first(), k - 1);
    }
}

/// The whitespace-separated tokens of `s`, in order.
pub open spec fn tokens_of(s: Seq<char>) -> Seq<Seq<char>>
    decreases s.len(),
    via tokens_of_dec
{
    if s.len() == 0 {
        Seq::empty()
    } else if is_space(s[0]) {
        tokens_of(s.drop_first())
    } else {
        seq![s.take(token_len(s) as int)] + tokens_of(s.skip(token_len(s) as int))
    }
}

#[via_fn]
proof fn tokens_of_dec(s: Seq<char>) {
    if s.len() > 0 && !is_space(s[0]) {
        lemma_token_len_le(s);
    }
}

/// Splits `line` on whitespace into its maximal non-whitespace runs.
pub fn tokens(line: &str) -> (r: Vec<String>)
    ensures
        str_views(r@) == tokens_of(line@),
{
    let n = line.unicode_len();
    let mut r: Vec<String> = Vec::new();
    let mut i: usize = 0;
    proof {
        assert(line@.skip(0) =~= line@);
        assert(str_views(r@) =~= Seq::<Seq<char>>::empty());
        assert(Seq::<Seq<char>>::empty() + tokens_of(line@) =~= tokens_of(line@));
    }
    while i < n
        invariant
            n == line@.len(),
            i <= n,
            tokens_of(line@) == str_views(r@) + tokens_of(line@.skip(i as int)),
        decreases n - i,
    {
        let c = line.get_char(i);
        if is_space_char(c) {
            proof {
                assert(line@.skip(i as int).drop_first() =~= line@.skip(i as int + 1));
            }
            i = i + 1;
        } else {
            let start = i;
            let mut j = i + 1;
            while j < n && !is_space_char(line.get_char(j))
                invariant
                    n == line@.len(),
                    start < j <= n,
                    forall|m: int| start <= m < j ==> !is_space(line@[m]),
                decreases n - j,
            {
                j = j + 1;
            }
            let tok = line.substring_char(start, j);
            proof {
                let t = line@.skip(start as int);
                lemma_token_len_at(t, j - start);
                assert(t.take(j - start) =~= line@.subrange(start as int, j as int));
                assert(t.skip(j - start) =~= line@.skip(j as int));
            }
            let ghost pre = r@;
            r.push(String::from_str(tok));
            proof {
                assert(str_views(r@) =~= str_views(pre).push(tok@));
                assert(str_views(pre).push(tok@) + tokens_of(line@.skip(j as int)) =~= str_views(
                    pre,
                ) + tokens_of(line@.skip(start as int)));
            }
            i = j;
        }
    }
    proof {
        assert(line@.skip(n as int) =~= Seq::<char>::empty());
        assert(str_views(r@) + tokens_of(Seq::<char>::empty()) =~= str_views(r@));
    }
    r
}

/// Length of the prefix of `s` before its first line break.
pub open spec fn line_len(s: Seq<char>) -> nat
    decreases s.len(),
{
    if s.len() == 0 || s[0] == '\n' {
        0
    } else {
        (1 + line_len(s.drop_first())) as nat
    }
}

pub proof fn lemma_line_len_le(s: Seq<char>)
    ensures
        line_len(s) <= s.len(),
    decreases s.len(),
{
    if s.len() != 0 && s[0] != '\n' {
        lemma_line_len_le(s.drop_first());
    }
}

/// If the first `k` characters are not line breaks and position `k` is either
/// the end or a line break, the first line has length exactly `k`.
pub proof fn lemma_line_len_at(s: Seq<char>, k: int)
    requires
        0 <= k <= s.len(),
        forall|m: int| 0 <= m < k ==> s[m] != '\n',
        k == s.len() || s[k] == '\n',
    ensures
        line_len(s) == k,
    decreases k,
{
    if k > 0 {
        lemma_line_len_at(s.drop_first(), k - 1);
    }
}

/// The pieces of `s` between line breaks, in order. There is always at least
/// one piece; input ending in a line break contributes a final empty piece,
/// which no parser in this crate ever turns into a record.
pub open spec fn lines_of(s: Seq<char>) -> Seq<Seq<char>>
    decreases s.len(),
    via lines_of_dec
{
    if line_len(s) == s.len() {
        seq![s]
    } else {
        seq![s.take(line_len(s) as int)] + lines_of(s.skip(line_len(s) as int + 1))
    }
}

#[via_fn]
proof fn lines_of_dec(s: Seq<char>) {
    lemma_line_len_le(s);
}

/// Splits `s` at line breaks into its pieces.
pub fn split_lines(s: &str) -> (r: Vec<String>)
    ensures
        str_views(r@) == lines_of(s@),
{
    let n = s.unicode_len();
    let mut r: Vec<String> = Vec::new();
    let mut i: usize = 0;
    let mut finished = false;
    proof {
        assert(s@.skip(0) =~= s@);
        assert(str_views(r@) =~= Seq::<Seq<char>>::empty());
        assert(Seq::<Seq<char>>::empty() + lines_of(s@) =~= lines_of(s@));
    }
    while !finished
        invariant
            n == s@.len(),
            i <= n,
            !finished ==> lines_of(s@) == str_views(r@) + lines_of(s@.skip(i as int)),
            finished ==> str_views(r@) == lines_of(s@),
        decreases n - i + (if finished { 0int } else { 1int }),
    {
        let mut j = i;
        while j < n && s.get_char(j) != '\n'
            invariant
                n == s@.len(),
                i <= j <= n,
                forall|m: int| i <= m < j ==> s@[m] != '\n',
            decreases n - j,
        {
            j = j + 1;
        }
        let piece = s.substring_char(i, j);
        proof {
            let t = s@.skip(i as int);
            lemma_line_len_at(t, j - i);
            assert(t.take(j - i) =~= s@.subrange(i as int, j as int));
            if j < n {
                assert(t.skip(j - i + 1) =~= s@.skip(j as int + 1));
            } else {
                assert(t.take(j - i) =~= t);
            }
        }
        let ghost pre = r@;
        r.push(String::from_str(piece));
        proof {
            assert(str_views(r@) =~= str_views(pre).push(piece@));
        }
        if j == n {
            finished = true;
            proof {
                assert(lines_of(s@.skip(i as int)) =~= seq![piece@]);
                assert(str_views(pre) + seq![piece@] =~= str_views(r@));
            }
        } else {
            proof {
                let t = s@.skip(i as int);
                assert(lines_of(t) == seq![piece@] + lines_of(s@.skip(j as int + 1)));
                assert(str_views(pre) + (seq![piece@] + lines_of(s@.skip(j as int + 1)))
                    =~= str_views(r@) + lines_of(s@.skip(j as int + 1)));
            }
            i = j + 1;
        }
    }
    r
}

/// Count of whitespace characters at the head of `s`.
pub open spec fn lead_space_len(s: Seq<char>) -> nat
    decreases s.len(),
{
    if s.len() == 0 || !is_space(s[0]) {
        0
    } else {
        (1 + lead_space_len(s.drop_first())) as nat
    }
}

/// Count of whitespace characters at the tail of `s`.
pub open spec fn trail_space_len(s: Seq<char>) -> nat
    decreases s.len(),
{
    if s.len() == 0 || !is_space(s.last()) {
        0
    } else {
        (1 + trail_space_len(s.drop_last())) as nat
    }
}

/// `s` with whitespace removed from both ends.
pub open spec fn trimmed(s: Seq<char>) -> Seq<char> {
    if lead_space_len(s) == s.len() {
        Seq::empty()
    } else {
        s.subrange(lead_space_len(s) as int, s.len() - trail_space_len(s))
    }
}

pub proof fn lemma_lead_space_len_at(s: Seq<char>, k: int)
    requires
        0 <= k <= s.len(),
        forall|m: int| 0 <= m < k ==> is_space(s[m]),
        k == s.len() || !is_space(s[k]),
    ensures
        lead_space_len(s) == k,
    decreases k,
{
    if k > 0 {
        lemma_lead_space_len_at(s.drop_first(), k - 1);
    }
}

pub proof fn lemma_trail_space_len_at(s: Seq<char>, k: int)
    requires
        0 <= k <= s.len(),
        forall|m: int| s.len() - k <= m < s.len() ==> is_space(s[m]),
        k == s.len() || !is_space(s[s.len() - k - 1]),
    ensures
        trail_space_len(s) == k,
    decreases k,
{
    if k > 0 {
        assert(forall|m: int|
            s.drop_last().len() - (k - 1) <= m < s.drop_last().len() ==> is_space(
                s.drop_last()[m],
            ));
        lemma_trail_space_len_at(s.drop_last(), k - 1);
    }
}

/// Removes whitespace from both ends of `s`.
pub fn trim_text(s: &str) -> (r: String)
    ensures
        r@ == trimmed(s@),
{
    let n = s.unicode_len();
    let mut a: usize = 0;
    while a < n && is_space_char(s.get_char(a))
        invariant
            n == s@.len(),
            a <= n,
            forall|m: int| 0 <= m < a ==> is_space(s@[m]),
        decreases n - a,
    {
        a = a + 1;
    }
    proof {
        lemma_lead_space_len_at(s@, a as int);
    }
    if a == n {
        let r = String::new();
        proof {
            assert(r@ =~= trimmed(s@));
        }
        return r;
    }
    let mut e: usize = n;
    while e > a + 1 && is_space_char(s.get_char(e - 1))
        invariant
            n == s@.len(),
            a < e <= n,
            !is_space(s@[a as int]),
            forall|m: int| e <= m < n ==> is_space(s@[m]),
        decreases e,
    {
        e = e - 1;
    }
    proof {
        // either the scan stopped at a non-space, or it reached `a + 1`,
        // just past the non-space character at `a`
        lemma_trail_space_len_at(s@, n - e);
    }
    String::from_str(s.substring_char(a, e))
}

/// `p` occurs in `s` starting at position `i`.
pub open spec fn matches_at(s: Seq<char>, p: Seq<char>, i: int) -> bool {
    0 <= i && i + p.len() <= s.len() && s.subrange(i, i + p.len()) == p
}

/// Exec check of `matches_at`.
pub fn match_at(s: &str, p: &str, i: usize) -> (r: bool)
    ensures
        r == matches_at(s@, p@, i as int),
{
    let n = s.unicode_len();
    let m = p.unicode_len();
    if i > n || m > n - i {
        return false;
    }
    let mut k: usize = 0;
    while k < m
        invariant
            n == s@.len(),
            m == p@.len(),
            i + m <= n,
            k <= m,
            forall|t: int| 0 <= t < k ==> s@[i + t] == p@[t],
        decreases m - k,
    {
        if s.get_char(i + k) != p.get_char(k) {
            proof {
                if matches_at(s@, p@, i as int) {
                    assert(s@.subrange(i as int, i + p@.len())[k as int] == p@[k as int]);
                }
            }
            return false;
        }
        k = k + 1;
    }
    proof {
        assert(s@.subrange(i as int, i + p@.len()) =~= p@);
    }
    true
}

/// `s` contains `p` as a contiguous subsequence.
pub open spec fn contains_seq(s: Seq<char>, p: Seq<char>) -> bool {
    exists|i: int| matches_at(s, p, i)
}

/// Exec check of `contains_seq`.
pub fn contains_text(s: &str, p: &str) -> (r: bool)
    ensures
        r == contains_seq(s@, p@),
{
    let n = s.unicode_len();
    let m = p.unicode_len();
    if m > n {
        return false;
    }
    if m == 0 {
        proof {
            assert(s@.subrange(0, 0) =~= p@);
            assert(matches_at(s@, p@, 0));
        }
        return true;
    }
    let mut i: usize = 0;
    while i <= n - m
        invariant
            n == s@.len(),
            m == p@.len(),
            1 <= m <= n,
            i <= n - m + 1,
            forall|k: int| 0 <= k < i ==> !matches_at(s@, p@, k),
        decreases n - m - i + 1,
    {
        if match_at(s, p, i) {
            proof {
                assert(matches_at(s@, p@, i as int));
            }
            return true;
        }
        i = i + 1;
    }
    proof {
        assert(forall|k: int| matches_at(s@, p@, k) ==> 0 <= k <= n - m);
    }
    false
}

/// `s` starts with `p`.
pub open spec fn starts_with_seq(s: Seq<char>, p: Seq<char>) -> bool {
    p.len() <= s.len() && s.take(p.len() as int) == p
}

/// Exec check of `starts_with_seq`.
pub fn starts_with_text(s: &str, p: &str) -> (r: bool)
    ensures
        r == starts_with_seq(s@, p@),
{
    let r = match_at(s, p, 0);
    proof {
        if p@.len() <= s@.len() {
            assert(s@.subrange(0, p@.len() as int) =~= s@.take(p@.len() as int));
        }
    }
    r
}

/// `s` with every occurrence of `p` removed, scanning left to right over
/// non-overlapping occurrences.
pub open spec fn remove_all(s: Seq<char>, p: Seq<char>) -> Seq<char>
    decreases s.len(),
    when p.len() > 0
{
    if s.len() == 0 {
        s
    } else if matches_at(s, p, 0) {
        remove_all(s.skip(p.len() as int), p)
    } else {
        seq![s[0]] + remove_all(s.drop_first(), p)
    }
}

/// Removes every occurrence of `p` from `s`.
pub fn remove_all_text(s: &str, p: &str) -> (r: String)
    requires
        p@.len() > 0,
    ensures
        r@ == remove_all(s@, p@),
{
    let n = s.unicode_len();
    let m = p.unicode_len();
    let mut out = String::new();
    let mut i: usize = 0;
    proof {
        assert(s@.skip(0) =~= s@);
        assert(out@ + remove_all(s@, p@) =~= remove_all(s@, p@));
    }
    while i < n
        invariant
            n == s@.len(),
            m == p@.len(),
            m > 0,
            i <= n,
            remove_all(s@, p@) == out@ + remove_all(s@.skip(i as int), p@),
        decreases n - i,
    {
        let ghost t = s@.skip(i as int);
        if match_at(s, p, i) {
            proof {
                assert(t.subrange(0, m as int) =~= s@.subrange(i as int, i + m as int));
                assert(matches_at(t, p@, 0));
                assert(t.skip(m as int) =~= s@.skip(i + m as int));
            }
            i = i + m;
        } else {
            proof {
                if matches_at(t, p@, 0) {
                    assert(s@.subrange(i as int, i + m as int) =~= t.subrange(0, m as int));
                }
                assert(t.drop_first() =~= s@.skip(i as int + 1));
            }
            let ghost preout = out@;
            let piece = s.substring_char(i, i + 1);
            out.append(piece);
            proof {
                assert(piece@ =~= seq![s@[i as int]]);
                assert(preout + (seq![t[0]] + remove_all(t.drop_first(), p@)) =~= (preout
                    + piece@) + remove_all(s@.skip(i as int + 1), p@));
            }
            i = i + 1;
        }
    }
    proof {
        assert(s@.skip(n as int) =~= Seq::<char>::empty());
        assert(out@ + remove_all(Seq::<char>::empty(), p@) =~= out@);
    }
    out
}

} // verus!
