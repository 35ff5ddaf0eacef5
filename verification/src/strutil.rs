//! Verified utilities on `&str` and `Seq<char>`: substring search, splitting,
//! trimming and decimal formatting. These are the building blocks of the
//! message parser and the response serializer.

use vstd::prelude::*;

verus! {

/// The pattern `pat` occurs in `s` starting at character index `i`.
pub open spec fn occurs_at(s: Seq<char>, pat: Seq<char>, i: int) -> bool {
    0 <= i && i + pat.len() <= s.len() && s.subrange(i, i + pat.len()) == pat
}

/// Character index of the leftmost occurrence of `pat` in `s`, if any.
pub open spec fn first_occur(s: Seq<char>, pat: Seq<char>) -> Option<int>
    recommends
        pat.len() > 0,
    decreases s.len(),
        when pat.len() > 0
{
    if s.len() < pat.len() {
        None
    } else if s.subrange(0, pat.len() as int) == pat {
        Some(0)
    } else {
        match first_occur(s.subrange(1, s.len() as int), pat) {
            Some(i) => Some(i + 1),
            None => None,
        }
    }
}

/// A found index is in bounds, with room for the whole pattern.
pub proof fn lemma_first_occur_bound(s: Seq<char>, pat: Seq<char>, i: int)
    requires
        pat.len() > 0,
        first_occur(s, pat) == Some(i),
    ensures
        0 <= i,
        i + pat.len() <= s.len(),
    decreases s.len(),
{
    if s.len() < pat.len() {
    } else if s.subrange(0, pat.len() as int) == pat {
    } else {
        let rest = s.subrange(1, s.len() as int);
        match first_occur(rest, pat) {
            Some(j) => {
                lemma_first_occur_bound(rest, pat, j);
            },
            None => {},
        }
    }
}

/// Occurrences in the tail of a sequence are occurrences in the whole,
/// shifted by one.
proof fn lemma_occurs_at_shift(s: Seq<char>, pat: Seq<char>, i: int)
    requires
        s.len() >= 1,
        i >= 1,
    ensures
        occurs_at(s, pat, i) <==> occurs_at(s.subrange(1, s.len() as int), pat, i - 1),
{
    let rest = s.subrange(1, s.len() as int);
    if 0 <= i - 1 && i - 1 + pat.len() <= rest.len() {
        assert(rest.subrange(i - 1, i - 1 + pat.len()) =~= s.subrange(i, i + pat.len()));
    }
}

/// `first_occur` returns exactly the leftmost occurrence: `Some(i)` means an
/// occurrence at `i` with none before it, and `None` means no occurrence at all.
pub proof fn lemma_first_occur_iff(s: Seq<char>, pat: Seq<char>)
    requires
        pat.len() > 0,
    ensures
        forall|i: int|
            first_occur(s, pat) == Some(i) <==> (occurs_at(s, pat, i) && forall|j: int|
                0 <= j < i ==> !occurs_at(s, pat, j)),
        first_occur(s, pat) is None <==> (forall|j: int| !occurs_at(s, pat, j)),
    decreases s.len(),
{
    if s.len() < pat.len() {
        assert(forall|j: int| !occurs_at(s, pat, j));
        assert forall|i: int| !(occurs_at(s, pat, i) && forall|j: int|
            0 <= j < i ==> !occurs_at(s, pat, j)) by {}
    } else if s.subrange(0, pat.len() as int) == pat {
        assert(occurs_at(s, pat, 0));
        assert forall|i: int|
            (occurs_at(s, pat, i) && forall|j: int| 0 <= j < i ==> !occurs_at(s, pat, j))
                implies i == 0 by {
            if i != 0 {
                assert(occurs_at(s, pat, 0));
            }
        }
    } else {
        let rest = s.subrange(1, s.len() as int);
        lemma_first_occur_iff(rest, pat);
        assert(!occurs_at(s, pat, 0)) by {
            if occurs_at(s, pat, 0) {
                assert(s.subrange(0, pat.len() as int) == pat);
            }
        }
        assert forall|i: int| i >= 1 implies (occurs_at(s, pat, i) <==> occurs_at(
            rest,
            pat,
            i - 1,
        )) by {
            lemma_occurs_at_shift(s, pat, i);
        }
        match first_occur(rest, pat) {
            Some(k) => {
                assert(first_occur(s, pat) == Some(k + 1));
                assert(occurs_at(rest, pat, k));
                assert(occurs_at(s, pat, k + 1));
                assert forall|j: int| 0 <= j < k + 1 implies !occurs_at(s, pat, j) by {
                    if j >= 1 {
                        assert(!occurs_at(rest, pat, j - 1));
                    }
                }
                assert forall|i: int|
                    (occurs_at(s, pat, i) && forall|j: int| 0 <= j < i ==> !occurs_at(s, pat, j))
                        implies i == k + 1 by {
                    if i < k + 1 {
                        assert(occurs_at(rest, pat, i - 1) || i == 0);
                        assert(first_occur(rest, pat) == Some(k));
                    } else if i > k + 1 {
                        assert(occurs_at(s, pat, k + 1));
                    }
                }
            },
            None => {
                assert forall|j: int| !occurs_at(s, pat, j) by {
                    if j >= 1 {
                        assert(!occurs_at(rest, pat, j - 1));
                    }
                }
            },
        }
    }
}

/// Does `pat` occur at index `i` of `s`? Checked character by character.
fn match_at(s: &str, pat: &str, i: usize) -> (r: bool)
    requires
        i + pat@.len() <= s@.len(),
    ensures
        r == occurs_at(s@, pat@, i as int),
{
    let s_len = s.unicode_len();
    let pat_len = pat.unicode_len();
    let mut j: usize = 0;
    while j < pat_len
        invariant
            0 <= j <= pat_len,
            pat_len == pat@.len(),
            s_len == s@.len(),
            i + pat_len <= s_len,
            forall|t: int| 0 <= t < j ==> s@[i + t] == pat@[t],
        decreases pat_len - j,
    {
        if s.get_char(i + j) != pat.get_char(j) {
            assert(!occurs_at(s@, pat@, i as int)) by {
                if s@.subrange(i as int, i + pat@.len()) == pat@ {
                    assert(s@.subrange(i as int, i + pat@.len())[j as int] == s@[i + j]);
                }
            }
            return false;
        }
        j += 1;
    }
    assert(s@.subrange(i as int, i + pat@.len()) =~= pat@);
    true
}

/// Leftmost occurrence of `pat` in `s`, as a character index.
pub fn find(s: &str, pat: &str) -> (r: Option<usize>)
    requires
        pat@.len() > 0,
    ensures
        match r {
            Some(i) => first_occur(s@, pat@) == Some(i as int),
            None => first_occur(s@, pat@) is None,
        },
{
    proof {
        lemma_first_occur_iff(s@, pat@);
    }
    let s_len = s.unicode_len();
    let pat_len = pat.unicode_len();
    if s_len < pat_len {
        assert(forall|j: int| !occurs_at(s@, pat@, j));
        return None;
    }
    let mut i: usize = 0;
    while i <= s_len - pat_len
        invariant
            pat_len == pat@.len(),
            pat_len > 0,
            s_len == s@.len(),
            pat_len <= s_len,
            0 <= i <= s_len - pat_len + 1,
            forall|j: int| 0 <= j < i ==> !occurs_at(s@, pat@, j),
        decreases s_len - i,
    {
        if match_at(s, pat, i) {
            proof {
                lemma_first_occur_iff(s@, pat@);
            }
            return Some(i);
        }
        i += 1;
    }
    assert(forall|j: int| !occurs_at(s@, pat@, j)) by {
        assert(forall|j: int| j > s_len - pat_len ==> !occurs_at(s@, pat@, j));
    }
    None
}

/// A text without the pattern's first character holds no occurrence of
/// the pattern at all.
pub proof fn lemma_first_occur_absent(s: Seq<char>, pat: Seq<char>)
    requires
        pat.len() > 0,
        !s.contains(pat[0]),
    ensures
        first_occur(s, pat) is None,
{
    lemma_first_occur_iff(s, pat);
    assert forall|j: int| !occurs_at(s, pat, j) by {
        if occurs_at(s, pat, j) {
            assert(s.subrange(j, j + pat.len())[0] == s[j]);
            assert(s[j] == pat[0]);
        }
    }
}

/// In `a + sep + b` with the separator's first character absent from `a`,
/// the leftmost occurrence of `sep` is exactly at the end of `a`.
pub proof fn lemma_first_occur_concat(a: Seq<char>, b: Seq<char>, sep: Seq<char>)
    requires
        sep.len() > 0,
        !a.contains(sep[0]),
    ensures
        first_occur(a + sep + b, sep) == Some(a.len() as int),
{
    let s = a + sep + b;
    lemma_first_occur_iff(s, sep);
    assert(s.subrange(a.len() as int, a.len() as int + sep.len() as int) =~= sep);
    assert(occurs_at(s, sep, a.len() as int));
    assert forall|j: int| 0 <= j < a.len() implies !occurs_at(s, sep, j) by {
        if occurs_at(s, sep, j) {
            assert(s.subrange(j, j + sep.len())[0] == s[j]);
            assert(a[j] == sep[0]);
        }
    }
}

/// Splitting `a + sep + b` on `sep`, whose first character is absent from
/// `a`, yields `a` and then the split of `b`.
pub proof fn lemma_split_concat(a: Seq<char>, b: Seq<char>, sep: Seq<char>)
    requires
        sep.len() > 0,
        !a.contains(sep[0]),
    ensures
        spec_split(a + sep + b, sep) == seq![a] + spec_split(b, sep),
{
    let s = a + sep + b;
    lemma_first_occur_concat(a, b, sep);
    assert(s.subrange(0, a.len() as int) =~= a);
    assert(s.subrange(a.len() as int + sep.len() as int, s.len() as int) =~= b);
}

/// In `a + c + b` with the single character `c` absent from `a`, the
/// leftmost occurrence of `c` is exactly at the end of `a`.
pub proof fn lemma_first_occur_concat_single(a: Seq<char>, b: Seq<char>, c: char)
    requires
        !a.contains(c),
    ensures
        first_occur(a + seq![c] + b, seq![c]) == Some(a.len() as int),
{
    lemma_first_occur_concat(a, b, seq![c]);
}

/// Splitting `a + c + b` on the single character `c`, absent from `a`,
/// yields `a` and then the split of `b`.
pub proof fn lemma_split_concat_single(a: Seq<char>, b: Seq<char>, c: char)
    requires
        !a.contains(c),
    ensures
        spec_split(a + seq![c] + b, seq![c]) == seq![a] + spec_split(b, seq![c]),
{
    lemma_split_concat(a, b, seq![c]);
}

/// A text with no occurrence of the separator is one whole segment.
pub proof fn lemma_split_whole(s: Seq<char>, sep: Seq<char>)
    requires
        sep.len() > 0,
        first_occur(s, sep) is None,
    ensures
        spec_split(s, sep) == seq![s],
{
}

/// The views of a sequence of owned strings.
pub open spec fn views(v: Seq<String>) -> Seq<Seq<char>> {
    v.map_values(|x: String| x@)
}

/// Splitting on a non-empty separator: the text before the leftmost
/// occurrence, followed by the split of the text after it. A text with no
/// occurrence is a single segment, so the result is never empty.
pub open spec fn spec_split(s: Seq<char>, sep: Seq<char>) -> Seq<Seq<char>>
    recommends
        sep.len() > 0,
    decreases s.len(),
        when sep.len() > 0
{
    match first_occur(s, sep) {
        None => seq![s],
        Some(i) => {
            proof {
                lemma_first_occur_bound(s, sep, i);
            }
            seq![s.subrange(0, i)] + spec_split(s.subrange(i + sep.len(), s.len() as int), sep)
        },
    }
}

/// Split `s` at every occurrence of `sep`, leftmost first.
pub fn split_str(s: &str, sep: &str) -> (r: Vec<String>)
    requires
        sep@.len() > 0,
    ensures
        views(r@) == spec_split(s@, sep@),
{
    let sep_len = sep.unicode_len();
    let mut segs: Vec<String> = Vec::new();
    let mut rem: &str = s;
    loop
        invariant
            sep_len == sep@.len(),
            sep_len > 0,
            views(segs@) + spec_split(rem@, sep@) == spec_split(s@, sep@),
        decreases rem@.len(),
    {
        let rem_len = rem.unicode_len();
        let ghost prev_views = views(segs@);
        let ghost prev_rem = rem@;
        match find(rem, sep) {
            Some(i) => {
                proof {
                    lemma_first_occur_bound(rem@, sep@, i as int);
                }
                let seg = rem.substring_char(0, i);
                segs.push(seg.to_owned());
                rem = rem.substring_char(i + sep_len, rem_len);
                proof {
                    assert(spec_split(prev_rem, sep@) == seq![prev_rem.subrange(0, i as int)]
                        + spec_split(rem@, sep@));
                    assert(views(segs@) =~= prev_views.push(seg@));
                    assert(views(segs@) + spec_split(rem@, sep@) =~= spec_split(s@, sep@));
                }
            },
            None => {
                segs.push(rem.to_owned());
                proof {
                    assert(spec_split(prev_rem, sep@) == seq![prev_rem]);
                    assert(views(segs@) =~= prev_views.push(prev_rem));
                    assert(views(segs@) =~= spec_split(s@, sep@));
                }
                return segs;
            },
        }
    }
}

/// `s` with every trailing NUL character removed.
pub open spec fn trim_end_nul(s: Seq<char>) -> Seq<char>
    decreases s.len(),
{
    if s.len() > 0 && s.last() == '\0' {
        trim_end_nul(s.drop_last())
    } else {
        s
    }
}

/// Strip all trailing NUL characters, as left behind by a zero-padded
/// read buffer.
pub fn trim_end_nuls(s: &str) -> (r: String)
    ensures
        r@ == trim_end_nul(s@),
{
    let mut end = s.unicode_len();
    proof {
        assert(s@.subrange(0, s@.len() as int) =~= s@);
    }
    while end > 0 && s.get_char(end - 1) == '\0'
        invariant
            end <= s@.len(),
            trim_end_nul(s@) == trim_end_nul(s@.subrange(0, end as int)),
        decreases end,
    {
        proof {
            assert(s@.subrange(0, end as int).drop_last() =~= s@.subrange(0, end - 1));
        }
        end -= 1;
    }
    s.substring_char(0, end).to_owned()
}

/// The character for one decimal digit.
pub open spec fn digit_char(d: int) -> char {
    if d == 0 {
        '0'
    } else if d == 1 {
        '1'
    } else if d == 2 {
        '2'
    } else if d == 3 {
        '3'
    } else if d == 4 {
        '4'
    } else if d == 5 {
        '5'
    } else if d == 6 {
        '6'
    } else if d == 7 {
        '7'
    } else if d == 8 {
        '8'
    } else {
        '9'
    }
}

/// The decimal digits of a non-negative integer, most significant first,
/// with no leading zeros (except for the number zero itself).
pub open spec fn dec_chars(n: int) -> Seq<char>
    recommends
        n >= 0,
    decreases n,
{
    if n < 10 {
        seq![digit_char(n)]
    } else {
        dec_chars(n / 10).push(digit_char(n % 10))
    }
}

/// One decimal digit as a string slice.
fn digit_str(d: usize) -> (r: &'static str)
    requires
        d < 10,
    ensures
        r@ == seq![digit_char(d as int)],
{
    let r: &'static str = match d {
        0 => "0",
        1 => "1",
        2 => "2",
        3 => "3",
        4 => "4",
        5 => "5",
        6 => "6",
        7 => "7",
        8 => "8",
        _ => "9",
    };
    proof {
        reveal_strlit("0");
        reveal_strlit("1");
        reveal_strlit("2");
        reveal_strlit("3");
        reveal_strlit("4");
        reveal_strlit("5");
        reveal_strlit("6");
        reveal_strlit("7");
        reveal_strlit("8");
        reveal_strlit("9");
        assert(r@ =~= seq![digit_char(d as int)]);
    }
    r
}

/// Format a length or status code in decimal.
pub fn usize_to_dec(n: usize) -> (r: String)
    ensures
        r@ == dec_chars(n as int),
    decreases n,
{
    if n < 10 {
        digit_str(n).to_owned()
    } else {
        let mut prefix = usize_to_dec(n / 10);
        prefix.append(digit_str(n % 10));
        proof {
            assert(prefix@ =~= dec_chars(n as int));
        }
        prefix
    }
}

/// ASCII case folding of one character: the upper-case letters map to
/// their lower-case forms, everything else stays as it is.
pub open spec fn lower_char(c: char) -> char {
    if c == 'A' {
        'a'
    } else if c == 'B' {
        'b'
    } else if c == 'C' {
        'c'
    } else if c == 'D' {
        'd'
    } else if c == 'E' {
        'e'
    } else if c == 'F' {
        'f'
    } else if c == 'G' {
        'g'
    } else if c == 'H' {
        'h'
    } else if c == 'I' {
        'i'
    } else if c == 'J' {
        'j'
    } else if c == 'K' {
        'k'
    } else if c == 'L' {
        'l'
    } else if c == 'M' {
        'm'
    } else if c == 'N' {
        'n'
    } else if c == 'O' {
        'o'
    } else if c == 'P' {
        'p'
    } else if c == 'Q' {
        'q'
    } else if c == 'R' {
        'r'
    } else if c == 'S' {
        's'
    } else if c == 'T' {
        't'
    } else if c == 'U' {
        'u'
    } else if c == 'V' {
        'v'
    } else if c == 'W' {
        'w'
    } else if c == 'X' {
        'x'
    } else if c == 'Y' {
        'y'
    } else if c == 'Z' {
        'z'
    } else {
        c
    }
}

/// ASCII case folding of a text, character by character.
pub open spec fn lower(s: Seq<char>) -> Seq<char> {
    Seq::new(s.len(), |i: int| lower_char(s[i]))
}

/// ASCII case folding of one character.
fn to_lower_char(c: char) -> (r: char)
    ensures
        r == lower_char(c),
{
    match c {
        'A' => 'a',
        'B' => 'b',
        'C' => 'c',
        'D' => 'd',
        'E' => 'e',
        'F' => 'f',
        'G' => 'g',
        'H' => 'h',
        'I' => 'i',
        'J' => 'j',
        'K' => 'k',
        'L' => 'l',
        'M' => 'm',
        'N' => 'n',
        'O' => 'o',
        'P' => 'p',
        'Q' => 'q',
        'R' => 'r',
        'S' => 's',
        'T' => 't',
        'U' => 'u',
        'V' => 'v',
        'W' => 'w',
        'X' => 'x',
        'Y' => 'y',
        'Z' => 'z',
        _ => c,
    }
}

/// Does `t` equal `lit` after ASCII case folding of `t`?
pub fn eq_lower(t: &str, lit: &str) -> (r: bool)
    ensures
        r == (lower(t@) == lit@),
{
    let t_len = t.unicode_len();
    let lit_len = lit.unicode_len();
    if t_len != lit_len {
        assert(lower(t@).len() != lit@.len());
        return false;
    }
    let mut i: usize = 0;
    while i < t_len
        invariant
            t_len == t@.len(),
            lit_len == lit@.len(),
            t_len == lit_len,
            0 <= i <= t_len,
            forall|j: int| 0 <= j < i ==> lower(t@)[j] == lit@[j],
        decreases t_len - i,
    {
        if to_lower_char(t.get_char(i)) != lit.get_char(i) {
            assert(lower(t@)[i as int] != lit@[i as int]);
            return false;
        }
        i += 1;
    }
    assert(lower(t@) =~= lit@);
    true
}

/// Character-for-character equality of two string slices.
pub fn str_eq(a: &str, b: &str) -> (r: bool)
    ensures
        r == (a@ == b@),
{
    let a_len = a.unicode_len();
    let b_len = b.unicode_len();
    if a_len != b_len {
        return false;
    }
    let mut i: usize = 0;
    while i < a_len
        invariant
            a_len == a@.len(),
            b_len == b@.len(),
            a_len == b_len,
            0 <= i <= a_len,
            forall|t: int| 0 <= t < i ==> a@[t] == b@[t],
        decreases a_len - i,
    {
        if a.get_char(i) != b.get_char(i) {
            return false;
        }
        i += 1;
    }
    assert(a@ =~= b@);
    true
}

} // verus!
