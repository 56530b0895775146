//! Character and string helpers shared by the parser, the layout engine
//! and the path resolver. Everything here is executable and verified
//! against spec functions over `Seq<char>`.

use vstd::prelude::*;

verus! {

/// A character that separates words for layout purposes, and that the
/// trimming of parsed text removes at both ends. This is the ASCII
/// whitespace set.
pub open spec fn is_wspace(c: char) -> bool {
    c == ' ' || c == '\t' || c == '\n' || c == '\r' || c == '\u{b}' || c == '\u{c}'
}

/// Executable whitespace test, equal to `is_wspace`.
pub fn is_space_char(c: char) -> (r: bool)
    ensures
        r == is_wspace(c),
{
    c == ' ' || c == '\t' || c == '\n' || c == '\r' || c == '\u{b}' || c == '\u{c}'
}

/// Equality of two string slices, by characters.
pub fn str_eq(a: &str, b: &str) -> (r: bool)
    ensures
        r == (a@ == b@),
{
    let alen = a.unicode_len();
    let blen = b.unicode_len();
    if alen != blen {
        assert(a@ != b@) by {
            assert(a@.len() != b@.len());
        }
        return false;
    }
    let mut i: usize = 0;
    while i < alen
        invariant
            alen == a@.len(),
            alen == b@.len(),
            0 <= i <= alen,
            forall|j: int| 0 <= j < i ==> a@[j] == b@[j],
        decreases alen - i,
    {
        if a.get_char(i) != b.get_char(i) {
            return false;
        }
        i += 1;
    }
    proof {
        assert(a@ =~= b@);
    }
    true
}

/// First position `i >= from` at which `pat` occurs in `s`, if any.
pub open spec fn find_sub_from(s: Seq<char>, pat: Seq<char>, from: int) -> Option<int>
    decreases s.len() - from + 1,
        when 0 <= from
{
    if from + pat.len() > s.len() {
        None
    } else if s.subrange(from, from + pat.len() as int) == pat {
        Some(from)
    } else {
        find_sub_from(s, pat, from + 1)
    }
}

/// First position of the substring `pat` in `s`, if any.
pub open spec fn find_sub_spec(s: Seq<char>, pat: Seq<char>) -> Option<int> {
    find_sub_from(s, pat, 0)
}

/// Finds the first occurrence of `pat` in `s` at or after `from`.
pub fn find_sub_at(s: &str, pat: &str, from: usize) -> (r: Option<usize>)
    requires
        from <= s@.len(),
    ensures
        match r {
            Some(i) => from <= i && Some(i as int) == find_sub_from(s@, pat@, from as int),
            None => find_sub_from(s@, pat@, from as int) is None,
        },
{
    let slen = s.unicode_len();
    let plen = pat.unicode_len();
    let mut i: usize = from;
    loop
        invariant
            from <= i <= slen,
            slen == s@.len(),
            plen == pat@.len(),
            find_sub_from(s@, pat@, from as int) == find_sub_from(s@, pat@, i as int),
        decreases slen - i,
    {
        if plen > slen || i > slen - plen {
            return None;
        }
        let piece = s.substring_char(i, i + plen);
        if str_eq(piece, pat) {
            return Some(i);
        }
        proof {
            if plen == 0 {
                assert(piece@ =~= pat@);
            }
        }
        i += 1;
    }
}

/// Finds the first occurrence of the substring `pat` in `s`.
pub fn find_sub(s: &str, pat: &str) -> (r: Option<usize>)
    ensures
        match r {
            Some(i) => Some(i as int) == find_sub_spec(s@, pat@),
            None => find_sub_spec(s@, pat@) is None,
        },
{
    find_sub_at(s, pat, 0)
}

/// A found substring position lies within `s` and matches `pat` there.
pub proof fn lemma_find_sub_some(s: Seq<char>, pat: Seq<char>, from: int, i: int)
    requires
        0 <= from,
        find_sub_from(s, pat, from) == Some(i),
    ensures
        from <= i,
        i + pat.len() <= s.len(),
        s.subrange(i, i + pat.len() as int) == pat,
    decreases s.len() - from + 1,
{
    if from + pat.len() <= s.len() && s.subrange(from, from + pat.len() as int) != pat {
        lemma_find_sub_some(s, pat, from + 1, i);
    }
}

/// First position `i >= from` at which the character `c` occurs in `s`, if any.
pub open spec fn find_char_from(s: Seq<char>, c: char, from: int) -> Option<int>
    decreases s.len() - from,
        when 0 <= from
{
    if from >= s.len() {
        None
    } else if s[from] == c {
        Some(from)
    } else {
        find_char_from(s, c, from + 1)
    }
}

/// Finds the first occurrence of the character `c` in `s` at or after `from`.
pub fn find_char_at(s: &str, c: char, from: usize) -> (r: Option<usize>)
    requires
        from <= s@.len(),
    ensures
        match r {
            Some(i) => from <= i && Some(i as int) == find_char_from(s@, c, from as int),
            None => find_char_from(s@, c, from as int) is None,
        },
{
    let slen = s.unicode_len();
    let mut i: usize = from;
    loop
        invariant
            from <= i <= slen,
            slen == s@.len(),
            find_char_from(s@, c, from as int) == find_char_from(s@, c, i as int),
        decreases slen - i,
    {
        if i >= slen {
            return None;
        }
        if s.get_char(i) == c {
            return Some(i);
        }
        i += 1;
    }
}

/// A found character position lies within `s` and holds `c`.
pub proof fn lemma_find_char_some(s: Seq<char>, c: char, from: int, i: int)
    requires
        0 <= from,
        find_char_from(s, c, from) == Some(i),
    ensures
        from <= i < s.len(),
        s[i] == c,
    decreases s.len() - from,
{
    if from < s.len() && s[from] != c {
        lemma_find_char_some(s, c, from + 1, i);
    }
}

/// `s` with leading and trailing whitespace removed.
pub open spec fn trim_spec(s: Seq<char>) -> Seq<char>
    decreases s.len(),
{
    if s.len() == 0 {
        s
    } else if is_wspace(s[0]) {
        trim_spec(s.drop_first())
    } else if is_wspace(s[s.len() - 1]) {
        trim_spec(s.drop_last())
    } else {
        s
    }
}

/// A non-empty trimmed text neither starts nor ends in whitespace.
pub proof fn lemma_trim_ends(s: Seq<char>)
    ensures
        trim_spec(s).len() > 0 ==> !is_wspace(trim_spec(s)[0]) && !is_wspace(
            trim_spec(s)[trim_spec(s).len() - 1],
        ),
    decreases s.len(),
{
    if s.len() == 0 {
    } else if is_wspace(s[0]) {
        lemma_trim_ends(s.drop_first());
    } else if is_wspace(s[s.len() - 1]) {
        lemma_trim_ends(s.drop_last());
    }
}

/// Trimming is idempotent.
pub proof fn lemma_trim_idempotent(s: Seq<char>)
    ensures
        trim_spec(trim_spec(s)) == trim_spec(s),
{
    lemma_trim_ends(s);
}

/// Removes leading and trailing whitespace.
pub fn trim_str(s: &str) -> (r: String)
    ensures
        r@ == trim_spec(s@),
{
    let slen = s.unicode_len();
    let mut start: usize = 0;
    let mut end: usize = slen;
    proof {
        assert(s@.subrange(0, slen as int) =~= s@);
    }
    while start < end && is_space_char(s.get_char(start))
        invariant
            0 <= start <= end <= slen,
            slen == s@.len(),
            trim_spec(s@) == trim_spec(s@.subrange(start as int, end as int)),
        decreases end - start,
    {
        proof {
            let sub = s@.subrange(start as int, end as int);
            assert(sub.drop_first() =~= s@.subrange(start as int + 1, end as int));
        }
        start += 1;
    }
    while end > start && is_space_char(s.get_char(end - 1))
        invariant
            0 <= start <= end <= slen,
            slen == s@.len(),
            start < end ==> !is_wspace(s@[start as int]),
            trim_spec(s@) == trim_spec(s@.subrange(start as int, end as int)),
        decreases end - start,
    {
        proof {
            let sub = s@.subrange(start as int, end as int);
            assert(sub.drop_last() =~= s@.subrange(start as int, end as int - 1));
        }
        end -= 1;
    }
    proof {
        let sub = s@.subrange(start as int, end as int);
        if start == end {
            assert(sub =~= Seq::<char>::empty());
        }
    }
    s.substring_char(start, end).to_owned()
}

/// The decimal digit character for `d`.
pub open spec fn dec_digit(d: int) -> char {
    if d == 0 {
        '0'
    } else if d == 1 {
        '1'
    } else if d == 2 {
        '2'
    } else if d == 3 {
        '3'
    } else if d == 4 {
        '4'
    } else if d == 5 {
        '5'
    } else if d == 6 {
        '6'
    } else if d == 7 {
        '7'
    } else if d == 8 {
        '8'
    } else {
        '9'
    }
}

/// The decimal digits of `n`, most significant first.
pub open spec fn dec_str(n: int) -> Seq<char>
    decreases n,
        when n >= 0
{
    if n < 10 {
        seq![dec_digit(n)]
    } else {
        dec_str(n / 10).push(dec_digit(n % 10))
    }
}

/// The one-character string for a decimal digit.
fn digit_str(d: usize) -> (r: &'static str)
    requires
        d < 10,
    ensures
        r@ == seq![dec_digit(d as int)],
{
    proof {
        reveal_strlit("0");
        reveal_strlit("1");
        reveal_strlit("2");
        reveal_strlit("3");
        reveal_strlit("4");
        reveal_strlit("5");
        reveal_strlit("6");
        reveal_strlit("7");
        reveal_strlit("8");
        reveal_strlit("9");
        assert("0"@ =~= seq!['0']);
        assert("1"@ =~= seq!['1']);
        assert("2"@ =~= seq!['2']);
        assert("3"@ =~= seq!['3']);
        assert("4"@ =~= seq!['4']);
        assert("5"@ =~= seq!['5']);
        assert("6"@ =~= seq!['6']);
        assert("7"@ =~= seq!['7']);
        assert("8"@ =~= seq!['8']);
        assert("9"@ =~= seq!['9']);
    }
    match d {
        0 => "0",
        1 => "1",
        2 => "2",
        3 => "3",
        4 => "4",
        5 => "5",
        6 => "6",
        7 => "7",
        8 => "8",
        _ => "9",
    }
}

/// Writes `n` in decimal.
pub fn usize_to_string(n: usize) -> (r: String)
    ensures
        r@ == dec_str(n as int),
    decreases n,
{
    if n < 10 {
        digit_str(n).to_owned()
    } else {
        proof {
            assert(n / 10 < n);
        }
        let high = usize_to_string(n / 10);
        let r = high.concat(digit_str(n % 10));
        proof {
            assert(r@ =~= dec_str(n as int / 10).push(dec_digit(n as int % 10)));
        }
        r
    }
}

} // verus!
