//! Character sequences: searching, splitting, replacing and trimming.
//!
//! Every routine works on `Vec<char>` and is specified over `Seq<char>`, so
//! that positions are character positions and no byte boundary can be hit.

use vstd::prelude::*;

verus! {

/// `String::push` appends exactly one character.
pub assume_specification[ String::push ](s: &mut String, c: char)
    ensures
        final(s)@ == old(s)@.push(c),
;

/// The characters of `s`, in order.
pub fn chars_of(s: &str) -> (v: Vec<char>)
    ensures
        v@ == s@,
{
    let mut v: Vec<char> = Vec::new();
    for c in it: s.chars()
        invariant
            v@ == it.seq().take(it.index() as int),
            it.seq() == s@,
    {
        v.push(c);
    }
    v
}

/// The string made of the characters of `v`, in order.
pub fn string_of(v: &Vec<char>) -> (s: String)
    ensures
        s@ == v@,
{
    let mut s = String::new();
    let mut i: usize = 0;
    while i < v.len()
        invariant
            i <= v.len(),
            s@ == v@.take(i as int),
        decreases v.len() - i,
    {
        s.push(v[i]);
        i += 1;
    }
    s
}

/// `p` occurs in `s` at position `i`.
pub open spec fn matches_at(s: Seq<char>, p: Seq<char>, i: int) -> bool {
    0 <= i && i + p.len() <= s.len() && s.subrange(i, i + p.len()) == p
}

/// `p` is a beginning of `s`.
pub open spec fn starts_with(s: Seq<char>, p: Seq<char>) -> bool {
    matches_at(s, p, 0)
}

/// `p` is an end of `s`.
pub open spec fn ends_with(s: Seq<char>, p: Seq<char>) -> bool {
    matches_at(s, p, s.len() - p.len())
}

/// The first position at or after `from` where `p` occurs in `s`, or -1.
pub open spec fn find_from(s: Seq<char>, p: Seq<char>, from: int) -> int
    decreases s.len() - from,
{
    if from < 0 || from + p.len() > s.len() {
        -1
    } else if matches_at(s, p, from) {
        from
    } else if from >= s.len() {
        -1
    } else {
        find_from(s, p, from + 1)
    }
}

/// The pieces of `s` from position `from` on, cut at each occurrence of `sep`
/// found from left to right; occurrences do not overlap.
pub open spec fn split_from(s: Seq<char>, sep: Seq<char>, from: int) -> Seq<Seq<char>>
    decreases s.len() - from,
{
    let i = find_from(s, sep, from);
    if sep.len() == 0 || i < from || i + sep.len() > s.len() {
        seq![s.subrange(from, s.len() as int)]
    } else {
        seq![s.subrange(from, i)] + split_from(s, sep, i + sep.len())
    }
}

/// The pieces of `s` between the occurrences of a non-empty `sep`. There is
/// always at least one piece.
pub open spec fn split(s: Seq<char>, sep: Seq<char>) -> Seq<Seq<char>> {
    split_from(s, sep, 0)
}

/// `s` from position `from` on, with each occurrence of `pat`, found from left
/// to right without overlap, replaced by `to`.
pub open spec fn replace_from(s: Seq<char>, pat: Seq<char>, to: Seq<char>, from: int) -> Seq<char>
    decreases s.len() - from,
{
    let i = find_from(s, pat, from);
    if pat.len() == 0 || i < from || i + pat.len() > s.len() {
        s.subrange(from, s.len() as int)
    } else {
        s.subrange(from, i) + to + replace_from(s, pat, to, i + pat.len())
    }
}

/// `s` with every occurrence of a non-empty `pat` replaced by `to`.
pub open spec fn replace_all(s: Seq<char>, pat: Seq<char>, to: Seq<char>) -> Seq<char> {
    replace_from(s, pat, to, 0)
}

/// `s` without any trailing repetitions of `p`.
pub open spec fn trim_end(s: Seq<char>, p: Seq<char>) -> Seq<char>
    decreases s.len(),
{
    if p.len() > 0 && ends_with(s, p) {
        trim_end(s.subrange(0, s.len() - p.len()), p)
    } else {
        s
    }
}

/// `s` without any leading repetitions of `p`.
pub open spec fn trim_start(s: Seq<char>, p: Seq<char>) -> Seq<char>
    decreases s.len(),
{
    if p.len() > 0 && starts_with(s, p) {
        trim_start(s.subrange(p.len() as int, s.len() as int), p)
    } else {
        s
    }
}

/// The position of the last `c` in `s`, or -1.
pub open spec fn last_index_of(s: Seq<char>, c: char) -> int
    decreases s.len(),
{
    if s.len() == 0 {
        -1
    } else if s.last() == c {
        s.len() - 1
    } else {
        last_index_of(s.drop_last(), c)
    }
}

/// The views of the pieces in `parts`.
pub open spec fn views(parts: Seq<Vec<char>>) -> Seq<Seq<char>> {
    Seq::new(parts.len(), |i: int| parts[i]@)
}

/// The digit for a number below ten.
pub open spec fn digit_char(d: int) -> char {
    if d == 0 {
        '0'
    } else if d == 1 {
        '1'
    } else if d == 2 {
        '2'
    } else if d == 3 {
        '3'
    } else if d == 4 {
        '4'
    } else if d == 5 {
        '5'
    } else if d == 6 {
        '6'
    } else if d == 7 {
        '7'
    } else if d == 8 {
        '8'
    } else {
        '9'
    }
}

/// The decimal numeral of `n`, without leading zeros.
pub open spec fn decimal(n: nat) -> Seq<char>
    decreases n,
{
    if n < 10 {
        seq![digit_char(n as int)]
    } else {
        decimal(n / 10).push(digit_char((n % 10) as int))
    }
}

/// Whether `a` and `b` hold the same characters.
pub fn seq_eq(a: &Vec<char>, b: &Vec<char>) -> (r: bool)
    ensures
        r == (a@ == b@),
{
    if a.len() != b.len() {
        return false;
    }
    let mut i: usize = 0;
    while i < a.len()
        invariant
            i <= a.len(),
            a.len() == b.len(),
            a@.take(i as int) == b@.take(i as int),
        decreases a.len() - i,
    {
        if a[i] != b[i] {
            return false;
        }
        assert(a@.take(i + 1) == a@.take(i as int).push(a@[i as int]));
        assert(b@.take(i + 1) == b@.take(i as int).push(b@[i as int]));
        i += 1;
    }
    assert(a@ == a@.take(a.len() as int));
    assert(b@ == b@.take(b.len() as int));
    true
}

/// Whether `p` occurs in `s` at position `i`.
pub fn occurs_at(s: &Vec<char>, p: &Vec<char>, i: usize) -> (r: bool)
    ensures
        r == matches_at(s@, p@, i as int),
{
    if p.len() > s.len() || i > s.len() - p.len() {
        return false;
    }
    let mut k: usize = 0;
    while k < p.len()
        invariant
            k <= p.len(),
            i + p.len() <= s.len(),
            s@.subrange(i as int, i + k) == p@.take(k as int),
        decreases p.len() - k,
    {
        if s[i + k] != p[k] {
            assert(s@.subrange(i as int, i + p.len())[k as int] != p@[k as int]);
            return false;
        }
        assert(s@.subrange(i as int, i + k + 1) == s@.subrange(i as int, i + k).push(
            s@[i + k],
        ));
        assert(p@.take(k + 1) == p@.take(k as int).push(p@[k as int]));
        k += 1;
    }
    assert(p@ == p@.take(p.len() as int));
    true
}

/// Whether `p` is a beginning of `s`.
pub fn has_prefix(s: &Vec<char>, p: &Vec<char>) -> (r: bool)
    ensures
        r == starts_with(s@, p@),
{
    occurs_at(s, p, 0)
}

/// Whether `p` is an end of `s`.
pub fn has_suffix(s: &Vec<char>, p: &Vec<char>) -> (r: bool)
    ensures
        r == ends_with(s@, p@),
{
    if p.len() > s.len() {
        false
    } else {
        occurs_at(s, p, s.len() - p.len())
    }
}

/// The first position at or after `from` where `p` occurs in `s`.
pub fn find(s: &Vec<char>, p: &Vec<char>, from: usize) -> (r: Option<usize>)
    ensures
        match r {
            Some(i) => i == find_from(s@, p@, from as int) && from <= i && i + p.len() <= s.len(),
            None => find_from(s@, p@, from as int) == -1,
        },
{
    let mut i: usize = from;
    while i <= s.len() && p.len() <= s.len() - i
        invariant
            from <= i,
            find_from(s@, p@, from as int) == find_from(s@, p@, i as int),
        decreases s.len() + 1 - i,
    {
        if occurs_at(s, p, i) {
            return Some(i);
        }
        assert(i < s.len()) by {
            if i == s.len() {
                assert(s@.subrange(i as int, i + p.len()) =~= p@);
            }
        }
        i += 1;
    }
    None
}

/// A copy of `s[from..to]`.
pub fn slice_of(s: &Vec<char>, from: usize, to: usize) -> (r: Vec<char>)
    requires
        from <= to <= s.len(),
    ensures
        r@ == s@.subrange(from as int, to as int),
{
    let mut r: Vec<char> = Vec::new();
    let mut i: usize = from;
    while i < to
        invariant
            from <= i <= to <= s.len(),
            r@ == s@.subrange(from as int, i as int),
        decreases to - i,
    {
        r.push(s[i]);
        i += 1;
    }
    r
}

/// Appends the characters of `tail` to `v`.
pub fn append_chars(v: &mut Vec<char>, tail: &Vec<char>)
    ensures
        final(v)@ == old(v)@ + tail@,
{
    let mut i: usize = 0;
    while i < tail.len()
        invariant
            i <= tail.len(),
            v@ == old(v)@ + tail@.take(i as int),
        decreases tail.len() - i,
    {
        v.push(tail[i]);
        i += 1;
    }
    assert(tail@ == tail@.take(tail.len() as int));
}

/// Cuts `s` at each occurrence of `sep`.
pub fn split_on(s: &Vec<char>, sep: &Vec<char>) -> (parts: Vec<Vec<char>>)
    ensures
        views(parts@) == split(s@, sep@),
        parts.len() >= 1,
{
    let mut parts: Vec<Vec<char>> = Vec::new();
    let mut start: usize = 0;
    if sep.len() > 0 {
        loop
            invariant
                sep.len() > 0,
                start <= s.len(),
                split(s@, sep@) == views(parts@) + split_from(s@, sep@, start as int),
            ensures
                find_from(s@, sep@, start as int) == -1,
            decreases s.len() - start,
        {
            match find(s, sep, start) {
                Some(i) => {
                    let piece = slice_of(s, start, i);
                    proof {
                        assert(views(parts@).push(piece@) + split_from(s@, sep@, i + sep.len())
                            =~= views(parts@) + split_from(s@, sep@, start as int));
                    }
                    let ghost before = views(parts@);
                    parts.push(piece);
                    assert(views(parts@) =~= before.push(piece@));
                    start = i + sep.len();
                },
                None => {
                    break ;
                },
            }
        }
    }
    let piece = slice_of(s, start, s.len());
    let ghost before = views(parts@);
    parts.push(piece);
    assert(views(parts@) =~= before.push(piece@));
    assert(before.push(piece@) =~= before + seq![piece@]);
    parts
}

/// Replaces every occurrence of a non-empty `pat` in `s` by `to`.
pub fn replace(s: &Vec<char>, pat: &Vec<char>, to: &Vec<char>) -> (r: Vec<char>)
    ensures
        r@ == replace_all(s@, pat@, to@),
{
    let mut r: Vec<char> = Vec::new();
    let mut start: usize = 0;
    if pat.len() > 0 {
        loop
            invariant
                pat.len() > 0,
                start <= s.len(),
                replace_all(s@, pat@, to@) == r@ + replace_from(s@, pat@, to@, start as int),
            ensures
                find_from(s@, pat@, start as int) == -1,
            decreases s.len() - start,
        {
            match find(s, pat, start) {
                Some(i) => {
                    let piece = slice_of(s, start, i);
                    let ghost before = r@;
                    append_chars(&mut r, &piece);
                    append_chars(&mut r, to);
                    proof {
                        assert(r@ + replace_from(s@, pat@, to@, i + pat.len()) =~= before
                            + replace_from(s@, pat@, to@, start as int));
                    }
                    start = i + pat.len();
                },
                None => {
                    break ;
                },
            }
        }
    }
    let piece = slice_of(s, start, s.len());
    append_chars(&mut r, &piece);
    r
}

/// Removes every trailing repetition of `p` from `s`.
pub fn trim_end_of(s: &Vec<char>, p: &Vec<char>) -> (r: Vec<char>)
    ensures
        r@ == trim_end(s@, p@),
{
    let mut end: usize = s.len();
    assert(s@.subrange(0, end as int) =~= s@);
    if p.len() > 0 {
        while end >= p.len() && occurs_at(s, p, end - p.len())
            invariant
                p.len() > 0,
                end <= s.len(),
                trim_end(s@, p@) == trim_end(s@.subrange(0, end as int), p@),
            decreases end,
        {
            proof {
                let t = s@.subrange(0, end as int);
                assert(t.subrange(t.len() - p.len(), t.len() as int) == s@.subrange(
                    end - p.len(),
                    end as int,
                ));
                assert(t.subrange(0, t.len() - p.len()) == s@.subrange(0, end - p.len()));
            }
            end = end - p.len();
        }
        proof {
            let t = s@.subrange(0, end as int);
            if end >= p.len() {
                assert(t.subrange(t.len() - p.len(), t.len() as int) == s@.subrange(
                    end - p.len(),
                    end as int,
                ));
            }
        }
    }
    slice_of(s, 0, end)
}

/// Removes every leading repetition of `p` from `s`.
pub fn trim_start_of(s: &Vec<char>, p: &Vec<char>) -> (r: Vec<char>)
    ensures
        r@ == trim_start(s@, p@),
{
    let mut start: usize = 0;
    assert(s@.subrange(start as int, s.len() as int) =~= s@);
    if p.len() > 0 {
        while occurs_at(s, p, start)
            invariant
                p.len() > 0,
                start <= s.len(),
                trim_start(s@, p@) == trim_start(s@.subrange(start as int, s.len() as int), p@),
            decreases s.len() - start,
        {
            proof {
                let t = s@.subrange(start as int, s.len() as int);
                assert(t.subrange(0, p.len() as int) == s@.subrange(
                    start as int,
                    start + p.len(),
                ));
                assert(t.subrange(p.len() as int, t.len() as int) == s@.subrange(
                    start + p.len(),
                    s.len() as int,
                ));
            }
            start = start + p.len();
        }
        proof {
            let t = s@.subrange(start as int, s.len() as int);
            if start + p.len() <= s.len() {
                assert(t.subrange(0, p.len() as int) == s@.subrange(
                    start as int,
                    start + p.len(),
                ));
            }
        }
    }
    slice_of(s, start, s.len())
}

/// The position of the last `c` in `s`.
pub fn last_index(s: &Vec<char>, c: char) -> (r: Option<usize>)
    ensures
        match r {
            Some(i) => i == last_index_of(s@, c) && i < s.len(),
            None => last_index_of(s@, c) == -1,
        },
{
    let mut end: usize = s.len();
    assert(s@.take(end as int) =~= s@);
    while end > 0
        invariant
            end <= s.len(),
            last_index_of(s@, c) == last_index_of(s@.take(end as int), c),
        decreases end,
    {
        if s[end - 1] == c {
            return Some(end - 1);
        }
        assert(s@.take(end as int).drop_last() == s@.take(end - 1));
        end -= 1;
    }
    None
}

fn digit(d: u32) -> (c: char)
    requires
        d < 10,
    ensures
        c == digit_char(d as int),
{
    if d == 0 {
        '0'
    } else if d == 1 {
        '1'
    } else if d == 2 {
        '2'
    } else if d == 3 {
        '3'
    } else if d == 4 {
        '4'
    } else if d == 5 {
        '5'
    } else if d == 6 {
        '6'
    } else if d == 7 {
        '7'
    } else if d == 8 {
        '8'
    } else {
        '9'
    }
}

/// The decimal numeral of `n`.
pub fn decimal_of(n: u32) -> (r: Vec<char>)
    ensures
        r@ == decimal(n as nat),
    decreases n,
{
    if n < 10 {
        let mut r: Vec<char> = Vec::new();
        r.push(digit(n));
        r
    } else {
        let mut r = decimal_of(n / 10);
        r.push(digit(n % 10));
        r
    }
}

} // verus!
