//! Character-level helpers: whitespace, trimming, prefix and suffix tests,
//! substring search, splitting and decimal numbers.
//!
//! Texts are modelled as `Seq<char>`; the executable functions work on
//! `Vec<char>` and convert from and to `&str` at the edges.
use vstd::prelude::*;

verus! {

/// `String::push` appends one character.
pub assume_specification[ String::push ](s: &mut String, c: char)
    ensures
        final(s)@ == old(s)@.push(c),
;

/// The characters of `s`, in order.
pub fn chars_of(s: &str) -> (v: Vec<char>)
    ensures
        v@ == s@,
{
    let mut v: Vec<char> = Vec::new();
    for c in it: s.chars()
        invariant
            v@ == it.seq().take(it.index() as int),
            it.seq() == s@,
    {
        v.push(c);
    }
    v
}

/// The string made of the characters `v[from..to]`.
pub fn string_of(v: &Vec<char>, from: usize, to: usize) -> (s: String)
    requires
        from <= to <= v.len(),
    ensures
        s@ == v@.subrange(from as int, to as int),
{
    let mut s = String::new();
    let mut i: usize = from;
    while i < to
        invariant
            from <= i <= to <= v.len(),
            s@ == v@.subrange(from as int, i as int),
        decreases to - i,
    {
        s.push(v[i]);
        i += 1;
    }
    s
}

/// Whether two texts hold the same characters.
pub fn same_text(a: &str, b: &str) -> (same: bool)
    ensures
        same == (a@ == b@),
{
    let x = chars_of(a);
    let y = chars_of(b);
    assert(x@.subrange(0, x.len() as int) =~= x@);
    same_chars(&x, 0, x.len(), &y)
}

/// Whether `v[from..to]` holds exactly the characters of `w`.
pub fn same_chars(v: &Vec<char>, from: usize, to: usize, w: &Vec<char>) -> (same: bool)
    requires
        from <= to <= v.len(),
    ensures
        same == (v@.subrange(from as int, to as int) == w@),
{
    if to - from != w.len() {
        return false;
    }
    let mut i: usize = 0;
    while i < w.len()
        invariant
            from <= to <= v.len(),
            to - from == w.len(),
            i <= w.len(),
            forall|k: int| 0 <= k < i ==> v@[from + k] == w@[k],
        decreases w.len() - i,
    {
        if v[from + i] != w[i] {
            assert(v@.subrange(from as int, to as int)[i as int] != w@[i as int]);
            return false;
        }
        i += 1;
    }
    assert(v@.subrange(from as int, to as int) =~= w@);
    true
}

/// `s` begins with `p`.
pub open spec fn has_prefix(s: Seq<char>, p: Seq<char>) -> bool {
    p.len() <= s.len() && s.subrange(0, p.len() as int) == p
}

/// `s` ends with `p`.
pub open spec fn has_suffix(s: Seq<char>, p: Seq<char>) -> bool {
    p.len() <= s.len() && s.subrange(s.len() - p.len(), s.len() as int) == p
}

/// `p` occurs in `s` at position `i`.
pub open spec fn occurs_at(s: Seq<char>, p: Seq<char>, i: int) -> bool {
    0 <= i && i + p.len() <= s.len() && s.subrange(i, i + p.len()) == p
}

/// `p` occurs somewhere in `s`.
pub open spec fn has_infix(s: Seq<char>, p: Seq<char>) -> bool {
    exists|i: int| occurs_at(s, p, i)
}

/// Whether `line` begins with `prefix`.
pub fn starts_with(line: &Vec<char>, prefix: &str) -> (b: bool)
    ensures
        b == has_prefix(line@, prefix@),
{
    let p = chars_of(prefix);
    if p.len() > line.len() {
        return false;
    }
    same_chars(line, 0, p.len(), &p)
}

/// Whether `line` ends with `suffix`.
pub fn ends_with(line: &Vec<char>, suffix: &str) -> (b: bool)
    ensures
        b == has_suffix(line@, suffix@),
{
    let p = chars_of(suffix);
    if p.len() > line.len() {
        return false;
    }
    same_chars(line, line.len() - p.len(), line.len(), &p)
}

/// Whether `needle` occurs in `line`.
pub fn contains(line: &Vec<char>, needle: &str) -> (b: bool)
    ensures
        b == has_infix(line@, needle@),
{
    let p = chars_of(needle);
    if p.len() > line.len() {
        assert(forall|i: int| !occurs_at(line@, p@, i));
        return false;
    }
    let last: usize = line.len() - p.len();
    let mut i: usize = 0;
    loop
        invariant
            p@ == needle@,
            p.len() <= line.len(),
            last == line.len() - p.len(),
            i <= last,
            forall|k: int| 0 <= k < i ==> !occurs_at(line@, p@, k),
        decreases last - i,
    {
        if same_chars(line, i, i + p.len(), &p) {
            assert(occurs_at(line@, p@, i as int));
            return true;
        }
        if i == last {
            assert(forall|k: int| !occurs_at(line@, p@, k));
            return false;
        }
        i += 1;
    }
}

/// The characters that Unicode marks as `White_Space`.
pub open spec fn is_space(c: char) -> bool {
    let n = c as u32;
    ||| 0x09 <= n <= 0x0d
    ||| n == 0x20
    ||| n == 0x85
    ||| n == 0xa0
    ||| n == 0x1680
    ||| 0x2000 <= n <= 0x200a
    ||| n == 0x2028
    ||| n == 0x2029
    ||| n == 0x202f
    ||| n == 0x205f
    ||| n == 0x3000
}

/// Whether `c` is white space.
pub fn is_whitespace(c: char) -> (b: bool)
    ensures
        b == is_space(c),
{
    let n: u32 = c as u32;
    (0x09 <= n && n <= 0x0d) || n == 0x20 || n == 0x85 || n == 0xa0 || n == 0x1680 || (0x2000 <= n
        && n <= 0x200a) || n == 0x2028 || n == 0x2029 || n == 0x202f || n == 0x205f || n == 0x3000
}

/// The number of white-space characters at the start of `s`.
pub open spec fn leading_spaces(s: Seq<char>) -> nat
    decreases s.len(),
{
    if s.len() > 0 && is_space(s[0]) {
        1 + leading_spaces(s.skip(1))
    } else {
        0
    }
}

/// The number of white-space characters at the end of `s`.
pub open spec fn trailing_spaces(s: Seq<char>) -> nat
    decreases s.len(),
{
    if s.len() > 0 && is_space(s.last()) {
        1 + trailing_spaces(s.drop_last())
    } else {
        0
    }
}

/// `s` without the white space at its start and at its end.
pub open spec fn trimmed(s: Seq<char>) -> Seq<char> {
    let rest = s.skip(leading_spaces(s) as int);
    rest.take(rest.len() - trailing_spaces(rest))
}

/// A run of `n` white-space characters at the start, ended by the text's
/// end or by another character, is the leading white space.
pub proof fn lemma_leading_spaces_is(s: Seq<char>, n: int)
    requires
        0 <= n <= s.len(),
        forall|k: int| 0 <= k < n ==> is_space(#[trigger] s[k]),
        n < s.len() ==> !is_space(s[n]),
    ensures
        leading_spaces(s) == n,
    decreases s.len(),
{
    if n > 0 {
        let t = s.skip(1);
        assert forall|k: int| 0 <= k < n - 1 implies is_space(#[trigger] t[k]) by {
            assert(t[k] == s[k + 1]);
        }
        lemma_leading_spaces_is(t, n - 1);
    }
}

/// The same for the end of the text.
pub proof fn lemma_trailing_spaces_is(s: Seq<char>, n: int)
    requires
        0 <= n <= s.len(),
        forall|k: int| s.len() - n <= k < s.len() ==> is_space(#[trigger] s[k]),
        n < s.len() ==> !is_space(s[s.len() - n - 1]),
    ensures
        trailing_spaces(s) == n,
    decreases s.len(),
{
    if n > 0 {
        let t = s.drop_last();
        assert forall|k: int| t.len() - (n - 1) <= k < t.len() implies is_space(#[trigger] t[k]) by {
            assert(t[k] == s[k]);
        }
        lemma_trailing_spaces_is(t, n - 1);
    }
}

/// The bounds of `trimmed(v[from..to])` inside `v`.
pub fn trim_range(v: &Vec<char>, from: usize, to: usize) -> (r: (usize, usize))
    requires
        from <= to <= v.len(),
    ensures
        from <= r.0 <= r.1 <= to,
        r.0 == from + leading_spaces(v@.subrange(from as int, to as int)),
        r.1 == to - trailing_spaces(v@.subrange(r.0 as int, to as int)),
        v@.subrange(r.0 as int, r.1 as int) == trimmed(v@.subrange(from as int, to as int)),
{
    let ghost s = v@.subrange(from as int, to as int);
    let mut a: usize = from;
    while a < to && is_whitespace(v[a])
        invariant
            from <= a <= to <= v.len(),
            forall|k: int| from <= k < a ==> is_space(#[trigger] v@[k]),
        decreases to - a,
    {
        a += 1;
    }
    proof {
        assert forall|k: int| 0 <= k < a - from implies is_space(#[trigger] s[k]) by {
            assert(s[k] == v@[from + k]);
        }
        lemma_leading_spaces_is(s, a - from);
    }
    let ghost rest = s.skip((a - from) as int);
    let mut b: usize = to;
    while b > a && is_whitespace(v[b - 1])
        invariant
            from <= a <= b <= to <= v.len(),
            forall|k: int| b <= k < to ==> is_space(#[trigger] v@[k]),
        decreases b - a,
    {
        b -= 1;
    }
    proof {
        assert(rest =~= v@.subrange(a as int, to as int));
        assert forall|k: int| rest.len() - (to - b) <= k < rest.len() implies is_space(
            #[trigger] rest[k],
        ) by {
            assert(rest[k] == v@[a + k]);
        }
        lemma_trailing_spaces_is(rest, to - b);
        assert(rest.take(rest.len() - (to - b)) =~= v@.subrange(a as int, b as int));
    }
    (a, b)
}

/// `s` without the white space around it.
pub fn trim(s: &str) -> (t: String)
    ensures
        t@ == trimmed(s@),
{
    let v = chars_of(s);
    let (a, b) = trim_range(&v, 0, v.len());
    assert(v@.subrange(0, v.len() as int) =~= v@);
    string_of(&v, a, b)
}

/// The pieces of `s` between the occurrences of `sep`: one more piece than
/// there are separators, so an empty text has one empty piece.
pub open spec fn split_on(s: Seq<char>, sep: char) -> Seq<Seq<char>>
    decreases s.len(),
{
    if s.len() == 0 {
        seq![Seq::<char>::empty()]
    } else {
        let before = split_on(s.drop_last(), sep);
        if s.last() == sep {
            before.push(Seq::<char>::empty())
        } else {
            before.drop_last().push(before.last().push(s.last()))
        }
    }
}

/// A text always has a piece, though it may be empty.
pub proof fn lemma_split_on_nonempty(s: Seq<char>, sep: char)
    ensures
        split_on(s, sep).len() >= 1,
    decreases s.len(),
{
    if s.len() > 0 {
        lemma_split_on_nonempty(s.drop_last(), sep);
    }
}

/// The bounds in `v` of each piece of `split_on(v@, sep)`: the first piece
/// starts where `v` starts, the last ends where `v` ends, and one separator
/// stands between a piece and the next.
pub fn split(v: &Vec<char>, sep: char) -> (pieces: Vec<(usize, usize)>)
    ensures
        pieces@.len() == split_on(v@, sep).len(),
        pieces@.len() > 0,
        pieces@[0].0 == 0,
        pieces@.last().1 == v.len(),
        forall|k: int| 0 < k < pieces@.len() ==> (#[trigger] pieces@[k]).0 == pieces@[k - 1].1 + 1,
        forall|k: int|
            0 <= k < pieces@.len() ==> {
                &&& (#[trigger] pieces@[k]).0 <= pieces@[k].1 <= v.len()
                &&& v@.subrange(pieces@[k].0 as int, pieces@[k].1 as int) == split_on(v@, sep)[k]
            },
{
    let mut pieces: Vec<(usize, usize)> = Vec::new();
    let mut start: usize = 0;
    let mut i: usize = 0;
    proof {
        assert(v@.take(0) =~= Seq::<char>::empty());
        assert(v@.subrange(0, 0) =~= Seq::<char>::empty());
    }
    while i < v.len()
        invariant
            start <= i <= v.len(),
            pieces@.len() == 0 ==> start == 0,
            pieces@.len() > 0 ==> pieces@[0].0 == 0 && start == pieces@.last().1 + 1,
            forall|k: int|
                0 < k < pieces@.len() ==> (#[trigger] pieces@[k]).0 == pieces@[k - 1].1 + 1,
            split_on(v@.take(i as int), sep).len() == pieces@.len() + 1,
            split_on(v@.take(i as int), sep).last() == v@.subrange(start as int, i as int),
            forall|k: int|
                0 <= k < pieces@.len() ==> {
                    &&& (#[trigger] pieces@[k]).0 <= pieces@[k].1 <= v.len()
                    &&& v@.subrange(pieces@[k].0 as int, pieces@[k].1 as int) == split_on(
                        v@.take(i as int),
                        sep,
                    )[k]
                },
        decreases v.len() - i,
    {
        let ghost next = v@.take(i + 1);
        proof {
            assert(next.drop_last() =~= v@.take(i as int));
            assert(next.last() == v@[i as int]);
        }
        if v[i] == sep {
            pieces.push((start, i));
            start = i + 1;
            proof {
                assert(v@.subrange(start as int, start as int) =~= Seq::<char>::empty());
            }
        } else {
            proof {
                assert(v@.subrange(start as int, i + 1) =~= v@.subrange(
                    start as int,
                    i as int,
                ).push(v@[i as int]));
            }
        }
        i += 1;
    }
    proof {
        assert(v@.take(v.len() as int) =~= v@);
    }
    pieces.push((start, i));
    pieces
}

/// `piece` without one carriage return at its end.
pub open spec fn without_return(piece: Seq<char>) -> Seq<char> {
    if piece.len() > 0 && piece.last() == '\r' {
        piece.drop_last()
    } else {
        piece
    }
}

/// The lines of a text. A line ends with a line feed, or with a carriage
/// return and a line feed; neither belongs to the line. What follows the last
/// line feed is a line too, unless it is empty.
pub open spec fn text_lines(s: Seq<char>) -> Seq<Seq<char>> {
    let pieces = split_on(s, '\n');
    let ended = pieces.drop_last().map_values(|piece: Seq<char>| without_return(piece));
    if pieces.last().len() == 0 {
        ended
    } else {
        ended.push(pieces.last())
    }
}

/// The bounds in `v` of each line of `v`.
pub fn lines(v: &Vec<char>) -> (bounds: Vec<(usize, usize)>)
    ensures
        bounds@.len() == text_lines(v@).len(),
        forall|k: int|
            0 <= k < bounds@.len() ==> {
                &&& (#[trigger] bounds@[k]).0 <= bounds@[k].1 <= v.len()
                &&& v@.subrange(bounds@[k].0 as int, bounds@[k].1 as int) == text_lines(v@)[k]
            },
{
    let pieces = split(v, '\n');
    let ghost parts = split_on(v@, '\n');
    proof {
        lemma_split_on_nonempty(v@, '\n');
    }
    let n = pieces.len();
    let mut bounds: Vec<(usize, usize)> = Vec::new();
    let mut i: usize = 0;
    while i + 1 < n
        invariant
            n == pieces.len(),
            n == parts.len(),
            n >= 1,
            i + 1 <= n,
            bounds@.len() == i,
            forall|k: int|
                0 <= k < pieces@.len() ==> {
                    &&& (#[trigger] pieces@[k]).0 <= pieces@[k].1 <= v.len()
                    &&& v@.subrange(pieces@[k].0 as int, pieces@[k].1 as int) == parts[k]
                },
            forall|k: int|
                0 <= k < i ==> {
                    &&& (#[trigger] bounds@[k]).0 <= bounds@[k].1 <= v.len()
                    &&& v@.subrange(bounds@[k].0 as int, bounds@[k].1 as int) == without_return(
                        parts[k],
                    )
                },
        decreases n - i,
    {
        let (from, to) = pieces[i];
        let ghost piece = v@.subrange(from as int, to as int);
        if from < to && v[to - 1] == '\r' {
            proof {
                assert(piece.last() == v@[to - 1]);
                assert(piece.drop_last() =~= v@.subrange(from as int, to - 1));
            }
            bounds.push((from, to - 1));
        } else {
            proof {
                if from < to {
                    assert(piece.last() == v@[to - 1]);
                }
            }
            bounds.push((from, to));
        }
        i += 1;
    }
    let (from, to) = pieces[n - 1];
    if from < to {
        bounds.push((from, to));
    }
    proof {
        let ended = parts.drop_last().map_values(|piece: Seq<char>| without_return(piece));
        assert(ended.len() == n - 1);
        assert forall|k: int| 0 <= k < n - 1 implies ended[k] == without_return(parts[k]) by {
            assert(parts.drop_last()[k] == parts[k]);
        }
    }
    bounds
}

/// Whether `c` is a decimal digit.
pub open spec fn is_digit(c: char) -> bool {
    '0' <= c <= '9'
}

/// The number that the decimal digits `s` write, the last digit counting least.
pub open spec fn decimal_value(s: Seq<char>) -> nat
    decreases s.len(),
{
    if s.len() == 0 {
        0
    } else {
        (decimal_value(s.drop_last()) * 10 + (s.last() as u32 - '0' as u32)) as nat
    }
}

/// The digits of a number text: the text itself, without one leading `+`.
pub open spec fn digits_of(s: Seq<char>) -> Seq<char> {
    if s.len() > 0 && s[0] == '+' {
        s.skip(1)
    } else {
        s
    }
}

/// The count that `s` writes: one or more decimal digits, after an optional
/// `+`, whose value fits in 32 bits. Anything else is no count.
pub open spec fn count_of(s: Seq<char>) -> Option<u32> {
    let d = digits_of(s);
    if d.len() > 0 && (forall|k: int| 0 <= k < d.len() ==> is_digit(#[trigger] d[k]))
        && decimal_value(d) <= u32::MAX {
        Some(decimal_value(d) as u32)
    } else {
        None
    }
}

/// A longer run of digits writes no smaller a number.
pub proof fn lemma_decimal_value_grows(s: Seq<char>, n: int)
    requires
        0 <= n <= s.len(),
        forall|k: int| 0 <= k < s.len() ==> is_digit(#[trigger] s[k]),
    ensures
        decimal_value(s.take(n)) <= decimal_value(s),
    decreases s.len(),
{
    if n < s.len() {
        let t = s.drop_last();
        assert(t.take(n) =~= s.take(n));
        lemma_decimal_value_grows(t, n);
    } else {
        assert(s.take(n) =~= s);
    }
}

/// Reads `v[from..to]` as a count.
pub fn parse_count(v: &Vec<char>, from: usize, to: usize) -> (n: Option<u32>)
    requires
        from <= to <= v.len(),
    ensures
        n == count_of(v@.subrange(from as int, to as int)),
{
    let ghost s = v@.subrange(from as int, to as int);
    let first: usize = if from < to && v[from] == '+' {
        from + 1
    } else {
        from
    };
    let ghost d = digits_of(s);
    proof {
        assert(d =~= v@.subrange(first as int, to as int));
    }
    if first == to {
        return None;
    }
    let mut value: u64 = 0;
    let mut i: usize = first;
    proof {
        assert(d.take(0) =~= Seq::<char>::empty());
    }
    while i < to
        invariant
            from <= first <= i <= to <= v.len(),
            d == v@.subrange(first as int, to as int),
            d == digits_of(v@.subrange(from as int, to as int)),
            forall|k: int| 0 <= k < i - first ==> is_digit(#[trigger] d[k]),
            value == decimal_value(d.take(i - first)),
            value <= u32::MAX,
        decreases to - i,
    {
        let c = v[i];
        if !('0' <= c && c <= '9') {
            assert(!is_digit(d[i - first]));
            return None;
        }
        let digit: u64 = (c as u32 - '0' as u32) as u64;
        let ghost longer = d.take(i - first + 1);
        proof {
            assert(longer.drop_last() =~= d.take(i - first));
            assert(longer.last() == c);
        }
        value = value * 10 + digit;
        if value > 0xffff_ffff {
            proof {
                if forall|k: int| 0 <= k < d.len() ==> is_digit(#[trigger] d[k]) {
                    lemma_decimal_value_grows(d, i - first + 1);
                }
            }
            return None;
        }
        i += 1;
    }
    proof {
        assert(d.take(to - first) =~= d);
    }
    Some(value as u32)
}

} // verus!
