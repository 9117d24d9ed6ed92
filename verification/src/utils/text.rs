//! Character-sequence helpers shared by the parsers of this crate.
//!
//! A line of text is handled as a range `[lo, hi)` of a `Vec<char>`; positions
//! handed to and returned by the functions here are relative to `lo`, so that
//! their contracts read over the line `buf@.subrange(lo, hi)` itself.

use vstd::prelude::*;

verus! {

broadcast use vstd::string::axiom_spec_iter;

/// The first index `j >= from` with `s[j] == c`, if there is one.
pub open spec fn find_from(s: Seq<char>, from: int, c: char) -> Option<int>
    decreases s.len() - from,
{
    if from < 0 || from >= s.len() {
        None
    } else if s[from] == c {
        Some(from)
    } else {
        find_from(s, from + 1, c)
    }
}

/// The first index `j >= from` with `s[j] != c`, if there is one.
pub open spec fn find_other_from(s: Seq<char>, from: int, c: char) -> Option<int>
    decreases s.len() - from,
{
    if from < 0 || from >= s.len() {
        None
    } else if s[from] != c {
        Some(from)
    } else {
        find_other_from(s, from + 1, c)
    }
}

/// An exec position seen as a mathematical one.
pub open spec fn as_pos(r: Option<usize>) -> Option<int> {
    match r {
        Some(j) => Some(j as int),
        None => None,
    }
}

/// The value of a hexadecimal digit (`0-9`, `a-f`, `A-F`).
pub open spec fn hex_digit(c: char) -> Option<nat> {
    if '0' <= c && c <= '9' {
        Some((c as int - '0' as int) as nat)
    } else if 'a' <= c && c <= 'f' {
        Some((c as int - 'a' as int + 10) as nat)
    } else if 'A' <= c && c <= 'F' {
        Some((c as int - 'A' as int + 10) as nat)
    } else {
        None
    }
}

/// The number that the hexadecimal digits `s` spell, most significant first;
/// `None` when some character is not a hexadecimal digit.
pub open spec fn hex_value(s: Seq<char>) -> Option<nat>
    decreases s.len(),
{
    if s.len() == 0 {
        Some(0)
    } else {
        match (hex_value(s.drop_last()), hex_digit(s.last())) {
            (Some(v), Some(d)) => Some(v * 16 + d),
            _ => None,
        }
    }
}

/// What `usize::from_str_radix(s, 16)` gives: an optional leading `+`, then
/// at least one hexadecimal digit, and a value that fits in a `usize`.
pub open spec fn parse_hex_usize(s: Seq<char>) -> Option<usize> {
    let digits = if s.len() > 0 && s[0] == '+' {
        s.drop_first()
    } else {
        s
    };
    if digits.len() == 0 {
        None
    } else {
        match hex_value(digits) {
            Some(v) => if v <= usize::MAX {
                Some(v as usize)
            } else {
                None
            },
            None => None,
        }
    }
}


/// The lower-case hexadecimal digits, by value.
pub open spec fn lower_hex_digits() -> Seq<char> {
    seq!['0', '1', '2', '3', '4', '5', '6', '7', '8', '9', 'a', 'b', 'c', 'd', 'e', 'f']
}

/// `v` in lower-case hexadecimal without leading zeros, as `format!("{:x}", v)`
/// writes it (`0` for zero).
pub open spec fn hex_lower(v: nat) -> Seq<char>
    decreases v,
{
    if v < 16 {
        seq![lower_hex_digits()[v as int]]
    } else {
        hex_lower(v / 16).push(lower_hex_digits()[(v % 16) as int])
    }
}

/// Each lower-case digit reads back as its value, and is no sign, dash or
/// space.
proof fn lemma_lower_digit(d: int)
    requires
        0 <= d < 16,
    ensures
        hex_digit(lower_hex_digits()[d]) == Some(d as nat),
        lower_hex_digits()[d] != '+',
        lower_hex_digits()[d] != '-',
        lower_hex_digits()[d] != ' ',
{
    let t = lower_hex_digits();
    assert(t[0] == '0' && t[1] == '1' && t[2] == '2' && t[3] == '3' && t[4] == '4' && t[5] == '5'
        && t[6] == '6' && t[7] == '7' && t[8] == '8' && t[9] == '9' && t[10] == 'a' && t[11]
        == 'b' && t[12] == 'c' && t[13] == 'd' && t[14] == 'e' && t[15] == 'f');
}

/// Written-out hexadecimal reads back as the number, and holds no sign, dash
/// or space.
pub proof fn lemma_hex_lower(v: nat)
    ensures
        hex_value(hex_lower(v)) == Some(v),
        hex_lower(v).len() > 0,
        hex_lower(v)[0] != '+',
        !hex_lower(v).contains('-'),
        !hex_lower(v).contains(' '),
    decreases v,
{
    if v < 16 {
        lemma_lower_digit(v as int);
        let s = hex_lower(v);
        assert(s.drop_last() =~= Seq::<char>::empty());
        assert(hex_value(s.drop_last()) == Some(0nat));
        assert(s[0] == lower_hex_digits()[v as int]);
        assert(s.last() == lower_hex_digits()[v as int]);
    } else {
        lemma_hex_lower(v / 16);
        lemma_lower_digit((v % 16) as int);
        vstd::arithmetic::div_mod::lemma_fundamental_div_mod(v as int, 16);
        let p = hex_lower(v / 16);
        let s = hex_lower(v);
        assert(s.drop_last() =~= p);
        assert(s.last() == lower_hex_digits()[(v % 16) as int]);
        assert(hex_value(s) == Some(v / 16 * 16 + v % 16));
        assert(s[0] == p[0]);
        assert forall|k: int| 0 <= k < s.len() implies s[k] != '-' && s[k] != ' ' by {
            if k < p.len() {
                assert(s[k] == p[k]);
                assert(p.contains(p[k]));
            }
        }
    }
}

/// A number that fits in a `usize`, written out in lower-case hexadecimal,
/// reads back as itself.
pub proof fn lemma_parse_hex_lower(v: usize)
    ensures
        parse_hex_usize(hex_lower(v as nat)) == Some(v),
{
    lemma_hex_lower(v as nat);
}

/// `needle` occurs in `hay` starting at index `i`.
pub open spec fn occurs_at(hay: Seq<char>, needle: Seq<char>, i: int) -> bool {
    &&& 0 <= i
    &&& i + needle.len() <= hay.len()
    &&& hay.subrange(i, i + needle.len()) == needle
}

/// `needle` occurs somewhere in `hay` (the empty sequence occurs everywhere).
pub open spec fn contains_seq(hay: Seq<char>, needle: Seq<char>) -> bool {
    exists|i: int| occurs_at(hay, needle, i)
}


/// The upper-case hexadecimal digits, by value.
pub open spec fn upper_hex_digits() -> Seq<char> {
    seq!['0', '1', '2', '3', '4', '5', '6', '7', '8', '9', 'A', 'B', 'C', 'D', 'E', 'F']
}

/// A hexadecimal digit is one of `0-9`, `a-f`, `A-F`, and stands for its
/// place among them.
pub proof fn law_hex_digit_values(c: char)
    ensures
        forall|d: int|
            0 <= d < 16 ==> hex_digit(#[trigger] lower_hex_digits()[d]) == Some(d as nat)
                && hex_digit(upper_hex_digits()[d]) == Some(d as nat),
        hex_digit(c) matches Some(d) ==> d < 16 && (c == lower_hex_digits()[d as int] || c
            == upper_hex_digits()[d as int]),
{
    let l = lower_hex_digits();
    let u = upper_hex_digits();
    assert(l[0] == '0' && l[1] == '1' && l[2] == '2' && l[3] == '3' && l[4] == '4' && l[5] == '5'
        && l[6] == '6' && l[7] == '7' && l[8] == '8' && l[9] == '9' && l[10] == 'a' && l[11]
        == 'b' && l[12] == 'c' && l[13] == 'd' && l[14] == 'e' && l[15] == 'f');
    assert(u[0] == '0' && u[1] == '1' && u[2] == '2' && u[3] == '3' && u[4] == '4' && u[5] == '5'
        && u[6] == '6' && u[7] == '7' && u[8] == '8' && u[9] == '9' && u[10] == 'A' && u[11]
        == 'B' && u[12] == 'C' && u[13] == 'D' && u[14] == 'E' && u[15] == 'F');
    if hex_digit(c) is Some {
        let d = hex_digit(c)->0;
        if '0' <= c && c <= '9' {
            assert(c == l[d as int]) by {
                assert(c as int == '0' as int + d);
            }
        } else if 'a' <= c && c <= 'f' {
            assert(c == l[d as int]);
        } else {
            assert(c == u[d as int]);
        }
    }
}

proof fn lemma_hex_value_zero_prefix(d: Seq<char>)
    ensures
        hex_value(seq!['0'] + d) == hex_value(d),
    decreases d.len(),
{
    let s = seq!['0'] + d;
    if d.len() == 0 {
        assert(s =~= seq!['0']);
        assert(s.drop_last() =~= Seq::<char>::empty());
        assert(hex_value(Seq::<char>::empty()) == Some(0nat));
        assert(hex_value(s.drop_last()) == Some(0nat));
        assert(s.last() == '0');
    } else {
        lemma_hex_value_zero_prefix(d.drop_last());
        assert(s.drop_last() =~= seq!['0'] + d.drop_last());
        assert(s.last() == d.last());
    }
}

/// Hexadecimal text reads the same with a leading zero: padding neither
/// changes nor refuses the value.
pub proof fn law_hex_zero_padding(d: Seq<char>)
    requires
        d.len() > 0,
        d[0] != '+',
    ensures
        parse_hex_usize(seq!['0'] + d) == parse_hex_usize(d),
{
    lemma_hex_value_zero_prefix(d);
    let s = seq!['0'] + d;
    assert(s[0] == '0');
}

/// Hexadecimal text made only of digits, one at least, reads as the number
/// it spells, when that number fits.
pub proof fn law_hex_reads_value(d: Seq<char>)
    requires
        d.len() > 0,
        hex_value(d) is Some,
        hex_value(d)->0 <= usize::MAX,
    ensures
        parse_hex_usize(d) == Some(hex_value(d)->0 as usize),
        parse_hex_usize(seq!['+'] + d) == Some(hex_value(d)->0 as usize),
{
    if d[0] == '+' {
        lemma_hex_value_prefix(d, 1);
        assert(d.take(1).drop_last() =~= Seq::<char>::empty());
        assert(d.take(1).last() == '+');
    }
    let s = seq!['+'] + d;
    assert(s.drop_first() =~= d);
}

/// One more digit at the end multiplies the value by sixteen and adds the
/// digit's value; any other character makes the text unreadable.
pub proof fn law_hex_value_push(s: Seq<char>, c: char)
    ensures
        hex_value(s.push(c)) == (match (hex_value(s), hex_digit(c)) {
            (Some(v), Some(d)) => Some(v * 16 + d),
            _ => None,
        }),
{
    assert(s.push(c).drop_last() =~= s);
}

/// `find_from` answers with the first `c` at or after `from`, and with
/// `None` exactly when there is none.
pub proof fn law_find_from_first(s: Seq<char>, from: int, c: char)
    requires
        0 <= from,
    ensures
        match find_from(s, from, c) {
            Some(j) => from <= j < s.len() && s[j] == c && forall|k: int|
                from <= k < j ==> s[k] != c,
            None => forall|k: int| from <= k < s.len() ==> s[k] != c,
        },
    decreases s.len() - from,
{
    if from < s.len() && s[from] != c {
        law_find_from_first(s, from + 1, c);
    }
}

/// `find_other_from` answers with the first character other than `c` at or
/// after `from`, and with `None` exactly when there is none.
pub proof fn law_find_other_from_first(s: Seq<char>, from: int, c: char)
    requires
        0 <= from,
    ensures
        match find_other_from(s, from, c) {
            Some(j) => from <= j < s.len() && s[j] != c && forall|k: int|
                from <= k < j ==> s[k] == c,
            None => forall|k: int| from <= k < s.len() ==> s[k] == c,
        },
    decreases s.len() - from,
{
    if from < s.len() && s[from] == c {
        law_find_other_from_first(s, from + 1, c);
    }
}

/// `contains_seq` holds wherever the needle occurs, at any position,
/// including at the very end of the haystack.
pub proof fn law_contains_any_occurrence(hay: Seq<char>, needle: Seq<char>, i: int)
    requires
        0 <= i,
        i + needle.len() <= hay.len(),
        hay.subrange(i, i + needle.len()) == needle,
    ensures
        contains_seq(hay, needle),
{
    assert(occurs_at(hay, needle, i));
}

/// `contains_seq` holds only where the needle occurs somewhere.
pub proof fn law_contains_only_occurrences(hay: Seq<char>, needle: Seq<char>)
    requires
        contains_seq(hay, needle),
    ensures
        exists|i: int|
            #![trigger hay.subrange(i, i + needle.len())]
            0 <= i && i + needle.len() <= hay.len() && hay.subrange(i, i + needle.len()) == needle,
{
    let i = choose|i: int| occurs_at(hay, needle, i);
    assert(hay.subrange(i, i + needle.len()) == needle);
}

/// A text contains itself, and is contained in any text that starts or ends
/// with it.
pub proof fn law_contains_self_and_ends(p: Seq<char>, s: Seq<char>)
    ensures
        contains_seq(s, s),
        contains_seq(p + s, s),
        contains_seq(s + p, s),
{
    assert(s.subrange(0, s.len() as int) =~= s);
    law_contains_any_occurrence(s, s, 0);
    assert((p + s).subrange(p.len() as int, p.len() + s.len() as int) =~= s);
    law_contains_any_occurrence(p + s, s, p.len() as int);
    assert((s + p).subrange(0, s.len() as int) =~= s);
    law_contains_any_occurrence(s + p, s, 0);
}

/// The characters of `s`, in order.
pub fn chars_of(s: &str) -> (v: Vec<char>)
    ensures
        v@ == s@,
{
    let mut v: Vec<char> = Vec::new();
    for c in it: s.chars()
        invariant
            v@ == it.seq().take(it.index()),
    {
        v.push(c);
    }
    assert(v@ =~= s@);
    v
}

/// `String::from_iter` over characters: by its documentation the string holds
/// exactly the given characters, in order.
#[verifier::external_body]
pub fn string_from_chars(chars: Vec<char>) -> (s: String)
    ensures
        s@ == chars@,
{
    String::from_iter(chars)
}

/// The characters `buf[a..b)` as a new vector.
pub fn copy_range(buf: &Vec<char>, a: usize, b: usize) -> (v: Vec<char>)
    requires
        a <= b <= buf.len(),
    ensures
        v@ == buf@.subrange(a as int, b as int),
{
    let mut v: Vec<char> = Vec::new();
    let mut i = a;
    while i < b
        invariant
            a <= i <= b <= buf.len(),
            v@ == buf@.subrange(a as int, i as int),
        decreases b - i,
    {
        v.push(buf[i]);
        i = i + 1;
        assert(v@ =~= buf@.subrange(a as int, i as int));
    }
    v
}

/// Searches the line `buf[lo..hi)` for `c`, from the line position `from` on.
pub fn find_in(buf: &Vec<char>, lo: usize, hi: usize, from: usize, c: char) -> (r: Option<usize>)
    requires
        lo <= hi <= buf.len(),
    ensures
        as_pos(r) == find_from(buf@.subrange(lo as int, hi as int), from as int, c),
        r matches Some(j) ==> from <= j < hi - lo,
{
    let ghost line = buf@.subrange(lo as int, hi as int);
    let len = hi - lo;
    let mut i = from;
    while i < len
        invariant
            lo <= hi <= buf.len(),
            len == hi - lo,
            line == buf@.subrange(lo as int, hi as int),
            from <= i,
            find_from(line, from as int, c) == find_from(line, i as int, c),
        decreases len - i,
    {
        if buf[lo + i] == c {
            assert(line[i as int] == c);
            return Some(i);
        }
        i = i + 1;
    }
    None
}

/// Searches the line `buf[lo..hi)` for a character other than `c`, from the
/// line position `from` on.
pub fn find_other_in(buf: &Vec<char>, lo: usize, hi: usize, from: usize, c: char) -> (r: Option<
    usize,
>)
    requires
        lo <= hi <= buf.len(),
    ensures
        as_pos(r) == find_other_from(buf@.subrange(lo as int, hi as int), from as int, c),
        r matches Some(j) ==> from <= j < hi - lo,
{
    let ghost line = buf@.subrange(lo as int, hi as int);
    let len = hi - lo;
    let mut i = from;
    while i < len
        invariant
            lo <= hi <= buf.len(),
            len == hi - lo,
            line == buf@.subrange(lo as int, hi as int),
            from <= i,
            find_other_from(line, from as int, c) == find_other_from(line, i as int, c),
        decreases len - i,
    {
        if buf[lo + i] != c {
            assert(line[i as int] != c);
            return Some(i);
        }
        i = i + 1;
    }
    None
}

/// The value of the hexadecimal digit `c`.
pub fn hex_digit_of(c: char) -> (r: Option<u32>)
    ensures
        match r {
            Some(d) => hex_digit(c) == Some(d as nat) && d < 16,
            None => hex_digit(c) is None,
        },
{
    if '0' <= c && c <= '9' {
        Some((c as u32) - ('0' as u32))
    } else if 'a' <= c && c <= 'f' {
        Some((c as u32) - ('a' as u32) + 10)
    } else if 'A' <= c && c <= 'F' {
        Some((c as u32) - ('A' as u32) + 10)
    } else {
        None
    }
}

/// A prefix of valid hexadecimal digits is valid and spells no more.
pub proof fn lemma_hex_value_prefix(s: Seq<char>, k: int)
    requires
        0 <= k <= s.len(),
        hex_value(s) is Some,
    ensures
        hex_value(s.take(k)) is Some,
        hex_value(s.take(k))->0 <= hex_value(s)->0,
    decreases s.len(),
{
    if k == s.len() {
        assert(s.take(k) =~= s);
    } else {
        lemma_hex_value_prefix(s.drop_last(), k);
        assert(s.drop_last().take(k) =~= s.take(k));
    }
}

/// `usize::from_str_radix(buf[a..b), 16)`, checked as the standard library
/// does it.
pub fn parse_hex_in(buf: &Vec<char>, a: usize, b: usize) -> (r: Option<usize>)
    requires
        a <= b <= buf.len(),
    ensures
        r == parse_hex_usize(buf@.subrange(a as int, b as int)),
{
    let ghost s = buf@.subrange(a as int, b as int);
    let start = if a < b && buf[a] == '+' {
        a + 1
    } else {
        a
    };
    let ghost digits = buf@.subrange(start as int, b as int);
    assert(digits =~= (if s.len() > 0 && s[0] == '+' {
        s.drop_first()
    } else {
        s
    }));
    if start == b {
        return None;
    }
    let mut acc: usize = 0;
    let mut i = start;
    while i < b
        invariant
            a <= start <= i <= b <= buf.len(),
            start < b,
            s == buf@.subrange(a as int, b as int),
            digits == buf@.subrange(start as int, b as int),
            digits == (if s.len() > 0 && s[0] == '+' {
                s.drop_first()
            } else {
                s
            }),
            hex_value(digits.take(i - start)) == Some(acc as nat),
        decreases b - i,
    {
        let k: usize = i - start;
        assert(digits.take(k + 1).drop_last() =~= digits.take(k as int));
        assert(digits.take(k + 1).last() == buf@[i as int]);
        match hex_digit_of(buf[i]) {
            None => {
                proof {
                    if hex_value(digits) is Some {
                        lemma_hex_value_prefix(digits, k + 1);
                    }
                }
                return None;
            },
            Some(d) => {
                let next: u128 = (acc as u128) * 16 + (d as u128);
                if next > usize::MAX as u128 {
                    proof {
                        if hex_value(digits) is Some {
                            lemma_hex_value_prefix(digits, k + 1);
                        }
                    }
                    return None;
                }
                acc = next as usize;
                i = i + 1;
            },
        }
    }
    assert(digits.take(b - start) =~= digits);
    Some(acc)
}

/// Whether `needle` occurs in `hay`.
pub fn contains_chars(hay: &Vec<char>, needle: &Vec<char>) -> (r: bool)
    ensures
        r == contains_seq(hay@, needle@),
{
    let n = needle.len();
    if n == 0 {
        assert(hay@.subrange(0, 0) =~= needle@);
        assert(occurs_at(hay@, needle@, 0));
        return true;
    }
    if n > hay.len() {
        return false;
    }
    let last = hay.len() - n;
    let mut i: usize = 0;
    while i <= last
        invariant
            n == needle.len(),
            0 < n <= hay.len(),
            last == hay.len() - n,
            forall|p: int| 0 <= p < i ==> !occurs_at(hay@, needle@, p),
        decreases last + 1 - i,
    {
        let mut j: usize = 0;
        let mut same = true;
        while j < n
            invariant
                n == needle.len(),
                i + n <= hay.len(),
                j <= n,
                same ==> forall|q: int| 0 <= q < j ==> hay@[i + q] == needle@[q],
                !same ==> !occurs_at(hay@, needle@, i as int),
            decreases n - j,
        {
            if same && hay[i + j] != needle[j] {
                same = false;
                assert(hay@.subrange(i as int, i + n)[j as int] != needle@[j as int]);
            }
            j = j + 1;
        }
        if same {
            assert(hay@.subrange(i as int, i + n) =~= needle@);
            assert(occurs_at(hay@, needle@, i as int));
            return true;
        }
        i = i + 1;
    }
    assert forall|p: int| occurs_at(hay@, needle@, p) implies false by {
        assert(p <= last);
    }
    false
}

} // verus!
