//! Small verified text helpers shared by the prompt builders and parsers.

use vstd::prelude::*;
use vstd::string::*;

verus! {

/// Collects the characters of a string slice.
pub fn chars_of(s: &str) -> (v: Vec<char>)
    ensures
        v@ == s@,
{
    let mut v: Vec<char> = Vec::new();
    for c in it: s.chars()
        invariant
            v@ == it.seq().take(it.index() as int),
            it.seq() == s@,
    {
        v.push(c);
    }
    v
}

/// Character-wise equality of two string slices.
pub fn str_eq(a: &str, b: &str) -> (r: bool)
    ensures
        r == (a@ == b@),
{
    let va = chars_of(a);
    let vb = chars_of(b);
    if va.len() != vb.len() {
        return false;
    }
    let mut i: usize = 0;
    while i < va.len()
        invariant
            va@ == a@,
            vb@ == b@,
            va.len() == vb.len(),
            i <= va.len(),
            forall|j: int| 0 <= j < i ==> va@[j] == vb@[j],
        decreases va.len() - i,
    {
        if va[i] != vb[i] {
            return false;
        }
        i = i + 1;
    }
    assert(a@ =~= b@);
    true
}

/// `needle` occurs in `hay` starting at position `i`.
pub open spec fn occurs_at(hay: Seq<char>, needle: Seq<char>, i: int) -> bool {
    &&& 0 <= i
    &&& i + needle.len() <= hay.len()
    &&& hay.subrange(i, i + needle.len()) == needle
}

/// `needle` occurs somewhere in `hay` (what `str::contains` answers).
pub open spec fn contains_text(hay: Seq<char>, needle: Seq<char>) -> bool {
    exists|i: int| #[trigger] occurs_at(hay, needle, i)
}

/// Position of the first occurrence of `needle` (what `str::find` gives, counted in characters).
pub open spec fn first_occurrence(hay: Seq<char>, needle: Seq<char>) -> Option<int> {
    if contains_text(hay, needle) {
        Some(choose|i: int| #[trigger] occurs_at(hay, needle, i) && forall|j: int| 0 <= j < i ==> !occurs_at(hay, needle, j))
    } else {
        None
    }
}

/// Position of the last occurrence of `needle` (what `str::rfind` gives, counted in characters).
pub open spec fn last_occurrence(hay: Seq<char>, needle: Seq<char>) -> Option<int> {
    if contains_text(hay, needle) {
        Some(choose|i: int| #[trigger] occurs_at(hay, needle, i) && forall|j: int| i < j ==> !occurs_at(hay, needle, j))
    } else {
        None
    }
}

fn matches_at(hv: &Vec<char>, nv: &Vec<char>, i: usize) -> (r: bool)
    requires
        i + nv@.len() <= hv@.len(),
    ensures
        r == occurs_at(hv@, nv@, i as int),
{
    let hn = hv.len();
    let mut k: usize = 0;
    while k < nv.len()
        invariant
            hn == hv@.len(),
            i + nv@.len() <= hv@.len(),
            k <= nv@.len(),
            forall|j: int| 0 <= j < k ==> hv@[i + j] == nv@[j],
        decreases nv@.len() - k,
    {
        if hv[i + k] != nv[k] {
            assert(hv@.subrange(i as int, i + nv@.len())[k as int] != nv@[k as int]);
            return false;
        }
        k = k + 1;
    }
    assert(hv@.subrange(i as int, i + nv@.len()) =~= nv@);
    true
}

/// First occurrence of `needle` in `hay`, in characters.
pub fn find_text(hay: &str, needle: &str) -> (r: Option<usize>)
    ensures
        match r {
            Some(i) => first_occurrence(hay@, needle@) == Some(i as int),
            None => first_occurrence(hay@, needle@) is None,
        },
{
    let hv = chars_of(hay);
    let nv = chars_of(needle);
    if nv.len() > hv.len() {
        assert(!contains_text(hay@, needle@));
        return None;
    }
    let last = hv.len() - nv.len();
    let mut i: usize = 0;
    while i < last
        invariant
            hv@ == hay@,
            nv@ == needle@,
            last == hv@.len() - nv@.len(),
            i <= last,
            forall|j: int| 0 <= j < i ==> !#[trigger] occurs_at(hay@, needle@, j),
        decreases last - i,
    {
        if matches_at(&hv, &nv, i) {
            proof {
                lemma_first_at(hay@, needle@, i as int);
            }
            return Some(i);
        }
        i = i + 1;
    }
    if matches_at(&hv, &nv, last) {
        proof {
            lemma_first_at(hay@, needle@, last as int);
        }
        return Some(last);
    }
    assert(!contains_text(hay@, needle@));
    None
}

proof fn lemma_least_occurrence(hay: Seq<char>, needle: Seq<char>, i: int)
    requires
        occurs_at(hay, needle, i),
    ensures
        exists|m: int| #[trigger] occurs_at(hay, needle, m) && forall|j: int| 0 <= j < m ==> !occurs_at(hay, needle, j),
    decreases i,
{
    if exists|j: int| 0 <= j < i && #[trigger] occurs_at(hay, needle, j) {
        let j = choose|j: int| 0 <= j < i && #[trigger] occurs_at(hay, needle, j);
        lemma_least_occurrence(hay, needle, j);
    } else {
        assert(forall|j: int| 0 <= j < i ==> !occurs_at(hay, needle, j));
    }
}

proof fn lemma_greatest_occurrence(hay: Seq<char>, needle: Seq<char>, i: int)
    requires
        occurs_at(hay, needle, i),
    ensures
        exists|m: int| #[trigger] occurs_at(hay, needle, m) && forall|j: int| m < j ==> !occurs_at(hay, needle, j),
    decreases hay.len() - i,
{
    if exists|j: int| i < j && #[trigger] occurs_at(hay, needle, j) {
        let j = choose|j: int| i < j && #[trigger] occurs_at(hay, needle, j);
        lemma_greatest_occurrence(hay, needle, j);
    } else {
        assert(forall|j: int| i < j ==> !occurs_at(hay, needle, j));
    }
}

/// The first occurrence is an occurrence with none before it; there is none
/// exactly when the needle does not occur.
pub proof fn lemma_first_occurrence(hay: Seq<char>, needle: Seq<char>)
    ensures
        match first_occurrence(hay, needle) {
            Some(p) => occurs_at(hay, needle, p) && forall|j: int| 0 <= j < p ==> !occurs_at(hay, needle, j),
            None => !contains_text(hay, needle),
        },
{
    if contains_text(hay, needle) {
        let i = choose|i: int| #[trigger] occurs_at(hay, needle, i);
        lemma_least_occurrence(hay, needle, i);
    }
}

/// The last occurrence is an occurrence with none after it; there is none
/// exactly when the needle does not occur.
pub proof fn lemma_last_occurrence(hay: Seq<char>, needle: Seq<char>)
    ensures
        match last_occurrence(hay, needle) {
            Some(p) => occurs_at(hay, needle, p) && forall|j: int| p < j ==> !occurs_at(hay, needle, j),
            None => !contains_text(hay, needle),
        },
{
    if contains_text(hay, needle) {
        let i = choose|i: int| #[trigger] occurs_at(hay, needle, i);
        lemma_greatest_occurrence(hay, needle, i);
    }
}

proof fn lemma_first_at(hay: Seq<char>, needle: Seq<char>, i: int)
    requires
        occurs_at(hay, needle, i),
        forall|j: int| 0 <= j < i ==> !#[trigger] occurs_at(hay, needle, j),
    ensures
        first_occurrence(hay, needle) == Some(i),
{
    let c = choose|c: int| #[trigger] occurs_at(hay, needle, c) && forall|j: int| 0 <= j < c ==> !occurs_at(hay, needle, j);
    assert(occurs_at(hay, needle, c));
    if c < i {
    } else if c > i {
    }
}

proof fn lemma_last_at(hay: Seq<char>, needle: Seq<char>, i: int)
    requires
        occurs_at(hay, needle, i),
        forall|j: int| i < j ==> !#[trigger] occurs_at(hay, needle, j),
    ensures
        last_occurrence(hay, needle) == Some(i),
{
    let c = choose|c: int| #[trigger] occurs_at(hay, needle, c) && forall|j: int| c < j ==> !occurs_at(hay, needle, j);
    assert(occurs_at(hay, needle, c));
    if c < i {
    } else if c > i {
    }
}

/// Last occurrence of `needle` in `hay`, in characters.
pub fn rfind_text(hay: &str, needle: &str) -> (r: Option<usize>)
    ensures
        match r {
            Some(i) => last_occurrence(hay@, needle@) == Some(i as int),
            None => last_occurrence(hay@, needle@) is None,
        },
{
    let hv = chars_of(hay);
    let nv = chars_of(needle);
    if nv.len() > hv.len() {
        assert(!contains_text(hay@, needle@));
        return None;
    }
    let last = hv.len() - nv.len();
    if matches_at(&hv, &nv, last) {
        proof {
            lemma_last_at(hay@, needle@, last as int);
        }
        return Some(last);
    }
    let mut i: usize = last;
    while i > 0
        invariant
            hv@ == hay@,
            nv@ == needle@,
            last == hv@.len() - nv@.len(),
            i <= last,
            forall|j: int| i <= j ==> !#[trigger] occurs_at(hay@, needle@, j),
        decreases i,
    {
        if matches_at(&hv, &nv, i - 1) {
            proof {
                lemma_last_at(hay@, needle@, i - 1);
            }
            return Some(i - 1);
        }
        i = i - 1;
    }
    assert(!contains_text(hay@, needle@));
    None
}

/// Number of bytes of a character in UTF-8.
pub open spec fn utf8_len(c: char) -> nat {
    if (c as u32) < 0x80 {
        1
    } else if (c as u32) < 0x800 {
        2
    } else if (c as u32) < 0x10000 {
        3
    } else {
        4
    }
}

/// Number of bytes of a text in UTF-8.
pub open spec fn byte_len(s: Seq<char>) -> nat
    decreases s.len(),
{
    if s.len() == 0 {
        0
    } else {
        byte_len(s.drop_last()) + utf8_len(s.last())
    }
}

/// Number of leading characters, from the `k`-th on, that fit in `max` bytes.
pub open spec fn fitting_chars(s: Seq<char>, max: nat, k: int) -> int
    decreases s.len() - k,
{
    if 0 <= k < s.len() && byte_len(s.take(k + 1)) <= max {
        fitting_chars(s, max, k + 1)
    } else {
        k
    }
}

/// The longest prefix of a text that fits in `max` bytes.
pub open spec fn byte_prefix(s: Seq<char>, max: nat) -> Seq<char> {
    s.take(fitting_chars(s, max, 0))
}

fn char_utf8_len(c: char) -> (n: usize)
    ensures
        n == utf8_len(c),
{
    let v = c as u32;
    if v < 0x80 {
        1
    } else if v < 0x800 {
        2
    } else if v < 0x10000 {
        3
    } else {
        4
    }
}

pub proof fn lemma_fitting_bounds(s: Seq<char>, max: nat, k: int)
    requires
        0 <= k <= s.len(),
    ensures
        k <= fitting_chars(s, max, k) <= s.len(),
    decreases s.len() - k,
{
    if 0 <= k < s.len() && byte_len(s.take(k + 1)) <= max {
        lemma_fitting_bounds(s, max, k + 1);
    }
}

/// The longest prefix of `s` that fits in `max` bytes of UTF-8.
pub fn prefix_within_bytes(s: &str, max: usize) -> (r: &str)
    ensures
        r@ == byte_prefix(s@, max as nat),
{
    let v = chars_of(s);
    let mut k: usize = 0;
    let mut used: usize = 0;
    while k < v.len()
        invariant
            v@ == s@,
            k <= v@.len(),
            used == byte_len(s@.take(k as int)),
            used <= max,
            fitting_chars(s@, max as nat, k as int) == fitting_chars(s@, max as nat, 0),
        decreases v@.len() - k,
    {
        let n = char_utf8_len(v[k]);
        assert(s@.take(k + 1).drop_last() =~= s@.take(k as int));
        if n > max || used > max - n {
            return s.substring_char(0, k);
        }
        used = used + n;
        k = k + 1;
    }
    proof {
        lemma_fitting_bounds(s@, max as nat, k as int);
    }
    s.substring_char(0, k)
}

/// The UTF-8 byte length of `s`, or `cap` when it is larger.
pub fn byte_count_capped(s: &str, cap: usize) -> (n: usize)
    ensures
        n == (if byte_len(s@) <= cap { byte_len(s@) } else { cap as nat }),
{
    let v = chars_of(s);
    let mut k: usize = 0;
    let mut used: usize = 0;
    while k < v.len()
        invariant
            v@ == s@,
            k <= v@.len(),
            used == byte_len(s@.take(k as int)),
            used <= cap,
        decreases v@.len() - k,
    {
        let n = char_utf8_len(v[k]);
        assert(s@.take(k + 1).drop_last() =~= s@.take(k as int));
        if n > cap || used > cap - n {
            proof {
                lemma_byte_len_prefix(s@, k + 1);
            }
            return cap;
        }
        used = used + n;
        k = k + 1;
    }
    assert(s@.take(k as int) =~= s@);
    used
}

proof fn lemma_byte_len_prefix(s: Seq<char>, k: int)
    requires
        0 <= k <= s.len(),
    ensures
        byte_len(s.take(k)) <= byte_len(s),
    decreases s.len(),
{
    if k < s.len() {
        lemma_byte_len_prefix(s.drop_last(), k);
        assert(s.drop_last().take(k) =~= s.take(k));
    } else {
        assert(s.take(k) =~= s);
    }
}

/// Whether `needle` occurs in `hay`.
pub fn contains_str(hay: &str, needle: &str) -> (r: bool)
    ensures
        r == contains_text(hay@, needle@),
{
    match find_text(hay, needle) {
        Some(_) => true,
        None => false,
    }
}

} // verus!

verus! {

/// The character of a decimal digit.
pub open spec fn digit_char(d: nat) -> char {
    ((d + 48) as u32) as char
}

/// Decimal representation of a natural number, most significant digit first.
pub open spec fn dec(n: nat) -> Seq<char>
    decreases n,
{
    if n < 10 {
        seq![digit_char(n)]
    } else {
        dec(n / 10) + seq![digit_char(n % 10)]
    }
}

/// The decimal text of a number is made of digits and reads back as the
/// number; so two numbers with the same text are equal.
pub proof fn lemma_dec_digits(n: nat)
    ensures
        dec(n).len() > 0,
        forall|i: int| 0 <= i < dec(n).len() ==> '0' <= #[trigger] dec(n)[i] && dec(n)[i] <= '9',
        digits_value(dec(n)) == n,
    decreases n,
{
    if n >= 10 {
        lemma_dec_digits(n / 10);
        let d = dec(n);
        assert(d.drop_last() =~= dec(n / 10));
        assert forall|i: int| 0 <= i < d.len() implies '0' <= #[trigger] d[i] && d[i] <= '9' by {
            if i < d.len() - 1 {
                assert(d[i] == dec(n / 10)[i]);
            } else {
                assert(d[i] == digit_char(n % 10));
            }
        }
        assert(digit_value(d.last()) == n % 10);
        assert(n == (n / 10) * 10 + n % 10) by (nonlinear_arith);
        assert(digits_value(d) == digits_value(d.drop_last()) * 10 + digit_value(d.last()));
    } else {
        assert(digit_value(digit_char(n)) == n);
        assert(dec(n).drop_last() =~= Seq::<char>::empty());
        assert(digits_value(Seq::<char>::empty()) == 0);
        assert(digits_value(dec(n)) == digits_value(dec(n).drop_last()) * 10 + digit_value(dec(n).last()));
    }
}

fn digit_str(d: u32) -> (s: &'static str)
    requires
        d < 10,
    ensures
        s@ == seq![digit_char(d as nat)],
{
    proof {
        reveal_strlit("0");
        reveal_strlit("1");
        reveal_strlit("2");
        reveal_strlit("3");
        reveal_strlit("4");
        reveal_strlit("5");
        reveal_strlit("6");
        reveal_strlit("7");
        reveal_strlit("8");
        reveal_strlit("9");
    }
    if d == 0 {
        "0"
    } else if d == 1 {
        "1"
    } else if d == 2 {
        "2"
    } else if d == 3 {
        "3"
    } else if d == 4 {
        "4"
    } else if d == 5 {
        "5"
    } else if d == 6 {
        "6"
    } else if d == 7 {
        "7"
    } else if d == 8 {
        "8"
    } else {
        "9"
    }
}

/// Decimal text of an unsigned number (what `to_string` prints for it).
pub fn u32_to_dec(n: u32) -> (s: String)
    ensures
        s@ == dec(n as nat),
    decreases n,
{
    if n < 10 {
        digit_str(n).to_string()
    } else {
        let mut s = u32_to_dec(n / 10);
        s.append(digit_str(n % 10));
        s
    }
}

pub open spec fn is_digit(c: char) -> bool {
    '0' <= c && c <= '9'
}

pub open spec fn all_digits(s: Seq<char>) -> bool {
    forall|i: int| 0 <= i < s.len() ==> #[trigger] is_digit(s[i])
}

pub open spec fn digit_value(c: char) -> nat {
    (c as int - '0' as int) as nat
}

/// Value of a sequence of decimal digits, most significant first.
pub open spec fn digits_value(s: Seq<char>) -> nat
    decreases s.len(),
{
    if s.len() == 0 {
        0
    } else {
        digits_value(s.drop_last()) * 10 + digit_value(s.last())
    }
}

/// What `str::parse::<u32>` gives: an optional `+` followed by one or more
/// decimal digits whose value fits in 32 bits; anything else is refused.
pub open spec fn parse_u32_spec(s: Seq<char>) -> Option<u32> {
    let d = if s.len() > 0 && s[0] == '+' {
        s.subrange(1, s.len() as int)
    } else {
        s
    };
    if d.len() > 0 && all_digits(d) && digits_value(d) <= 0xffff_ffff {
        Some(digits_value(d) as u32)
    } else {
        None
    }
}

proof fn lemma_digits_prefix(s: Seq<char>, k: int)
    requires
        0 <= k <= s.len(),
        all_digits(s),
    ensures
        digits_value(s.take(k)) <= digits_value(s),
    decreases s.len(),
{
    if k < s.len() {
        let t = s.drop_last();
        assert(all_digits(t)) by {
            assert forall|i: int| 0 <= i < t.len() implies #[trigger] is_digit(t[i]) by {
                assert(t[i] == s[i]);
            }
        }
        lemma_digits_prefix(t, k);
        assert(t.take(k) =~= s.take(k));
    } else {
        assert(s.take(k) =~= s);
    }
}

/// Parses an unsigned 32-bit decimal number as `str::parse::<u32>` does.
pub fn parse_u32(s: &str) -> (r: Option<u32>)
    ensures
        r == parse_u32_spec(s@),
{
    let v = chars_of(s);
    let n = v.len();
    let start: usize = if n > 0 && v[0] == '+' { 1 } else { 0 };
    let ghost d = if s@.len() > 0 && s@[0] == '+' {
        s@.subrange(1, s@.len() as int)
    } else {
        s@
    };
    if start == n {
        return None;
    }
    let mut acc: u64 = 0;
    let mut i: usize = start;
    while i < n
        invariant
            v@ == s@,
            n == v@.len(),
            start <= i <= n,
            d == v@.subrange(start as int, n as int),
            d == (if s@.len() > 0 && s@[0] == '+' {
                s@.subrange(1, s@.len() as int)
            } else {
                s@
            }),
            all_digits(d.take(i - start)),
            acc == digits_value(d.take(i - start)),
            acc <= 0xffff_ffff,
        decreases n - i,
    {
        let c = v[i];
        if c < '0' || c > '9' {
            assert(!is_digit(d[i - start]));
            assert(!all_digits(d));
            return None;
        }
        let ghost prev = d.take(i - start);
        assert(d.take(i - start + 1).drop_last() =~= prev);
        assert(d.take(i - start + 1).last() == c);
        assert(digits_value(d.take(i - start + 1)) == digits_value(prev) * 10 + digit_value(c));
        acc = acc * 10 + (c as u64 - '0' as u64);
        i = i + 1;
        assert(all_digits(d.take(i - start))) by {
            assert forall|j: int| 0 <= j < d.take(i - start).len() implies #[trigger] is_digit(d.take(i - start)[j]) by {
                if j < prev.len() {
                    assert(d.take(i - start)[j] == prev[j]);
                }
            }
        }
        if acc > 0xffff_ffff {
            proof {
                if all_digits(d) {
                    lemma_digits_prefix(d, i - start);
                }
            }
            return None;
        }
    }
    assert(d.take(n - start) =~= d);
    Some(acc as u32)
}

/// Appends the decimal text of `n` to `s`.
pub fn push_dec(s: &mut String, n: u32)
    ensures
        final(s)@ == old(s)@ + dec(n as nat),
{
    let d = u32_to_dec(n);
    s.append(d.as_str());
}

} // verus!

verus! {

/// Whether a character has the Unicode `White_Space` property, the test of
/// `char::is_whitespace`: tab through carriage return, space, next line,
/// no-break space, ogham space mark, en quad through hair space, line and
/// paragraph separators, narrow no-break space, medium mathematical space
/// and ideographic space.
pub open spec fn is_white_space(c: char) -> bool {
    let v = c as u32;
    ||| 0x09 <= v <= 0x0D
    ||| v == 0x20
    ||| v == 0x85
    ||| v == 0xA0
    ||| v == 0x1680
    ||| 0x2000 <= v <= 0x200A
    ||| v == 0x2028
    ||| v == 0x2029
    ||| v == 0x202F
    ||| v == 0x205F
    ||| v == 0x3000
}

/// Whether `c` is whitespace, as `char::is_whitespace` decides it.
pub(crate) fn char_is_whitespace(c: char) -> (r: bool)
    ensures
        r == is_white_space(c),
        (c as u32) < 128 ==> (r <==> (c == ' ' || ('\t' <= c && c <= '\r'))),
{
    let v = c as u32;
    (0x09 <= v && v <= 0x0D) || v == 0x20 || v == 0x85 || v == 0xA0 || v == 0x1680 || (0x2000 <= v && v <= 0x200A)
        || v == 0x2028 || v == 0x2029 || v == 0x202F || v == 0x205F || v == 0x3000
}

/// First position at or after `i` that does not hold whitespace.
pub open spec fn skip_ws_forward(s: Seq<char>, i: int) -> int
    decreases s.len() - i,
{
    if 0 <= i < s.len() && is_white_space(s[i]) {
        skip_ws_forward(s, i + 1)
    } else {
        i
    }
}

/// End of the text before `j` once trailing whitespace down to `lo` is removed.
pub open spec fn skip_ws_backward(s: Seq<char>, lo: int, j: int) -> int
    decreases j - lo,
{
    if lo < j && j <= s.len() && is_white_space(s[j - 1]) {
        skip_ws_backward(s, lo, j - 1)
    } else {
        j
    }
}

/// The text with leading and trailing whitespace removed (what `str::trim` gives).
pub open spec fn trim_seq(s: Seq<char>) -> Seq<char> {
    let a = skip_ws_forward(s, 0);
    s.subrange(a, skip_ws_backward(s, a, s.len() as int))
}

proof fn lemma_skip_forward_bounds(s: Seq<char>, i: int)
    requires
        0 <= i <= s.len(),
    ensures
        i <= skip_ws_forward(s, i) <= s.len(),
    decreases s.len() - i,
{
    if 0 <= i < s.len() && is_white_space(s[i]) {
        lemma_skip_forward_bounds(s, i + 1);
    }
}

proof fn lemma_skip_backward_bounds(s: Seq<char>, lo: int, j: int)
    requires
        0 <= lo <= j <= s.len(),
    ensures
        lo <= skip_ws_backward(s, lo, j) <= j,
    decreases j - lo,
{
    if lo < j && j <= s.len() && is_white_space(s[j - 1]) {
        lemma_skip_backward_bounds(s, lo, j - 1);
    }
}

/// The text without leading and trailing whitespace.
pub fn trim(s: &str) -> (r: &str)
    ensures
        r@ == trim_seq(s@),
{
    let v = crate::text::chars_of(s);
    let n = v.len();
    let mut a: usize = 0;
    while a < n && char_is_whitespace(v[a])
        invariant
            v@ == s@,
            n == v.len(),
            a <= n,
            skip_ws_forward(s@, a as int) == skip_ws_forward(s@, 0),
        decreases n - a,
    {
        a = a + 1;
    }
    let mut b: usize = n;
    while b > a && char_is_whitespace(v[b - 1])
        invariant
            v@ == s@,
            n == v.len(),
            a <= b <= n,
            a as int == skip_ws_forward(s@, 0),
            skip_ws_backward(s@, a as int, b as int) == skip_ws_backward(s@, a as int, n as int),
        decreases b - a,
    {
        b = b - 1;
    }
    s.substring_char(a, b)
}

/// The Unicode lowercase mapping of a text (what `str::to_lowercase` gives).
pub uninterp spec fn lowercase(s: Seq<char>) -> Seq<char>;

/// ASCII letters mapped to lowercase, other characters kept.
pub open spec fn ascii_lower_char(c: char) -> char {
    if 'A' <= c && c <= 'Z' {
        ((c as u32) + 32) as char
    } else {
        c
    }
}

pub open spec fn is_ascii_seq(s: Seq<char>) -> bool {
    forall|i: int| 0 <= i < s.len() ==> (#[trigger] s[i] as u32) < 128
}

/// The lowercase form of a text: on ASCII text letters A-Z become a-z and
/// the rest is kept; other text is mapped as `lowercase` names it.
pub open spec fn lowercased(s: Seq<char>) -> Seq<char> {
    if is_ascii_seq(s) {
        s.map_values(|c: char| ascii_lower_char(c))
    } else {
        lowercase(s)
    }
}

/// Text made of lowercase ASCII letters, digits, `_` and `-`.
pub open spec fn plain_lower(s: Seq<char>) -> bool {
    forall|i: int|
        0 <= i < s.len() ==> ('a' <= #[trigger] s[i] && s[i] <= 'z') || ('0' <= s[i] && s[i] <= '9') || s[i]
            == '_' || s[i] == '-'
}

/// Such a text is its own trimmed and its own lowercased form.
pub proof fn lemma_plain_lower(s: Seq<char>)
    requires
        plain_lower(s),
    ensures
        trim_seq(s) == s,
        lowercased(s) == s,
{
    if s.len() > 0 {
        assert(!is_white_space(s[0]));
        assert(!is_white_space(s[s.len() - 1]));
    }
    assert(skip_ws_forward(s, 0) == 0);
    assert(skip_ws_backward(s, 0, s.len() as int) == s.len());
    assert(s.subrange(0, s.len() as int) =~= s);
    assert(is_ascii_seq(s));
    assert(s.map_values(|c: char| ascii_lower_char(c)) =~= s);
}

proof fn lemma_skip_forward_stop(s: Seq<char>, i: int)
    requires
        0 <= i <= s.len(),
    ensures
        i <= skip_ws_forward(s, i) <= s.len(),
        skip_ws_forward(s, i) == s.len() || !is_white_space(s[skip_ws_forward(s, i)]),
    decreases s.len() - i,
{
    if 0 <= i < s.len() && is_white_space(s[i]) {
        lemma_skip_forward_stop(s, i + 1);
    }
}

proof fn lemma_skip_backward_stop(s: Seq<char>, lo: int, j: int)
    requires
        0 <= lo <= j <= s.len(),
    ensures
        lo <= skip_ws_backward(s, lo, j) <= j,
        skip_ws_backward(s, lo, j) == lo || !is_white_space(s[skip_ws_backward(s, lo, j) - 1]),
    decreases j - lo,
{
    if lo < j && j <= s.len() && is_white_space(s[j - 1]) {
        lemma_skip_backward_stop(s, lo, j - 1);
    }
}

/// A text that neither starts nor ends with whitespace.
pub open spec fn trimmed(t: Seq<char>) -> bool {
    t.len() == 0 || (!is_white_space(t[0]) && !is_white_space(t[t.len() - 1]))
}

/// Trimming gives a text without surrounding whitespace, taken from inside
/// the original.
proof fn lemma_trim_seq_trimmed(s: Seq<char>)
    ensures
        trimmed(trim_seq(s)),
        exists|a: int, b: int| 0 <= a <= b <= s.len() && trim_seq(s) == s.subrange(a, b),
{
    lemma_skip_forward_stop(s, 0);
    let a = skip_ws_forward(s, 0);
    lemma_skip_backward_stop(s, a, s.len() as int);
    let b = skip_ws_backward(s, a, s.len() as int);
    let t = s.subrange(a, b);
    if t.len() > 0 {
        assert(t[0] == s[a]);
        assert(t[t.len() - 1] == s[b - 1]);
    }
}

/// A text without surrounding whitespace is its own trimmed form.
proof fn lemma_trimmed_fixed(t: Seq<char>)
    requires
        trimmed(t),
    ensures
        trim_seq(t) == t,
{
    if t.len() > 0 {
        assert(skip_ws_forward(t, 0) == 0);
        assert(skip_ws_backward(t, 0, t.len() as int) == t.len());
    }
    assert(t.subrange(0, t.len() as int) =~= t);
}

/// Trimming and lowercasing an ASCII text gives a text that trimming and
/// lowercasing leave as it is.
pub proof fn lemma_normalized_ascii(s: Seq<char>)
    requires
        is_ascii_seq(s),
    ensures
        trim_seq(lowercased(trim_seq(s))) == lowercased(trim_seq(s)),
        lowercased(lowercased(trim_seq(s))) == lowercased(trim_seq(s)),
{
    lemma_trim_seq_trimmed(s);
    let t = trim_seq(s);
    let (a, b) = choose|a: int, b: int| 0 <= a <= b <= s.len() && trim_seq(s) == s.subrange(a, b);
    assert forall|k: int| 0 <= k < t.len() implies (#[trigger] t[k] as u32) < 128 by {
        assert(t[k] == s[a + k]);
    }
    let u = t.map_values(|c: char| ascii_lower_char(c));
    assert(lowercased(t) == u);
    assert forall|k: int| 0 <= k < u.len() implies (#[trigger] u[k] as u32) < 128 && ascii_lower_char(u[k]) == u[k]
        && (is_white_space(u[k]) == is_white_space(t[k])) by {
        assert(u[k] == ascii_lower_char(t[k]));
        assert((t[k] as u32) < 128);
    }
    assert(is_ascii_seq(u));
    assert(trimmed(u));
    lemma_trimmed_fixed(u);
    assert(u.map_values(|c: char| ascii_lower_char(c)) =~= u);
}

proof fn lemma_skip_forward_to(s: Seq<char>, k: int, i: int)
    requires
        0 <= k <= i <= s.len(),
        forall|m: int| k <= m < i ==> is_white_space(#[trigger] s[m]),
        i == s.len() || !is_white_space(s[i]),
    ensures
        skip_ws_forward(s, k) == i,
    decreases i - k,
{
    if k < i {
        lemma_skip_forward_to(s, k + 1, i);
    }
}

proof fn lemma_skip_backward_to(s: Seq<char>, lo: int, j: int, m: int)
    requires
        0 <= lo <= j <= m <= s.len(),
        forall|k: int| j <= k < m ==> is_white_space(#[trigger] s[k]),
        j == lo || !is_white_space(s[j - 1]),
    ensures
        skip_ws_backward(s, lo, m) == j,
    decreases m - j,
{
    if j < m {
        lemma_skip_backward_to(s, lo, j, m - 1);
    }
}

proof fn lemma_skip_forward_spaces(s: Seq<char>, i: int)
    requires
        0 <= i <= s.len(),
    ensures
        forall|m: int| i <= m < skip_ws_forward(s, i) ==> is_white_space(#[trigger] s[m]),
    decreases s.len() - i,
{
    if 0 <= i < s.len() && is_white_space(s[i]) {
        lemma_skip_forward_spaces(s, i + 1);
    }
}

proof fn lemma_skip_backward_spaces(s: Seq<char>, lo: int, j: int)
    requires
        0 <= lo <= j <= s.len(),
    ensures
        forall|m: int| skip_ws_backward(s, lo, j) <= m < j ==> is_white_space(#[trigger] s[m]),
    decreases j - lo,
{
    if lo < j && j <= s.len() && is_white_space(s[j - 1]) {
        lemma_skip_backward_spaces(s, lo, j - 1);
    }
}

/// The trimmed text is the stretch between leading and trailing whitespace:
/// its bounds, with only whitespace outside them.
pub proof fn lemma_trim_bounds(s: Seq<char>)
    ensures
        ({
            let i = skip_ws_forward(s, 0);
            let j = skip_ws_backward(s, i, s.len() as int);
            &&& 0 <= i <= j <= s.len()
            &&& trim_seq(s) == s.subrange(i, j)
            &&& forall|m: int| 0 <= m < i ==> is_white_space(#[trigger] s[m])
            &&& forall|m: int| j <= m < s.len() ==> is_white_space(#[trigger] s[m])
            &&& (i < j ==> !is_white_space(s[i]) && !is_white_space(s[j - 1]))
        }),
{
    lemma_skip_forward_stop(s, 0);
    let i = skip_ws_forward(s, 0);
    lemma_skip_backward_stop(s, i, s.len() as int);
    lemma_skip_forward_spaces(s, 0);
    lemma_skip_backward_spaces(s, i, s.len() as int);
}

/// A stretch of a text with only whitespace around it, which neither starts
/// nor ends with whitespace, is the trimmed text.
pub proof fn lemma_trim_is(s: Seq<char>, i: int, j: int)
    requires
        0 <= i <= j <= s.len(),
        forall|m: int| 0 <= m < i ==> is_white_space(#[trigger] s[m]),
        forall|m: int| j <= m < s.len() ==> is_white_space(#[trigger] s[m]),
        i < j ==> !is_white_space(s[i]) && !is_white_space(s[j - 1]),
    ensures
        trim_seq(s) == s.subrange(i, j),
{
    if i < j {
        lemma_skip_forward_to(s, 0, i);
        lemma_skip_backward_to(s, i, j, s.len() as int);
    } else {
        assert forall|m: int| 0 <= m < s.len() implies is_white_space(#[trigger] s[m]) by {
            if m < i {
            } else {
            }
        }
        lemma_skip_forward_to(s, 0, s.len() as int);
        assert(skip_ws_backward(s, s.len() as int, s.len() as int) == s.len());
        assert(trim_seq(s) =~= s.subrange(i, j));
    }
}

/// ASCII lowercasing keeps a character ASCII and keeps whether it is whitespace.
pub proof fn lemma_ascii_lower_char(c: char)
    requires
        (c as u32) < 128,
    ensures
        (ascii_lower_char(c) as u32) < 128,
        is_white_space(ascii_lower_char(c)) == is_white_space(c),
        is_white_space(c) ==> ascii_lower_char(c) == c,
{
}

/// Calls `str::to_lowercase`, whose result is named `lowercase`. On ASCII text the
/// Unicode mapping is the ASCII one: letters A-Z become a-z and the rest is kept.
#[verifier::external_body]
pub(crate) fn to_lowercase(s: &str) -> (r: String)
    ensures
        r@ == lowercase(s@),
        is_ascii_seq(s@) ==> r@ == s@.map_values(|c: char| ascii_lower_char(c)),
        r@ == lowercased(s@),
{
    s.to_lowercase()
}

} // verus!
