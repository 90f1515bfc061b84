//! Text as sequences of characters: the vocabulary the protocol and the
//! dispatcher are stated in, and the executable helpers that compute it.

use vstd::prelude::*;
use vstd::std_specs::iter::IteratorSpec;
use vstd::string::*;

verus! {

/// Whether `c` is white space as Unicode defines it (the property
/// `White_Space`).
pub open spec fn is_whitespace(c: char) -> bool {
    let u = c as u32;
    ||| 0x09 <= u <= 0x0d
    ||| u == 0x20
    ||| u == 0x85
    ||| u == 0xa0
    ||| u == 0x1680
    ||| 0x2000 <= u <= 0x200a
    ||| u == 0x2028
    ||| u == 0x2029
    ||| u == 0x202f
    ||| u == 0x205f
    ||| u == 0x3000
}

/// How many white-space characters `s` starts with.
pub open spec fn leading_whitespace(s: Seq<char>) -> nat
    decreases s.len(),
{
    if s.len() > 0 && is_whitespace(s[0]) {
        1 + leading_whitespace(s.drop_first())
    } else {
        0
    }
}

/// How many white-space characters `s` ends with.
pub open spec fn trailing_whitespace(s: Seq<char>) -> nat
    decreases s.len(),
{
    if s.len() > 0 && is_whitespace(s.last()) {
        1 + trailing_whitespace(s.drop_last())
    } else {
        0
    }
}

/// `s` without the white space around it.
pub open spec fn trimmed(s: Seq<char>) -> Seq<char> {
    let lead = leading_whitespace(s);
    if lead == s.len() {
        Seq::empty()
    } else {
        s.subrange(lead as int, s.len() - trailing_whitespace(s))
    }
}

/// The index of the first `c` in `s`, or `s.len()` where `s` holds none.
pub open spec fn position(s: Seq<char>, c: char) -> int
    decreases s.len(),
{
    if s.len() == 0 || s[0] == c {
        0
    } else {
        1 + position(s.drop_first(), c)
    }
}

/// What stands before the first `sep` of `s`: all of `s` where it holds none.
pub open spec fn before(s: Seq<char>, sep: char) -> Seq<char> {
    s.take(position(s, sep))
}

/// What stands behind the first `sep` of `s`: nothing where it holds none.
pub open spec fn after(s: Seq<char>, sep: char) -> Seq<char> {
    if position(s, sep) < s.len() {
        s.skip(position(s, sep) + 1)
    } else {
        Seq::empty()
    }
}

/// `s` without the `c`s that it ends with.
pub open spec fn without_trailing(s: Seq<char>, c: char) -> Seq<char>
    decreases s.len(),
{
    if s.len() > 0 && s.last() == c {
        without_trailing(s.drop_last(), c)
    } else {
        s
    }
}

/// The lower-case form of an ASCII capital; any other character as it is.
pub open spec fn ascii_lower(c: char) -> char {
    if 'A' <= c && c <= 'Z' {
        ((c as u8) + 32) as char
    } else {
        c
    }
}

/// `s` with each ASCII capital in lower case.
pub open spec fn ascii_lowered(s: Seq<char>) -> Seq<char> {
    Seq::new(s.len(), |i: int| ascii_lower(s[i]))
}

/// `s` behind as many blanks as bring it to `width` characters.
pub open spec fn right_aligned(s: Seq<char>, width: nat) -> Seq<char> {
    if s.len() >= width {
        s
    } else {
        Seq::new((width - s.len()) as nat, |i: int| ' ') + s
    }
}

/// An index with no `c` before it, which holds `c` or is the end, is the
/// position of the first `c`.
pub proof fn lemma_position_is(s: Seq<char>, c: char, k: int)
    requires
        0 <= k <= s.len(),
        forall|i: int| 0 <= i < k ==> s[i] != c,
        k < s.len() ==> s[k] == c,
    ensures
        position(s, c) == k,
    decreases s.len(),
{
    if s.len() == 0 || s[0] == c {
    } else {
        let rest = s.drop_first();
        assert forall|i: int| 0 <= i < k - 1 implies rest[i] != c by {
            assert(rest[i] == s[i + 1]);
        }
        lemma_position_is(rest, c, k - 1);
    }
}

/// White space before index `k`, and none at `k`, make `k` the count of
/// leading white space.
pub proof fn lemma_leading_is(s: Seq<char>, k: int)
    requires
        0 <= k <= s.len(),
        forall|i: int| 0 <= i < k ==> is_whitespace(s[i]),
        k < s.len() ==> !is_whitespace(s[k]),
    ensures
        leading_whitespace(s) == k,
    decreases s.len(),
{
    if s.len() > 0 && is_whitespace(s[0]) {
        let rest = s.drop_first();
        assert forall|i: int| 0 <= i < k - 1 implies is_whitespace(rest[i]) by {
            assert(rest[i] == s[i + 1]);
        }
        lemma_leading_is(rest, k - 1);
    }
}

/// White space from index `k` on, and none just before `k`, make
/// `s.len() - k` the count of trailing white space.
pub proof fn lemma_trailing_is(s: Seq<char>, k: int)
    requires
        0 <= k <= s.len(),
        forall|i: int| k <= i < s.len() ==> is_whitespace(s[i]),
        k > 0 ==> !is_whitespace(s[k - 1]),
    ensures
        trailing_whitespace(s) == s.len() - k,
    decreases s.len(),
{
    if s.len() > 0 && is_whitespace(s.last()) {
        let rest = s.drop_last();
        assert forall|i: int| k <= i < rest.len() implies is_whitespace(rest[i]) by {
            assert(rest[i] == s[i]);
        }
        lemma_trailing_is(rest, k);
    }
}

/// `k` with no `c` from it to the end, and none just before it that is `c`,
/// is where the trailing `c`s of `s` begin.
pub proof fn lemma_without_trailing_is(s: Seq<char>, c: char, k: int)
    requires
        0 <= k <= s.len(),
        forall|i: int| k <= i < s.len() ==> s[i] == c,
        k > 0 ==> s[k - 1] != c,
    ensures
        without_trailing(s, c) == s.take(k),
    decreases s.len(),
{
    if s.len() > 0 && s.last() == c {
        let rest = s.drop_last();
        assert forall|i: int| k <= i < rest.len() implies rest[i] == c by {
            assert(rest[i] == s[i]);
        }
        lemma_without_trailing_is(rest, c, k);
        assert(rest.take(k) =~= s.take(k));
    } else {
        assert(s.take(k) =~= s);
    }
}

/// Whether `c` is white space.
pub fn char_is_whitespace(c: char) -> (r: bool)
    ensures
        r == is_whitespace(c),
{
    let u: u32 = c as u32;
    (0x09 <= u && u <= 0x0d) || u == 0x20 || u == 0x85 || u == 0xa0 || u == 0x1680 || (0x2000 <= u
        && u <= 0x200a) || u == 0x2028 || u == 0x2029 || u == 0x202f || u == 0x205f || u == 0x3000
}

/// The lower-case form of an ASCII capital; any other character as it is.
pub fn char_ascii_lower(c: char) -> (r: char)
    ensures
        r == ascii_lower(c),
{
    if 'A' <= c && c <= 'Z' {
        ((c as u8) + 32) as char
    } else {
        c
    }
}

/// The characters of `s`, in order.
pub fn chars_of(s: &str) -> (v: Vec<char>)
    ensures
        v@ == s@,
{
    broadcast use vstd::string::group_string_axioms;

    let mut v: Vec<char> = Vec::new();
    let mut it = s.chars();
    loop
        invariant
            v@ + it.remaining() == s@,
            it.decrease() is Some,
        ensures
            v@ == s@,
        decreases it.decrease()->0,
    {
        match it.next() {
            Some(c) => {
                v.push(c);
            },
            None => {
                break ;
            },
        }
    }
    v
}

/// Where the first `c` stands in `chars[from..to]`, as an index into
/// `chars`: `to` where there is none.
pub fn find_char(chars: &Vec<char>, from: usize, to: usize, c: char) -> (at: usize)
    requires
        from <= to <= chars.len(),
    ensures
        from <= at <= to,
        at == from + position(chars@.subrange(from as int, to as int), c),
{
    let mut i: usize = from;
    while i < to && chars[i] != c
        invariant
            from <= i <= to <= chars.len(),
            forall|j: int| from <= j < i ==> chars@[j] != c,
        decreases to - i,
    {
        i += 1;
    }
    proof {
        lemma_position_is(chars@.subrange(from as int, to as int), c, i - from);
    }
    i
}

/// The bounds of `trimmed(chars)` in `chars`.
pub fn trim_bounds(chars: &Vec<char>) -> (r: (usize, usize))
    ensures
        r.0 <= r.1 <= chars.len(),
        chars@.subrange(r.0 as int, r.1 as int) == trimmed(chars@),
{
    let n: usize = chars.len();
    let mut a: usize = 0;
    while a < n && char_is_whitespace(chars[a])
        invariant
            a <= n == chars.len(),
            forall|j: int| 0 <= j < a ==> is_whitespace(chars@[j]),
        decreases n - a,
    {
        a += 1;
    }
    proof {
        lemma_leading_is(chars@, a as int);
    }
    if a == n {
        assert(chars@.subrange(a as int, a as int) =~= Seq::<char>::empty());
        return (a, a);
    }
    let mut b: usize = n;
    while b > a + 1 && char_is_whitespace(chars[b - 1])
        invariant
            a < b <= n == chars.len(),
            !is_whitespace(chars@[a as int]),
            forall|j: int| b <= j < n ==> is_whitespace(chars@[j]),
        decreases b,
    {
        b -= 1;
    }
    proof {
        lemma_trailing_is(chars@, b as int);
    }
    (a, b)
}

/// Whether `chars[from..to]`, its ASCII capitals taken in lower case, reads
/// `word`.
pub fn reads_ignoring_case(chars: &Vec<char>, from: usize, to: usize, word: &str) -> (r: bool)
    requires
        from <= to <= chars.len(),
    ensures
        r == (ascii_lowered(chars@.subrange(from as int, to as int)) == word@),
{
    let w = chars_of(word);
    let ghost lowered = ascii_lowered(chars@.subrange(from as int, to as int));
    if w.len() != to - from {
        return false;
    }
    let mut i: usize = 0;
    while i < w.len()
        invariant
            from <= to <= chars.len(),
            w.len() == to - from,
            i <= w.len(),
            w@ == word@,
            lowered == ascii_lowered(chars@.subrange(from as int, to as int)),
            forall|j: int| 0 <= j < i ==> lowered[j] == w@[j],
        decreases w.len() - i,
    {
        if char_ascii_lower(chars[from + i]) != w[i] {
            assert(lowered[i as int] != w@[i as int]);
            return false;
        }
        i += 1;
    }
    assert(lowered =~= w@);
    true
}

/// Whether `chars[from..to]` reads `word`.
pub fn reads(chars: &Vec<char>, from: usize, to: usize, word: &str) -> (r: bool)
    requires
        from <= to <= chars.len(),
    ensures
        r == (chars@.subrange(from as int, to as int) == word@),
{
    let w = chars_of(word);
    let ghost window = chars@.subrange(from as int, to as int);
    if w.len() != to - from {
        return false;
    }
    let mut i: usize = 0;
    while i < w.len()
        invariant
            from <= to <= chars.len(),
            w.len() == to - from,
            i <= w.len(),
            w@ == word@,
            window == chars@.subrange(from as int, to as int),
            forall|j: int| 0 <= j < i ==> window[j] == w@[j],
        decreases w.len() - i,
    {
        if chars[from + i] != w[i] {
            assert(window[i as int] != w@[i as int]);
            return false;
        }
        i += 1;
    }
    assert(window =~= w@);
    true
}

/// `s` behind as many blanks as bring it to `width` characters.
pub fn right_align(s: &str, width: usize) -> (r: String)
    ensures
        r@ == right_aligned(s@, width as nat),
{
    let len: usize = s.unicode_len();
    let mut r = String::new();
    if len < width {
        let blanks: usize = width - len;
        let mut i: usize = 0;
        while i < blanks
            invariant
                i <= blanks,
                r@ == Seq::new(i as nat, |k: int| ' '),
            decreases blanks - i,
        {
            proof {
                reveal_strlit(" ");
            }
            r.append(" ");
            assert(r@ =~= Seq::new((i + 1) as nat, |k: int| ' '));
            i += 1;
        }
    }
    r.append(s);
    r
}

/// The digit that stands for `d`, a number below ten.
pub open spec fn digit(d: nat) -> char
    recommends
        d < 10,
{
    (d + 48) as u8 as char
}

/// `n` in decimal digits, without leading zeros.
pub open spec fn decimal(n: nat) -> Seq<char>
    decreases n,
{
    if n < 10 {
        seq![digit(n)]
    } else {
        decimal(n / 10).push(digit(n % 10))
    }
}

/// `n` in decimal digits, behind a minus sign where it is negative.
pub open spec fn signed_decimal(n: int) -> Seq<char> {
    if n < 0 {
        seq!['-'] + decimal((-n) as nat)
    } else {
        decimal(n as nat)
    }
}

/// The digit that stands for `d`, as text.
fn digit_text(d: u32) -> (r: &'static str)
    requires
        d < 10,
    ensures
        r@ == seq![digit(d as nat)],
{
    proof {
        reveal_strlit("0123456789");
    }
    let r = "0123456789".substring_char(d as usize, d as usize + 1);
    assert(r@ =~= seq![digit(d as nat)]);
    r
}

/// Puts `n` in decimal digits behind `r`.
fn push_decimal(r: &mut String, n: u32)
    ensures
        final(r)@ == old(r)@ + decimal(n as nat),
    decreases n,
{
    if n >= 10 {
        push_decimal(r, n / 10);
    }
    r.append(digit_text(n % 10));
    assert(final(r)@ =~= old(r)@ + decimal(n as nat));
}

/// `n` in decimal digits, behind a minus sign where it is negative.
pub fn format_decimal(n: i32) -> (r: String)
    ensures
        r@ == signed_decimal(n as int),
{
    let mut r = String::new();
    if n < 0 {
        proof {
            reveal_strlit("-");
        }
        r.append("-");
        push_decimal(&mut r, (-(n as i64)) as u32);
    } else {
        push_decimal(&mut r, n as u32);
    }
    assert(r@ =~= signed_decimal(n as int));
    r
}

/// Calls `str::eq`, which holds of two strings that read the same.
#[verifier::external_body]
pub(crate) fn same(a: &str, b: &str) -> (r: bool)
    ensures
        r == (a@ == b@),
{
    a.eq(b)
}

/// What `str::to_lowercase` makes of `s`: its lower-case form, as Unicode
/// defines it.
pub uninterp spec fn lowercase_of(s: Seq<char>) -> Seq<char>;

/// Calls `str::to_lowercase`, which gives the lower-case form of `s`.
#[verifier::external_body]
pub(crate) fn to_lowercase(s: &str) -> (r: String)
    ensures
        r@ == lowercase_of(s@),
{
    s.to_lowercase()
}

} // verus!
