//! Text primitives shared by the configuration reader and the telemetry
//! line format: trimming, searching and unsigned numbers, all on sequences
//! of characters.

use vstd::prelude::*;
use vstd::arithmetic::div_mod;
use vstd::arithmetic::power2;
use vstd::slice::slice_subrange;

verus! {

/// `String::push`: appends one character to the end of the string.
pub assume_specification[ String::push ](s: &mut String, c: char)
    ensures
        final(s)@ == old(s)@.push(c),
;

/// The characters that Unicode gives the `White_Space` property.
pub open spec fn is_space(c: char) -> bool {
    let v = c as u32;
    ||| 0x09 <= v <= 0x0d
    ||| v == 0x20
    ||| v == 0x85
    ||| v == 0xa0
    ||| v == 0x1680
    ||| 0x2000 <= v <= 0x200a
    ||| v == 0x2028
    ||| v == 0x2029
    ||| v == 0x202f
    ||| v == 0x205f
    ||| v == 0x3000
}

/// A set of characters to strip from the ends of a text.
#[derive(Clone, Copy)]
pub enum CharClass {
    /// Every white-space character.
    Space,
    /// One given character.
    One(char),
}

impl CharClass {
    pub open spec fn has(self, c: char) -> bool {
        match self {
            CharClass::Space => is_space(c),
            CharClass::One(d) => c == d,
        }
    }

    pub fn test(self, c: char) -> (b: bool)
        ensures
            b == self.has(c),
    {
        match self {
            CharClass::Space => {
                let v: u32 = c as u32;
                (0x09 <= v && v <= 0x0d) || v == 0x20 || v == 0x85 || v == 0xa0 || v == 0x1680 || (
                0x2000 <= v && v <= 0x200a) || v == 0x2028 || v == 0x2029 || v == 0x202f || v
                    == 0x205f || v == 0x3000
            },
            CharClass::One(d) => c == d,
        }
    }
}

/// `s` without its longest prefix of characters of `class`.
pub open spec fn trim_start_of(s: Seq<char>, class: CharClass) -> Seq<char>
    decreases s.len(),
{
    if s.len() > 0 && class.has(s[0]) {
        trim_start_of(s.drop_first(), class)
    } else {
        s
    }
}

/// `s` without its longest suffix of characters of `class`.
pub open spec fn trim_end_of(s: Seq<char>, class: CharClass) -> Seq<char>
    decreases s.len(),
{
    if s.len() > 0 && class.has(s.last()) {
        trim_end_of(s.drop_last(), class)
    } else {
        s
    }
}

/// `s` with the characters of `class` stripped from both ends.
pub open spec fn trim_of(s: Seq<char>, class: CharClass) -> Seq<char> {
    trim_end_of(trim_start_of(s, class), class)
}

/// `s` without leading and trailing white space.
pub open spec fn trimmed(s: Seq<char>) -> Seq<char> {
    trim_of(s, CharClass::Space)
}

/// `s` without leading and trailing double quotes.
pub open spec fn unquoted(s: Seq<char>) -> Seq<char> {
    trim_of(s, CharClass::One('"'))
}

pub fn trim_start<'a>(s: &'a [char], class: CharClass) -> (r: &'a [char])
    ensures
        r@ == trim_start_of(s@, class),
{
    let mut i: usize = 0;
    proof {
        assert(s@.skip(0) == s@);
    }
    while i < s.len() && class.test(s[i])
        invariant
            i <= s.len(),
            trim_start_of(s@, class) == trim_start_of(s@.skip(i as int), class),
        decreases s.len() - i,
    {
        proof {
            assert(s@.skip(i as int).drop_first() == s@.skip(i + 1));
        }
        i += 1;
    }
    slice_subrange(s, i, s.len())
}

pub fn trim_end<'a>(s: &'a [char], class: CharClass) -> (r: &'a [char])
    ensures
        r@ == trim_end_of(s@, class),
{
    let mut n: usize = s.len();
    proof {
        assert(s@.take(n as int) == s@);
    }
    while n > 0 && class.test(s[n - 1])
        invariant
            n <= s.len(),
            trim_end_of(s@, class) == trim_end_of(s@.take(n as int), class),
        decreases n,
    {
        proof {
            assert(s@.take(n as int).drop_last() == s@.take(n - 1));
        }
        n -= 1;
    }
    slice_subrange(s, 0, n)
}

pub fn trim<'a>(s: &'a [char], class: CharClass) -> (r: &'a [char])
    ensures
        r@ == trim_of(s@, class),
{
    trim_end(trim_start(s, class), class)
}

/// Trimming leaves a text alone whose ends are outside the class.
pub proof fn lemma_trim_keeps(s: Seq<char>, class: CharClass)
    requires
        s.len() > 0,
        !class.has(s[0]),
        !class.has(s.last()),
    ensures
        trim_of(s, class) == s,
{
}

/// Trimming takes one surrounding pair off such a text.
pub proof fn lemma_trim_pair(s: Seq<char>, class: CharClass, a: char, b: char)
    requires
        s.len() > 0,
        !class.has(s[0]),
        !class.has(s.last()),
        class.has(a),
        class.has(b),
    ensures
        trim_of(seq![a] + s + seq![b], class) == s,
{
    let t = seq![a] + s + seq![b];
    let u = s + seq![b];
    assert(t.drop_first() =~= u);
    assert(t[0] == a);
    assert(u[0] == s[0]);
    assert(trim_start_of(u, class) == u);
    assert(u.last() == b);
    assert(u.drop_last() =~= s);
    assert(trim_end_of(s, class) == s);
}

/// Trimming takes trailing characters of the class off such a text.
pub proof fn lemma_trim_ending(s: Seq<char>, class: CharClass, ending: Seq<char>)
    requires
        s.len() > 0,
        !class.has(s[0]),
        !class.has(s.last()),
        forall|i: int| 0 <= i < ending.len() ==> class.has(#[trigger] ending[i]),
    ensures
        trim_of(s + ending, class) == s,
    decreases ending.len(),
{
    let t = s + ending;
    assert(t[0] == s[0]);
    assert(trim_start_of(t, class) == t);
    if ending.len() == 0 {
        assert(t =~= s);
    } else {
        let rest = ending.drop_last();
        assert(t.last() == ending.last());
        assert(t.drop_last() =~= s + rest);
        assert forall|i: int| 0 <= i < rest.len() implies class.has(#[trigger] rest[i]) by {
            assert(rest[i] == ending[i]);
        }
        lemma_trim_ending(s, class, rest);
        assert((s + rest)[0] == s[0]);
        assert(trim_start_of(s + rest, class) == s + rest);
    }
}

/// The position of the first `c` in `s`, or the length of `s` where there is
/// none.
pub open spec fn index_of(s: Seq<char>, c: char) -> nat
    decreases s.len(),
{
    if s.len() == 0 || s[0] == c {
        0
    } else {
        1 + index_of(s.drop_first(), c)
    }
}

/// Stripping the end leaves a first character that stays.
pub proof fn lemma_trim_end_keeps_first(s: Seq<char>, class: CharClass)
    requires
        s.len() > 0,
        !class.has(s[0]),
    ensures
        trim_end_of(s, class).len() > 0,
        trim_end_of(s, class)[0] == s[0],
    decreases s.len(),
{
    if class.has(s.last()) {
        lemma_trim_end_keeps_first(s.drop_last(), class);
    }
}

/// What `index_of` means position by position.
pub proof fn lemma_index_of(s: Seq<char>, c: char)
    ensures
        index_of(s, c) <= s.len(),
        index_of(s, c) < s.len() ==> s[index_of(s, c) as int] == c,
        forall|j: int| 0 <= j < index_of(s, c) ==> s[j] != c,
    decreases s.len(),
{
    if s.len() > 0 && s[0] != c {
        lemma_index_of(s.drop_first(), c);
        assert forall|j: int| 0 <= j < index_of(s, c) implies s[j] != c by {
            if j > 0 {
                assert(s.drop_first()[j - 1] == s[j]);
            }
        }
    }
}

/// The position is fixed by those facts.
pub proof fn lemma_index_of_is(s: Seq<char>, c: char, i: int)
    requires
        0 <= i <= s.len(),
        i < s.len() ==> s[i] == c,
        forall|j: int| 0 <= j < i ==> s[j] != c,
    ensures
        index_of(s, c) == i,
{
    lemma_index_of(s, c);
    let k = index_of(s, c) as int;
    if k < i {
        assert(s[k] != c);
    }
}

pub fn find_char(s: &[char], c: char) -> (i: usize)
    ensures
        i == index_of(s@, c),
        i <= s.len(),
{
    let mut i: usize = 0;
    while i < s.len() && s[i] != c
        invariant
            i <= s.len(),
            forall|j: int| 0 <= j < i ==> s@[j] != c,
        decreases s.len() - i,
    {
        i += 1;
    }
    proof {
        lemma_index_of_is(s@, c, i as int);
    }
    i
}

/// The characters of a string slice, in order.
pub fn chars_of(s: &str) -> (v: Vec<char>)
    ensures
        v@ == s@,
{
    let mut out: Vec<char> = Vec::new();
    for c in it: s.chars()
        invariant
            out@ == s@.take(it.index()),
            it.seq() == s@,
    {
        out.push(c);
        proof {
            assert(s@.take(it.index() + 1) == s@.take(it.index()).push(c));
        }
    }
    proof {
        assert(s@.take(s@.len() as int) == s@);
    }
    out
}

/// The string that holds the given characters.
pub fn string_of(s: &[char]) -> (r: String)
    ensures
        r@ == s@,
{
    let mut out: String = String::new();
    let mut i: usize = 0;
    while i < s.len()
        invariant
            i <= s.len(),
            out@ == s@.take(i as int),
        decreases s.len() - i,
    {
        out.push(s[i]);
        proof {
            assert(s@.take(i + 1) == s@.take(i as int).push(s@[i as int]));
        }
        i += 1;
    }
    proof {
        assert(s@.take(s@.len() as int) == s@);
    }
    out
}

pub fn same_chars(a: &[char], b: &[char]) -> (r: bool)
    ensures
        r == (a@ == b@),
{
    if a.len() != b.len() {
        return false;
    }
    let mut i: usize = 0;
    while i < a.len()
        invariant
            i <= a.len(),
            a.len() == b.len(),
            forall|j: int| 0 <= j < i ==> a@[j] == b@[j],
        decreases a.len() - i,
    {
        if a[i] != b[i] {
            return false;
        }
        i += 1;
    }
    proof {
        assert(a@ =~= b@);
    }
    true
}

/// Whether the characters `a` spell `b`.
pub fn spells(a: &[char], b: &str) -> (r: bool)
    ensures
        r == (a@ == b@),
{
    let v = chars_of(b);
    same_chars(a, v.as_slice())
}

/// Whether two string slices hold the same characters.
pub fn same_str(a: &str, b: &str) -> (r: bool)
    ensures
        r == (a@ == b@),
{
    let v = chars_of(a);
    spells(v.as_slice(), b)
}

// Unsigned numbers

/// The value of one digit, letters counting from ten in either case.
pub open spec fn digit_value(c: char) -> Option<nat> {
    if '0' <= c && c <= '9' {
        Some((c as u32 - '0' as u32) as nat)
    } else if 'a' <= c && c <= 'z' {
        Some((c as u32 - 'a' as u32 + 10) as nat)
    } else if 'A' <= c && c <= 'Z' {
        Some((c as u32 - 'A' as u32 + 10) as nat)
    } else {
        None
    }
}

/// The value of a run of digits in the given radix: `None` where some
/// character is not a digit of it. The empty run is zero.
pub open spec fn digits_value(s: Seq<char>, radix: nat) -> Option<nat>
    decreases s.len(),
{
    if s.len() == 0 {
        Some(0)
    } else {
        match (digits_value(s.drop_last(), radix), digit_value(s.last())) {
            (Some(v), Some(d)) => if d < radix {
                Some(v * radix + d)
            } else {
                None
            },
            _ => None,
        }
    }
}

/// An unsigned number as `from_str_radix` reads it: an optional plus sign,
/// then one or more digits, with a value of at most `max`.
pub open spec fn number_value(s: Seq<char>, radix: nat, max: nat) -> Option<nat> {
    let body = if s.len() > 0 && s[0] == '+' {
        s.drop_first()
    } else {
        s
    };
    if body.len() == 0 {
        None
    } else {
        match digits_value(body, radix) {
            Some(v) => if v <= max {
                Some(v)
            } else {
                None
            },
            None => None,
        }
    }
}

fn digit(c: char) -> (r: Option<u64>)
    ensures
        (match r {
            Some(d) => digit_value(c) == Some(d as nat) && d < 36,
            None => digit_value(c) is None,
        }),
{
    if '0' <= c && c <= '9' {
        Some((c as u32 - '0' as u32) as u64)
    } else if 'a' <= c && c <= 'z' {
        Some((c as u32 - 'a' as u32 + 10) as u64)
    } else if 'A' <= c && c <= 'Z' {
        Some((c as u32 - 'A' as u32 + 10) as u64)
    } else {
        None
    }
}

/// A longer run of digits is worth no less than any of its prefixes.
proof fn lemma_prefix_value(s: Seq<char>, radix: nat, n: int)
    requires
        0 <= n <= s.len(),
        radix > 0,
    ensures
        digits_value(s, radix) is Some ==> {
            &&& digits_value(s.take(n), radix) is Some
            &&& digits_value(s.take(n), radix)->0 <= digits_value(s, radix)->0
        },
    decreases s.len(),
{
    if n == s.len() {
        assert(s.take(n) == s);
    } else {
        lemma_prefix_value(s.drop_last(), radix, n);
        assert(s.drop_last().take(n) == s.take(n));
        if digits_value(s, radix) is Some {
            let v = digits_value(s.drop_last(), radix)->0;
            assert(v <= v * radix) by (nonlinear_arith)
                requires
                    radix >= 1,
                    v >= 0,
            ;
        }
    }
}

/// Reads an unsigned number of at most `max`.
pub fn parse_number(s: &[char], radix: u64, max: u64) -> (r: Option<u64>)
    requires
        2 <= radix <= 36,
    ensures
        (match r {
            Some(v) => number_value(s@, radix as nat, max as nat) == Some(v as nat),
            None => number_value(s@, radix as nat, max as nat) is None,
        }),
{
    let body: &[char] = if s.len() > 0 && s[0] == '+' {
        slice_subrange(s, 1, s.len())
    } else {
        s
    };
    proof {
        if s@.len() > 0 && s@[0] == '+' {
            assert(body@ == s@.drop_first());
        }
    }
    if body.len() == 0 {
        return None;
    }
    let mut acc: u64 = 0;
    let mut i: usize = 0;
    proof {
        assert(body@.take(0) == Seq::<char>::empty());
    }
    while i < body.len()
        invariant
            i <= body.len(),
            2 <= radix <= 36,
            acc <= max,
            digits_value(body@.take(i as int), radix as nat) == Some(acc as nat),
            body.len() > 0,
            body@ == (if s@.len() > 0 && s@[0] == '+' {
                s@.drop_first()
            } else {
                s@
            }),
        decreases body.len() - i,
    {
        let ghost prefix = body@.take(i + 1);
        proof {
            assert(prefix.drop_last() == body@.take(i as int));
            lemma_prefix_value(body@, radix as nat, i + 1);
        }
        match digit(body[i]) {
            Some(d) => {
                if d >= radix {
                    return None;
                }
                proof {
                    assert(acc as u128 * radix as u128 <= 0xffff_ffff_ffff_ffffu128 * 36)
                        by (nonlinear_arith)
                        requires
                            acc as u128 <= 0xffff_ffff_ffff_ffffu128,
                            radix as u128 <= 36,
                    ;
                }
                let next: u128 = acc as u128 * radix as u128 + d as u128;
                if next > max as u128 {
                    return None;
                }
                acc = next as u64;
            },
            None => {
                return None;
            },
        }
        i += 1;
    }
    proof {
        assert(body@.take(i as int) == body@);
    }
    Some(acc)
}

/// The digit that stands for `d`, letters in lower case.
pub open spec fn digit_char(d: nat) -> char {
    if d < 10 {
        (d + '0' as u32) as char
    } else {
        (d - 10 + 'a' as u32) as char
    }
}

/// `n` written in the given radix, without leading zeros.
pub open spec fn digits_of(n: nat, radix: nat) -> Seq<char>
    decreases n,
{
    if radix < 2 || n < radix {
        seq![digit_char(n)]
    } else {
        proof {
            assert(n / radix < n) by (nonlinear_arith)
                requires
                    n >= radix,
                    radix >= 2,
            ;
        }
        digits_of(n / radix, radix).push(digit_char(n % radix))
    }
}

pub fn format_digits(n: u64, radix: u64) -> (r: Vec<char>)
    requires
        2 <= radix <= 16,
    ensures
        r@ == digits_of(n as nat, radix as nat),
    decreases n,
{
    let d: u64 = n % radix;
    let c: char = if d < 10 {
        (d as u8 + 48u8) as char
    } else {
        (d as u8 - 10u8 + 97u8) as char
    };
    if n < radix {
        let mut out: Vec<char> = Vec::new();
        out.push(c);
        proof {
            div_mod::lemma_small_mod(n as nat, radix as nat);
            assert(out@ =~= digits_of(n as nat, radix as nat));
        }
        out
    } else {
        proof {
            assert(n / radix < n) by (nonlinear_arith)
                requires
                    n >= radix,
                    radix >= 2,
            ;
        }
        let mut out = format_digits(n / radix, radix);
        out.push(c);
        out
    }
}

/// A character that a written number can hold.
pub open spec fn is_digit_char(c: char) -> bool {
    ('0' <= c && c <= '9') || ('a' <= c && c <= 'f')
}

/// A written number reads back as itself, and holds digits only.
pub proof fn lemma_number_round_trip(n: nat, radix: nat, max: nat)
    requires
        2 <= radix <= 16,
        n <= max,
    ensures
        number_value(digits_of(n, radix), radix, max) == Some(n),
        digits_of(n, radix).len() > 0,
        forall|i: int|
            0 <= i < digits_of(n, radix).len() ==> is_digit_char(#[trigger] digits_of(n, radix)[i]),
{
    lemma_digits_of(n, radix);
    assert(is_digit_char(digits_of(n, radix)[0]));
}

proof fn lemma_digits_of(n: nat, radix: nat)
    requires
        2 <= radix <= 16,
    ensures
        digits_value(digits_of(n, radix), radix) == Some(n),
        digits_of(n, radix).len() > 0,
        forall|i: int|
            0 <= i < digits_of(n, radix).len() ==> is_digit_char(#[trigger] digits_of(n, radix)[i]),
    decreases n,
{
    let s = digits_of(n, radix);
    if n < radix {
        assert(s.drop_last() =~= Seq::<char>::empty());
        assert(s.last() == digit_char(n));
        assert(digits_value(s.drop_last(), radix) == Some(0nat));
        assert(digit_value(s.last()) == Some(n));
        assert(0 * radix == 0) by (nonlinear_arith);
    } else {
        assert(n / radix < n && n % radix < radix && (n / radix) * radix + n % radix == n)
            by (nonlinear_arith)
            requires
                n >= radix,
                radix >= 2,
        ;
        lemma_digits_of(n / radix, radix);
        assert(s.drop_last() =~= digits_of(n / radix, radix));
        assert(s.last() == digit_char(n % radix));
    }
}

/// A number below two to the `k` takes at most `k` digits.
pub proof fn lemma_digits_len(n: nat, radix: nat, k: nat)
    requires
        radix >= 2,
        k >= 1,
        n < power2::pow2(k),
    ensures
        digits_of(n, radix).len() <= k,
    decreases k,
{
    if n >= radix {
        if k == 1 {
            power2::lemma2_to64();
        } else {
            power2::lemma_pow2_unfold(k);
            let p = power2::pow2((k - 1) as nat);
            assert(n / radix < p) by (nonlinear_arith)
                requires
                    n < 2 * p,
                    radix >= 2,
                    n >= 0,
            ;
            lemma_digits_len(n / radix, radix, (k - 1) as nat);
        }
    }
}

/// Stripping takes characters of the class off both ends until none is left
/// there, and takes nothing else: what was stripped is all of the class, and
/// what is left begins and ends with another character or is empty.
pub proof fn law_stripping_is_exact<'a>(s: &'a [char], class: CharClass, r: &'a [char])
    requires
        call_ensures(trim, (s, class), r),
    ensures
        exists|i: int, j: int| #[trigger] is_stripped(s@, class, r@, i, j),
{
    lemma_start_is_stripped(s@, class);
    let t = trim_start_of(s@, class);
    let i = s@.len() - t.len();
    lemma_end_is_stripped(t, class);
    let j = i + r@.len();
    assert(r@ =~= s@.subrange(i, j));
    assert forall|k: int| 0 <= k < s@.len()
        && !(i <= k < j) implies class.has(#[trigger] s@[k]) by {
        if k >= j {
            assert(s@[k] == t[k - i]);
        }
    }
    assert(is_stripped(s@, class, r@, i, j));
}

/// Whether `r` is `s` between two places, outside of which `s` has characters
/// of the class only, and the ends of `r` are others.
pub open spec fn is_stripped(s: Seq<char>, class: CharClass, r: Seq<char>, i: int, j: int) -> bool {
    &&& 0 <= i <= j <= s.len()
    &&& r == s.subrange(i, j)
    &&& forall|k: int| 0 <= k < s.len() && !(i <= k < j) ==> class.has(#[trigger] s[k])
    &&& r.len() > 0 ==> !class.has(r[0]) && !class.has(r.last())
}

proof fn lemma_start_is_stripped(s: Seq<char>, class: CharClass)
    ensures
        ({
            let t = trim_start_of(s, class);
            let i = s.len() - t.len();
            &&& 0 <= i
            &&& t == s.skip(i)
            &&& forall|k: int| 0 <= k < i ==> class.has(#[trigger] s[k])
            &&& t.len() > 0 ==> !class.has(t[0])
        }),
    decreases s.len(),
{
    if s.len() > 0 && class.has(s[0]) {
        let rest = s.drop_first();
        lemma_start_is_stripped(rest, class);
        let t = trim_start_of(s, class);
        let i = s.len() - t.len();
        assert(t =~= s.skip(i));
        assert forall|k: int| 0 <= k < i implies class.has(#[trigger] s[k]) by {
            if k > 0 {
                assert(rest[k - 1] == s[k]);
            }
        }
    } else {
        assert(s.skip(0) =~= s);
    }
}

proof fn lemma_end_is_stripped(s: Seq<char>, class: CharClass)
    ensures
        ({
            let t = trim_end_of(s, class);
            &&& t.len() <= s.len()
            &&& t == s.take(t.len() as int)
            &&& forall|k: int| t.len() <= k < s.len() ==> class.has(#[trigger] s[k])
            &&& t.len() > 0 ==> !class.has(t.last())
        }),
    decreases s.len(),
{
    if s.len() > 0 && class.has(s.last()) {
        let rest = s.drop_last();
        lemma_end_is_stripped(rest, class);
        let t = trim_end_of(s, class);
        assert(t =~= s.take(t.len() as int));
        assert forall|k: int| t.len() <= k < s.len() implies class.has(#[trigger] s[k]) by {
            if k < rest.len() {
                assert(rest[k] == s[k]);
            }
        }
    } else {
        assert(s.take(s.len() as int) =~= s);
    }
}

/// Among the characters of one byte, white space is the tab, the line feed,
/// the vertical tab, the form feed, the carriage return and the space; no
/// letter, digit, quote or bracket is.
pub proof fn law_ascii_white_space(c: char, r: bool)
    requires
        (c as u32) < 0x80,
        call_ensures(CharClass::test, (CharClass::Space, c), r),
    ensures
        r <==> c as u32 == 9 || c as u32 == 10 || c as u32 == 11 || c as u32 == 12 || c as u32 == 13
            || c as u32 == 32,
{
}

/// A character is found at its first place, and nowhere where there is none.
pub proof fn law_first_place_is_found(s: &[char], c: char, i: usize)
    requires
        call_ensures(find_char, (s, c), i),
    ensures
        i <= s@.len(),
        i < s@.len() ==> s@[i as int] == c,
        forall|j: int| 0 <= j < i ==> s@[j] != c,
{
    lemma_index_of(s@, c);
}

/// A text in a radix is a number where it has a digit, and nothing but digits
/// of the radix behind an optional plus sign, and the number is not too large.
/// The last digit counts once, and each one before it as often as the radix
/// says.
pub proof fn law_number_is_its_digits(s: &[char], radix: u64, max: u64, r: Option<u64>, k: int)
    requires
        2 <= radix <= 36,
        call_ensures(parse_number, (s, radix, max), r),
    ensures
        s@.len() == 0 ==> r is None,
        s@ == seq!['+'] ==> r is None,
        r matches Some(v) ==> v <= max,
        r is Some && 0 <= k < s@.len() ==> (s@[k] == '+' && k == 0) || (digit_value(
            s@[k],
        ) matches Some(d) && d < radix),
        r matches Some(v) ==> s@.len() > 1 && s@[0] != '+' ==> (number_value(
            s@.drop_last(),
            radix as nat,
            u64::MAX as nat,
        ) matches Some(rest) && digit_value(s@.last()) matches Some(d) && v == rest * radix + d),
        r matches Some(v) ==> s@.len() == 1 ==> digit_value(s@[0]) == Some(v as nat),
        s@.len() == 1 ==> (digit_value(s@[0]) matches Some(d) ==> d < radix && d <= max
            ==> r == Some(
            d as u64,
        )),
{
    let body = if s@.len() > 0 && s@[0] == '+' {
        s@.drop_first()
    } else {
        s@
    };
    if r is Some {
        lemma_all_digits(body, radix as nat);
        if 0 <= k < s@.len() && !(s@[k] == '+' && k == 0) {
            if s@[0] == '+' {
                assert(body[k - 1] == s@[k]);
            } else {
                assert(body[k] == s@[k]);
            }
        }
        if s@.len() > 1 && s@[0] != '+' {
            let v = digits_value(s@.drop_last(), radix as nat)->0;
            let d = digit_value(s@.last())->0;
            assert(v <= v * radix + d) by (nonlinear_arith)
                requires
                    radix >= 2,
                    v >= 0,
                    d >= 0,
            ;
            assert(s@.drop_last()[0] == s@[0]);
        }
    }
    if s@.len() == 1 {
        assert(s@.drop_last() =~= Seq::<char>::empty());
        assert(0 * (radix as nat) == 0) by (nonlinear_arith);
        assert(s@[0] == s@.last());
    }
}

proof fn lemma_all_digits(s: Seq<char>, radix: nat)
    requires
        digits_value(s, radix) is Some,
    ensures
        forall|k: int|
            0 <= k < s.len() ==> (digit_value(#[trigger] s[k]) matches Some(d) && d < radix),
    decreases s.len(),
{
    if s.len() > 0 {
        let rest = s.drop_last();
        lemma_all_digits(rest, radix);
        assert forall|k: int| 0 <= k < s.len() implies (digit_value(#[trigger] s[k]) matches Some(d)
            && d < radix) by {
            if k < rest.len() {
                assert(rest[k] == s[k]);
            }
        }
    }
}

/// The decimal digits are worth what they say, and letters follow on, in
/// either case.
pub proof fn law_digits_are_worth(c: char, d: char)
    requires
        digit_value(c) is Some,
    ensures
        c == '0' ==> digit_value(c) == Some(0nat),
        c == '9' ==> digit_value(c) == Some(9nat),
        c == 'a' || c == 'A' ==> digit_value(c) == Some(10nat),
        d as int == c as int + 1 && digit_value(d) is Some ==> digit_value(d) == Some(
            (digit_value(c)->0 + 1) as nat,
        ),
        digit_value(c)->0 < 36,
{
}

/// A number is written in digits of its radix, small letters among them, that
/// are worth it, and without a zero in front of others.
pub proof fn law_written_number_is_worth_it(n: u64, radix: u64, r: Vec<char>)
    requires
        2 <= radix <= 16,
        call_ensures(format_digits, (n, radix), r),
    ensures
        digits_value(r@, radix as nat) == Some(n as nat),
        r@.len() > 0,
        r@.len() > 1 ==> r@[0] != '0',
        forall|i: int|
            0 <= i < r@.len() ==> ('0' <= #[trigger] r@[i] && r@[i] <= '9') || ('a' <= r@[i]
                && r@[i] <= 'f'),
{
    lemma_digits_of(n as nat, radix as nat);
    lemma_no_zero_in_front(n as nat, radix as nat);
    assert forall|i: int| 0 <= i < r@.len() implies ('0' <= #[trigger] r@[i] && r@[i] <= '9') || (
    'a' <= r@[i] && r@[i] <= 'f') by {
        assert(is_digit_char(r@[i]));
    }
}

proof fn lemma_no_zero_in_front(n: nat, radix: nat)
    requires
        2 <= radix <= 16,
    ensures
        n > 0 ==> digits_of(n, radix)[0] != '0',
        digits_of(n, radix).len() > 0,
        n == 0 ==> digits_of(n, radix).len() == 1,
    decreases n,
{
    if n >= radix {
        assert(n / radix < n && n / radix > 0) by (nonlinear_arith)
            requires
                n >= radix,
                radix >= 2,
        ;
        lemma_no_zero_in_front(n / radix, radix);
    }
}

/// Texts are the same where they have the same characters, in whatever form
/// they are held, and taking a text apart and putting it together again gives
/// the same text.
pub proof fn law_texts_are_their_characters(
    s: &str,
    v: Vec<char>,
    chars: &[char],
    again: String,
    other: &str,
    same: bool,
    spelled: bool,
)
    requires
        call_ensures(chars_of, (s,), v),
        chars@ == v@,
        call_ensures(string_of, (chars,), again),
        call_ensures(same_str, (s, other), same),
        call_ensures(spells, (chars, other), spelled),
    ensures
        again@ == s@,
        same <==> s@ == other@,
        spelled == same,
{
}

/// Stripping one end leaves the other alone, and stripping both is stripping
/// the one and then the other.
pub proof fn law_ends_are_stripped_apart<'a>(
    s: &'a [char],
    class: CharClass,
    front: &'a [char],
    back: &'a [char],
    both: &'a [char],
    again: &'a [char],
)
    requires
        call_ensures(trim_start, (s, class), front),
        call_ensures(trim_end, (s, class), back),
        call_ensures(trim, (s, class), both),
        call_ensures(trim_end, (front, class), again),
    ensures
        front@ == s@.skip(s@.len() - front@.len()),
        back@ == s@.take(back@.len() as int),
        front@.len() > 0 ==> !class.has(front@[0]),
        back@.len() > 0 ==> !class.has(back@.last()),
        both@ == again@,
{
    lemma_start_is_stripped(s@, class);
    lemma_end_is_stripped(s@, class);
}

} // verus!
