//! Small verified text primitives shared by identifiers, traces and fixtures.

use vstd::prelude::*;
use vstd::string::*;

verus! {

broadcast use vstd::string::group_string_axioms;

/// Printable, non-space ASCII (`!` through `~`).
pub open spec fn is_graphic_char(c: char) -> bool {
    '!' <= c && c <= '~'
}

pub open spec fn all_graphic(s: Seq<char>) -> bool {
    forall|i: int| 0 <= i < s.len() ==> is_graphic_char(#[trigger] s[i])
}

/// The character of one decimal digit.
pub open spec fn digit_char(d: int) -> char {
    (48 + d) as char
}

/// The canonical base-10 rendering of a natural number (no sign, no leading zeros).
pub open spec fn decimal_digits(n: nat) -> Seq<char>
    decreases n,
{
    if n < 10 {
        seq![digit_char(n as int)]
    } else {
        decimal_digits(n / 10).push(digit_char((n % 10) as int))
    }
}

pub open spec fn pow10(k: nat) -> nat
    decreases k,
{
    if k == 0 {
        1
    } else {
        10 * pow10((k - 1) as nat)
    }
}

/// Decimal renderings are non-empty strings of digit characters, and a number
/// below `10^k` (k >= 1) needs at most `k` of them.
pub proof fn lemma_decimal_digits_shape(n: nat, k: nat)
    requires
        k >= 1,
        n < pow10(k),
    ensures
        1 <= decimal_digits(n).len() <= k,
        all_graphic(decimal_digits(n)),
        forall|i: int|
            0 <= i < decimal_digits(n).len() ==> '0' <= #[trigger] decimal_digits(n)[i] <= '9',
    decreases n,
{
    if n >= 10 {
        assert(k >= 2) by {
            if k == 1 {
                assert(pow10(1) == 10) by {
                    reveal_with_fuel(pow10, 2);
                }
            }
        }
        assert(n / 10 < pow10((k - 1) as nat));
        lemma_decimal_digits_shape(n / 10, (k - 1) as nat);
    }
}

/// Distinct numbers have distinct decimal renderings.
pub proof fn lemma_decimal_digits_injective(n: nat, m: nat)
    requires
        decimal_digits(n) == decimal_digits(m),
    ensures
        n == m,
    decreases n,
{
    let a = decimal_digits(n);
    let b = decimal_digits(m);
    if n < 10 && m < 10 {
        assert(a[0] == digit_char(n as int));
        assert(b[0] == digit_char(m as int));
        assert(digit_char(n as int) as int == 48 + n);
        assert(digit_char(m as int) as int == 48 + m);
    } else if n < 10 {
        assert(a.len() == 1);
        assert(b.len() == decimal_digits(m / 10).len() + 1);
        assert(decimal_digits(m / 10).len() >= 1) by {
            if m / 10 < 10 {
            } else {
            }
        }
    } else if m < 10 {
        assert(b.len() == 1);
        assert(a.len() == decimal_digits(n / 10).len() + 1);
        assert(decimal_digits(n / 10).len() >= 1) by {
            if n / 10 < 10 {
            } else {
            }
        }
    } else {
        let da = decimal_digits(n / 10);
        let db = decimal_digits(m / 10);
        assert(a.last() == digit_char((n % 10) as int));
        assert(b.last() == digit_char((m % 10) as int));
        assert(digit_char((n % 10) as int) as int == 48 + n % 10);
        assert(digit_char((m % 10) as int) as int == 48 + m % 10);
        assert(a.drop_last() =~= da);
        assert(b.drop_last() =~= db);
        lemma_decimal_digits_injective(n / 10, m / 10);
    }
}

pub proof fn lemma_u64_decimal_len(n: u64)
    ensures
        1 <= decimal_digits(n as nat).len() <= 20,
        all_graphic(decimal_digits(n as nat)),
{
    assert(pow10(20) == 100000000000000000000) by {
        reveal_with_fuel(pow10, 21);
    }
    lemma_decimal_digits_shape(n as nat, 20);
}

/// Appends one character to a string (std `String::push`).
#[verifier::external_body]
pub fn push_char(s: &mut String, c: char)
    ensures
        final(s)@ == old(s)@.push(c),
{
    s.push(c);
}

/// Appends the decimal rendering of `n`.
pub fn push_decimal(s: &mut String, n: u64)
    ensures
        final(s)@ == old(s)@ + decimal_digits(n as nat),
    decreases n,
{
    if n >= 10 {
        push_decimal(s, n / 10);
    }
    let digit = (n % 10) as u8;
    let c = (48u8 + digit) as char;
    push_char(s, c);
    proof {
        assert(c == digit_char((n % 10) as int));
        if n >= 10 {
            assert(decimal_digits(n as nat) == decimal_digits((n / 10) as nat).push(c));
        } else {
            assert(decimal_digits(n as nat) == seq![c]);
        }
    }
}

/// The characters of a string, in order.
pub fn collect_chars(input: &str) -> (chars: Vec<char>)
    ensures
        chars@ == input@,
{
    let mut chars: Vec<char> = Vec::new();
    for c in it: input.chars()
        invariant
            chars@ == it.seq().take(it.index() as int),
    {
        chars.push(c);
    }
    chars
}

/// The text of `chars[from..to]`.
pub fn text_of(chars: &Vec<char>, from: usize, to: usize) -> (text: String)
    requires
        from <= to <= chars@.len(),
    ensures
        text@ == chars@.subrange(from as int, to as int),
{
    let mut text = String::new();
    let mut index = from;
    while index < to
        invariant
            from <= index <= to,
            to <= chars@.len(),
            text@ == chars@.subrange(from as int, index as int),
        decreases to - index,
    {
        push_char(&mut text, chars[index]);
        proof {
            assert(text@ =~= chars@.subrange(from as int, index + 1));
        }
        index = index + 1;
    }
    text
}

/// Appends a text to a string.
pub fn push_text(s: &mut String, text: &str)
    ensures
        final(s)@ == old(s)@ + text@,
{
    let chars = collect_chars(text);
    let ghost start = s@;
    let mut index: usize = 0;
    while index < chars.len()
        invariant
            chars@ == text@,
            index <= chars@.len(),
            s@ == start + chars@.take(index as int),
        decreases chars.len() - index,
    {
        push_char(s, chars[index]);
        proof {
            assert(chars@.take(index + 1) =~= chars@.take(index as int).push(chars@[index as int]));
        }
        index = index + 1;
    }
    proof {
        assert(chars@.take(chars@.len() as int) =~= chars@);
    }
}

/// The length of an ASCII string (equal in bytes and in characters).
pub fn ascii_len(s: &str) -> (len: usize)
    requires
        is_ascii(s),
    ensures
        len == s@.len(),
{
    s.unicode_len()
}

/// Whether `value` is non-empty, at most `max_len` characters, all graphic, and
/// starts with `prefix`.
pub fn is_bounded_graphic_with_prefix(value: &str, prefix: &str, max_len: usize) -> (valid: bool)
    requires
        is_ascii(prefix),
    ensures
        valid == (0 < value@.len() <= max_len && all_graphic(value@) && prefix@.is_prefix_of(
            value@,
        )),
{
    if !value.is_ascii() {
        proof {
            let i = choose|i: int| 0 <= i < value@.len() && !('\0' <= #[trigger] value@[i] <= '\u{7f}');
            assert(!is_graphic_char(value@[i]));
        }
        return false;
    }
    let len = ascii_len(value);
    if len == 0 || len > max_len {
        return false;
    }
    let mut i: usize = 0;
    while i < len
        invariant
            len == value@.len(),
            is_ascii(value),
            i <= len,
            forall|j: int| 0 <= j < i ==> is_graphic_char(#[trigger] value@[j]),
        decreases len - i,
    {
        let byte = value.get_ascii(i);
        if byte < 0x21 || byte > 0x7e {
            assert(!is_graphic_char(value@[i as int]));
            return false;
        }
        i = i + 1;
    }
    let plen = ascii_len(prefix);
    if plen > len {
        return false;
    }
    let mut k: usize = 0;
    while k < plen
        invariant
            len == value@.len(),
            plen == prefix@.len(),
            plen <= len,
            is_ascii(value),
            is_ascii(prefix),
            k <= plen,
            forall|j: int| 0 <= j < k ==> prefix@[j] == value@[j],
        decreases plen - k,
    {
        if value.get_ascii(k) != prefix.get_ascii(k) {
            return false;
        }
        k = k + 1;
    }
    true
}

/// `k` is the first position where `a` and `b` differ (or the end of the
/// shorter one), and there `a` sorts first.
pub open spec fn text_lt_at(a: Seq<char>, b: Seq<char>, k: int) -> bool {
    &&& 0 <= k <= a.len()
    &&& k <= b.len()
    &&& forall|j: int| 0 <= j < k ==> #[trigger] a[j] == b[j]
    &&& ((k == a.len() && k < b.len()) || (k < a.len() && k < b.len() && a[k] < b[k]))
}

/// Lexicographic order of character sequences (a proper prefix sorts first);
/// on ASCII text this is the byte order `str` comparison uses.
pub open spec fn text_lt(a: Seq<char>, b: Seq<char>) -> bool {
    exists|k: int| text_lt_at(a, b, k)
}

/// Text order is a strict total order.
pub proof fn lemma_text_order(a: Seq<char>, b: Seq<char>, c: Seq<char>)
    ensures
        !text_lt(a, a),
        text_lt(a, b) ==> !text_lt(b, a),
        text_lt(a, b) && text_lt(b, c) ==> text_lt(a, c),
        a != b ==> text_lt(a, b) || text_lt(b, a),
{
    if text_lt(a, a) {
        let k = choose|k: int| text_lt_at(a, a, k);
    }
    if text_lt(a, b) && text_lt(b, a) {
        let k = choose|k: int| text_lt_at(a, b, k);
        let m = choose|m: int| text_lt_at(b, a, m);
        if k < m {
            assert(b[k] == a[k]);
        } else if m < k {
            assert(a[m] == b[m]);
        }
    }
    if text_lt(a, b) && text_lt(b, c) {
        let k = choose|k: int| text_lt_at(a, b, k);
        let m = choose|m: int| text_lt_at(b, c, m);
        let n = if k < m {
            k
        } else {
            m
        };
        assert forall|j: int| 0 <= j < n implies #[trigger] a[j] == c[j] by {
            assert(a[j] == b[j]);
            assert(b[j] == c[j]);
        }
        assert(text_lt_at(a, c, n));
    }
    if a != b {
        let shorter = if a.len() < b.len() {
            a.len()
        } else {
            b.len()
        };
        if forall|j: int| 0 <= j < shorter ==> #[trigger] a[j] == b[j] {
            if a.len() < b.len() {
                assert(text_lt_at(a, b, a.len() as int));
            } else if b.len() < a.len() {
                assert(text_lt_at(b, a, b.len() as int));
            } else {
                assert(a =~= b);
            }
        } else {
            let d = choose|d: int| 0 <= d < shorter && #[trigger] a[d] != b[d];
            let k = first_difference(a, b, d);
            if a[k] < b[k] {
                assert(text_lt_at(a, b, k));
            } else {
                assert forall|j: int| 0 <= j < k implies #[trigger] b[j] == a[j] by {
                    assert(a[j] == b[j]);
                }
                assert(text_lt_at(b, a, k));
            }
        }
    }
}

/// The first index at or below `d` where two sequences differ.
proof fn first_difference(a: Seq<char>, b: Seq<char>, d: int) -> (k: int)
    requires
        0 <= d < a.len(),
        d < b.len(),
        a[d] != b[d],
    ensures
        0 <= k <= d,
        a[k] != b[k],
        forall|j: int| 0 <= j < k ==> #[trigger] a[j] == b[j],
    decreases d,
{
    if forall|j: int| 0 <= j < d ==> #[trigger] a[j] == b[j] {
        d
    } else {
        let e = choose|e: int| 0 <= e < d && #[trigger] a[e] != b[e];
        first_difference(a, b, e)
    }
}

/// Whether ASCII text `a` sorts strictly before ASCII text `b`.
pub fn text_less(a: &str, b: &str) -> (less: bool)
    requires
        is_ascii(a),
        is_ascii(b),
    ensures
        less == text_lt(a@, b@),
{
    let alen = ascii_len(a);
    let blen = ascii_len(b);
    let mut i: usize = 0;
    while i < alen && i < blen && a.get_ascii(i) == b.get_ascii(i)
        invariant
            alen == a@.len(),
            blen == b@.len(),
            is_ascii(a),
            is_ascii(b),
            i <= alen,
            i <= blen,
            forall|j: int| 0 <= j < i ==> #[trigger] a@[j] == b@[j],
        decreases alen - i,
    {
        i = i + 1;
    }
    let less = if i == alen {
        i < blen
    } else if i == blen {
        false
    } else {
        a.get_ascii(i) < b.get_ascii(i)
    };
    proof {
        if less {
            assert(text_lt_at(a@, b@, i as int));
        } else if text_lt(a@, b@) {
            let k = choose|k: int| text_lt_at(a@, b@, k);
            if k < i {
                assert(a@[k] == b@[k]);
            } else if k > i {
                assert(a@[i as int] == b@[i as int]);
            }
        }
    }
    less
}

pub proof fn lemma_graphic_is_ascii(s: Seq<char>)
    requires
        all_graphic(s),
    ensures
        vstd::utf8::is_ascii_chars(s),
{
    assert forall|i: int| 0 <= i < s.len() implies '\0' <= #[trigger] s[i] <= '\u{7f}' by {
        assert(is_graphic_char(s[i]));
    }
}

} // verus!
