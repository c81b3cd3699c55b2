//! Sequential file names of the form `<letters><zero-padded number>`.
//!
//! A style string `a<A>b<N>` asks for names made of `A` lower-case letters
//! followed by an `N`-digit decimal number; the numbers run fastest, the
//! letters count in base 26 from `aa..a` up to `zz..z`.
use vstd::prelude::*;

verus! {

// ---------------------------------------------------------------------
// Mathematical model
// ---------------------------------------------------------------------

/// `b` raised to the power `e`.
pub open spec fn power(b: nat, e: nat) -> nat
    decreases e,
{
    if e == 0 {
        1
    } else {
        b * power(b, (e - 1) as nat)
    }
}

pub open spec fn is_ascii_digit(c: char) -> bool {
    '0' <= c && c <= '9'
}

pub open spec fn all_ascii_digits(s: Seq<char>) -> bool {
    forall|i: int| 0 <= i < s.len() ==> is_ascii_digit(#[trigger] s[i])
}

/// Every ASCII character of `s` is a decimal digit (other characters are
/// not constrained).
pub open spec fn ascii_only_digits(s: Seq<char>) -> bool {
    forall|i: int| 0 <= i < s.len() && (#[trigger] s[i] as u32) < 128 ==> is_ascii_digit(s[i])
}

/// The value of a string of ASCII decimal digits.
pub open spec fn digits_value(s: Seq<char>) -> nat
    decreases s.len(),
{
    if s.len() == 0 {
        0
    } else {
        digits_value(s.drop_last()) * 10 + ((s.last() as u32) - ('0' as u32)) as nat
    }
}

/// What `str::parse::<u32>` gives: an optional `+` followed by at least one
/// ASCII digit, whose value fits in a `u32`.
pub open spec fn parse_u32_spec(s: Seq<char>) -> Option<u32> {
    let d = if s.len() > 0 && s[0] == '+' {
        s.drop_first()
    } else {
        s
    };
    if d.len() > 0 && all_ascii_digits(d) && digits_value(d) <= u32::MAX {
        Some(digits_value(d) as u32)
    } else {
        None
    }
}

/// The regular expression that recognises a style string.
pub open spec fn style_regex() -> Seq<char> {
    seq!['^', 'a', '(', '\\', 'd', '+', ')', 'b', '(', '\\', 'd', '+', ')', '$']
}

pub open spec fn style_text(g1: Seq<char>, g2: Seq<char>) -> Seq<char> {
    seq!['a'] + g1 + seq!['b'] + g2
}

/// `s` is `a<g1>b<g2>` with `g1`, `g2` non-empty runs of ASCII digits.
pub open spec fn is_style_split(s: Seq<char>, g1: Seq<char>, g2: Seq<char>) -> bool {
    &&& g1.len() > 0
    &&& g2.len() > 0
    &&& all_ascii_digits(g1)
    &&& all_ascii_digits(g2)
    &&& s == style_text(g1, g2)
}

/// The two digit runs of a style string, if it is one.
pub open spec fn style_parts(s: Seq<char>) -> Option<(Seq<char>, Seq<char>)> {
    if exists|g1: Seq<char>, g2: Seq<char>| is_style_split(s, g1, g2) {
        Some(choose|g1: Seq<char>, g2: Seq<char>| is_style_split(s, g1, g2))
    } else {
        None
    }
}

/// The letter count and the digit count that a style string asks for, when
/// both fit in a `u32`.
pub open spec fn style_numbers(s: Seq<char>) -> Option<(nat, nat)> {
    match style_parts(s) {
        Some((g1, g2)) => if digits_value(g1) <= u32::MAX && digits_value(g2) <= u32::MAX {
            Some((digits_value(g1), digits_value(g2)))
        } else {
            None
        },
        None => None,
    }
}

/// The number of names of a style with `a` letters and `n` digits, and its
/// largest number, fit in a `u32`.
pub open spec fn style_fits(a: nat, n: nat) -> bool {
    &&& power(10, n) <= u32::MAX
    &&& power(26, a) * power(10, n) <= u32::MAX
}

/// `style_numbers` gives no numbers that overflow.
pub open spec fn style_in_range(s: Seq<char>) -> bool {
    match style_numbers(s) {
        Some((a, n)) => style_fits(a, n),
        None => true,
    }
}

pub open spec fn digit_char(d: nat) -> char {
    ((48 + d) as u32) as char
}

/// Decimal representation of `n`, most significant digit first.
pub open spec fn decimal(n: nat) -> Seq<char>
    decreases n,
{
    if n < 10 {
        seq![digit_char(n)]
    } else {
        decimal(n / 10).push(digit_char(n % 10))
    }
}

pub open spec fn zeros(k: nat) -> Seq<char> {
    Seq::new(k, |i: int| '0')
}

/// `n` in decimal, left-padded with `'0'` to at least `width` characters.
pub open spec fn pad_decimal(n: nat, width: nat) -> Seq<char> {
    let d = decimal(n);
    if d.len() >= width {
        d
    } else {
        zeros((width - d.len()) as nat) + d
    }
}

/// The name made of `chars` and the number `num` shown with `width` digits
/// (no number at all when `width` is zero).
pub open spec fn index_text(chars: Seq<char>, num: nat, width: nat) -> Seq<char> {
    if width != 0 {
        chars + pad_decimal(num, width)
    } else {
        chars
    }
}

pub open spec fn bump_char(c: char) -> char {
    (((c as u32) % 256) + 1) as char
}

/// The letters advanced by one place, as `next_vec_char` works:
/// trailing `'z'`s wrap to `'a'` and the character before them moves on.
pub open spec fn next_chars(s: Seq<char>) -> Seq<char>
    decreases s.len(),
{
    if s.len() == 0 {
        s
    } else if s.last() == 'z' {
        next_chars(s.drop_last()).push('a')
    } else {
        s.drop_last().push(bump_char(s.last()))
    }
}

/// The successor of `s` can be formed without overflowing a byte.
pub open spec fn bumpable(s: Seq<char>) -> bool
    decreases s.len(),
{
    if s.len() == 0 {
        true
    } else if s.last() == 'z' {
        bumpable(s.drop_last())
    } else {
        (s.last() as u32) % 256 < 255
    }
}

pub open spec fn is_lower(c: char) -> bool {
    'a' <= c && c <= 'z'
}

pub open spec fn all_lower(s: Seq<char>) -> bool {
    forall|i: int| 0 <= i < s.len() ==> is_lower(#[trigger] s[i])
}

/// The base-26 value of a string of lower-case letters (`'a'` is zero).
pub open spec fn letters_value(s: Seq<char>) -> nat
    decreases s.len(),
{
    if s.len() == 0 {
        0
    } else {
        letters_value(s.drop_last()) * 26 + ((s.last() as u32) - ('a' as u32)) as nat
    }
}

/// `q` written with exactly `a` base-26 letters.
pub open spec fn letters(q: nat, a: nat) -> Seq<char>
    decreases a,
{
    if a == 0 {
        Seq::empty()
    } else {
        letters(q / 26, (a - 1) as nat).push(((97 + q % 26) as u32) as char)
    }
}

/// The `k`-th name (counting from zero) of a style `(letters, largest
/// number, digits)`.
pub open spec fn name_at(style: (u32, u32, u32), k: nat) -> Seq<char> {
    let per = style.1 as nat + 1;
    index_text(letters(k / per, style.0 as nat), k % per, style.2 as nat)
}

// ---------------------------------------------------------------------
// Outside calls
// ---------------------------------------------------------------------

/// The views of a pair of strings.
pub open spec fn pair_view(p: Option<(String, String)>) -> Option<(Seq<char>, Seq<char>)> {
    match p {
        Some((x, y)) => Some((x@, y@)),
        None => None,
    }
}

/// Every way of reading `text` as a style string is the captured pair.
pub open spec fn splits_captured(text: Seq<char>, caps: Option<(Seq<char>, Seq<char>)>) -> bool {
    forall|g1: Seq<char>, g2: Seq<char>|
        #[trigger] is_style_split(text, g1, g2) ==> caps == Some((g1, g2))
}

/// The two capture groups that the `regex` crate reports when it matches
/// `pattern` against `text`, or `None` when the pattern does not compile,
/// does not match, or a group took no part in the match.
pub uninterp spec fn regex_pair_captures(pattern: Seq<char>, text: Seq<char>) -> Option<
    (Seq<char>, Seq<char>),
>;

/// Compiles `pattern` with `regex::Regex::new` and runs `Regex::captures` on
/// `text`, handing back groups 1 and 2 (`Captures::get`, `Match::as_str`).
///
/// Claimed of the crate: the result is a function of the two strings (the
/// name `regex_pair_captures`); and for the style pattern
/// `^a(\d+)b(\d+)$`, a match spans the whole text as `a`, group 1, `b`,
/// group 2, both groups non-empty and made of characters of `\d`
/// (`\p{Nd}`, whose only ASCII members are `0`-`9`), while any text of the
/// form `a<ASCII digits>b<ASCII digits>` does match with exactly those two
/// runs. Which non-ASCII characters `\p{Nd}` holds is left unsaid.
#[verifier::external_body]
fn regex_captures_pair(pattern: &str, text: &str) -> (res: Option<(String, String)>)
    ensures
        res is None <==> regex_pair_captures(pattern@, text@) is None,
        res matches Some((x, y)) ==> regex_pair_captures(pattern@, text@) == Some((x@, y@)),
        res matches Some((x, y)) ==> (pattern@ == style_regex() ==> text@ == style_text(x@, y@)
            && x@.len() > 0 && y@.len() > 0 && ascii_only_digits(x@) && ascii_only_digits(y@)),
        pattern@ == style_regex() ==> splits_captured(text@, pair_view(res)),
{
    let re = regex::Regex::new(pattern).ok()?;
    let caps = re.captures(text)?;
    let g1 = caps.get(1)?.as_str().to_string();
    let g2 = caps.get(2)?.as_str().to_string();
    Some((g1, g2))
}

/// Reads a `u32` as `str::parse::<u32>` does: an optional `+`, then at
/// least one ASCII digit and nothing else, with a value that fits.
fn parse_u32(s: &str) -> (res: Option<u32>)
    ensures
        res == parse_u32_spec(s@),
{
    let n = s.unicode_len();
    let start: usize = if n > 0 && s.get_char(0) == '+' {
        1
    } else {
        0
    };
    let ghost d = if s@.len() > 0 && s@[0] == '+' {
        s@.drop_first()
    } else {
        s@
    };
    assert(d =~= s@.subrange(start as int, n as int));
    if start == n {
        return None;
    }
    let mut v: u64 = 0;
    let mut i: usize = start;
    while i < n
        invariant
            start <= i <= n,
            n == s@.len(),
            d == s@.subrange(start as int, n as int),
            d == (if s@.len() > 0 && s@[0] == '+' {
                s@.drop_first()
            } else {
                s@
            }),
            all_ascii_digits(d.take(i - start)),
            v == digits_value(d.take(i - start)),
            v <= u32::MAX,
        decreases n - i,
    {
        let c = s.get_char(i);
        let ghost j = i - start;
        assert(d[j] == c);
        if !('0' <= c && c <= '9') {
            assert(!all_ascii_digits(d)) by {
                assert(!is_ascii_digit(d[j]));
            }
            return None;
        }
        let digit = (c as u32 - '0' as u32) as u64;
        assert(d.take(j + 1).drop_last() =~= d.take(j));
        assert(d.take(j + 1).last() == c);
        assert(all_ascii_digits(d.take(j + 1))) by {
            assert forall|k: int| 0 <= k < j + 1 implies is_ascii_digit(#[trigger] d.take(j + 1)[k]) by {
                if k < j {
                    assert(d.take(j + 1)[k] == d.take(j)[k]);
                }
            }
        }
        let nv = v * 10 + digit;
        if nv > u32::MAX as u64 {
            proof {
                if all_ascii_digits(d) {
                    let rest = d.skip(j + 1);
                    assert(all_ascii_digits(rest)) by {
                        assert forall|k: int| 0 <= k < rest.len() implies is_ascii_digit(#[trigger] rest[k]) by {
                            assert(rest[k] == d[k + j + 1]);
                        }
                    }
                    lemma_digits_value_append(d.take(j + 1), rest);
                    assert(d.take(j + 1) + rest =~= d);
                    lemma_power_pos(10, rest.len());
                    assert(digits_value(d.take(j + 1)) * power(10, rest.len()) >= digits_value(
                        d.take(j + 1),
                    )) by (nonlinear_arith)
                        requires
                            power(10, rest.len()) >= 1,
                    ;
                }
            }
            return None;
        }
        v = nv;
        i = i + 1;
    }
    assert(d.take(n - start) =~= d);
    Some(v as u32)
}

/// `String::from_iter` over the characters of `chars`.
#[verifier::external_body]
pub(crate) fn chars_to_string(chars: &Vec<char>) -> (res: String)
    ensures
        res@ == chars@,
{
    chars.iter().collect::<String>()
}


// ---------------------------------------------------------------------
// Lemmas
// ---------------------------------------------------------------------

proof fn lemma_power_pos(b: nat, e: nat)
    requires
        b > 0,
    ensures
        power(b, e) > 0,
    decreases e,
{
    if e > 0 {
        lemma_power_pos(b, (e - 1) as nat);
        assert(b * power(b, (e - 1) as nat) > 0) by (nonlinear_arith)
            requires
                b > 0,
                power(b, (e - 1) as nat) > 0,
        ;
    }
}

proof fn lemma_power_mono(b: nat, e1: nat, e2: nat)
    requires
        b > 0,
        e1 <= e2,
    ensures
        power(b, e1) <= power(b, e2),
    decreases e2,
{
    if e1 < e2 {
        lemma_power_mono(b, e1, (e2 - 1) as nat);
        lemma_power_pos(b, (e2 - 1) as nat);
        assert(power(b, (e2 - 1) as nat) <= b * power(b, (e2 - 1) as nat)) by (nonlinear_arith)
            requires
                b > 0,
        ;
    }
}

/// The successor keeps the length, stays within `a..=z`, and adds one to
/// the base-26 value, wrapping at `26^len`.
proof fn lemma_next_chars(s: Seq<char>)
    requires
        all_lower(s),
    ensures
        next_chars(s).len() == s.len(),
        all_lower(next_chars(s)),
        bumpable(s),
        letters_value(next_chars(s)) == (letters_value(s) + 1) % power(26, s.len()),
        letters_value(s) < power(26, s.len()),
    decreases s.len(),
{
    if s.len() > 0 {
        let t = s.drop_last();
        assert(all_lower(t)) by {
            assert forall|i: int| 0 <= i < t.len() implies is_lower(#[trigger] t[i]) by {
                assert(t[i] == s[i]);
            }
        }
        lemma_next_chars(t);
        let p = power(26, t.len());
        assert(power(26, s.len()) == 26 * p);
        let d = ((s.last() as u32) - ('a' as u32)) as nat;
        assert(is_lower(s[s.len() - 1]));
        assert(d < 26);
        assert(letters_value(s) == letters_value(t) * 26 + d);
        assert(letters_value(s) < 26 * p) by (nonlinear_arith)
            requires
                letters_value(s) == letters_value(t) * 26 + d,
                letters_value(t) < p,
                d < 26,
        ;
        let n = next_chars(s);
        if s.last() == 'z' {
            let nt = next_chars(t);
            assert(n == nt.push('a'));
            assert(n.drop_last() == nt);
            assert(all_lower(n)) by {
                assert forall|i: int| 0 <= i < n.len() implies is_lower(#[trigger] n[i]) by {
                    if i < nt.len() {
                        assert(n[i] == nt[i]);
                    }
                }
            }
            assert(letters_value(n) == letters_value(nt) * 26);
            assert(d == 25);
            // (v*26 + 25 + 1) % (26p) == ((v + 1) % p) * 26
            let v = letters_value(t);
            assert(letters_value(nt) == (v + 1) % p);
            assert(((v + 1) % p) * 26 == (v * 26 + 25 + 1) % (26 * p)) by (nonlinear_arith)
                requires
                    v < p,
                    p > 0,
            {
                if v + 1 < p {
                    assert((v + 1) % p == v + 1);
                    assert(v * 26 + 26 < 26 * p);
                    assert((v * 26 + 26) % (26 * p) == v * 26 + 26);
                } else {
                    assert(v + 1 == p);
                    assert((v + 1) % p == 0);
                    assert(v * 26 + 26 == 26 * p);
                }
            }
        } else {
            assert(n == t.push(bump_char(s.last())));
            assert(n.drop_last() == t);
            let c = s.last();
            assert((c as u32) < 122);
            assert((c as u32) % 256 == c as u32);
            assert(bump_char(c) as u32 == (c as u32) + 1);
            assert(all_lower(n)) by {
                assert forall|i: int| 0 <= i < n.len() implies is_lower(#[trigger] n[i]) by {
                    if i < t.len() {
                        assert(n[i] == t[i]);
                    }
                }
            }
            assert(letters_value(n) == letters_value(t) * 26 + d + 1);
            assert(letters_value(t) * 26 + d + 1 < 26 * p) by (nonlinear_arith)
                requires
                    letters_value(t) < p,
                    d < 25,
            ;
            let x = letters_value(s) + 1;
            assert(x % (26 * p) == x) by (nonlinear_arith)
                requires
                    x < 26 * p,
                    x >= 0,
            ;
        }
    } else {
        assert(power(26, 0) == 1);
    }
}

/// Base-26 letters are recovered from their value.
proof fn lemma_letters_of_value(s: Seq<char>)
    requires
        all_lower(s),
    ensures
        letters(letters_value(s), s.len()) == s,
    decreases s.len(),
{
    if s.len() > 0 {
        let t = s.drop_last();
        assert(all_lower(t)) by {
            assert forall|i: int| 0 <= i < t.len() implies is_lower(#[trigger] t[i]) by {
                assert(t[i] == s[i]);
            }
        }
        lemma_letters_of_value(t);
        let d = ((s.last() as u32) - ('a' as u32)) as nat;
        assert(is_lower(s[s.len() - 1]));
        let v = letters_value(s);
        assert(v == letters_value(t) * 26 + d);
        assert(v / 26 == letters_value(t) && v % 26 == d) by (nonlinear_arith)
            requires
                v == letters_value(t) * 26 + d,
                d < 26,
        ;
        assert(((97 + d) as u32) as char == s.last());
        assert(letters(v, s.len()) == t.push(s.last()));
        assert(s == t.push(s.last()));
    }
}

/// Letters of a value below `26^a` give the value back.
proof fn lemma_letters_value(q: nat, a: nat)
    requires
        q < power(26, a),
    ensures
        letters(q, a).len() == a,
        all_lower(letters(q, a)),
        letters_value(letters(q, a)) == q,
    decreases a,
{
    if a > 0 {
        let p = power(26, (a - 1) as nat);
        assert(power(26, a) == 26 * p);
        assert(q / 26 < p) by (nonlinear_arith)
            requires
                q < 26 * p,
        ;
        lemma_letters_value(q / 26, (a - 1) as nat);
        let l = letters(q, a);
        let t = letters(q / 26, (a - 1) as nat);
        let c = ((97 + q % 26) as u32) as char;
        assert(l == t.push(c));
        assert(l.drop_last() == t);
        assert(all_lower(l)) by {
            assert forall|i: int| 0 <= i < l.len() implies is_lower(#[trigger] l[i]) by {
                if i < t.len() {
                    assert(l[i] == t[i]);
                }
            }
        }
        assert(letters_value(l) == (q / 26) * 26 + q % 26);
        assert((q / 26) * 26 + q % 26 == q) by (nonlinear_arith);
    } else {
        assert(power(26, 0) == 1);
    }
}

proof fn lemma_decimal(n: nat)
    ensures
        decimal(n).len() > 0,
        all_ascii_digits(decimal(n)),
        digits_value(decimal(n)) == n,
        forall|w: nat| n < power(10, w) && w > 0 ==> decimal(n).len() <= w,
    decreases n,
{
    if n < 10 {
        let d = decimal(n);
        assert(d == seq![digit_char(n)]);
        assert(d.drop_last() == Seq::<char>::empty());
        assert(digits_value(d.drop_last()) == 0);
        assert forall|w: nat| n < power(10, w) && w > 0 implies decimal(n).len() <= w by {}
    } else {
        lemma_decimal(n / 10);
        let d = decimal(n);
        let t = decimal(n / 10);
        assert(d == t.push(digit_char(n % 10)));
        assert(d.drop_last() == t);
        assert(all_ascii_digits(d)) by {
            assert forall|i: int| 0 <= i < d.len() implies is_ascii_digit(#[trigger] d[i]) by {
                if i < t.len() {
                    assert(d[i] == t[i]);
                }
            }
        }
        assert(digits_value(d) == (n / 10) * 10 + n % 10);
        assert((n / 10) * 10 + n % 10 == n) by (nonlinear_arith);
        assert forall|w: nat| n < power(10, w) && w > 0 implies decimal(n).len() <= w by {
            let w1 = (w - 1) as nat;
            assert(power(10, w) == 10 * power(10, w1));
            assert(n / 10 < power(10, w1)) by (nonlinear_arith)
                requires
                    n < 10 * power(10, w1),
            ;
            if w1 == 0 {
                assert(power(10, 0) == 1);
                assert(n < 10);
            }
        }
    }
}

proof fn lemma_digits_value_append(a: Seq<char>, b: Seq<char>)
    requires
        all_ascii_digits(b),
    ensures
        digits_value(a + b) == digits_value(a) * power(10, b.len()) + digits_value(b),
    decreases b.len(),
{
    if b.len() == 0 {
        assert(a + b == a);
        assert(power(10, 0) == 1);
    } else {
        let b1 = b.drop_last();
        assert(all_ascii_digits(b1)) by {
            assert forall|i: int| 0 <= i < b1.len() implies is_ascii_digit(#[trigger] b1[i]) by {
                assert(b1[i] == b[i]);
            }
        }
        lemma_digits_value_append(a, b1);
        assert((a + b).drop_last() == a + b1);
        assert((a + b).last() == b.last());
        let d = ((b.last() as u32) - ('0' as u32)) as nat;
        let p = power(10, b1.len());
        assert(power(10, b.len()) == 10 * p);
        assert(digits_value(a + b) == (digits_value(a) * p + digits_value(b1)) * 10 + d);
        assert(digits_value(b) == digits_value(b1) * 10 + d);
        assert((digits_value(a) * p + digits_value(b1)) * 10 + d == digits_value(a) * (10 * p)
            + (digits_value(b1) * 10 + d)) by (nonlinear_arith);
    }
}

proof fn lemma_zeros_value(k: nat)
    ensures
        all_ascii_digits(zeros(k)),
        digits_value(zeros(k)) == 0,
    decreases k,
{
    if k > 0 {
        lemma_zeros_value((k - 1) as nat);
        assert(zeros(k).drop_last() == zeros((k - 1) as nat));
    } else {
        assert(zeros(0) =~= Seq::<char>::empty());
    }
}

/// A number below `10^width` is shown with exactly `width` digits and can be
/// read back.
proof fn lemma_pad_decimal(n: nat, width: nat)
    requires
        width > 0,
        n < power(10, width),
    ensures
        pad_decimal(n, width).len() == width,
        all_ascii_digits(pad_decimal(n, width)),
        digits_value(pad_decimal(n, width)) == n,
{
    lemma_decimal(n);
    let d = decimal(n);
    if d.len() < width {
        let z = zeros((width - d.len()) as nat);
        lemma_zeros_value((width - d.len()) as nat);
        lemma_digits_value_append(z, d);
        assert(all_ascii_digits(z + d)) by {
            assert forall|i: int| 0 <= i < (z + d).len() implies is_ascii_digit(
                #[trigger] (z + d)[i],
            ) by {
                if i < z.len() {
                    assert((z + d)[i] == z[i]);
                } else {
                    assert((z + d)[i] == d[i - z.len()]);
                }
            }
        }
    }
}

/// Distinct positions below the style's size give distinct names.
proof fn lemma_name_at_injective(style: (u32, u32, u32), k1: nat, k2: nat)
    requires
        style.1 as nat + 1 == power(10, style.2 as nat),
        k1 < power(26, style.0 as nat) * (style.1 as nat + 1),
        k2 < power(26, style.0 as nat) * (style.1 as nat + 1),
        name_at(style, k1) == name_at(style, k2),
    ensures
        k1 == k2,
{
    let per = style.1 as nat + 1;
    let a = style.0 as nat;
    let w = style.2 as nat;
    let q1 = k1 / per;
    let q2 = k2 / per;
    let r1 = k1 % per;
    let r2 = k2 % per;
    assert(q1 < power(26, a) && q2 < power(26, a) && r1 < per && r2 < per) by (nonlinear_arith)
        requires
            k1 < power(26, a) * per,
            k2 < power(26, a) * per,
            per > 0,
            q1 == k1 / per,
            q2 == k2 / per,
            r1 == k1 % per,
            r2 == k2 % per,
    ;
    lemma_letters_value(q1, a);
    lemma_letters_value(q2, a);
    let l1 = letters(q1, a);
    let l2 = letters(q2, a);
    if w != 0 {
        lemma_pad_decimal(r1, w);
        lemma_pad_decimal(r2, w);
        let t1 = l1 + pad_decimal(r1, w);
        let t2 = l2 + pad_decimal(r2, w);
        assert(t1 == t2);
        assert(t1.subrange(0, a as int) == l1);
        assert(t2.subrange(0, a as int) == l2);
        assert(t1.subrange(a as int, t1.len() as int) == pad_decimal(r1, w));
        assert(t2.subrange(a as int, t2.len() as int) == pad_decimal(r2, w));
    } else {
        assert(power(10, 0) == 1);
        assert(r1 == 0 && r2 == 0);
    }
    assert(k1 == q1 * per + r1 && k2 == q2 * per + r2) by (nonlinear_arith)
        requires
            per > 0,
            q1 == k1 / per,
            q2 == k2 / per,
            r1 == k1 % per,
            r2 == k2 % per,
    ;
}


proof fn lemma_next_chars_suffix(s: Seq<char>, i: int)
    requires
        0 <= i <= s.len(),
        forall|j: int| i <= j < s.len() ==> s[j] == 'z',
    ensures
        next_chars(s) == next_chars(s.subrange(0, i)) + Seq::new((s.len() - i) as nat, |k: int| 'a'),
        bumpable(s) == bumpable(s.subrange(0, i)),
    decreases s.len(),
{
    if i == s.len() {
        assert(s.subrange(0, i) == s);
        assert(next_chars(s) + Seq::new(0, |k: int| 'a') == next_chars(s));
    } else {
        let t = s.drop_last();
        assert(s.last() == 'z');
        lemma_next_chars_suffix(t, i);
        assert(t.subrange(0, i) == s.subrange(0, i));
        assert(next_chars(s) == next_chars(t).push('a'));
        assert(Seq::new((t.len() - i) as nat, |k: int| 'a').push('a') == Seq::new(
            (s.len() - i) as nat,
            |k: int| 'a',
        ));
    }
}

proof fn lemma_all_a(a: nat)
    ensures
        all_lower(Seq::new(a, |i: int| 'a')),
        letters_value(Seq::new(a, |i: int| 'a')) == 0,
    decreases a,
{
    if a > 0 {
        lemma_all_a((a - 1) as nat);
        assert(Seq::new(a, |i: int| 'a').drop_last() == Seq::new((a - 1) as nat, |i: int| 'a'));
    }
}

// ---------------------------------------------------------------------
// Executable code
// ---------------------------------------------------------------------

/// Advances `chars` to the next string in base-26 letter order: trailing
/// `'z'`s become `'a'` and the character before them moves on by one.
pub fn next_vec_char(chars: &mut Vec<char>)
    requires
        bumpable(old(chars)@),
    ensures
        final(chars)@ == next_chars(old(chars)@),
        all_lower(old(chars)@) ==> all_lower(final(chars)@) && letters_value(final(chars)@) == (
        letters_value(old(chars)@) + 1) % power(26, old(chars)@.len()),
{
    let ghost orig = chars@;
    let len = chars.len();
    let mut i = len;
    let mut carry = true;
    while i > 0 && carry
        invariant
            i <= len,
            len == orig.len(),
            chars@.len() == len,
            bumpable(orig),
            carry ==> forall|j: int| i <= j < len ==> orig[j] == 'z',
            carry ==> chars@ == orig.subrange(0, i as int) + Seq::new((len - i) as nat, |k: int| 'a'),
            !carry ==> chars@ == next_chars(orig),
        decreases i,
    {
        i = i - 1;
        let c = chars[i];
        proof {
            lemma_next_chars_suffix(orig, i + 1);
            assert(orig[i as int] == c);
        }
        if c == 'z' {
            chars.set(i, 'a');
            assert(chars@ == orig.subrange(0, i as int) + Seq::new((len - i) as nat, |k: int| 'a'));
        } else {
            let ghost pre = orig.subrange(0, i + 1);
            assert(pre.drop_last() == orig.subrange(0, i as int));
            assert(pre.last() == c);
            let code: u32 = c as u32;
            let b: u8 = #[verifier::truncate] (code as u8);
            assert(b == code % 256) by (bit_vector)
                requires
                    b == #[verifier::truncate] (code as u8),
            ;
            let nc = (b + 1) as char;
            assert(nc == bump_char(c));
            chars.set(i, nc);
            carry = false;
            assert(chars@ == next_chars(orig));
        }
    }
    proof {
        if carry {
            lemma_next_chars_suffix(orig, 0);
            assert(orig.subrange(0, 0) == Seq::<char>::empty());
            assert(next_chars(Seq::<char>::empty()) == Seq::<char>::empty());
        }
        if all_lower(orig) {
            lemma_next_chars(orig);
        }
    }
}

/// The decimal digits of `n`.
fn decimal_chars(n: u32) -> (v: Vec<char>)
    ensures
        v@ == decimal(n as nat),
{
    let mut v: Vec<char> = Vec::new();
    let mut x: u32 = n;
    loop
        invariant_except_break
            decimal(n as nat) == decimal(x as nat) + v@,
        ensures
            v@ == decimal(n as nat),
        decreases x,
    {
        if x < 10 {
            let d: u8 = x as u8;
            let c = (d + 48) as char;
            assert(c == digit_char(x as nat));
            v.insert(0, c);
            assert(decimal(x as nat) == seq![c]);
            break ;
        } else {
            let d: u8 = (x % 10) as u8;
            let c = (d + 48) as char;
            assert(c == digit_char((x % 10) as nat));
            let ghost old_v = v@;
            v.insert(0, c);
            assert(v@ == seq![c] + old_v);
            assert(decimal(x as nat) == decimal((x / 10) as nat).push(c));
            x = x / 10;
        }
    }
    v
}

/// `n` in decimal, left-padded with `'0'` to `width` characters.
fn padded_decimal(n: u32, width: u32) -> (v: Vec<char>)
    ensures
        v@ == pad_decimal(n as nat, width as nat),
{
    let d = decimal_chars(n);
    let w = width as usize;
    if d.len() >= w {
        d
    } else {
        let mut v: Vec<char> = Vec::new();
        let k = w - d.len();
        for _j in 0..k
            invariant
                v@ == zeros(_j as nat),
        {
            v.push('0');
            assert(v@ == zeros((_j + 1) as nat));
        }
        for j in 0..d.len()
            invariant
                v@ == zeros(k as nat) + d@.subrange(0, j as int),
        {
            v.push(d[j]);
            assert(d@.subrange(0, j + 1) == d@.subrange(0, j as int).push(d@[j as int]));
        }
        assert(d@.subrange(0, d@.len() as int) == d@);
        v
    }
}

/// `b` to the power `e`, when it fits.
fn pow_u32(b: u32, e: u32) -> (r: u32)
    requires
        b > 0,
        power(b as nat, e as nat) <= u32::MAX,
    ensures
        r == power(b as nat, e as nat),
{
    let mut r: u32 = 1;
    let mut i: u32 = 0;
    while i < e
        invariant
            i <= e,
            b > 0,
            r == power(b as nat, i as nat),
            power(b as nat, e as nat) <= u32::MAX,
        decreases e - i,
    {
        proof {
            lemma_power_mono(b as nat, (i + 1) as nat, e as nat);
            assert(power(b as nat, (i + 1) as nat) == b * power(b as nat, i as nat));
        }
        r = r * b;
        i = i + 1;
    }
    r
}

/// `b` to the power `e`, or `None` when it exceeds `u32::MAX`.
fn checked_pow_u32(b: u32, e: u32) -> (r: Option<u32>)
    requires
        b > 0,
    ensures
        r matches Some(v) ==> v == power(b as nat, e as nat),
        r is None ==> power(b as nat, e as nat) > u32::MAX,
{
    let mut r: u32 = 1;
    let mut i: u32 = 0;
    while i < e
        invariant
            i <= e,
            b > 0,
            r == power(b as nat, i as nat),
        decreases e - i,
    {
        assert(power(b as nat, (i + 1) as nat) == b * power(b as nat, i as nat));
        assert(power(b as nat, (i + 1) as nat) == r * b) by (nonlinear_arith)
            requires
                r == power(b as nat, i as nat),
                power(b as nat, (i + 1) as nat) == b * power(b as nat, i as nat),
        ;
        match r.checked_mul(b) {
            Some(v) => {
                r = v;
            },
            None => {
                proof {
                    lemma_power_mono(b as nat, (i + 1) as nat, e as nat);
                }
                return None;
            },
        }
        i = i + 1;
    }
    Some(r)
}

/// Reads the letter and digit counts out of a style string.
fn read_style(style: &String) -> (r: Option<(u32, u32)>)
    ensures
        r is None <==> style_numbers(style@) is None,
        r matches Some((a, n)) ==> style_numbers(style@) == Some((a as nat, n as nat)),
{
    let pattern = r"^a(\d+)b(\d+)$";
    proof {
        reveal_strlit("^a(\\d+)b(\\d+)$");
        assert(pattern@ == style_regex());
    }
    let caps = regex_captures_pair(pattern, style.as_str());
    match caps {
        None => {
            assert(style_parts(style@) is None) by {
                if exists|g1: Seq<char>, g2: Seq<char>| is_style_split(style@, g1, g2) {
                    let (g1, g2) = choose|g1: Seq<char>, g2: Seq<char>|
                        is_style_split(style@, g1, g2);
                    assert(splits_captured(style@, pair_view(caps)));
                }
            }
            None
        },
        Some((x, y)) => {
            let pa = parse_u32(x.as_str());
            let pn = parse_u32(y.as_str());
            assert(splits_captured(style@, pair_view(caps)));
            proof {
                if all_ascii_digits(x@) && all_ascii_digits(y@) {
                    assert(is_style_split(style@, x@, y@));
                    let ghost chosen = choose|g1: Seq<char>, g2: Seq<char>|
                        is_style_split(style@, g1, g2);
                    assert(is_style_split(style@, chosen.0, chosen.1));
                    assert(chosen == (x@, y@));
                    assert(x@[0] != '+');
                    assert(y@[0] != '+');
                } else {
                    assert(style_parts(style@) is None) by {
                        if exists|g1: Seq<char>, g2: Seq<char>| is_style_split(style@, g1, g2) {
                            let (g1, g2) = choose|g1: Seq<char>, g2: Seq<char>|
                                is_style_split(style@, g1, g2);
                            assert(is_style_split(style@, g1, g2));
                        }
                    }
                    if !all_ascii_digits(x@) {
                        assert(x@[0] != '+') by {
                            if x@[0] == '+' {
                                assert(('+' as u32) < 128);
                            }
                        }
                        assert(pa is None);
                    } else {
                        assert(y@[0] != '+') by {
                            if y@[0] == '+' {
                                assert(('+' as u32) < 128);
                            }
                        }
                        assert(pn is None);
                    }
                }
            }
            match (pa, pn) {
                (Some(a), Some(n)) => Some((a, n)),
                _ => None,
            }
        },
    }
}

/// Whether `style` has the shape of a pattern, `a`, digits, `b`, digits
/// (the check of the `regex` crate, whose `\d` also takes digits outside
/// ASCII). Every `a<ASCII digits>b<ASCII digits>` passes, and whatever
/// passes is `a`, a non-empty run, `b`, a non-empty run.
pub fn style_matches(style: &str) -> (r: bool)
    ensures
        r == (regex_pair_captures(style_regex(), style@) is Some),
        style_parts(style@) is Some ==> r,
        r ==> exists|g1: Seq<char>, g2: Seq<char>|
            g1.len() > 0 && g2.len() > 0 && style@ == #[trigger] style_text(g1, g2),
{
    let pattern = r"^a(\d+)b(\d+)$";
    proof {
        reveal_strlit("^a(\\d+)b(\\d+)$");
        assert(pattern@ == style_regex());
    }
    let caps = regex_captures_pair(pattern, style);
    proof {
        if style_parts(style@) is Some {
            let (g1, g2) = choose|g1: Seq<char>, g2: Seq<char>| is_style_split(style@, g1, g2);
            assert(splits_captured(style@, pair_view(caps)));
            assert(is_style_split(style@, g1, g2));
        }
        if caps is Some {
            let (x, y) = caps->0;
            assert(style@ == style_text(x@, y@));
        }
    }
    caps.is_some()
}

/// Whether a style string, if it is one, asks for no more names than a
/// `u32` can count (counting further would overflow).
pub fn style_is_in_range(style: &String) -> (r: bool)
    ensures
        r == style_in_range(style@),
{
    match read_style(style) {
        None => true,
        Some((a, n)) => {
            let p10 = checked_pow_u32(10, n);
            let p26 = checked_pow_u32(26, a);
            match (p10, p26) {
                (Some(x), Some(y)) => {
                    proof {
                        lemma_power_pos(10, n as nat);
                        assert(x * y >= y) by (nonlinear_arith)
                            requires
                                x >= 1,
                        ;
                    }
                    y.checked_mul(x).is_some()
                },
                (None, _) => false,
                (Some(x), None) => {
                    proof {
                        lemma_power_pos(10, n as nat);
                        assert(y_big(power(26, a as nat), x as nat)) by {
                            assert(power(26, a as nat) * x >= power(26, a as nat)) by (
                            nonlinear_arith)
                                requires
                                    x >= 1,
                            ;
                        }
                    }
                    false
                },
            }
        },
    }
}

spec fn y_big(p: nat, x: nat) -> bool {
    p * x > u32::MAX
}

/// The current state of a name sequence, see the module documentation.
pub enum RenamePatternState {
    Iter(IndexName),
    Failed(String),
    Empty,
}

impl RenamePatternState {
    pub fn is_iter(&self) -> (r: bool)
        ensures
            r == (self is Iter),
    {
        match self {
            RenamePatternState::Iter(_) => true,
            _ => false,
        }
    }
}

impl Default for RenamePatternState {
    fn default() -> (r: Self)
        ensures
            r is Empty,
    {
        RenamePatternState::Empty
    }
}

/// The text of a name that may be missing.
pub open spec fn opt_text(r: Option<String>) -> Option<Seq<char>> {
    match r {
        Some(s) => Some(s@),
        None => None,
    }
}

/// One call of `next` on a well-formed sequence: while names are left it
/// hands out the name at the current position and moves on by one, staying
/// well formed; afterwards it hands out nothing and changes nothing.
pub open spec fn next_step(pre: IndexName, res: Option<Seq<char>>, post: IndexName) -> bool {
    if pre.now_num < pre.max_size {
        &&& res == Some(name_at(pre.style, pre.now_num as nat))
        &&& post.wf()
        &&& post.style == pre.style
        &&& post.max_size == pre.max_size
        &&& post.now_num == pre.now_num + 1
    } else {
        res is None && post == pre
    }
}

/// Generates the names of a style one after the other.
#[derive(Debug, PartialEq, Eq)]
pub struct IndexName {
    /// Number of letters, largest number, number of digits.
    pub style: (u32, u32, u32),
    /// How many names the style has.
    pub max_size: u32,
    /// How many names have been handed out.
    pub now_num: u32,
    /// The letters and the number of the next name.
    pub current_index: (Vec<char>, u32),
}

impl Clone for IndexName {
    fn clone(&self) -> (r: Self)
        ensures
            r.style == self.style,
            r.max_size == self.max_size,
            r.now_num == self.now_num,
            r.current_index.0@ == self.current_index.0@,
            r.current_index.1 == self.current_index.1,
    {
        IndexName {
            style: self.style,
            max_size: self.max_size,
            now_num: self.now_num,
            current_index: (self.current_index.0.clone(), self.current_index.1),
        }
    }
}

impl IndexName {
    /// The state of a sequence that has handed out `now_num` names of its
    /// style: the letters and number are the base-26/base-(largest+1)
    /// digits of `now_num` (which wraps to zero at the end).
    pub open spec fn wf(&self) -> bool {
        let a = self.style.0 as nat;
        let m = self.style.1 as nat;
        let n = self.style.2 as nat;
        let chars = self.current_index.0@;
        let cur = self.current_index.1 as nat;
        &&& m + 1 == power(10, n)
        &&& self.max_size as nat == power(26, a) * (m + 1)
        &&& chars.len() == a
        &&& all_lower(chars)
        &&& cur <= m
        &&& self.now_num <= self.max_size
        &&& (self.now_num as nat) % (self.max_size as nat) == letters_value(chars) * (m + 1) + cur
    }

    /// Builds the sequence for a style `a<A>b<N>`: `A` letters and `N`
    /// digits. Any other string gives `None`.
    pub fn new(style: &String) -> (res: Option<Self>)
        requires
            style_in_range(style@),
        ensures
            res is Some <==> style_numbers(style@) is Some,
            res matches Some(r) ==> style_numbers(style@) == Some(
                (r.style.0 as nat, r.style.2 as nat),
            ),
            res matches Some(r) ==> r.style.1 + 1 == power(10, r.style.2 as nat),
            res matches Some(r) ==> r.max_size == power(26, r.style.0 as nat) * power(
                10,
                r.style.2 as nat,
            ),
            res matches Some(r) ==> r.now_num == 0 && r.current_index.1 == 0
                && r.current_index.0@ == Seq::new(r.style.0 as nat, |i: int| 'a'),
            res matches Some(r) ==> r.wf(),
    {
        let (alphabet_num, numeric_num) = match read_style(style) {
            Some(p) => p,
            None => return None,
        };
        let mut vec: Vec<char> = Vec::with_capacity(alphabet_num as usize);
        for _j in 0..alphabet_num
            invariant
                vec@ == Seq::new(_j as nat, |i: int| 'a'),
        {
            vec.push('a');
            assert(vec@ == Seq::new((_j + 1) as nat, |i: int| 'a'));
        }
        proof {
            lemma_power_pos(26, alphabet_num as nat);
            lemma_power_pos(10, numeric_num as nat);
            assert(power(26, alphabet_num as nat) <= power(26, alphabet_num as nat) * power(
                10,
                numeric_num as nat,
            )) by (nonlinear_arith)
                requires
                    power(10, numeric_num as nat) >= 1,
            ;
            lemma_all_a(alphabet_num as nat);
        }
        let p10 = pow_u32(10, numeric_num);
        let max_num = p10 - 1;
        let p26 = pow_u32(26, alphabet_num);
        let max_size = p26 * (max_num + 1);
        let res = IndexName {
            style: (alphabet_num, max_num, numeric_num),
            max_size,
            now_num: 0,
            current_index: (vec, 0),
        };
        proof {
            assert(0nat % (max_size as nat) == 0);
        }
        Some(res)
    }

    /// Hands out the next name, or `None` once all `max_size` names are out.
    pub fn next(&mut self) -> (res: Option<String>)
        requires
            old(self).now_num < old(self).max_size ==> (old(self).current_index.1
                == old(self).style.1 ==> bumpable(old(self).current_index.0@)),
            old(self).now_num < old(self).max_size ==> (old(self).current_index.1
                != old(self).style.1 ==> old(self).current_index.1 < u32::MAX),
        ensures
            old(self).now_num >= old(self).max_size ==> res is None && *final(self) == *old(self),
            old(self).now_num < old(self).max_size ==> (res matches Some(s) && s@ == index_text(
                old(self).current_index.0@,
                old(self).current_index.1 as nat,
                old(self).style.2 as nat,
            )),
            old(self).now_num < old(self).max_size ==> final(self).style == old(self).style
                && final(self).max_size == old(self).max_size && final(self).now_num == old(
                self,
            ).now_num + 1,
            old(self).now_num < old(self).max_size && old(self).current_index.1 == old(
                self,
            ).style.1 ==> final(self).current_index.1 == 0 && final(self).current_index.0@
                == next_chars(old(self).current_index.0@),
            old(self).now_num < old(self).max_size && old(self).current_index.1 != old(
                self,
            ).style.1 ==> final(self).current_index.1 == old(self).current_index.1 + 1
                && final(self).current_index.0@ == old(self).current_index.0@,
            old(self).wf() ==> final(self).wf(),
            old(self).wf() && old(self).now_num < old(self).max_size ==> (res matches Some(s)
                && s@ == name_at(old(self).style, old(self).now_num as nat)),
            old(self).wf() ==> next_step(*old(self), opt_text(res), *final(self)),
    {
        if self.now_num >= self.max_size {
            return None;
        }
        let ghost pre = *self;
        let bigit_num = self.style.2;
        let mut text: Vec<char> = Vec::new();
        let n_chars = self.current_index.0.len();
        for j in 0..n_chars
            invariant
                n_chars == self.current_index.0@.len(),
                text@ == self.current_index.0@.subrange(0, j as int),
        {
            text.push(self.current_index.0[j]);
            assert(self.current_index.0@.subrange(0, j + 1) == self.current_index.0@.subrange(
                0,
                j as int,
            ).push(self.current_index.0@[j as int]));
        }
        assert(self.current_index.0@.subrange(0, n_chars as int) == self.current_index.0@);
        if bigit_num != 0 {
            let digits = padded_decimal(self.current_index.1, bigit_num);
            for j in 0..digits.len()
                invariant
                    text@ == pre.current_index.0@ + digits@.subrange(0, j as int),
            {
                text.push(digits[j]);
                assert(digits@.subrange(0, j + 1) == digits@.subrange(0, j as int).push(
                    digits@[j as int],
                ));
            }
            assert(digits@.subrange(0, digits@.len() as int) == digits@);
        }
        let index_string = chars_to_string(&text);
        if self.current_index.1 == self.style.1 {
            self.current_index.1 = 0;
            next_vec_char(&mut self.current_index.0);
        } else {
            self.current_index.1 = self.current_index.1 + 1;
        }
        self.now_num = self.now_num + 1;
        proof {
            if pre.wf() {
                lemma_step_wf(pre, *self);
            }
        }
        Some(index_string)
    }
}

/// A well-formed sequence can always take its next step.
pub proof fn lemma_wf_can_step(x: &IndexName)
    requires
        x.wf(),
    ensures
        x.now_num < x.max_size ==> (x.current_index.1 == x.style.1 ==> bumpable(
            x.current_index.0@,
        )),
        x.now_num < x.max_size ==> (x.current_index.1 != x.style.1 ==> x.current_index.1
            < u32::MAX),
{
    lemma_next_chars(x.current_index.0@);
}

/// One step of `next` keeps a well-formed state well formed, and the name
/// handed out is the one at the current position.
proof fn lemma_step_wf(pre: IndexName, post: IndexName)
    requires
        pre.wf(),
        pre.now_num < pre.max_size,
        post.style == pre.style,
        post.max_size == pre.max_size,
        post.now_num == pre.now_num + 1,
        pre.current_index.1 == pre.style.1 ==> post.current_index.1 == 0
            && post.current_index.0@ == next_chars(pre.current_index.0@),
        pre.current_index.1 != pre.style.1 ==> post.current_index.1 == pre.current_index.1 + 1
            && post.current_index.0@ == pre.current_index.0@,
    ensures
        post.wf(),
        name_at(pre.style, pre.now_num as nat) == index_text(
            pre.current_index.0@,
            pre.current_index.1 as nat,
            pre.style.2 as nat,
        ),
{
    let a = pre.style.0 as nat;
    let m = pre.style.1 as nat;
    let per = m + 1;
    let chars = pre.current_index.0@;
    let cur = pre.current_index.1 as nat;
    let v = letters_value(chars);
    let max = pre.max_size as nat;
    let now = pre.now_num as nat;
    lemma_next_chars(chars);
    assert(now % max == now) by (nonlinear_arith)
        requires
            now < max,
    ;
    assert(now == v * per + cur);
    assert(now / per == v && now % per == cur) by (nonlinear_arith)
        requires
            now == v * per + cur,
            cur < per,
    ;
    lemma_letters_of_value(chars);
    if cur < m {
        let x = now + 1;
        assert(x < max) by (nonlinear_arith)
            requires
                x == v * per + cur + 1,
                cur + 1 < per,
                v < power(26, a),
                max == power(26, a) * per,
        ;
        assert(x % max == x) by (nonlinear_arith)
            requires
                x < max,
        ;
    } else {
        let x = now + 1;
        assert(x == (v + 1) * per) by (nonlinear_arith)
            requires
                x == v * per + cur + 1,
                cur == m,
                per == m + 1,
        ;
        let p = power(26, a);
        if v + 1 < p {
            assert((v + 1) % p == v + 1) by (nonlinear_arith)
                requires
                    v + 1 < p,
            ;
            assert(x < max) by (nonlinear_arith)
                requires
                    x == (v + 1) * per,
                    v + 1 < p,
                    max == p * per,
                    per > 0,
            ;
            assert(x % max == x) by (nonlinear_arith)
                requires
                    x < max,
            ;
        } else {
            assert(v + 1 == p);
            assert((v + 1) % p == 0) by (nonlinear_arith)
                requires
                    v + 1 == p,
                    p > 0,
            ;
            assert(x == max);
            assert(x % max == 0) by (nonlinear_arith)
                requires
                    x == max,
                    max > 0,
            ;
        }
    }
}

/// Laws of a name sequence: two different positions of a well-formed
/// sequence never receive the same name, so the renamed files cannot clash.
pub proof fn lemma_names_distinct(x: IndexName, k1: nat, k2: nat)
    requires
        x.wf(),
        k1 < x.max_size,
        k2 < x.max_size,
        k1 != k2,
    ensures
        name_at(x.style, k1) != name_at(x.style, k2),
{
    if name_at(x.style, k1) == name_at(x.style, k2) {
        lemma_name_at_injective(x.style, k1, k2);
    }
}


/// The order of `String`: the first differing character decides (UTF-8
/// keeps the order of code points), and a proper prefix comes first.
pub open spec fn text_less(s: Seq<char>, t: Seq<char>) -> bool {
    ||| exists|i: int|
        0 <= i < s.len() && i < t.len() && #[trigger] s.take(i) == t.take(i) && (s[i] as u32) < (
        t[i] as u32)
    ||| s.len() < t.len() && s == t.take(s.len() as int)
}

/// Two runs of decimal digits of one length are equal when their values are.
proof fn lemma_digits_injective(s: Seq<char>, t: Seq<char>)
    requires
        all_ascii_digits(s),
        all_ascii_digits(t),
        s.len() == t.len(),
        digits_value(s) == digits_value(t),
    ensures
        s == t,
    decreases s.len(),
{
    if s.len() > 0 {
        let s1 = s.drop_last();
        let t1 = t.drop_last();
        assert(all_ascii_digits(s1) && all_ascii_digits(t1)) by {
            assert forall|i: int| 0 <= i < s1.len() implies is_ascii_digit(#[trigger] s1[i]) by {
                assert(s1[i] == s[i]);
            }
            assert forall|i: int| 0 <= i < t1.len() implies is_ascii_digit(#[trigger] t1[i]) by {
                assert(t1[i] == t[i]);
            }
        }
        assert(is_ascii_digit(s[s.len() - 1]) && is_ascii_digit(t[t.len() - 1]));
        let ds = ((s.last() as u32) - ('0' as u32)) as nat;
        let dt = ((t.last() as u32) - ('0' as u32)) as nat;
        let vs = digits_value(s1);
        let vt = digits_value(t1);
        assert(vs == vt && ds == dt) by (nonlinear_arith)
            requires
                vs * 10 + ds == vt * 10 + dt,
                ds < 10,
                dt < 10,
        ;
        lemma_digits_injective(s1, t1);
        assert(s == s1.push(s.last()));
        assert(t == t1.push(t.last()));
    }
}

/// Of two runs of decimal digits of one length, the one of smaller value
/// comes first character by character.
proof fn lemma_digits_order(s: Seq<char>, t: Seq<char>)
    requires
        all_ascii_digits(s),
        all_ascii_digits(t),
        s.len() == t.len(),
        digits_value(s) < digits_value(t),
    ensures
        exists|i: int|
            0 <= i < s.len() && #[trigger] s.take(i) == t.take(i) && (s[i] as u32) < (t[i] as u32),
    decreases s.len(),
{
    let n = s.len() as int;
    let s1 = s.drop_last();
    let t1 = t.drop_last();
    assert(all_ascii_digits(s1) && all_ascii_digits(t1)) by {
        assert forall|i: int| 0 <= i < s1.len() implies is_ascii_digit(#[trigger] s1[i]) by {
            assert(s1[i] == s[i]);
        }
        assert forall|i: int| 0 <= i < t1.len() implies is_ascii_digit(#[trigger] t1[i]) by {
            assert(t1[i] == t[i]);
        }
    }
    assert(is_ascii_digit(s[n - 1]) && is_ascii_digit(t[n - 1]));
    let ds = ((s.last() as u32) - ('0' as u32)) as nat;
    let dt = ((t.last() as u32) - ('0' as u32)) as nat;
    let vs = digits_value(s1);
    let vt = digits_value(t1);
    assert(vs <= vt) by (nonlinear_arith)
        requires
            vs * 10 + ds < vt * 10 + dt,
            ds < 10,
            dt < 10,
    ;
    if vs < vt {
        lemma_digits_order(s1, t1);
        let i = choose|i: int|
            0 <= i < s1.len() && #[trigger] s1.take(i) == t1.take(i) && (s1[i] as u32) < (
            t1[i] as u32);
        assert(s.take(i) == s1.take(i) && t.take(i) == t1.take(i));
        assert(s[i] == s1[i] && t[i] == t1[i]);
    } else {
        lemma_digits_injective(s1, t1);
        assert(s.take(n - 1) == s1 && t.take(n - 1) == t1);
    }
}

/// Of two runs of lower-case letters of one length, the one of smaller
/// base-26 value comes first character by character.
proof fn lemma_letters_order(s: Seq<char>, t: Seq<char>)
    requires
        all_lower(s),
        all_lower(t),
        s.len() == t.len(),
        letters_value(s) < letters_value(t),
    ensures
        exists|i: int|
            0 <= i < s.len() && #[trigger] s.take(i) == t.take(i) && (s[i] as u32) < (t[i] as u32),
    decreases s.len(),
{
    let n = s.len() as int;
    let s1 = s.drop_last();
    let t1 = t.drop_last();
    assert(all_lower(s1) && all_lower(t1)) by {
        assert forall|i: int| 0 <= i < s1.len() implies is_lower(#[trigger] s1[i]) by {
            assert(s1[i] == s[i]);
        }
        assert forall|i: int| 0 <= i < t1.len() implies is_lower(#[trigger] t1[i]) by {
            assert(t1[i] == t[i]);
        }
    }
    assert(is_lower(s[n - 1]) && is_lower(t[n - 1]));
    let ds = ((s.last() as u32) - ('a' as u32)) as nat;
    let dt = ((t.last() as u32) - ('a' as u32)) as nat;
    let vs = letters_value(s1);
    let vt = letters_value(t1);
    assert(vs <= vt) by (nonlinear_arith)
        requires
            vs * 26 + ds < vt * 26 + dt,
            ds < 26,
            dt < 26,
    ;
    if vs < vt {
        lemma_letters_order(s1, t1);
        let i = choose|i: int|
            0 <= i < s1.len() && #[trigger] s1.take(i) == t1.take(i) && (s1[i] as u32) < (
            t1[i] as u32);
        assert(s.take(i) == s1.take(i) && t.take(i) == t1.take(i));
        assert(s[i] == s1[i] && t[i] == t1[i]);
    } else {
        lemma_letters_of_value(s1);
        lemma_letters_of_value(t1);
        assert(s.take(n - 1) == s1 && t.take(n - 1) == t1);
    }
}

/// Laws of a name sequence: every name of a well-formed sequence has as
/// many characters as the style has letters and digits, and the names come
/// in increasing `String` order, so the renamed files sort in the order
/// they were named.
pub proof fn lemma_names_increase(x: IndexName, k1: nat, k2: nat)
    requires
        x.wf(),
        k1 < k2 < x.max_size,
    ensures
        name_at(x.style, k1).len() == x.style.0 + x.style.2,
        name_at(x.style, k2).len() == x.style.0 + x.style.2,
        text_less(name_at(x.style, k1), name_at(x.style, k2)),
{
    let per = x.style.1 as nat + 1;
    let a = x.style.0 as nat;
    let w = x.style.2 as nat;
    let q1 = k1 / per;
    let q2 = k2 / per;
    let r1 = k1 % per;
    let r2 = k2 % per;
    lemma_power_pos(10, w);
    assert(q1 < power(26, a) && q2 < power(26, a) && r1 < per && r2 < per && q1 <= q2 && (q1
        == q2 ==> r1 < r2)) by (nonlinear_arith)
        requires
            k1 < k2,
            k2 < power(26, a) * per,
            per >= 1,
            q1 == k1 / per,
            q2 == k2 / per,
            r1 == k1 % per,
            r2 == k2 % per,
    ;
    lemma_letters_value(q1, a);
    lemma_letters_value(q2, a);
    let l1 = letters(q1, a);
    let l2 = letters(q2, a);
    let n1 = name_at(x.style, k1);
    let n2 = name_at(x.style, k2);
    if w > 0 {
        lemma_pad_decimal(r1, w);
        lemma_pad_decimal(r2, w);
    } else {
        assert(power(10, 0) == 1);
    }
    assert(n1.take(a as int) == l1 && n2.take(a as int) == l2);
    if q1 < q2 {
        lemma_letters_order(l1, l2);
        let i = choose|i: int|
            0 <= i < l1.len() && #[trigger] l1.take(i) == l2.take(i) && (l1[i] as u32) < (
            l2[i] as u32);
        assert(n1.take(i) == l1.take(i) && n2.take(i) == l2.take(i));
        assert(n1[i] == l1[i] && n2[i] == l2[i]);
    } else {
        let p1 = pad_decimal(r1, w);
        let p2 = pad_decimal(r2, w);
        lemma_digits_order(p1, p2);
        let j = choose|j: int|
            0 <= j < p1.len() && #[trigger] p1.take(j) == p2.take(j) && (p1[j] as u32) < (
            p2[j] as u32);
        let i = a + j;
        assert(n1.take(i) == l1 + p1.take(j));
        assert(n2.take(i) == l2 + p2.take(j));
        assert(n1[i] == p1[j] && n2[i] == p2[j]);
    }
}

/// The states and results of successive calls of `next`, from `start`.
pub open spec fn next_calls(states: Seq<IndexName>, outs: Seq<Option<Seq<char>>>) -> bool {
    &&& states.len() == outs.len() + 1
    &&& forall|k: int| 0 <= k < outs.len() ==> next_step(#[trigger] states[k], outs[k], states[k + 1])
}

proof fn lemma_calls_state(states: Seq<IndexName>, outs: Seq<Option<Seq<char>>>, k: int)
    requires
        states[0].wf(),
        states[0].now_num == 0,
        next_calls(states, outs),
        0 <= k <= outs.len(),
    ensures
        states[k].wf(),
        states[k].style == states[0].style,
        states[k].max_size == states[0].max_size,
        states[k].now_num == (if k < states[0].max_size {
            k
        } else {
            states[0].max_size as int
        }),
    decreases k,
{
    if k > 0 {
        lemma_calls_state(states, outs, k - 1);
        assert(next_step(states[k - 1], outs[k - 1], states[k]));
    }
}

/// Laws of a name sequence: from a sequence made by `new` (well formed, at
/// position zero), the `k`-th call of `next` (counting from zero) hands out
/// the `k`-th name of the style while `k` is below `max_size`, and nothing
/// after that.
pub proof fn lemma_kth_name(states: Seq<IndexName>, outs: Seq<Option<Seq<char>>>)
    requires
        states.len() > 0,
        states[0].wf(),
        states[0].now_num == 0,
        next_calls(states, outs),
    ensures
        forall|k: int|
            0 <= k < outs.len() ==> #[trigger] outs[k] == (if k < states[0].max_size {
                Some(name_at(states[0].style, k as nat))
            } else {
                None
            }),
{
    assert forall|k: int| 0 <= k < outs.len() implies #[trigger] outs[k] == (if k
        < states[0].max_size {
        Some(name_at(states[0].style, k as nat))
    } else {
        None
    }) by {
        lemma_calls_state(states, outs, k);
        assert(next_step(states[k], outs[k], states[k + 1]));
    }
}

} // verus!
