//! Text helpers: ASCII conversions between byte strings and `String`,
//! decimal and hexadecimal rendering, and decimal parsing. Contracts are
//! stated over `Seq<char>` and `Seq<u8>` views.

use vstd::prelude::*;

use vstd::string::StrSliceExecFns;

verus! {

/// Relies on `String::push`: appends exactly one character.
#[verifier::external_body]
pub fn string_push(s: &mut String, c: char)
    ensures
        final(s)@ == old(s)@ + seq![c],
{
    s.push(c);
}

/// Whether two string slices hold the same characters.
pub fn str_eq(a: &str, b: &str) -> (r: bool)
    ensures
        r == (a@ == b@),
{
    let x: String = a.to_owned();
    let y: String = b.to_owned();
    x == y
}

/// The characters of an ASCII byte string, one character per byte.
pub open spec fn spec_chars_of_ascii(s: Seq<u8>) -> Seq<char> {
    Seq::new(s.len(), |i: int| s[i] as char)
}

/// The bytes of an ASCII character string, one byte per character.
pub open spec fn spec_ascii_of_chars(s: Seq<char>) -> Seq<u8> {
    Seq::new(s.len(), |i: int| s[i] as u8)
}

/// Whether every byte is ASCII (below 128).
pub open spec fn bytes_all_ascii(s: Seq<u8>) -> bool {
    forall|i: int| 0 <= i < s.len() ==> s[i] < 128
}

/// Turn an ASCII byte string into a `String`; `None` when a byte is not
/// ASCII.
pub fn ascii_to_string(b: &[u8]) -> (r: Option<String>)
    ensures
        r is Some <==> bytes_all_ascii(b@),
        r is Some ==> r->Some_0@ == spec_chars_of_ascii(b@),
{
    let mut out = String::new();
    let mut i: usize = 0;
    while i < b.len()
        invariant
            i <= b@.len(),
            bytes_all_ascii(b@.take(i as int)),
            out@ == spec_chars_of_ascii(b@.take(i as int)),
        decreases b@.len() - i,
    {
        let c = b[i];
        if c >= 128 {
            assert(!bytes_all_ascii(b@)) by {
                assert(b@[i as int] >= 128);
            }
            return None;
        }
        string_push(&mut out, c as char);
        i = i + 1;
        proof {
            assert(out@ =~= spec_chars_of_ascii(b@.take(i as int)));
        }
    }
    proof {
        assert(b@.take(b@.len() as int) =~= b@);
    }
    Some(out)
}

/// The decimal digit character for a value below ten.
pub open spec fn spec_digit(d: nat) -> char
    recommends
        d < 10,
{
    ((d + 48) as u8) as char
}

/// The decimal rendering of `n`: most significant digit first, no leading
/// zeros, a single `'0'` for zero.
pub open spec fn spec_dec(n: nat) -> Seq<char>
    decreases n,
{
    if n < 10 {
        seq![spec_digit(n)]
    } else {
        spec_dec(n / 10) + seq![spec_digit(n % 10)]
    }
}

/// Render `n` in decimal.
pub fn u64_to_dec(n: u64) -> (r: String)
    ensures
        r@ == spec_dec(n as nat),
{
    let mut digits: Vec<char> = Vec::new();
    let mut m: u64 = n;
    while m >= 10
        invariant
            spec_dec(n as nat) == spec_dec(m as nat) + digits@.reverse(),
        decreases m,
    {
        let ghost before = digits@;
        let d: u8 = (m % 10) as u8;
        digits.push((d + 48) as char);
        proof {
            assert(digits@.reverse() =~= seq![spec_digit((m as nat) % 10)] + before.reverse());
            assert(spec_dec(m as nat) + before.reverse() =~= spec_dec((m as nat) / 10)
                + digits@.reverse());
        }
        m = m / 10;
    }
    let ghost before = digits@;
    digits.push((m as u8 + 48) as char);
    proof {
        assert(digits@.reverse() =~= seq![spec_digit(m as nat)] + before.reverse());
        assert(spec_dec(n as nat) =~= digits@.reverse());
    }
    let mut out = String::new();
    let mut i: usize = digits.len();
    while i > 0
        invariant
            i <= digits@.len(),
            out@ == digits@.reverse().take(digits@.len() - i),
        decreases i,
    {
        i = i - 1;
        let c = digits[i];
        string_push(&mut out, c);
        proof {
            assert(digits@.reverse()[digits@.len() - i - 1] == digits@[i as int]);
            assert(out@ =~= digits@.reverse().take(digits@.len() - i));
        }
    }
    proof {
        assert(digits@.reverse().take(digits@.len() as int) =~= digits@.reverse());
    }
    out
}

/// The numeric value of a decimal digit string (most significant first).
pub open spec fn spec_dec_val(s: Seq<u8>) -> nat
    decreases s.len(),
{
    if s.len() == 0 {
        0
    } else {
        (spec_dec_val(s.drop_last()) * 10 + if s.last() >= 48 {
            (s.last() - 48) as nat
        } else {
            0
        }) as nat
    }
}

/// Whether every byte is an ASCII decimal digit.
pub open spec fn all_dec_digits(s: Seq<u8>) -> bool {
    forall|i: int| 0 <= i < s.len() ==> 48 <= #[trigger] s[i] <= 57
}

/// Parse a decimal byte string into a `u64`. Succeeds exactly on nonempty
/// all-digit strings whose value fits.
pub fn parse_u64_dec(s: &[u8]) -> (r: Option<u64>)
    ensures
        r is Some <==> (s@.len() > 0 && all_dec_digits(s@) && spec_dec_val(s@) <= u64::MAX),
        r is Some ==> r->Some_0 == spec_dec_val(s@),
{
    if s.len() == 0 {
        return None;
    }
    let mut acc: u64 = 0;
    let mut i: usize = 0;
    while i < s.len()
        invariant
            i <= s@.len(),
            all_dec_digits(s@.take(i as int)),
            acc == spec_dec_val(s@.take(i as int)),
            spec_dec_val(s@.take(i as int)) <= u64::MAX,
        decreases s@.len() - i,
    {
        let c = s[i];
        if c < 48 || c > 57 {
            assert(!all_dec_digits(s@)) by {
                assert(!(48 <= s@[i as int] <= 57));
            }
            return None;
        }
        let d: u64 = (c - 48) as u64;
        proof {
            assert(s@.take(i + 1).drop_last() =~= s@.take(i as int));
        }
        let hi = match acc.checked_mul(10) {
            Some(v) => v,
            None => {
                proof {
                    if all_dec_digits(s@) {
                        lemma_dec_val_prefix_monotone(s@, i + 1);
                    }
                }
                return None;
            },
        };
        let next = match hi.checked_add(d) {
            Some(v) => v,
            None => {
                proof {
                    if all_dec_digits(s@) {
                        lemma_dec_val_prefix_monotone(s@, i + 1);
                    }
                }
                return None;
            },
        };
        acc = next;
        i = i + 1;
    }
    proof {
        assert(s@.take(s@.len() as int) =~= s@);
    }
    Some(acc)
}

/// A longer digit prefix never has a smaller value.
proof fn lemma_dec_val_prefix_monotone(s: Seq<u8>, i: int)
    requires
        0 < i <= s.len(),
        all_dec_digits(s),
    ensures
        spec_dec_val(s) >= spec_dec_val(s.take(i)),
    decreases s.len() - i,
{
    if i == s.len() {
        assert(s.take(i) =~= s);
    } else {
        lemma_dec_val_prefix_monotone(s, i + 1);
        assert(s.take(i + 1).drop_last() =~= s.take(i));
        assert(spec_dec_val(s.take(i + 1)) >= spec_dec_val(s.take(i)) * 10) by {
            assert(48 <= s.take(i + 1).last() <= 57);
        }
    }
}

/// The hexadecimal digit character (lower case) for a value below sixteen.
pub open spec fn spec_hex_digit(d: nat) -> char
    recommends
        d < 16,
{
    if d < 10 {
        ((d + 48) as u8) as char
    } else {
        ((d + 87) as u8) as char
    }
}

/// The hexadecimal digit character (upper case) for a value below sixteen.
pub open spec fn spec_hex_digit_upper(d: nat) -> char
    recommends
        d < 16,
{
    if d < 10 {
        ((d + 48) as u8) as char
    } else {
        ((d + 55) as u8) as char
    }
}

/// Two lower-case hex digits for each byte, in order.
pub open spec fn spec_hex_of_bytes(s: Seq<u8>) -> Seq<char>
    decreases s.len(),
{
    if s.len() == 0 {
        Seq::empty()
    } else {
        seq![
            spec_hex_digit((s[0] / 16) as nat),
            spec_hex_digit((s[0] % 16) as nat),
        ] + spec_hex_of_bytes(s.drop_first())
    }
}

/// The hex rendering of a byte string is twice as long.
pub proof fn lemma_hex_len(s: Seq<u8>)
    ensures
        spec_hex_of_bytes(s).len() == 2 * s.len(),
    decreases s.len(),
{
    if s.len() > 0 {
        lemma_hex_len(s.drop_first());
    }
}

/// Extending the prefix by one byte extends the rendering by two digits.
proof fn lemma_hex_take_step(s: Seq<u8>, i: int)
    requires
        0 < i <= s.len(),
    ensures
        spec_hex_of_bytes(s.take(i)) == spec_hex_of_bytes(s.take(i - 1)) + seq![
            spec_hex_digit((s[i - 1] / 16) as nat),
            spec_hex_digit((s[i - 1] % 16) as nat),
        ],
    decreases i,
{
    if i == 1 {
        assert(s.take(1).drop_first() =~= Seq::<u8>::empty());
        assert(s.take(1)[0] == s[0]);
        assert(s.take(0) =~= Seq::<u8>::empty());
        assert(spec_hex_of_bytes(s.take(1)) =~= spec_hex_of_bytes(s.take(0)) + seq![
            spec_hex_digit((s[0] / 16) as nat),
            spec_hex_digit((s[0] % 16) as nat),
        ]);
    } else {
        lemma_hex_take_step(s.drop_first(), i - 1);
        assert(s.take(i).drop_first() =~= s.drop_first().take(i - 1));
        assert(s.take(i - 1).drop_first() =~= s.drop_first().take(i - 2));
        assert(s.drop_first()[i - 2] == s[i - 1]);
        assert(s.take(i)[0] == s[0] && s.take(i - 1)[0] == s[0]);
    }
}

/// One lower-case hex digit.
fn hex_digit_char(d: u8) -> (c: char)
    requires
        d < 16,
    ensures
        c == spec_hex_digit(d as nat),
{
    if d < 10 {
        (d + 48) as char
    } else {
        (d + 87) as char
    }
}

/// Render a byte string as lower-case hex, two digits per byte.
pub fn hex_of_bytes(data: &[u8]) -> (r: String)
    ensures
        r@ == spec_hex_of_bytes(data@),
        r@.len() == 2 * data@.len(),
{
    proof {
        lemma_hex_len(data@);
    }
    let mut out = String::new();
    let mut i: usize = 0;
    while i < data.len()
        invariant
            i <= data@.len(),
            out@ == spec_hex_of_bytes(data@.take(i as int)),
        decreases data@.len() - i,
    {
        let b = data[i];
        string_push(&mut out, hex_digit_char(b / 16));
        string_push(&mut out, hex_digit_char(b % 16));
        i = i + 1;
        proof {
            lemma_hex_take_step(data@, i as int);
        }
    }
    proof {
        assert(data@.take(data@.len() as int) =~= data@);
        lemma_hex_len(data@);
    }
    out
}


/// The characters of an ASCII byte string are ASCII characters, and
/// mapping them back to bytes restores the byte string.
pub proof fn lemma_ascii_chars_bytes(b: Seq<u8>)
    requires
        bytes_all_ascii(b),
    ensures
        vstd::utf8::is_ascii_chars(spec_chars_of_ascii(b)),
        spec_ascii_of_chars(spec_chars_of_ascii(b)) =~= b,
{
    assert forall|i: int| 0 <= i < b.len() implies '\0' <= #[trigger] spec_chars_of_ascii(b)[i]
        <= '\u{7f}' by {
        assert(b[i] < 128);
    }
}


/// The numeric value of a decimal digit character string.
pub open spec fn spec_dec_val_chars(s: Seq<char>) -> nat
    decreases s.len(),
{
    if s.len() == 0 {
        0
    } else {
        (spec_dec_val_chars(s.drop_last()) * 10 + if '0' <= s.last() && s.last() <= '9' {
            (s.last() as nat - 48) as nat
        } else {
            0
        }) as nat
    }
}

/// Whether every character is an ASCII decimal digit.
pub open spec fn all_dec_digit_chars(s: Seq<char>) -> bool {
    forall|i: int| 0 <= i < s.len() ==> '0' <= #[trigger] s[i] <= '9'
}

/// What parsing a decimal character string yields: its value on nonempty
/// all-digit strings whose value fits a `u64`, nothing otherwise.
pub open spec fn spec_parse_dec_chars(s: Seq<char>) -> Option<u64> {
    if s.len() > 0 && all_dec_digit_chars(s) && spec_dec_val_chars(s) <= u64::MAX {
        Some(spec_dec_val_chars(s) as u64)
    } else {
        None
    }
}

/// A longer digit prefix never has a smaller value.
proof fn lemma_dec_val_chars_prefix_monotone(s: Seq<char>, i: int)
    requires
        0 < i <= s.len(),
        all_dec_digit_chars(s),
    ensures
        spec_dec_val_chars(s) >= spec_dec_val_chars(s.take(i)),
    decreases s.len() - i,
{
    if i == s.len() {
        assert(s.take(i) =~= s);
    } else {
        lemma_dec_val_chars_prefix_monotone(s, i + 1);
        assert(s.take(i + 1).drop_last() =~= s.take(i));
        assert(spec_dec_val_chars(s.take(i + 1)) >= spec_dec_val_chars(s.take(i)) * 10) by {
            assert('0' <= s.take(i + 1).last() <= '9');
        }
    }
}

/// Parse a decimal character string into a `u64`. Succeeds exactly on
/// nonempty all-digit strings whose value fits.
pub fn parse_dec_str(s: &str) -> (r: Option<u64>)
    ensures
        r == spec_parse_dec_chars(s@),
{
    let n = s.unicode_len();
    if n == 0 {
        return None;
    }
    let mut acc: u64 = 0;
    let mut i: usize = 0;
    while i < n
        invariant
            n == s@.len(),
            i <= n,
            all_dec_digit_chars(s@.take(i as int)),
            acc == spec_dec_val_chars(s@.take(i as int)),
            spec_dec_val_chars(s@.take(i as int)) <= u64::MAX,
        decreases n - i,
    {
        let c = s.get_char(i);
        if c < '0' || c > '9' {
            assert(!all_dec_digit_chars(s@)) by {
                assert(!('0' <= s@[i as int] <= '9'));
            }
            return None;
        }
        let d: u64 = (c as u8 - 48) as u64;
        proof {
            assert(s@.take(i + 1).drop_last() =~= s@.take(i as int));
        }
        let hi = match acc.checked_mul(10) {
            Some(v) => v,
            None => {
                proof {
                    if all_dec_digit_chars(s@) {
                        lemma_dec_val_chars_prefix_monotone(s@, i + 1);
                    }
                }
                return None;
            },
        };
        let next = match hi.checked_add(d) {
            Some(v) => v,
            None => {
                proof {
                    if all_dec_digit_chars(s@) {
                        lemma_dec_val_chars_prefix_monotone(s@, i + 1);
                    }
                }
                return None;
            },
        };
        acc = next;
        i = i + 1;
    }
    proof {
        assert(s@.take(s@.len() as int) =~= s@);
    }
    Some(acc)
}


/// The lower-case hex rendering of `n`, no leading zeros.
pub open spec fn spec_hex_lower(n: nat) -> Seq<char>
    decreases n,
{
    if n < 16 {
        seq![spec_hex_digit(n)]
    } else {
        spec_hex_lower(n / 16) + seq![spec_hex_digit(n % 16)]
    }
}

/// Render `n` in lower-case hex, no leading zeros.
pub fn u64_to_hex_lower(n: u64) -> (r: String)
    ensures
        r@ == spec_hex_lower(n as nat),
{
    let mut digits: Vec<char> = Vec::new();
    let mut m: u64 = n;
    while m >= 16
        invariant
            spec_hex_lower(n as nat) == spec_hex_lower(m as nat) + digits@.reverse(),
        decreases m,
    {
        let ghost before = digits@;
        let d: u8 = (m % 16) as u8;
        digits.push(hex_digit_char(d));
        proof {
            assert(digits@.reverse() =~= seq![spec_hex_digit((m as nat) % 16)]
                + before.reverse());
            assert(spec_hex_lower(m as nat) + before.reverse() =~= spec_hex_lower(
                (m as nat) / 16,
            ) + digits@.reverse());
        }
        m = m / 16;
    }
    let ghost before = digits@;
    digits.push(hex_digit_char(m as u8));
    proof {
        assert(digits@.reverse() =~= seq![spec_hex_digit(m as nat)] + before.reverse());
        assert(spec_hex_lower(n as nat) =~= digits@.reverse());
    }
    let mut out = String::new();
    let mut i: usize = digits.len();
    while i > 0
        invariant
            i <= digits@.len(),
            out@ == digits@.reverse().take(digits@.len() - i),
        decreases i,
    {
        i = i - 1;
        string_push(&mut out, digits[i]);
        proof {
            assert(digits@.reverse()[digits@.len() - i - 1] == digits@[i as int]);
            assert(out@ =~= digits@.reverse().take(digits@.len() - i));
        }
    }
    proof {
        assert(digits@.reverse().take(digits@.len() as int) =~= digits@.reverse());
    }
    out
}

} // verus!
