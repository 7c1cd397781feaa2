//! The colon-separated message codec.
//!
//! An encoded message packs an HTTP status code, an application domain tag
//! and a human-readable message into one string of the shape
//! `[<status>:][<domain>:]<message>`. Decoding splits on at most two `:`
//! separators, assigns fields from the end backward, and falls back to
//! defaults (status `500`, domain `"Internal"`) where fields are absent: it
//! is total and never fails. Note a known inconsistency kept on purpose:
//! decoding reports `"Internal"` for a fully absent domain field, while
//! encoding writes `"unknown"` for an omitted domain; the two defaults come
//! from two different paths and are both preserved here.

use vstd::prelude::*;

use vstd::arithmetic::div_mod::lemma_div_denominator;
use vstd::arithmetic::div_mod::lemma_div_is_ordered;
use vstd::arithmetic::div_mod::lemma_fundamental_div_mod;
use vstd::arithmetic::div_mod::lemma_mod_bound;

verus! {

/// The decoded form of an encoded message: message text, domain tag and
/// HTTP status code.
pub ghost struct Decoded {
    pub message: Seq<char>,
    pub domain: Seq<char>,
    pub status: int,
}

/// The field before the first `:` of `s`, and what follows that `:`, if any.
pub open spec fn split_first(s: Seq<char>) -> (Seq<char>, Option<Seq<char>>)
    decreases s.len(),
{
    if s.len() == 0 {
        (Seq::<char>::empty(), None)
    } else if s[0] == ':' {
        (Seq::<char>::empty(), Some(s.skip(1)))
    } else {
        let (head, rest) = split_first(s.skip(1));
        (seq![s[0]] + head, rest)
    }
}

/// The fields of `s` under a split on at most two `:` separators: an empty
/// input has no fields, and after two separators the remainder is one field,
/// so a message may itself contain `:`.
pub open spec fn fields_of(s: Seq<char>) -> Seq<Seq<char>> {
    if s.len() == 0 {
        Seq::<Seq<char>>::empty()
    } else {
        let first = split_first(s);
        match first.1 {
            None => seq![first.0],
            Some(rest1) => {
                let second = split_first(rest1);
                match second.1 {
                    None => seq![first.0, second.0],
                    Some(rest2) => seq![first.0, second.0, rest2],
                }
            },
        }
    }
}

pub open spec fn is_dec_digit(c: char) -> bool {
    48 <= c as int <= 57
}

pub open spec fn digit_val(c: char) -> int {
    c as int - 48
}

/// A valid status token: exactly three decimal digits whose value is at
/// least 100 (so the first digit is not `0`).
pub open spec fn valid_status_token(t: Seq<char>) -> bool {
    &&& t.len() == 3
    &&& is_dec_digit(t[0])
    &&& is_dec_digit(t[1])
    &&& is_dec_digit(t[2])
    &&& digit_val(t[0]) >= 1
}

pub open spec fn token_value(t: Seq<char>) -> int
    recommends
        valid_status_token(t),
{
    digit_val(t[0]) * 100 + digit_val(t[1]) * 10 + digit_val(t[2])
}

/// What decoding an encoded message yields: fields are assigned from the end
/// backward, and whatever is absent or malformed falls back to a default.
pub open spec fn decode_spec(s: Seq<char>) -> Decoded {
    let fields = fields_of(s);
    if fields.len() == 0 {
        Decoded { message: "<unknown>"@, domain: "Internal"@, status: 500 }
    } else if fields.len() == 1 {
        Decoded { message: fields[0], domain: "Internal"@, status: 500 }
    } else if fields.len() == 2 {
        Decoded { message: fields[1], domain: fields[0], status: 500 }
    } else {
        Decoded {
            message: fields[2],
            domain: fields[1],
            status: if valid_status_token(fields[0]) {
                token_value(fields[0])
            } else {
                500
            },
        }
    }
}

pub open spec fn dec_digit(d: int) -> char {
    if d == 0 {
        '0'
    } else if d == 1 {
        '1'
    } else if d == 2 {
        '2'
    } else if d == 3 {
        '3'
    } else if d == 4 {
        '4'
    } else if d == 5 {
        '5'
    } else if d == 6 {
        '6'
    } else if d == 7 {
        '7'
    } else if d == 8 {
        '8'
    } else {
        '9'
    }
}

/// The decimal digits of `n`, most significant first.
pub open spec fn dec_rep(n: int) -> Seq<char>
    recommends
        n >= 0,
    decreases n,
{
    if n < 10 {
        seq![dec_digit(n)]
    } else {
        dec_rep(n / 10) + seq![dec_digit(n % 10)]
    }
}

/// What encoding yields: `"{status}:{domain}:{message}"`.
pub open spec fn encode_spec(status: int, domain: Seq<char>, message: Seq<char>) -> Seq<char> {
    dec_rep(status) + seq![':'] + domain + seq![':'] + message
}

fn digit_str(d: u16) -> (s: &'static str)
    requires
        d < 10,
    ensures
        s@ == seq![dec_digit(d as int)],
{
    proof {
        reveal_strlit("0");
        reveal_strlit("1");
        reveal_strlit("2");
        reveal_strlit("3");
        reveal_strlit("4");
        reveal_strlit("5");
        reveal_strlit("6");
        reveal_strlit("7");
        reveal_strlit("8");
        reveal_strlit("9");
    }
    let s: &'static str = if d == 0 {
        "0"
    } else if d == 1 {
        "1"
    } else if d == 2 {
        "2"
    } else if d == 3 {
        "3"
    } else if d == 4 {
        "4"
    } else if d == 5 {
        "5"
    } else if d == 6 {
        "6"
    } else if d == 7 {
        "7"
    } else if d == 8 {
        "8"
    } else {
        "9"
    };
    proof {
        assert(s@ =~= seq![dec_digit(d as int)]);
    }
    s
}

fn push_decimal(out: &mut String, n: u16)
    ensures
        final(out)@ == old(out)@ + dec_rep(n as int),
    decreases n,
{
    if n < 10 {
        out.append(digit_str(n));
    } else {
        push_decimal(out, n / 10);
        out.append(digit_str(n % 10));
        proof {
            assert(final(out)@ =~= old(out)@ + dec_rep(n as int));
        }
    }
}

/// Format the three fields as `"{status}:{domain}:{message}"`. The domain
/// must not itself contain `:` for the result to decode back to the same
/// triple; that is the caller's responsibility and is not validated here.
pub fn encode(status: u16, domain: &str, message: &str) -> (r: String)
    ensures
        r@ == encode_spec(status as int, domain@, message@),
{
    let mut out = String::new();
    push_decimal(&mut out, status);
    out.append(":");
    out.append(domain);
    out.append(":");
    out.append(message);
    proof {
        reveal_strlit(":");
        assert(":"@ =~= seq![':']);
        assert(out@ =~= encode_spec(status as int, domain@, message@));
    }
    out
}

/// Format `"500:{domain}:{message}"`: the omitted status defaults to 500.
pub fn encode_with_domain(domain: &str, message: &str) -> (r: String)
    ensures
        r@ == encode_spec(500, domain@, message@),
{
    encode(500, domain, message)
}

/// Format `"500:unknown:{message}"`: the omitted status defaults to 500 and
/// the omitted domain to `"unknown"`.
pub fn encode_message(message: &str) -> (r: String)
    ensures
        r@ == encode_spec(500, "unknown"@, message@),
{
    encode(500, "unknown", message)
}

/// The field before the first `:` never itself contains `:`.
pub proof fn lemma_head_no_colon(s: Seq<char>)
    ensures
        forall|j: int| 0 <= j < split_first(s).0.len() ==> split_first(s).0[j] != ':',
    decreases s.len(),
{
    if s.len() == 0 || s[0] == ':' {
    } else {
        lemma_head_no_colon(s.skip(1));
        let head = split_first(s).0;
        assert forall|j: int| 0 <= j < head.len() implies head[j] != ':' by {
            if j == 0 {
                assert(head[0] == s[0]);
            } else {
                assert(head[j] == split_first(s.skip(1)).0[j - 1]);
            }
        }
    }
}

/// The default domain tag contains no separator.
pub proof fn lemma_internal_no_colon()
    ensures
        forall|j: int| 0 <= j < "Internal"@.len() ==> "Internal"@[j] != ':',
{
    reveal_strlit("Internal");
}

/// A valid status token is all digits, so it contains no separator.
pub proof fn lemma_token_no_colon(t: Seq<char>)
    requires
        valid_status_token(t),
    ensures
        forall|j: int| 0 <= j < t.len() ==> t[j] != ':',
{
    assert forall|j: int| 0 <= j < t.len() implies t[j] != ':' by {
        assert(j == 0 || j == 1 || j == 2);
        assert(is_dec_digit(t[j]));
    }
}

/// A string without `:` is one whole field.
pub proof fn lemma_split_first_no_colon(s: Seq<char>)
    requires
        forall|j: int| 0 <= j < s.len() ==> s[j] != ':',
    ensures
        split_first(s) == (s, None::<Seq<char>>),
    decreases s.len(),
{
    if s.len() == 0 {
        assert(split_first(s).0 =~= s);
    } else {
        assert forall|j: int| 0 <= j < s.skip(1).len() implies s.skip(1)[j] != ':' by {
            assert(s.skip(1)[j] == s[j + 1]);
        }
        lemma_split_first_no_colon(s.skip(1));
        assert(seq![s[0]] + s.skip(1) =~= s);
    }
}

/// A string whose first `:` stands at `i` splits there.
pub proof fn lemma_split_first_at(s: Seq<char>, i: int)
    requires
        0 <= i < s.len(),
        s[i] == ':',
        forall|j: int| 0 <= j < i ==> s[j] != ':',
    ensures
        split_first(s) == (s.take(i), Some(s.skip(i + 1))),
    decreases i,
{
    if i == 0 {
        assert(s.take(0) =~= Seq::<char>::empty());
    } else {
        assert(s.skip(1)[i - 1] == s[i]);
        assert forall|j: int| 0 <= j < i - 1 implies s.skip(1)[j] != ':' by {
            assert(s.skip(1)[j] == s[j + 1]);
        }
        lemma_split_first_at(s.skip(1), i - 1);
        assert(seq![s[0]] + s.skip(1).take(i - 1) =~= s.take(i));
        assert(s.skip(1).skip(i) =~= s.skip(i + 1));
    }
}

/// Splitting `"{a}:{b}"` yields the two fields, when `a` and `b` are free of
/// `:`.
pub proof fn lemma_fields_two(a: Seq<char>, b: Seq<char>)
    requires
        forall|j: int| 0 <= j < a.len() ==> a[j] != ':',
        forall|j: int| 0 <= j < b.len() ==> b[j] != ':',
    ensures
        fields_of(a + seq![':'] + b) == seq![a, b],
{
    let s = a + seq![':'] + b;
    assert(s[a.len() as int] == ':');
    assert forall|j: int| 0 <= j < a.len() implies s[j] != ':' by {
        assert(s[j] == a[j]);
    }
    lemma_split_first_at(s, a.len() as int);
    assert(s.take(a.len() as int) =~= a);
    assert(s.skip(a.len() as int + 1) =~= b);
    lemma_split_first_no_colon(b);
    assert(fields_of(s) =~= seq![a, b]);
}

/// Splitting `"{a}:{b}:{c}"` yields the three fields, when `a` and `b` are
/// free of `:`; `c` may contain further `:`.
pub proof fn lemma_fields_three(a: Seq<char>, b: Seq<char>, c: Seq<char>)
    requires
        forall|j: int| 0 <= j < a.len() ==> a[j] != ':',
        forall|j: int| 0 <= j < b.len() ==> b[j] != ':',
    ensures
        fields_of(a + seq![':'] + b + seq![':'] + c) == seq![a, b, c],
{
    let rest = b + seq![':'] + c;
    let s = a + seq![':'] + b + seq![':'] + c;
    assert(s =~= a + seq![':'] + rest);
    assert(s[a.len() as int] == ':');
    assert forall|j: int| 0 <= j < a.len() implies s[j] != ':' by {
        assert(s[j] == a[j]);
    }
    lemma_split_first_at(s, a.len() as int);
    assert(s.take(a.len() as int) =~= a);
    assert(s.skip(a.len() as int + 1) =~= rest);
    assert(rest[b.len() as int] == ':');
    assert forall|j: int| 0 <= j < b.len() implies rest[j] != ':' by {
        assert(rest[j] == b[j]);
    }
    lemma_split_first_at(rest, b.len() as int);
    assert(rest.take(b.len() as int) =~= b);
    assert(rest.skip(b.len() as int + 1) =~= c);
    assert(fields_of(s) =~= seq![a, b, c]);
}

/// Decoding a nonempty string without `:` yields the string itself as the
/// message, the default domain `"Internal"` and status 500. (The empty
/// string is the one exception: having no fields at all, it decodes to the
/// `"<unknown>"` message instead.)
pub proof fn lemma_decode_plain_message(m: Seq<char>)
    requires
        m.len() > 0,
        forall|j: int| 0 <= j < m.len() ==> m[j] != ':',
    ensures
        decode_spec(m).message == m,
        decode_spec(m).domain == "Internal"@,
        decode_spec(m).status == 500,
{
    lemma_split_first_no_colon(m);
}

/// Decoding `"{d}:{m}"` yields message `m`, domain `d` and status 500, when
/// neither field contains a further `:`.
pub proof fn lemma_decode_domain_and_message(d: Seq<char>, m: Seq<char>)
    requires
        forall|j: int| 0 <= j < d.len() ==> d[j] != ':',
        forall|j: int| 0 <= j < m.len() ==> m[j] != ':',
    ensures
        decode_spec(d + seq![':'] + m).message == m,
        decode_spec(d + seq![':'] + m).domain == d,
        decode_spec(d + seq![':'] + m).status == 500,
{
    lemma_fields_two(d, m);
}

/// Decoding `"{s}:{d}:{m}"` with a valid status token `s` yields message
/// `m`, domain `d` and the token's value; `m` may itself contain `:`.
pub proof fn lemma_decode_full(s: Seq<char>, d: Seq<char>, m: Seq<char>)
    requires
        valid_status_token(s),
        forall|j: int| 0 <= j < d.len() ==> d[j] != ':',
    ensures
        decode_spec(s + seq![':'] + d + seq![':'] + m).message == m,
        decode_spec(s + seq![':'] + d + seq![':'] + m).domain == d,
        decode_spec(s + seq![':'] + d + seq![':'] + m).status == token_value(s),
{
    lemma_token_no_colon(s);
    lemma_fields_three(s, d, m);
}

/// Decoding `"{t}:{d}:{m}"` with an invalid status token `t` still yields
/// message and domain correctly, with the fallback status 500.
pub proof fn lemma_decode_invalid_status(t: Seq<char>, d: Seq<char>, m: Seq<char>)
    requires
        !valid_status_token(t),
        forall|j: int| 0 <= j < t.len() ==> t[j] != ':',
        forall|j: int| 0 <= j < d.len() ==> d[j] != ':',
    ensures
        decode_spec(t + seq![':'] + d + seq![':'] + m).message == m,
        decode_spec(t + seq![':'] + d + seq![':'] + m).domain == d,
        decode_spec(t + seq![':'] + d + seq![':'] + m).status == 500,
{
    lemma_fields_three(t, d, m);
}

/// The decoded status code always lies in the legal HTTP range.
pub proof fn lemma_status_in_range(s: Seq<char>)
    ensures
        100 <= decode_spec(s).status <= 999,
{
}

fn find_colon(s: &str, from: usize) -> (r: Option<usize>)
    requires
        from <= s@.len(),
    ensures
        match r {
            Some(i) => from <= i < s@.len() && s@[i as int] == ':' && (forall|j: int|
                from <= j < i ==> s@[j] != ':'),
            None => forall|j: int| from <= j < s@.len() ==> s@[j] != ':',
        },
{
    let n: usize = s.unicode_len();
    let mut i: usize = from;
    while i < n
        invariant
            from <= i <= n,
            n == s@.len(),
            forall|j: int| from <= j < i ==> s@[j] != ':',
        decreases n - i,
    {
        if s.get_char(i) == ':' {
            return Some(i);
        }
        i = i + 1;
    }
    None
}

fn parse_status(t: &str) -> (r: u16)
    ensures
        r as int == if valid_status_token(t@) {
            token_value(t@)
        } else {
            500
        },
{
    let n: usize = t.unicode_len();
    if n != 3 {
        return 500;
    }
    let c0: u32 = t.get_char(0) as u32;
    let c1: u32 = t.get_char(1) as u32;
    let c2: u32 = t.get_char(2) as u32;
    if 49 <= c0 && c0 <= 57 && 48 <= c1 && c1 <= 57 && 48 <= c2 && c2 <= 57 {
        ((c0 - 48) * 100 + (c1 - 48) * 10 + (c2 - 48)) as u16
    } else {
        500
    }
}

/// Decode an encoded message into `(message, domain, status)`. Total: absent
/// fields and malformed status tokens fall back to their defaults.
pub fn decode(s: &str) -> (r: (String, String, u16))
    ensures
        r.0@ == decode_spec(s@).message,
        r.1@ == decode_spec(s@).domain,
        r.2 as int == decode_spec(s@).status,
{
    let n: usize = s.unicode_len();
    if n == 0 {
        return (String::from_str("<unknown>"), String::from_str("Internal"), 500);
    }
    match find_colon(s, 0) {
        None => {
            proof {
                lemma_split_first_no_colon(s@);
            }
            (String::from_str(s), String::from_str("Internal"), 500)
        },
        Some(i1) => {
            proof {
                lemma_split_first_at(s@, i1 as int);
            }
            match find_colon(s, i1 + 1) {
                None => {
                    proof {
                        assert forall|j: int| 0 <= j < s@.skip(i1 + 1).len() implies #[trigger] s@.skip(
                            i1 + 1,
                        )[j] != ':' by {
                            assert(s@.skip(i1 + 1)[j] == s@[j + i1 + 1]);
                        }
                        lemma_split_first_no_colon(s@.skip(i1 + 1));
                        assert(s@.subrange(0, i1 as int) =~= s@.take(i1 as int));
                        assert(s@.subrange(i1 + 1, n as int) =~= s@.skip(i1 + 1));
                    }
                    let domain = String::from_str(s.substring_char(0, i1));
                    let message = String::from_str(s.substring_char(i1 + 1, n));
                    (message, domain, 500)
                },
                Some(i2) => {
                    proof {
                        let rest1 = s@.skip(i1 + 1);
                        assert(rest1[i2 - i1 - 1] == s@[i2 as int]);
                        assert forall|j: int| 0 <= j < i2 - i1 - 1 implies rest1[j] != ':' by {
                            assert(rest1[j] == s@[j + i1 + 1]);
                        }
                        lemma_split_first_at(rest1, i2 - i1 - 1);
                        assert(rest1.take(i2 - i1 - 1) =~= s@.subrange(i1 + 1, i2 as int));
                        assert(rest1.skip(i2 - i1) =~= s@.subrange(i2 + 1, n as int));
                        assert(s@.subrange(0, i1 as int) =~= s@.take(i1 as int));
                    }
                    let token = s.substring_char(0, i1);
                    let domain = String::from_str(s.substring_char(i1 + 1, i2));
                    let message = String::from_str(s.substring_char(i2 + 1, n));
                    let status = parse_status(token);
                    (message, domain, status)
                },
            }
        },
    }
}

proof fn lemma_digit_roundtrip(d: int)
    requires
        0 <= d <= 9,
    ensures
        is_dec_digit(dec_digit(d)),
        digit_val(dec_digit(d)) == d,
{
}

/// The decimal rendering of a code in 100..=999 is a valid status token
/// whose value is the code itself.
pub proof fn lemma_dec_rep_status(n: int)
    requires
        100 <= n <= 999,
    ensures
        dec_rep(n) == seq![dec_digit(n / 100), dec_digit((n / 10) % 10), dec_digit(n % 10)],
        valid_status_token(dec_rep(n)),
        token_value(dec_rep(n)) == n,
{
    let d2 = n / 100;
    let d1 = (n / 10) % 10;
    let d0 = n % 10;
    lemma_div_is_ordered(100, n, 10);
    lemma_div_is_ordered(n, 999, 10);
    assert(10 <= n / 10 <= 99);
    lemma_div_is_ordered(100, n, 100);
    lemma_div_is_ordered(n, 999, 100);
    assert(1 <= d2 <= 9);
    lemma_mod_bound(n / 10, 10);
    lemma_mod_bound(n, 10);
    lemma_div_denominator(n, 10, 10);
    assert((n / 10) / 10 == d2);
    lemma_fundamental_div_mod(n, 10);
    lemma_fundamental_div_mod(n / 10, 10);
    assert(n == 100 * d2 + 10 * d1 + d0);
    assert(dec_rep(n) == dec_rep(n / 10) + seq![dec_digit(d0)]);
    assert(dec_rep(n / 10) == dec_rep(d2) + seq![dec_digit(d1)]);
    assert(dec_rep(d2) == seq![dec_digit(d2)]);
    assert(dec_rep(n) =~= seq![dec_digit(d2), dec_digit(d1), dec_digit(d0)]);
    lemma_digit_roundtrip(d2);
    lemma_digit_roundtrip(d1);
    lemma_digit_roundtrip(d0);
}

/// The domain that decoding yields never contains a separator.
pub proof fn lemma_decode_domain_no_colon(x: Seq<char>)
    ensures
        forall|j: int|
            0 <= j < decode_spec(x).domain.len() ==> decode_spec(x).domain[j] != ':',
{
    lemma_internal_no_colon();
    if x.len() > 0 {
        lemma_head_no_colon(x);
        if let Some(rest1) = split_first(x).1 {
            lemma_head_no_colon(rest1);
        }
    }
}

/// Round-trip idempotence: decoding, re-encoding the decoded triple, and
/// decoding again yields the same triple, for every input string.
pub proof fn lemma_round_trip(x: Seq<char>)
    ensures
        ({
            let first = decode_spec(x);
            let again = decode_spec(encode_spec(first.status, first.domain, first.message));
            &&& again.message == first.message
            &&& again.domain == first.domain
            &&& again.status == first.status
        }),
{
    let first = decode_spec(x);
    lemma_status_in_range(x);
    lemma_dec_rep_status(first.status);
    lemma_decode_domain_no_colon(x);
    lemma_decode_full(dec_rep(first.status), first.domain, first.message);
}

} // verus!
