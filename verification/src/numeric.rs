//! The whitespace-separated decimal codec.
//!
//! A vector of numbers travels on the wire as base-10 tokens separated by
//! single spaces; any run of ASCII whitespace separates tokens on decode.
//! The codec is exact: encoding then decoding a vector gives the vector
//! back, which [`lemma_numeric_list_round_trip`] proves once and for all.

use vstd::prelude::*;

use crate::error::FocusError;

verus! {

/// ASCII whitespace, as the tokenizer understands it: space, tab, line
/// feed, form feed, carriage return.
pub open spec fn is_space_char(c: char) -> bool {
    c == ' ' || c == '\t' || c == '\n' || c == '\x0c' || c == '\r'
}

/// ASCII decimal digit.
pub open spec fn is_digit_char(c: char) -> bool {
    48 <= (c as u32) && (c as u32) <= 57
}

/// The value of a decimal digit.
pub open spec fn digit_value(c: char) -> nat {
    ((c as u32) - 48) as nat
}

/// The decimal digit with the given value.
pub open spec fn digit_char(d: nat) -> char {
    if d == 0 {
        '0'
    } else if d == 1 {
        '1'
    } else if d == 2 {
        '2'
    } else if d == 3 {
        '3'
    } else if d == 4 {
        '4'
    } else if d == 5 {
        '5'
    } else if d == 6 {
        '6'
    } else if d == 7 {
        '7'
    } else if d == 8 {
        '8'
    } else {
        '9'
    }
}

/// The base-10 representation of a number, most significant digit first,
/// with no sign and no leading zeros (zero itself is `"0"`).
pub open spec fn dec_repr(n: nat) -> Seq<char>
    decreases n,
{
    if n < 10 {
        seq![digit_char(n)]
    } else {
        dec_repr(n / 10).push(digit_char(n % 10))
    }
}

/// The number a sequence of decimal digits denotes.
pub open spec fn token_value(t: Seq<char>) -> nat
    decreases t.len(),
{
    if t.len() == 0 {
        0
    } else {
        token_value(t.drop_last()) * 10 + digit_value(t.last())
    }
}

pub open spec fn all_digits(t: Seq<char>) -> bool {
    forall|i: int| 0 <= i < t.len() ==> is_digit_char(t[i])
}

/// What a single token decodes to: a number if the token is a nonempty
/// run of decimal digits, nothing otherwise.
pub open spec fn parse_token(t: Seq<char>) -> Option<nat> {
    if t.len() > 0 && all_digits(t) {
        Some(token_value(t))
    } else {
        None
    }
}

/// The maximal runs of non-whitespace characters, in order.
pub open spec fn tokens(s: Seq<char>) -> Seq<Seq<char>>
    decreases s.len(),
{
    if s.len() == 0 {
        seq![]
    } else if is_space_char(s[0]) {
        tokens(s.drop_first())
    } else {
        let rest = tokens(s.drop_first());
        if s.len() > 1 && !is_space_char(s[1]) {
            seq![seq![s[0]] + rest[0]] + rest.drop_first()
        } else {
            seq![seq![s[0]]] + rest
        }
    }
}

/// What a whole payload decodes to: the values of its tokens, if every
/// token is a nonempty run of decimal digits.
pub open spec fn decode_list(s: Seq<char>) -> Option<Seq<nat>> {
    if forall|i: int| 0 <= i < tokens(s).len() ==> parse_token(#[trigger] tokens(s)[i]) is Some {
        Some(Seq::new(tokens(s).len(), |i: int| parse_token(tokens(s)[i]).unwrap()))
    } else {
        None
    }
}

/// How a list of numbers is put on the wire: base-10 representations
/// joined by single spaces.
pub open spec fn encode_list(vals: Seq<nat>) -> Seq<char>
    decreases vals.len(),
{
    if vals.len() == 0 {
        seq![]
    } else if vals.len() == 1 {
        dec_repr(vals[0])
    } else {
        dec_repr(vals[0]) + seq![' '] + encode_list(vals.drop_first())
    }
}

pub proof fn lemma_dec_repr_wf(n: nat)
    ensures
        dec_repr(n).len() >= 1,
        all_digits(dec_repr(n)),
    decreases n,
{
    if n >= 10 {
        lemma_dec_repr_wf(n / 10);
        assert forall|i: int| 0 <= i < dec_repr(n).len() implies is_digit_char(dec_repr(n)[i]) by {
            if i < dec_repr(n / 10).len() {
                assert(dec_repr(n)[i] == dec_repr(n / 10)[i]);
            } else {
                assert(dec_repr(n)[i] == digit_char(n % 10));
            }
        }
    }
}

/// Reading back the base-10 representation of a number gives the number.
pub proof fn lemma_parse_dec_repr(n: nat)
    ensures
        parse_token(dec_repr(n)) == Some(n),
    decreases n,
{
    lemma_dec_repr_wf(n);
    if n < 10 {
        let t = dec_repr(n);
        assert(t =~= seq![digit_char(n)]);
        assert(t.drop_last() =~= Seq::<char>::empty());
        assert(token_value(t.drop_last()) == 0);
        assert(t.last() == digit_char(n));
        assert(token_value(t) == 0 * 10 + digit_value(digit_char(n)));
        assert(digit_value(digit_char(n)) == n);
    } else {
        lemma_parse_dec_repr(n / 10);
        let t = dec_repr(n);
        assert(t.drop_last() =~= dec_repr(n / 10));
        assert(t.last() == digit_char(n % 10));
        assert(digit_value(digit_char(n % 10)) == n % 10);
        assert(token_value(t) == token_value(dec_repr(n / 10)) * 10 + n % 10);
        assert(token_value(t) == (n / 10) * 10 + n % 10);
        assert((n / 10) * 10 + n % 10 == n) by (nonlinear_arith);
    }
}

/// Tokenizing a string that starts with whitespace skips the whitespace.
pub proof fn lemma_tokens_skip_space(s: Seq<char>)
    requires
        s.len() > 0,
        is_space_char(s[0]),
    ensures
        tokens(s) == tokens(s.drop_first()),
{
}

/// Tokenizing a nonempty all-digit (or any non-whitespace) token followed
/// by a boundary yields that token and then the tokens of the remainder.
pub proof fn lemma_tokens_take_token(t: Seq<char>, rest: Seq<char>)
    requires
        t.len() > 0,
        forall|i: int| 0 <= i < t.len() ==> !is_space_char(t[i]),
        rest.len() == 0 || is_space_char(rest[0]),
    ensures
        tokens(t + rest) == seq![t] + tokens(rest),
    decreases t.len(),
{
    let s = t + rest;
    assert(s[0] == t[0]);
    assert(!is_space_char(s[0]));
    if t.len() == 1 {
        if rest.len() == 0 {
            assert(s.len() == 1);
            assert(tokens(s) =~= seq![seq![s[0]]] + tokens(s.drop_first()));
            assert(s.drop_first() =~= rest);
            assert(tokens(rest) =~= Seq::<Seq<char>>::empty());
            assert(seq![s[0]] =~= t);
            assert(tokens(s) =~= seq![t] + tokens(rest));
        } else {
            assert(s[1] == rest[0]);
            assert(is_space_char(s[1]));
            assert(s.drop_first() =~= rest);
            assert(seq![s[0]] =~= t);
            assert(tokens(s) =~= seq![t] + tokens(rest));
        }
    } else {
        assert(s[1] == t[1]);
        assert(!is_space_char(s[1]));
        assert(s.drop_first() =~= t.drop_first() + rest);
        lemma_tokens_take_token(t.drop_first(), rest);
        let r0 = tokens(s.drop_first());
        assert(r0 =~= seq![t.drop_first()] + tokens(rest));
        assert(r0[0] == t.drop_first());
        assert(seq![s[0]] + r0[0] =~= t);
        assert(r0.drop_first() =~= tokens(rest));
        assert(tokens(s) =~= seq![t] + tokens(rest));
    }
}

/// The wire form of a number list tokenizes back into exactly the
/// representations of its numbers.
pub proof fn lemma_tokens_of_encode(vals: Seq<nat>)
    ensures
        tokens(encode_list(vals)) == vals.map_values(|n: nat| dec_repr(n)),
    decreases vals.len(),
{
    let m = vals.map_values(|n: nat| dec_repr(n));
    if vals.len() == 0 {
        assert(tokens(encode_list(vals)) =~= m);
    } else if vals.len() == 1 {
        lemma_dec_repr_wf(vals[0]);
        assert forall|i: int| 0 <= i < dec_repr(vals[0]).len() implies !is_space_char(
            dec_repr(vals[0])[i],
        ) by {
            assert(is_digit_char(dec_repr(vals[0])[i]));
        }
        lemma_tokens_take_token(dec_repr(vals[0]), Seq::<char>::empty());
        assert(dec_repr(vals[0]) + Seq::<char>::empty() =~= encode_list(vals));
        assert(tokens(encode_list(vals)) =~= m);
    } else {
        let t = dec_repr(vals[0]);
        let rest = seq![' '] + encode_list(vals.drop_first());
        lemma_dec_repr_wf(vals[0]);
        assert forall|i: int| 0 <= i < t.len() implies !is_space_char(t[i]) by {
            assert(is_digit_char(t[i]));
        }
        assert(is_space_char(rest[0]));
        lemma_tokens_take_token(t, rest);
        assert(t + rest =~= encode_list(vals));
        lemma_tokens_skip_space(rest);
        assert(rest.drop_first() =~= encode_list(vals.drop_first()));
        lemma_tokens_of_encode(vals.drop_first());
        assert(vals.drop_first().map_values(|n: nat| dec_repr(n)) =~= m.drop_first());
        assert(tokens(encode_list(vals)) =~= seq![t] + m.drop_first());
        assert(tokens(encode_list(vals)) =~= m);
    }
}

/// The round trip of the numeric list codec: decoding an encoded list of
/// numbers gives the list back, whatever the numbers.
pub proof fn lemma_numeric_list_round_trip(vals: Seq<nat>)
    ensures
        decode_list(encode_list(vals)) == Some(vals),
{
    lemma_tokens_of_encode(vals);
    let ts = tokens(encode_list(vals));
    assert forall|i: int| 0 <= i < ts.len() implies parse_token(#[trigger] ts[i]) == Some(
        vals[i],
    ) by {
        assert(ts[i] == dec_repr(vals[i]));
        lemma_parse_dec_repr(vals[i]);
    }
    assert(decode_list(encode_list(vals)) matches Some(v) && v =~= vals);
}

/// A longer run of digits never denotes a smaller number: the value of a
/// prefix bounds the value of the whole token.
pub proof fn lemma_token_value_prefix(t: Seq<char>, k: int)
    requires
        0 <= k <= t.len(),
    ensures
        token_value(t.take(k)) <= token_value(t),
    decreases t.len() - k,
{
    if k < t.len() {
        lemma_token_value_prefix(t, k + 1);
        let p = t.take(k + 1);
        assert(p.drop_last() =~= t.take(k));
        assert(token_value(p) == token_value(t.take(k)) * 10 + digit_value(p.last()));
        assert(token_value(t.take(k)) * 10 >= token_value(t.take(k))) by (nonlinear_arith);
    } else {
        assert(t.take(k) =~= t);
    }
}

/// Appending one more number to a list extends its wire form by a space
/// and the number's representation.
pub proof fn lemma_encode_push(vals: Seq<nat>, x: nat)
    ensures
        vals.len() == 0 ==> encode_list(vals.push(x)) == dec_repr(x),
        vals.len() > 0 ==> encode_list(vals.push(x)) == encode_list(vals) + seq![' '] + dec_repr(
            x,
        ),
    decreases vals.len(),
{
    let p = vals.push(x);
    if vals.len() == 0 {
        assert(p.len() == 1);
        assert(p[0] == x);
    } else if vals.len() == 1 {
        assert(p.len() == 2);
        assert(p[0] == vals[0]);
        assert(p.drop_first() =~= seq![x]);
        assert(encode_list(p.drop_first()) == dec_repr(x));
        assert(encode_list(vals) == dec_repr(vals[0]));
    } else {
        assert(p[0] == vals[0]);
        assert(p.drop_first() =~= vals.drop_first().push(x));
        lemma_encode_push(vals.drop_first(), x);
        assert(encode_list(p) == dec_repr(vals[0]) + seq![' '] + (encode_list(vals.drop_first())
            + seq![' '] + dec_repr(x)));
        assert(encode_list(p) =~= encode_list(vals) + seq![' '] + dec_repr(x));
    }
}

/// A number type that travels on the wire in base 10. The trait ties each
/// executable type to the mathematical value it stands for, so the codec
/// can be stated once over natural numbers.
pub trait WireNumber: Sized + Copy {
    /// The mathematical value of this number.
    spec fn as_natural(self) -> nat;

    /// The largest value the type can hold.
    spec fn max_natural() -> nat;

    /// Every value fits under the type's maximum.
    proof fn lemma_within_range(self)
        ensures
            self.as_natural() <= Self::max_natural(),
    ;

    /// The type's maximum, as a machine word.
    fn max_wire() -> (m: u64)
        ensures
            m as nat == Self::max_natural(),
            m <= 0xFFFF_FFFFu64,
    ;

    /// The value with the given magnitude.
    fn from_wire(n: u64) -> (r: Self)
        requires
            n as nat <= Self::max_natural(),
        ensures
            r.as_natural() == n as nat,
    ;

    /// This value's magnitude, as a machine word.
    fn to_wire(self) -> (n: u64)
        ensures
            n as nat == self.as_natural(),
    ;
}

impl WireNumber for u8 {
    open spec fn as_natural(self) -> nat {
        self as nat
    }

    open spec fn max_natural() -> nat {
        0xFF
    }

    proof fn lemma_within_range(self) {
    }

    fn max_wire() -> u64 {
        0xFF
    }

    fn from_wire(n: u64) -> u8 {
        n as u8
    }

    fn to_wire(self) -> u64 {
        self as u64
    }
}

impl WireNumber for u16 {
    open spec fn as_natural(self) -> nat {
        self as nat
    }

    open spec fn max_natural() -> nat {
        0xFFFF
    }

    proof fn lemma_within_range(self) {
    }

    fn max_wire() -> u64 {
        0xFFFF
    }

    fn from_wire(n: u64) -> u16 {
        n as u16
    }

    fn to_wire(self) -> u64 {
        self as u64
    }
}

impl WireNumber for u32 {
    open spec fn as_natural(self) -> nat {
        self as nat
    }

    open spec fn max_natural() -> nat {
        0xFFFF_FFFF
    }

    proof fn lemma_within_range(self) {
    }

    fn max_wire() -> u64 {
        0xFFFF_FFFF
    }

    fn from_wire(n: u64) -> u32 {
        n as u32
    }

    fn to_wire(self) -> u64 {
        self as u64
    }
}

/// The decimal digit character with the given value, as a string slice.
fn digit_str(d: u64) -> (s: &'static str)
    requires
        d < 10,
    ensures
        s@ == seq![digit_char(d as nat)],
{
    proof {
        reveal_strlit("0");
        reveal_strlit("1");
        reveal_strlit("2");
        reveal_strlit("3");
        reveal_strlit("4");
        reveal_strlit("5");
        reveal_strlit("6");
        reveal_strlit("7");
        reveal_strlit("8");
        reveal_strlit("9");
    }
    let s: &'static str = if d == 0 {
        "0"
    } else if d == 1 {
        "1"
    } else if d == 2 {
        "2"
    } else if d == 3 {
        "3"
    } else if d == 4 {
        "4"
    } else if d == 5 {
        "5"
    } else if d == 6 {
        "6"
    } else if d == 7 {
        "7"
    } else if d == 8 {
        "8"
    } else {
        "9"
    };
    proof {
        assert(s@ =~= seq![digit_char(d as nat)]);
    }
    s
}

/// Appends the base-10 representation of a number to a string.
pub fn push_decimal(out: &mut String, n: u64)
    ensures
        final(out)@ == old(out)@ + dec_repr(n as nat),
{
    let mut digits: Vec<u64> = Vec::new();
    let mut m: u64 = n;
    loop
        invariant_except_break
            forall|i: int| 0 <= i < digits@.len() ==> digits@[i] < 10,
            dec_repr(n as nat) == dec_repr(m as nat) + digits@.map_values(
                |d: u64| digit_char(d as nat),
            ).reverse(),
        ensures
            forall|i: int| 0 <= i < digits@.len() ==> digits@[i] < 10,
            dec_repr(n as nat) == digits@.map_values(|d: u64| digit_char(d as nat)).reverse(),
        decreases m,
    {
        let ghost m_entry = m as nat;
        let d: u64 = m % 10;
        let ghost pre = digits@;
        digits.push(d);
        m = m / 10;
        proof {
            let f = |d: u64| digit_char(d as nat);
            assert(digits@ =~= pre.push(d));
            assert(digits@.map_values(f) =~= pre.map_values(f).push(digit_char(d as nat)));
            assert(digits@.map_values(f).reverse() =~= seq![digit_char(d as nat)]
                + pre.map_values(f).reverse());
        }
        if m == 0 {
            proof {
                assert(m_entry < 10);
                assert(d as nat == m_entry);
                assert(dec_repr(m_entry) =~= seq![digit_char(d as nat)]);
                assert(dec_repr(n as nat) =~= digits@.map_values(
                    |d: u64| digit_char(d as nat),
                ).reverse());
            }
            break;
        }
        proof {
            assert(dec_repr(m_entry) == dec_repr(m as nat).push(digit_char(d as nat)));
            assert(dec_repr(m_entry) =~= dec_repr(m as nat) + seq![digit_char(d as nat)]);
            assert(dec_repr(n as nat) =~= dec_repr(m as nat) + digits@.map_values(
                |d: u64| digit_char(d as nat),
            ).reverse());
        }
    }
    let ghost rep = dec_repr(n as nat);
    let mut i: usize = digits.len();
    while i > 0
        invariant
            i <= digits@.len(),
            forall|k: int| 0 <= k < digits@.len() ==> digits@[k] < 10,
            rep == digits@.map_values(|d: u64| digit_char(d as nat)).reverse(),
            out@ == old(out)@ + rep.take(digits@.len() - i),
        decreases i,
    {
        i = i - 1;
        let ds = digit_str(digits[i]);
        out.append(ds);
        proof {
            let f = |d: u64| digit_char(d as nat);
            let len = digits@.len() as int;
            assert(rep[len - 1 - i] == digits@.map_values(f)[i as int]);
            assert(rep.take(len - i as int) =~= rep.take(len - i - 1).push(
                rep[len - 1 - i as int],
            ));
        }
    }
    proof {
        assert(rep.take(digits@.len() as int) =~= rep);
    }
}

fn is_space_exec(c: char) -> (b: bool)
    ensures
        b == is_space_char(c),
{
    c == ' ' || c == '\t' || c == '\n' || c == '\x0c' || c == '\r'
}

/// Splits a payload into its maximal runs of non-whitespace characters.
pub(crate) fn tokenize<'a>(s: &'a str) -> (r: Vec<&'a str>)
    ensures
        r@.map_values(|t: &str| t@) == tokens(s@),
{
    let len = s.unicode_len();
    let mut r: Vec<&'a str> = Vec::new();
    let mut i: usize = 0;
    proof {
        assert(s@.skip(0) =~= s@);
        assert(r@.map_values(|t: &str| t@) =~= Seq::<Seq<char>>::empty());
        assert(tokens(s@) =~= r@.map_values(|t: &str| t@) + tokens(s@.skip(0)));
    }
    while i < len
        invariant
            i <= len,
            len == s@.len(),
            tokens(s@) == r@.map_values(|t: &str| t@) + tokens(s@.skip(i as int)),
        decreases len - i,
    {
        let c = s.get_char(i);
        if is_space_exec(c) {
            proof {
                lemma_tokens_skip_space(s@.skip(i as int));
                assert(s@.skip(i as int).drop_first() =~= s@.skip(i + 1));
            }
            i = i + 1;
        } else {
            let mut j: usize = i + 1;
            while j < len && !is_space_exec(s.get_char(j))
                invariant
                    i < j <= len,
                    len == s@.len(),
                    forall|k: int| i <= k < j ==> !is_space_char(s@[k]),
                decreases len - j,
            {
                j = j + 1;
            }
            let tok = s.substring_char(i, j);
            let ghost pre = r@;
            r.push(tok);
            proof {
                let f = |t: &str| t@;
                let t = s@.subrange(i as int, j as int);
                let rest = s@.skip(j as int);
                assert(t + rest =~= s@.skip(i as int));
                assert(rest.len() == 0 || is_space_char(rest[0]));
                assert(forall|k: int| 0 <= k < t.len() ==> !is_space_char(#[trigger] t[k]));
                lemma_tokens_take_token(t, rest);
                assert(r@ =~= pre.push(tok));
                assert(r@.map_values(f) =~= pre.map_values(f).push(t));
                assert(pre.map_values(f).push(t) + tokens(rest) =~= pre.map_values(f) + (seq![t]
                    + tokens(rest)));
                assert(tokens(s@) == r@.map_values(f) + tokens(s@.skip(j as int)));
            }
            i = j;
        }
    }
    proof {
        assert(s@.skip(len as int) =~= Seq::<char>::empty());
        assert(tokens(s@) =~= r@.map_values(|t: &str| t@));
    }
    r
}

/// Reads one base-10 token, refusing values above `max`.
pub(crate) fn parse_wire_token(t: &str, max: u64) -> (r: Option<u64>)
    requires
        max <= 0xFFFF_FFFFu64,
    ensures
        match parse_token(t@) {
            Some(v) => if v <= max as nat {
                r matches Some(x) && x as nat == v
            } else {
                r is None
            },
            None => r is None,
        },
{
    let len = t.unicode_len();
    if len == 0 {
        return None;
    }
    let mut acc: u64 = 0;
    let mut k: usize = 0;
    while k < len
        invariant
            k <= len,
            len == t@.len(),
            max <= 0xFFFF_FFFFu64,
            forall|q: int| 0 <= q < k ==> is_digit_char(t@[q]),
            acc as nat == token_value(t@.take(k as int)),
            acc <= max,
        decreases len - k,
    {
        let c = t.get_char(k);
        let cv = c as u32;
        if cv < 48 || cv > 57 {
            proof {
                assert(!is_digit_char(t@[k as int]));
                assert(!all_digits(t@));
            }
            return None;
        }
        let d: u64 = (cv - 48) as u64;
        let next: u64 = acc * 10 + d;
        proof {
            assert(t@.take(k + 1).drop_last() =~= t@.take(k as int));
            assert(t@.take(k + 1).last() == t@[k as int]);
            assert(digit_value(t@[k as int]) == d as nat);
            assert(token_value(t@.take(k + 1)) == acc as nat * 10 + d as nat);
        }
        if next > max {
            proof {
                if parse_token(t@) is Some {
                    lemma_token_value_prefix(t@, k + 1);
                    assert(token_value(t@) >= next as nat);
                }
            }
            return None;
        }
        acc = next;
        k = k + 1;
    }
    proof {
        assert(t@.take(len as int) =~= t@);
        assert(all_digits(t@));
    }
    Some(acc)
}

/// What a payload decodes to as a list of `T`-sized numbers: the token
/// values, provided every token parses and every value fits in `T`.
pub open spec fn decode_wire_list<T: WireNumber>(s: Seq<char>) -> Option<Seq<nat>> {
    match decode_list(s) {
        Some(vals) => if forall|i: int| 0 <= i < vals.len() ==> #[trigger] vals[i]
            <= T::max_natural() {
            Some(vals)
        } else {
            None
        },
        None => None,
    }
}

/// Decodes a whitespace-separated list of base-10 numbers.
pub fn string_to_numerical_vec<T: WireNumber>(input: &str) -> (r: Result<Vec<T>, FocusError>)
    ensures
        match decode_wire_list::<T>(input@) {
            Some(vals) => r matches Ok(v) && v@.map_values(|x: T| x.as_natural()) == vals,
            None => r matches Err(e) && (e matches FocusError::ParseNumericalVecError {
                string,
            } && string@ == input@),
        },
{
    let toks = tokenize(input);
    let max = T::max_wire();
    let mut out: Vec<T> = Vec::new();
    let mut i: usize = 0;
    proof {
        assert(toks@.map_values(|t: &str| t@).len() == tokens(input@).len());
    }
    while i < toks.len()
        invariant
            i <= toks@.len(),
            max as nat == T::max_natural(),
            max <= 0xFFFF_FFFFu64,
            toks@.map_values(|t: &str| t@) == tokens(input@),
            out@.len() == i,
            forall|q: int| 0 <= q < i ==> parse_token(#[trigger] tokens(input@)[q]) is Some,
            forall|q: int|
                0 <= q < i ==> parse_token(#[trigger] tokens(input@)[q]).unwrap()
                    <= T::max_natural(),
            forall|q: int|
                0 <= q < i ==> (#[trigger] out@[q]).as_natural() == parse_token(
                    tokens(input@)[q],
                ).unwrap(),
        decreases toks@.len() - i,
    {
        proof {
            assert(toks@[i as int]@ == tokens(input@)[i as int]);
        }
        match parse_wire_token(toks[i], max) {
            Some(x) => {
                out.push(T::from_wire(x));
            },
            None => {
                proof {
                    let tv = tokens(input@);
                    match parse_token(tv[i as int]) {
                        Some(v) => {
                            assert(v > T::max_natural());
                            match decode_list(input@) {
                                Some(vals) => {
                                    assert(vals[i as int] == v);
                                    assert(!(forall|q: int|
                                        0 <= q < vals.len() ==> #[trigger] vals[q]
                                            <= T::max_natural()));
                                },
                                None => {},
                            }
                        },
                        None => {
                            assert(decode_list(input@) is None);
                        },
                    }
                    assert(decode_wire_list::<T>(input@) is None);
                }
                return Err(FocusError::ParseNumericalVecError { string: input.to_owned() });
            },
        }
        i = i + 1;
    }
    proof {
        let tv = tokens(input@);
        assert(decode_list(input@) matches Some(vals) && vals =~= out@.map_values(
            |x: T| x.as_natural(),
        ));
        assert(decode_wire_list::<T>(input@) == Some(out@.map_values(|x: T| x.as_natural())));
    }
    Ok(out)
}

/// The round trip of the typed vector codec: for any number type that
/// travels on the wire in base 10, decoding an encoded vector yields the
/// vector's values, with nothing rejected and nothing altered.
pub proof fn lemma_wire_list_round_trip<T: WireNumber>(data: Seq<T>)
    ensures
        decode_wire_list::<T>(encode_list(data.map_values(|x: T| x.as_natural()))) == Some(
            data.map_values(|x: T| x.as_natural()),
        ),
{
    let vals = data.map_values(|x: T| x.as_natural());
    lemma_numeric_list_round_trip(vals);
    assert forall|i: int| 0 <= i < vals.len() implies #[trigger] vals[i] <= T::max_natural() by {
        data[i].lemma_within_range();
        assert(vals[i] == data[i].as_natural());
    }
}

/// Encodes a list of numbers for the wire: base-10, single spaces between.
pub fn numerical_vec_to_string<T: WireNumber>(data: &Vec<T>) -> (r: String)
    ensures
        r@ == encode_list(data@.map_values(|x: T| x.as_natural())),
{
    let ghost m = data@.map_values(|x: T| x.as_natural());
    let mut out = String::new();
    let mut i: usize = 0;
    proof {
        reveal_strlit(" ");
    }
    while i < data.len()
        invariant
            i <= data@.len(),
            m == data@.map_values(|x: T| x.as_natural()),
            out@ == encode_list(m.take(i as int)),
        decreases data@.len() - i,
    {
        if i > 0 {
            out.append(" ");
        }
        let n = data[i].to_wire();
        push_decimal(&mut out, n);
        proof {
            reveal_strlit(" ");
            assert(m[i as int] == data@[i as int].as_natural());
            assert(n as nat == m[i as int]);
            lemma_encode_push(m.take(i as int), m[i as int]);
            assert(m.take(i as int).push(m[i as int]) =~= m.take(i + 1));
            assert(out@ =~= encode_list(m.take(i + 1)));
        }
        i = i + 1;
    }
    proof {
        assert(m.take(data@.len() as int) =~= m);
    }
    out
}

} // verus!
