use vstd::prelude::*;
use vstd::arithmetic::div_mod::{lemma_fundamental_div_mod_converse, lemma_mod_breakdown};
use crate::error::ControlError;

verus! {

#[verifier::external_type_specification]
#[verifier::external_body]
pub struct ExSpotifyError(librespot::core::Error);

/// Number of base62 characters in the text form of a track id.
pub const ID_TEXT_LEN: usize = 22;

/// A track identifier: a 128-bit value.
#[derive(Clone, Copy, Debug, PartialEq, Eq, Structural)]
pub struct TrackId {
    pub id: u128,
}

/// `c` is one of `0-9`, `a-z`, `A-Z`.
pub open spec fn is_base62_digit(c: char) -> bool {
    ('0' <= c && c <= '9') || ('a' <= c && c <= 'z') || ('A' <= c && c <= 'Z')
}

/// The value of a base62 digit: `0-9` are 0 to 9, `a-z` 10 to 35, `A-Z` 36 to 61.
pub open spec fn digit_value(c: char) -> int {
    if '0' <= c && c <= '9' {
        c as int - '0' as int
    } else if 'a' <= c && c <= 'z' {
        c as int - 'a' as int + 10
    } else {
        c as int - 'A' as int + 36
    }
}

/// The base62 digit of value `d`, for `0 <= d < 62`.
pub open spec fn digit_char(d: int) -> char {
    if d < 10 {
        ((d + 48) as u8) as char
    } else if d < 36 {
        ((d - 10 + 97) as u8) as char
    } else {
        ((d - 36 + 65) as u8) as char
    }
}

pub open spec fn is_base62(s: Seq<char>) -> bool {
    forall|i: int| 0 <= i < s.len() ==> #[trigger] is_base62_digit(s[i])
}

/// The number that `s` writes in base62, most significant digit first.
pub open spec fn base62_value(s: Seq<char>) -> int
    decreases s.len(),
{
    if s.len() == 0 {
        0
    } else {
        base62_value(s.drop_last()) * 62 + digit_value(s.last())
    }
}

/// The last `width` base62 digits of `n`, most significant first, with
/// leading zeros.
pub open spec fn base62_text(n: nat, width: nat) -> Seq<char>
    decreases width,
{
    if width == 0 {
        Seq::empty()
    } else {
        base62_text(n / 62, (width - 1) as nat).push(digit_char((n % 62) as int))
    }
}

/// `s` is the text form of a track id: 22 base62 digits whose value fits
/// in 128 bits.
pub open spec fn is_track_text(s: Seq<char>) -> bool {
    s.len() == ID_TEXT_LEN && is_base62(s) && base62_value(s) <= u128::MAX
}

/// The text form of a track id.
pub open spec fn track_text(t: TrackId) -> Seq<char> {
    base62_text(t.id as nat, ID_TEXT_LEN as nat)
}

pub open spec fn pow62(k: nat) -> nat
    decreases k,
{
    if k == 0 {
        1
    } else {
        62 * pow62((k - 1) as nat)
    }
}

proof fn lemma_digit_round_trip(d: int)
    requires
        0 <= d < 62,
    ensures
        is_base62_digit(digit_char(d)),
        digit_value(digit_char(d)) == d,
{
}

proof fn lemma_char_round_trip(c: char)
    requires
        is_base62_digit(c),
    ensures
        0 <= digit_value(c) < 62,
        digit_char(digit_value(c)) == c,
{
}

proof fn lemma_pow62_positive(k: nat)
    ensures
        pow62(k) > 0,
    decreases k,
{
    if k > 0 {
        lemma_pow62_positive((k - 1) as nat);
    }
}

proof fn lemma_text_value(n: nat, width: nat)
    ensures
        base62_text(n, width).len() == width,
        is_base62(base62_text(n, width)),
        base62_value(base62_text(n, width)) == n % pow62(width),
    decreases width,
{
    lemma_pow62_positive(width);
    if width > 0 {
        let w1 = (width - 1) as nat;
        let t = base62_text(n, width);
        lemma_text_value(n / 62, w1);
        lemma_digit_round_trip((n % 62) as int);
        assert(t.drop_last() == base62_text(n / 62, w1));
        lemma_pow62_positive(w1);
        lemma_mod_breakdown(n as int, 62, pow62(w1) as int);
        assert(base62_value(t) == base62_value(t.drop_last()) * 62 + digit_value(t.last()));
        assert(t.last() == digit_char((n % 62) as int));
        assert(pow62(width) == 62 * pow62(w1));
    }
}

proof fn lemma_value_text(s: Seq<char>)
    requires
        is_base62(s),
    ensures
        base62_value(s) >= 0,
        base62_text(base62_value(s) as nat, s.len()) == s,
    decreases s.len(),
{
    if s.len() > 0 {
        let p = s.drop_last();
        assert(is_base62(p)) by {
            assert forall|i: int| 0 <= i < p.len() implies #[trigger] is_base62_digit(p[i]) by {
                assert(p[i] == s[i]);
            }
        }
        lemma_value_text(p);
        assert(is_base62_digit(s[s.len() - 1]));
        lemma_char_round_trip(s.last());
        let v = base62_value(s);
        lemma_fundamental_div_mod_converse(v, 62, base62_value(p), digit_value(s.last()));
        assert(base62_text(v as nat, s.len()) == p.push(s.last()));
        assert(p.push(s.last()) =~= s);
    }
}

proof fn lemma_pow62_22()
    ensures
        pow62(22) > u128::MAX,
{
    reveal_with_fuel(pow62, 23);
}

/// Encoding a track id and decoding the text gives the id back: the text is
/// valid and its value is the id.
pub proof fn lemma_decode_encode(t: TrackId)
    ensures
        track_text(t).len() == ID_TEXT_LEN,
        is_id_text(track_text(t)),
        base62_value(track_text(t)) == t.id,
{
    lemma_text_value(t.id as nat, ID_TEXT_LEN as nat);
    lemma_pow62_22();
    vstd::arithmetic::div_mod::lemma_small_mod(t.id as nat, pow62(22));
}

/// Decoding a valid text of 22 digits and encoding the id gives the text
/// back.
pub proof fn lemma_encode_decode(s: Seq<char>)
    requires
        s.len() == ID_TEXT_LEN,
        is_id_text(s),
    ensures
        track_text(TrackId { id: base62_value(s) as u128 }) == s,
{
    lemma_value_text(s);
}

/// Relies on librespot's `SpotifyId::from_base62`: it accepts exactly 22
/// bytes, each a base62 digit, whose value (checked against overflow at each
/// step) fits in a `u128`, and returns that value.
#[verifier::external_body]
fn spotify_id_from_base62(s: &str) -> (r: Result<u128, librespot::core::Error>)
    ensures
        r is Ok <==> is_track_text(s@),
        r is Ok ==> r->Ok_0 == base62_value(s@),
{
    librespot::core::SpotifyId::from_base62(s).map(|sid| sid.id)
}

/// Relies on librespot's `SpotifyId::to_base62`: it writes the id as 22
/// base62 digits with leading zeros and never fails.
#[verifier::external_body]
fn spotify_id_to_base62(id: u128) -> (r: Result<String, librespot::core::Error>)
    ensures
        r is Ok,
        r is Ok ==> r->Ok_0@ == base62_text(id as nat, ID_TEXT_LEN as nat),
{
    librespot::core::SpotifyId { id }.to_base62()
}

/// Every character of `s` is `0`.
pub open spec fn all_zero_digits(s: Seq<char>) -> bool {
    forall|i: int| 0 <= i < s.len() ==> s[i] == '0'
}

/// `s` writes a track id: base62 digits, of any number, whose value fits
/// in 128 bits.
pub open spec fn is_id_text(s: Seq<char>) -> bool {
    is_base62(s) && base62_value(s) <= u128::MAX
}

proof fn lemma_base62_concat(a: Seq<char>, b: Seq<char>)
    ensures
        is_base62(a + b) == (is_base62(a) && is_base62(b)),
{
    let c = a + b;
    if is_base62(c) {
        assert forall|i: int| 0 <= i < a.len() implies #[trigger] is_base62_digit(a[i]) by {
            assert(c[i] == a[i]);
        }
        assert forall|i: int| 0 <= i < b.len() implies #[trigger] is_base62_digit(b[i]) by {
            assert(c[a.len() + i] == b[i]);
        }
    }
    if is_base62(a) && is_base62(b) {
        assert forall|i: int| 0 <= i < c.len() implies #[trigger] is_base62_digit(c[i]) by {
            if i < a.len() {
                assert(c[i] == a[i]);
            } else {
                assert(c[i] == b[i - a.len()]);
            }
        }
    }
}

proof fn lemma_value_concat(a: Seq<char>, b: Seq<char>)
    ensures
        base62_value(a + b) == base62_value(a) * pow62(b.len()) + base62_value(b),
    decreases b.len(),
{
    if b.len() == 0 {
        assert(a + b =~= a);
        assert(pow62(0) == 1);
        assert(base62_value(b) == 0);
        assert(base62_value(a) * 1 == base62_value(a));
    } else {
        let b1 = b.drop_last();
        lemma_value_concat(a, b1);
        assert((a + b).drop_last() =~= a + b1);
        assert((a + b).last() == b.last());
        let va = base62_value(a);
        let p1 = pow62(b1.len());
        let v1 = base62_value(b1);
        let d = digit_value(b.last());
        assert(pow62(b.len()) == 62 * p1);
        assert(base62_value(a + b) == base62_value(a + b1) * 62 + d);
        assert(base62_value(b) == v1 * 62 + d);
        assert((va * p1 + v1) * 62 + d == va * (62 * p1) + (v1 * 62 + d)) by (nonlinear_arith);
        assert(base62_value(a + b1) == va * p1 + v1);
        assert(base62_value(a + b) == va * pow62(b.len()) + base62_value(b));
    }
}

proof fn lemma_zeros_value(z: Seq<char>)
    requires
        all_zero_digits(z),
    ensures
        is_base62(z),
        base62_value(z) == 0,
    decreases z.len(),
{
    if z.len() > 0 {
        let z1 = z.drop_last();
        assert(all_zero_digits(z1)) by {
            assert forall|i: int| 0 <= i < z1.len() implies z1[i] == '0' by {
                assert(z1[i] == z[i]);
            }
        }
        lemma_zeros_value(z1);
        assert(z.last() == '0');
        assert(z =~= z1.push(z.last()));
        lemma_base62_concat(z1, seq![z.last()]);
        assert(z1 + seq![z.last()] =~= z);
    }
}

proof fn lemma_value_positive(a: Seq<char>)
    requires
        is_base62(a),
        !all_zero_digits(a),
    ensures
        base62_value(a) >= 1,
    decreases a.len(),
{
    let a1 = a.drop_last();
    assert(is_base62(a1)) by {
        assert forall|i: int| 0 <= i < a1.len() implies #[trigger] is_base62_digit(a1[i]) by {
            assert(a1[i] == a[i]);
        }
    }
    assert(is_base62_digit(a[a.len() - 1]));
    lemma_value_text(a1);
    if a.last() == '0' {
        assert(!all_zero_digits(a1)) by {
            let i = choose|i: int| 0 <= i < a.len() && a[i] != '0';
            assert(i < a.len() - 1);
            assert(a1[i] == a[i]);
        }
        lemma_value_positive(a1);
    }
}

proof fn lemma_zero_run(k: nat)
    ensures
        all_zero_digits(Seq::new(k, |i: int| '0')),
{
}

/// Parses the text form of a track id. Leading zeros are optional: the text
/// may be shorter or longer than 22 digits as long as its value fits.
pub fn decode(text: &str) -> (r: Result<TrackId, ControlError>)
    ensures
        r is Ok <==> is_id_text(text@),
        r matches Ok(t) ==> t.id == base62_value(text@),
        r matches Err(e) ==> e == ControlError::MalformedIdentifier,
{
    let n = text.unicode_len();
    if n <= ID_TEXT_LEN {
        let mut padded = String::new();
        let mut i: usize = n;
        proof {
            reveal_strlit("0");
        }
        while i < ID_TEXT_LEN
            invariant
                n <= i <= ID_TEXT_LEN,
                padded@ == Seq::new((i - n) as nat, |j: int| '0'),
                "0"@ == seq!['0'],
            decreases ID_TEXT_LEN - i,
        {
            padded.append("0");
            assert(padded@ =~= Seq::new((i + 1 - n) as nat, |j: int| '0'));
            i = i + 1;
        }
        let ghost z = padded@;
        padded.append(text);
        proof {
            lemma_zero_run(z.len());
            lemma_zeros_value(z);
            lemma_base62_concat(z, text@);
            lemma_value_concat(z, text@);
        }
        match spotify_id_from_base62(padded.as_str()) {
            Ok(id) => Ok(TrackId { id }),
            Err(_) => Err(ControlError::MalformedIdentifier),
        }
    } else {
        let head = text.substring_char(0, n - ID_TEXT_LEN);
        let tail = text.substring_char(n - ID_TEXT_LEN, n);
        assert(text@ =~= head@ + tail@);
        let mut i: usize = 0;
        let hn = n - ID_TEXT_LEN;
        while i < hn
            invariant
                hn == head@.len(),
                i <= hn,
                text@ == head@ + tail@,
                tail@.len() == ID_TEXT_LEN,
                forall|j: int| 0 <= j < i ==> head@[j] == '0',
            decreases hn - i,
        {
            if head.get_char(i) != '0' {
                proof {
                    assert(!all_zero_digits(head@)) by {
                        assert(head@[i as int] != '0');
                    }
                    lemma_base62_concat(head@, tail@);
                    lemma_value_concat(head@, tail@);
                    if is_base62(head@) && is_base62(tail@) {
                        lemma_value_text(tail@);
                        lemma_value_positive(head@);
                        lemma_pow62_22();
                        assert(base62_value(head@) * pow62(22) >= pow62(22)) by (nonlinear_arith)
                            requires
                                base62_value(head@) >= 1,
                                pow62(22) > 0,
                        ;
                        assert(tail@.len() == 22);
                        assert(base62_value(text@) == base62_value(head@) * pow62(22) + base62_value(tail@));
                        assert(base62_value(text@) > u128::MAX);
                    }
                }
                return Err(ControlError::MalformedIdentifier);
            }
            i = i + 1;
        }
        proof {
            lemma_zeros_value(head@);
            lemma_base62_concat(head@, tail@);
            lemma_value_concat(head@, tail@);
        }
        match spotify_id_from_base62(tail) {
            Ok(id) => Ok(TrackId { id }),
            Err(_) => Err(ControlError::MalformedIdentifier),
        }
    }
}

/// Writes a track id in its text form.
pub fn encode(t: TrackId) -> (r: String)
    ensures
        r@ == track_text(t),
{
    match spotify_id_to_base62(t.id) {
        Ok(s) => s,
        Err(_) => String::new(),
    }
}

} // verus!
