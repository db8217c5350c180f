//! Text helpers: number formatting, string comparison and the conversions
//! between bytes and strings that the checks and the report rely on.
use vstd::prelude::*;
use vstd::utf8::{decode_utf8, valid_utf8};

verus! {

/// The character that shows a digit below ten.
pub open spec fn digit_char(d: nat) -> char {
    if d == 0 { '0' }
    else if d == 1 { '1' }
    else if d == 2 { '2' }
    else if d == 3 { '3' }
    else if d == 4 { '4' }
    else if d == 5 { '5' }
    else if d == 6 { '6' }
    else if d == 7 { '7' }
    else if d == 8 { '8' }
    else { '9' }
}

/// The digits of `n` written in base `radix` (2 to 10), most significant first,
/// without leading zeros (zero is written as a single `0`).
pub open spec fn radix_digits(n: nat, radix: nat) -> Seq<char>
    decreases n,
{
    if radix < 2 || n < radix {
        seq![digit_char(n)]
    } else {
        proof {
            assert(n / radix < n) by (nonlinear_arith)
                requires
                    radix >= 2,
                    n >= radix,
            ;
        }
        radix_digits(n / radix, radix) + seq![digit_char(n % radix)]
    }
}

/// The string that a digit below ten is written as.
fn digit_str(d: u64) -> (s: &'static str)
    requires
        d < 10,
    ensures
        s@ == seq![digit_char(d as nat)],
{
    proof {
        reveal_strlit("0");
        reveal_strlit("1");
        reveal_strlit("2");
        reveal_strlit("3");
        reveal_strlit("4");
        reveal_strlit("5");
        reveal_strlit("6");
        reveal_strlit("7");
        reveal_strlit("8");
        reveal_strlit("9");
    }
    if d == 0 { "0" }
    else if d == 1 { "1" }
    else if d == 2 { "2" }
    else if d == 3 { "3" }
    else if d == 4 { "4" }
    else if d == 5 { "5" }
    else if d == 6 { "6" }
    else if d == 7 { "7" }
    else if d == 8 { "8" }
    else { "9" }
}

/// Appends the digits of `n` in base `radix` to `out`.
pub fn push_radix(out: &mut String, n: u64, radix: u64)
    requires
        2 <= radix <= 10,
    ensures
        final(out)@ == old(out)@ + radix_digits(n as nat, radix as nat),
    decreases n,
{
    if n < radix {
        out.append(digit_str(n));
    } else {
        assert(n / radix < n) by (nonlinear_arith)
            requires
                radix >= 2,
                n >= radix,
        ;
        push_radix(out, n / radix, radix);
        out.append(digit_str(n % radix));
    }
}


/// The value of a digit character.
pub open spec fn digit_value(c: char) -> int {
    c as int - 48
}

/// The number that digits in base `radix` stand for, most significant first.
pub open spec fn radix_value(s: Seq<char>, radix: nat) -> int
    decreases s.len(),
{
    if s.len() == 0 {
        0
    } else {
        radix_value(s.drop_last(), radix) * radix + digit_value(s.last())
    }
}

/// `radix` to the power `k`.
pub open spec fn power(radix: nat, k: nat) -> nat
    decreases k,
{
    if k == 0 {
        1
    } else {
        radix * power(radix, (k - 1) as nat)
    }
}

proof fn lemma_digit_char(d: nat)
    requires
        d < 10,
    ensures
        digit_value(digit_char(d)) == d,
{
}

proof fn lemma_radix_digits(n: nat, radix: nat)
    requires
        2 <= radix <= 10,
    ensures
        radix_value(radix_digits(n, radix), radix) == n,
        radix_digits(n, radix).len() >= 1,
        forall|i: int|
            0 <= i < radix_digits(n, radix).len() ==> 0 <= digit_value(
                #[trigger] radix_digits(n, radix)[i],
            ) < radix,
    decreases n,
{
    let d = radix_digits(n, radix);
    if n < radix {
        lemma_digit_char(n);
        assert(d.drop_last() =~= Seq::<char>::empty());
        assert(d.last() == digit_char(n));
        assert(radix_value(d.drop_last(), radix) == 0);
        assert(radix_value(d, radix) == 0 * radix + digit_value(digit_char(n)));
    } else {
        assert(n / radix < n) by (nonlinear_arith)
            requires
                radix >= 2,
                n >= radix,
        ;
        lemma_radix_digits(n / radix, radix);
        vstd::arithmetic::div_mod::lemma_fundamental_div_mod(n as int, radix as int);
        let q = (n / radix) as nat;
        let r = (n % radix) as nat;
        assert(r < radix);
        lemma_digit_char(r);
        assert(d.drop_last() =~= radix_digits(q, radix));
        assert(d.last() == digit_char(r));
        assert(radix_value(d, radix) == q * radix + r);
        assert(q * radix + r == n) by (nonlinear_arith)
            requires
                n == radix * q + r,
        ;
        assert forall|i: int| 0 <= i < d.len() implies 0 <= digit_value(#[trigger] d[i])
            < radix by {
            if i < d.len() - 1 {
                assert(d[i] == radix_digits(q, radix)[i]);
            }
        }
    }
}

proof fn lemma_radix_digits_len(n: nat, radix: nat, k: nat)
    requires
        2 <= radix <= 10,
        1 <= k,
        n < power(radix, k),
    ensures
        radix_digits(n, radix).len() <= k,
    decreases k,
{
    if n >= radix {
        assert(n / radix < n) by (nonlinear_arith)
            requires
                radix >= 2,
                n >= radix,
        ;
        if k == 1 {
            assert(power(radix, 0) == 1);
            assert(power(radix, 1) == radix * power(radix, 0));
            assert(radix * 1 == radix) by (nonlinear_arith);
            assert(false);
        } else {
            let p = power(radix, (k - 1) as nat);
            assert(power(radix, k) == radix * p);
            assert(n / radix < p) by (nonlinear_arith)
                requires
                    n < radix * p,
                    radix >= 2,
            ;
            lemma_radix_digits_len(n / radix, radix, (k - 1) as nat);
            assert(radix_digits(n, radix) == radix_digits(n / radix, radix) + seq![
                digit_char(n % radix),
            ]);
        }
    }
}

proof fn lemma_zeros_value(z: nat, radix: nat)
    ensures
        radix_value(Seq::new(z, |i: int| '0'), radix) == 0,
    decreases z,
{
    if z > 0 {
        assert(Seq::new(z, |i: int| '0').drop_last() =~= Seq::new((z - 1) as nat, |i: int| '0'));
        lemma_zeros_value((z - 1) as nat, radix);
    }
}

proof fn lemma_leading_zeros_value(z: nat, s: Seq<char>, radix: nat)
    ensures
        radix_value(Seq::new(z, |i: int| '0') + s, radix) == radix_value(s, radix),
    decreases s.len(),
{
    let zs = Seq::new(z, |i: int| '0');
    if s.len() == 0 {
        assert(zs + s =~= zs);
        lemma_zeros_value(z, radix);
    } else {
        assert((zs + s).drop_last() =~= zs + s.drop_last());
        lemma_leading_zeros_value(z, s.drop_last(), radix);
    }
}

/// The digits of `n` in base `radix` read back as `n`, each is a digit of
/// that base, and the first is not zero unless `n` is.
pub proof fn law_radix_digits_read_back(n: nat, radix: nat)
    requires
        2 <= radix <= 10,
    ensures
        radix_value(radix_digits(n, radix), radix) == n,
        radix_digits(n, radix).len() >= 1,
        forall|i: int|
            0 <= i < radix_digits(n, radix).len() ==> 0 <= digit_value(
                #[trigger] radix_digits(n, radix)[i],
            ) < radix,
        n > 0 ==> digit_value(radix_digits(n, radix)[0]) != 0,
    decreases n,
{
    lemma_radix_digits(n, radix);
    if n >= radix {
        assert(n / radix < n) by (nonlinear_arith)
            requires
                radix >= 2,
                n >= radix,
        ;
        assert(n / radix > 0) by (nonlinear_arith)
            requires
                radix >= 2,
                n >= radix,
        ;
        law_radix_digits_read_back(n / radix, radix);
        assert(radix_digits(n, radix)[0] == radix_digits(n / radix, radix)[0]);
    } else if n > 0 {
        lemma_digit_char(n);
    }
}

/// A mode that fits in twelve bits is written as exactly four octal digits,
/// which read back as the mode.
pub proof fn law_octal_mode_round_trip(mode: u32)
    requires
        mode <= 0o7777u32,
    ensures
        octal4(mode as nat).len() == 4,
        forall|i: int| 0 <= i < 4 ==> 0 <= #[trigger] digit_value(octal4(mode as nat)[i]) < 8,
        radix_value(octal4(mode as nat), 8) == mode,
{
    let d = radix_digits(mode as nat, 8);
    lemma_radix_digits(mode as nat, 8);
    assert(power(8, 0) == 1);
    assert(power(8, 1) == 8);
    assert(power(8, 2) == 64);
    assert(power(8, 3) == 512);
    assert(power(8, 4) == 4096);
    lemma_radix_digits_len(mode as nat, 8, 4);
    let o = octal4(mode as nat);
    if d.len() < 4 {
        let z = (4 - d.len()) as nat;
        lemma_leading_zeros_value(z, d, 8);
        assert forall|i: int| 0 <= i < 4 implies 0 <= #[trigger] digit_value(o[i]) < 8 by {
            if i >= z {
                assert(o[i] == d[i - z]);
            }
        }
    }
}

/// `s` with `0` characters in front of it, up to `width` characters in all.
pub open spec fn zero_padded(s: Seq<char>, width: nat) -> Seq<char> {
    if s.len() < width {
        Seq::new((width - s.len()) as nat, |i: int| '0') + s
    } else {
        s
    }
}

/// `n` in octal with at least four digits, zeros in front (as `{:04o}` writes it).
pub open spec fn octal4(n: nat) -> Seq<char> {
    zero_padded(radix_digits(n, 8), 4)
}

/// `n` in decimal.
pub open spec fn decimal(n: nat) -> Seq<char> {
    radix_digits(n, 10)
}

/// Writes `n` in base `radix` with at least `width` digits.
pub fn format_radix(n: u64, radix: u64, width: usize) -> (s: String)
    requires
        2 <= radix <= 10,
    ensures
        s@ == zero_padded(radix_digits(n as nat, radix as nat), width as nat),
{
    let mut digits = String::new();
    push_radix(&mut digits, n, radix);
    let count = digits.as_str().unicode_len();
    let mut out = String::new();
    if count < width {
        let zeros = width - count;
        let mut i: usize = 0;
        while i < zeros
            invariant
                i <= zeros,
                out@ == Seq::new(i as nat, |j: int| '0'),
            decreases zeros - i,
        {
            proof {
                reveal_strlit("0");
            }
            out.append("0");
            i = i + 1;
            assert(out@ =~= Seq::new(i as nat, |j: int| '0'));
        }
    }
    out.append(digits.as_str());
    assert(out@ =~= zero_padded(radix_digits(n as nat, radix as nat), width as nat));
    out
}

/// The octal text of a permission mode, four digits at least ("0644").
pub fn octal_mode(mode: u32) -> (s: String)
    ensures
        s@ == octal4(mode as nat),
{
    format_radix(mode as u64, 8, 4)
}

/// The decimal text of a count.
pub fn decimal_count(n: usize) -> (s: String)
    ensures
        s@ == decimal(n as nat),
{
    format_radix(n as u64, 10, 0)
}

/// Whether `prefix` is the beginning of `s`.
pub open spec fn starts_with(s: Seq<char>, prefix: Seq<char>) -> bool {
    prefix.len() <= s.len() && s.subrange(0, prefix.len() as int) == prefix
}

/// Whether two strings hold the same characters.
pub fn str_eq(a: &str, b: &str) -> (r: bool)
    ensures
        r == (a@ == b@),
{
    let x = a.to_owned();
    let y = b.to_owned();
    x == y
}

/// Whether `s` begins with `prefix`.
pub fn str_starts_with(s: &str, prefix: &str) -> (r: bool)
    ensures
        r == starts_with(s@, prefix@),
{
    let k = prefix.unicode_len();
    if s.unicode_len() < k {
        false
    } else {
        str_eq(s.substring_char(0, k), prefix)
    }
}

/// A character with its ASCII capital letter, if it is one, made small.
pub open spec fn ascii_lower_char(c: char) -> char {
    if 'A' <= c && c <= 'Z' {
        ((c as u32) + 32) as char
    } else {
        c
    }
}

/// A text with every ASCII capital letter made small, all other characters kept.
pub open spec fn ascii_lower(s: Seq<char>) -> Seq<char> {
    s.map_values(|c: char| ascii_lower_char(c))
}

/// Calls `str::to_ascii_lowercase`. Its documentation says that it maps the
/// ASCII letters 'A' to 'Z' to 'a' to 'z' and leaves every other character
/// unchanged; the contract states exactly that.
#[verifier::external_body]
pub(crate) fn to_ascii_lowercase(s: &str) -> (res: String)
    ensures
        res@ == ascii_lower(s@),
{
    s.to_ascii_lowercase()
}

/// Calls `String::from_utf8`. Its documentation says that it fails exactly
/// when the bytes are not valid UTF-8, and otherwise holds the text that they
/// encode; the contract states that, with vstd's definitions of UTF-8.
#[verifier::external_body]
pub(crate) fn string_from_utf8(bytes: Vec<u8>) -> (res: Option<String>)
    ensures
        match res {
            Some(s) => valid_utf8(bytes@) && s@ == decode_utf8(bytes@),
            None => !valid_utf8(bytes@),
        },
{
    String::from_utf8(bytes).ok()
}

/// What `String::from_utf8_lossy` makes of a byte string: each sequence of
/// bytes that is not valid UTF-8 stands as U+FFFD in it.
pub uninterp spec fn lossy_text(bytes: Seq<u8>) -> Seq<char>;

/// Calls `String::from_utf8_lossy`, which is how a path is shown on Unix.
/// The contract names its result and states the one fact its documentation
/// gives plainly: valid UTF-8 is decoded unchanged. How invalid sequences are
/// replaced is left unstated.
#[verifier::external_body]
pub(crate) fn lossy_string(bytes: &[u8]) -> (res: String)
    ensures
        res@ == lossy_text(bytes@),
        valid_utf8(bytes@) ==> res@ == decode_utf8(bytes@),
{
    String::from_utf8_lossy(bytes).into_owned()
}

/// How a path's bytes are shown: decoded when they are valid UTF-8, else
/// with each invalid sequence replaced as `String::from_utf8_lossy` does.
pub open spec fn shown_text(bytes: Seq<u8>) -> Seq<char> {
    if valid_utf8(bytes) {
        decode_utf8(bytes)
    } else {
        lossy_text(bytes)
    }
}

/// The text a path's bytes are shown as.
pub fn shown_path(bytes: &[u8]) -> (res: String)
    ensures
        res@ == shown_text(bytes@),
{
    lossy_string(bytes)
}

} // verus!
