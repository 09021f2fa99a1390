use vstd::prelude::*;
use vstd::string::*;
use vstd::utf8::*;

use crate::structures::bytes_view;

verus! {

/// What `String::from_utf8_lossy` makes of `bytes`: the decoded text, with every
/// invalid sequence replaced by U+FFFD.
pub uninterp spec fn utf8_lossy(bytes: Seq<u8>) -> Seq<char>;

/// Calls `String::from_utf8_lossy`. Claimed of it: the result is the value that
/// `utf8_lossy` names for the bytes, and bytes that are valid UTF-8 come back as the
/// text they encode (the documentation: valid input is returned as it is). How invalid
/// sequences are replaced is left to the name and not stated.
#[verifier::external_body]
fn decode_lossy(bytes: &[u8]) -> (text: String)
    ensures
        text@ == utf8_lossy(bytes@),
        valid_utf8(bytes@) ==> encode_utf8(text@) == bytes@,
{
    String::from_utf8_lossy(bytes).into_owned()
}

/// `s` without its trailing NUL characters.
pub open spec fn trim_trailing_nul(s: Seq<char>) -> Seq<char>
    decreases s.len(),
{
    if s.len() > 0 && s.last() == '\0' {
        trim_trailing_nul(s.drop_last())
    } else {
        s
    }
}

/// A text field of the state packet: the bytes decoded leniently as UTF-8, with
/// trailing NUL padding removed; an absent field is the empty text.
pub open spec fn text_field(bytes: Option<Seq<u8>>) -> Seq<char> {
    match bytes {
        Some(b) => trim_trailing_nul(utf8_lossy(b)),
        None => Seq::empty(),
    }
}

/// Whether the lenient decoding of `bytes` is known to agree with strict decoding: it
/// does whenever the bytes are valid UTF-8.
pub open spec fn lossy_agrees_when_valid(bytes: Option<Seq<u8>>) -> bool {
    match bytes {
        Some(b) => valid_utf8(b) ==> utf8_lossy(b) == decode_utf8(b),
        None => true,
    }
}

/// Decodes a text field (see `text_field`). Valid UTF-8 comes back as the text it
/// encodes, without trailing NULs.
pub fn decode_text_field(bytes: Option<&[u8]>) -> (text: String)
    ensures
        text@ == text_field(bytes_view(bytes)),
        lossy_agrees_when_valid(bytes_view(bytes)),
        bytes matches Some(b) ==> (valid_utf8(b@) ==> text@ == trim_trailing_nul(
            decode_utf8(b@),
        )),
{
    match bytes {
        None => String::new(),
        Some(b) => {
            let decoded = decode_lossy(b);
            proof {
                encode_utf8_decode_utf8(decoded@);
            }
            let s = decoded.as_str();
            let mut n = s.unicode_len();
            assert(s@.take(n as int) =~= s@);
            while n > 0 && s.get_char(n - 1) == '\0'
                invariant
                    n <= s@.len(),
                    trim_trailing_nul(s@) == trim_trailing_nul(s@.take(n as int)),
                decreases n,
            {
                assert(s@.take(n as int).drop_last() =~= s@.take(n - 1));
                n = n - 1;
            }
            let kept = s.substring_char(0, n);
            assert(kept@ =~= s@.take(n as int));
            String::from_str(kept)
        },
    }
}

/// The character of the digit `d` in base 16, lower case.
pub open spec fn digit_char(d: nat) -> char {
    if d < 10 {
        (48 + d) as char
    } else {
        (87 + d) as char
    }
}

/// The decimal digits of `n`, most significant first, without leading zeros.
pub open spec fn decimal(n: nat) -> Seq<char>
    decreases n,
{
    if n < 10 {
        seq![digit_char(n)]
    } else {
        decimal(n / 10).push(digit_char(n % 10))
    }
}

/// Two lower-case hexadecimal digits for every byte.
pub open spec fn hex(bytes: Seq<u8>) -> Seq<char>
    decreases bytes.len(),
{
    if bytes.len() == 0 {
        Seq::empty()
    } else {
        hex(bytes.drop_last()) + seq![
            digit_char((bytes.last() / 16) as nat),
            digit_char((bytes.last() % 16) as nat),
        ]
    }
}

/// Trimming removes exactly the trailing NULs: what is kept is a prefix of the text
/// that does not end in NUL, and everything after it is NUL.
pub proof fn lemma_trim_trailing_nul(s: Seq<char>)
    ensures
        trim_trailing_nul(s).len() <= s.len(),
        trim_trailing_nul(s) == s.take(trim_trailing_nul(s).len() as int),
        forall|i: int| trim_trailing_nul(s).len() <= i < s.len() ==> #[trigger] s[i] == '\0',
        trim_trailing_nul(s).len() == 0 || trim_trailing_nul(s).last() != '\0',
    decreases s.len(),
{
    if s.len() > 0 && s.last() == '\0' {
        let init = s.drop_last();
        lemma_trim_trailing_nul(init);
        let t = trim_trailing_nul(init);
        assert(init.take(t.len() as int) =~= s.take(t.len() as int));
        assert forall|i: int| t.len() <= i < s.len() implies #[trigger] s[i] == '\0' by {
            if i < init.len() {
                assert(s[i] == init[i]);
            }
        }
    } else {
        assert(s.take(s.len() as int) =~= s);
    }
}

/// The number that a character stands for as a digit: '0' to '9' are 0 to 9, 'a' to
/// 'f' are 10 to 15; any other character is no digit (-1).
pub open spec fn digit_value(c: char) -> int {
    if '0' as int <= c as int <= '9' as int {
        c as int - '0' as int
    } else if 'a' as int <= c as int <= 'f' as int {
        c as int - 'a' as int + 10
    } else {
        -1
    }
}

/// Whether `c` is one of '0' to '9'.
pub open spec fn is_decimal_digit(c: char) -> bool {
    '0' as int <= c as int <= '9' as int
}

/// The number that a string of decimal digits stands for, most significant first.
pub open spec fn numeral_value(s: Seq<char>) -> int
    decreases s.len(),
{
    if s.len() == 0 {
        0
    } else {
        numeral_value(s.drop_last()) * 10 + digit_value(s.last())
    }
}

/// Whether `s` is a numeral as it is ordinarily written: decimal digits only, at least
/// one, and no leading zero unless it is "0".
pub open spec fn is_decimal_numeral(s: Seq<char>) -> bool {
    &&& s.len() > 0
    &&& forall|i: int| 0 <= i < s.len() ==> #[trigger] is_decimal_digit(s[i])
    &&& s.len() > 1 ==> s[0] != '0'
}

/// Every digit character reads back as the digit it was made for; digits below ten are
/// '0' to '9', the others lower-case letters.
pub proof fn lemma_digit_char(d: nat)
    requires
        d < 16,
    ensures
        digit_value(digit_char(d)) == d,
        is_decimal_digit(digit_char(d)) <==> d < 10,
{
}

/// The decimal text of a number is an ordinary numeral, and reading it back gives the
/// number.
pub proof fn lemma_decimal_reads_back(n: nat)
    ensures
        is_decimal_numeral(decimal(n)),
        numeral_value(decimal(n)) == n,
        n >= 10 ==> decimal(n).len() > 1,
    decreases n,
{
    lemma_digit_char(n % 10);
    if n < 10 {
        assert(decimal(n).drop_last() =~= Seq::<char>::empty());
        assert(numeral_value(Seq::<char>::empty()) == 0);
        assert(decimal(n).last() == digit_char(n));
    } else {
        lemma_decimal_reads_back(n / 10);
        let d = decimal(n);
        assert(d.drop_last() =~= decimal(n / 10));
        assert forall|i: int| 0 <= i < d.len() implies #[trigger] is_decimal_digit(d[i]) by {
            if i < d.len() - 1 {
                assert(d[i] == decimal(n / 10)[i]);
            }
        }
        assert(d[0] == decimal(n / 10)[0]);
        if n / 10 < 10 {
            lemma_digit_char(n / 10);
            assert(decimal(n / 10) == seq![digit_char(n / 10)]);
            assert(digit_value('0') == 0);
            assert(decimal(n / 10)[0] != '0');
        }
        assert(d.last() == digit_char(n % 10));
        assert(numeral_value(d) == numeral_value(decimal(n / 10)) * 10 + digit_value(d.last()));
        assert((n / 10) * 10 + n % 10 == n);
    }
}

/// The hexadecimal text has two characters per byte, each a lower-case hexadecimal
/// digit, and the two digits of each byte read back as that byte.
pub proof fn lemma_hex_reads_back(bytes: Seq<u8>)
    ensures
        hex(bytes).len() == 2 * bytes.len(),
        forall|i: int|
            0 <= i < bytes.len() ==> 0 <= #[trigger] digit_value(hex(bytes)[2 * i]) < 16
                && 0 <= digit_value(hex(bytes)[2 * i + 1]) < 16 && digit_value(hex(bytes)[2 * i])
                * 16 + digit_value(hex(bytes)[2 * i + 1]) == bytes[i],
    decreases bytes.len(),
{
    if bytes.len() > 0 {
        let init = bytes.drop_last();
        lemma_hex_reads_back(init);
        let b = bytes.last();
        lemma_digit_char((b / 16) as nat);
        lemma_digit_char((b % 16) as nat);
        let h = hex(bytes);
        assert forall|i: int|
            0 <= i < bytes.len() implies 0 <= #[trigger] digit_value(h[2 * i]) < 16 && 0
                <= digit_value(h[2 * i + 1]) < 16 && digit_value(h[2 * i]) * 16 + digit_value(
                h[2 * i + 1],
            ) == bytes[i] by {
            if i < init.len() {
                assert(h[2 * i] == hex(init)[2 * i]);
                assert(h[2 * i + 1] == hex(init)[2 * i + 1]);
                assert(bytes[i] == init[i]);
            } else {
                assert(h[2 * i] == digit_char((b / 16) as nat));
                assert(h[2 * i + 1] == digit_char((b % 16) as nat));
            }
        }
    }
}

fn digit_str(d: u8) -> (s: &'static str)
    requires
        d < 16,
    ensures
        s@ == seq![digit_char(d as nat)],
{
    match d {
        0 => { proof { reveal_strlit("0"); } "0" },
        1 => { proof { reveal_strlit("1"); } "1" },
        2 => { proof { reveal_strlit("2"); } "2" },
        3 => { proof { reveal_strlit("3"); } "3" },
        4 => { proof { reveal_strlit("4"); } "4" },
        5 => { proof { reveal_strlit("5"); } "5" },
        6 => { proof { reveal_strlit("6"); } "6" },
        7 => { proof { reveal_strlit("7"); } "7" },
        8 => { proof { reveal_strlit("8"); } "8" },
        9 => { proof { reveal_strlit("9"); } "9" },
        10 => { proof { reveal_strlit("a"); } "a" },
        11 => { proof { reveal_strlit("b"); } "b" },
        12 => { proof { reveal_strlit("c"); } "c" },
        13 => { proof { reveal_strlit("d"); } "d" },
        14 => { proof { reveal_strlit("e"); } "e" },
        _ => { proof { reveal_strlit("f"); } "f" },
    }
}

/// Appends the decimal digits of `n` to `out`.
pub fn push_decimal(out: &mut String, n: u8)
    ensures
        final(out)@ == old(out)@ + decimal(n as nat),
{
    if n >= 100 {
        out.append(digit_str(n / 100));
        out.append(digit_str((n / 10) % 10));
        out.append(digit_str(n % 10));
        assert(decimal((n / 100) as nat) == seq![digit_char((n / 100) as nat)]);
        assert(decimal((n / 10) as nat) == decimal((n / 100) as nat).push(digit_char(((n / 10) % 10) as nat)));
    } else if n >= 10 {
        out.append(digit_str(n / 10));
        out.append(digit_str(n % 10));
        assert(decimal((n / 10) as nat) == seq![digit_char((n / 10) as nat)]);
    } else {
        out.append(digit_str(n));
    }
    assert(final(out)@ =~= old(out)@ + decimal(n as nat));
}

/// Lower-case hexadecimal text of `bytes`, two digits per byte.
pub fn hex_string(bytes: &[u8]) -> (text: String)
    ensures
        text@ == hex(bytes@),
{
    let mut out = String::new();
    let mut i: usize = 0;
    assert(bytes@.take(0) =~= Seq::<u8>::empty());
    while i < bytes.len()
        invariant
            i <= bytes@.len(),
            out@ == hex(bytes@.take(i as int)),
        decreases bytes@.len() - i,
    {
        let b = bytes[i];
        let ghost before = out@;
        out.append(digit_str(b / 16));
        out.append(digit_str(b % 16));
        assert(bytes@.take(i + 1).drop_last() =~= bytes@.take(i as int));
        assert(out@ =~= hex(bytes@.take(i + 1)));
        i = i + 1;
    }
    assert(bytes@.take(bytes@.len() as int) =~= bytes@);
    out
}

} // verus!
