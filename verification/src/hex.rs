//! Lower-case hexadecimal text for byte strings, with a proved round trip:
//! decoding an encoded byte string gives the bytes back.

use vstd::prelude::*;

verus! {

/// Relies on String::push: it appends the given character to the end of the
/// string.
pub assume_specification[ String::push ](s: &mut String, c: char)
    ensures
        final(s)@ == old(s)@.push(c),
;

/// The sixteen digits, lower case.
pub open spec fn spec_hex_digit(v: u8) -> char
    recommends
        v < 16,
{
    if v == 0 {
        '0'
    } else if v == 1 {
        '1'
    } else if v == 2 {
        '2'
    } else if v == 3 {
        '3'
    } else if v == 4 {
        '4'
    } else if v == 5 {
        '5'
    } else if v == 6 {
        '6'
    } else if v == 7 {
        '7'
    } else if v == 8 {
        '8'
    } else if v == 9 {
        '9'
    } else if v == 10 {
        'a'
    } else if v == 11 {
        'b'
    } else if v == 12 {
        'c'
    } else if v == 13 {
        'd'
    } else if v == 14 {
        'e'
    } else {
        'f'
    }
}

/// The value of a digit; 16 marks a character that is no digit.
pub open spec fn spec_hex_value(c: char) -> u8 {
    if c == '0' {
        0
    } else if c == '1' {
        1
    } else if c == '2' {
        2
    } else if c == '3' {
        3
    } else if c == '4' {
        4
    } else if c == '5' {
        5
    } else if c == '6' {
        6
    } else if c == '7' {
        7
    } else if c == '8' {
        8
    } else if c == '9' {
        9
    } else if c == 'a' {
        10
    } else if c == 'b' {
        11
    } else if c == 'c' {
        12
    } else if c == 'd' {
        13
    } else if c == 'e' {
        14
    } else if c == 'f' {
        15
    } else {
        16
    }
}

/// Reading a digit back gives the value it was written for.
pub proof fn lemma_hex_digit_value(v: u8)
    requires
        v < 16,
    ensures
        spec_hex_value(spec_hex_digit(v)) == v,
{
}

/// A byte string as hex text: two digits per byte, high nibble first.
pub open spec fn spec_hex_of(bytes: Seq<u8>) -> Seq<char>
    decreases bytes.len(),
{
    if bytes.len() == 0 {
        Seq::empty()
    } else {
        seq![
            spec_hex_digit(bytes[0] / 16),
            spec_hex_digit(bytes[0] % 16),
        ] + spec_hex_of(bytes.drop_first())
    }
}

/// Hex text back to bytes; `None` when the text is odd-lengthed or holds a
/// character that is no digit.
pub open spec fn spec_hex_parse(text: Seq<char>) -> Option<Seq<u8>>
    decreases text.len(),
{
    if text.len() == 0 {
        Some(Seq::empty())
    } else if text.len() == 1 {
        None
    } else {
        let hi = spec_hex_value(text[0]);
        let lo = spec_hex_value(text[1]);
        if hi < 16 && lo < 16 {
            match spec_hex_parse(text.drop_first().drop_first()) {
                Some(rest) => Some(seq![(hi * 16 + lo) as u8] + rest),
                None => None,
            }
        } else {
            None
        }
    }
}

/// Parsing the hex text of a byte string gives the bytes back.
pub proof fn lemma_hex_round_trip(bytes: Seq<u8>)
    ensures
        spec_hex_of(bytes).len() == 2 * bytes.len(),
        spec_hex_parse(spec_hex_of(bytes)) == Some(bytes),
    decreases bytes.len(),
{
    if bytes.len() == 0 {
        assert(spec_hex_parse(spec_hex_of(bytes)) == Some(Seq::<u8>::empty()));
        assert(bytes =~= Seq::<u8>::empty());
    } else {
        let b = bytes[0];
        lemma_hex_digit_value(b / 16);
        lemma_hex_digit_value(b % 16);
        lemma_hex_round_trip(bytes.drop_first());
        let text = spec_hex_of(bytes);
        assert(text.drop_first().drop_first() =~= spec_hex_of(bytes.drop_first()));
        assert((b / 16) * 16 + (b % 16) == b);
        assert(seq![bytes[0]] + bytes.drop_first() =~= bytes);
    }
}

/// Write a byte string as hex text.
pub fn hex_of(bytes: &Vec<u8>) -> (r: String)
    ensures
        r@ == spec_hex_of(bytes@),
{
    let mut out = String::new();
    let mut i: usize = 0;
    while i < bytes.len()
        invariant
            i <= bytes.len(),
            out@ == spec_hex_of(bytes@.take(i as int)),
        decreases bytes.len() - i,
    {
        let b = bytes[i];
        out.push(hex_digit(b / 16));
        out.push(hex_digit(b % 16));
        proof {
            lemma_hex_of_snoc(bytes@, i as int);
        }
        i = i + 1;
    }
    assert(bytes@.take(bytes@.len() as int) =~= bytes@);
    out
}

/// Hex text of one more byte is the text so far plus that byte's two digits.
proof fn lemma_hex_of_snoc(bytes: Seq<u8>, i: int)
    requires
        0 <= i < bytes.len(),
    ensures
        spec_hex_of(bytes.take(i + 1)) == spec_hex_of(bytes.take(i)) + seq![
            spec_hex_digit(bytes[i] / 16),
            spec_hex_digit(bytes[i] % 16),
        ],
    decreases i,
{
    if i == 0 {
        assert(bytes.take(1)[0] == bytes[0]);
        assert(bytes.take(1).drop_first() =~= Seq::<u8>::empty());
        assert(bytes.take(0) =~= Seq::<u8>::empty());
        assert(spec_hex_of(bytes.take(1)) == seq![
            spec_hex_digit(bytes.take(1)[0] / 16),
            spec_hex_digit(bytes.take(1)[0] % 16),
        ] + spec_hex_of(bytes.take(1).drop_first()));
        assert(spec_hex_of(Seq::<u8>::empty()) == Seq::<char>::empty());
        assert(spec_hex_of(bytes.take(1)) =~= seq![
            spec_hex_digit(bytes[0] / 16),
            spec_hex_digit(bytes[0] % 16),
        ]);
        assert(spec_hex_of(bytes.take(0)) + seq![
            spec_hex_digit(bytes[0] / 16),
            spec_hex_digit(bytes[0] % 16),
        ] =~= seq![spec_hex_digit(bytes[0] / 16), spec_hex_digit(bytes[0] % 16)]);
    } else {
        lemma_hex_of_snoc(bytes.drop_first(), i - 1);
        assert(bytes.take(i + 1).drop_first() =~= bytes.drop_first().take(i));
        assert(bytes.take(i).drop_first() =~= bytes.drop_first().take(i - 1));
        assert(bytes.take(i + 1)[0] == bytes[0]);
        assert(bytes.take(i)[0] == bytes[0]);
        assert(bytes.drop_first()[i - 1] == bytes[i]);
        let pair = seq![spec_hex_digit(bytes[i] / 16), spec_hex_digit(bytes[i] % 16)];
        assert(spec_hex_of(bytes.take(i + 1)) == seq![
            spec_hex_digit(bytes[0] / 16),
            spec_hex_digit(bytes[0] % 16),
        ] + spec_hex_of(bytes.drop_first().take(i)));
        assert(seq![spec_hex_digit(bytes[0] / 16), spec_hex_digit(bytes[0] % 16)] + (spec_hex_of(
            bytes.drop_first().take(i - 1),
        ) + pair) =~= (seq![spec_hex_digit(bytes[0] / 16), spec_hex_digit(bytes[0] % 16)]
            + spec_hex_of(bytes.drop_first().take(i - 1))) + pair);
    }
}

/// One digit, as a character.
fn hex_digit(v: u8) -> (c: char)
    requires
        v < 16,
    ensures
        c == spec_hex_digit(v),
{
    if v == 0 {
        '0'
    } else if v == 1 {
        '1'
    } else if v == 2 {
        '2'
    } else if v == 3 {
        '3'
    } else if v == 4 {
        '4'
    } else if v == 5 {
        '5'
    } else if v == 6 {
        '6'
    } else if v == 7 {
        '7'
    } else if v == 8 {
        '8'
    } else if v == 9 {
        '9'
    } else if v == 10 {
        'a'
    } else if v == 11 {
        'b'
    } else if v == 12 {
        'c'
    } else if v == 13 {
        'd'
    } else if v == 14 {
        'e'
    } else {
        'f'
    }
}


/// The value of one digit character, or 16 for a character that is none.
fn hex_value(c: char) -> (r: u8)
    ensures
        r == spec_hex_value(c),
{
    if c == '0' {
        0
    } else if c == '1' {
        1
    } else if c == '2' {
        2
    } else if c == '3' {
        3
    } else if c == '4' {
        4
    } else if c == '5' {
        5
    } else if c == '6' {
        6
    } else if c == '7' {
        7
    } else if c == '8' {
        8
    } else if c == '9' {
        9
    } else if c == 'a' {
        10
    } else if c == 'b' {
        11
    } else if c == 'c' {
        12
    } else if c == 'd' {
        13
    } else if c == 'e' {
        14
    } else if c == 'f' {
        15
    } else {
        16
    }
}

/// Parse hex text back to bytes, exactly as the spec parser does.
pub fn hex_parse(text: &str) -> (r: Option<Vec<u8>>)
    ensures
        r matches Some(b) ==> spec_hex_parse(text@) == Some(b@),
        r is None ==> spec_hex_parse(text@) is None,
{
    let n = text.unicode_len();
    let mut out: Vec<u8> = Vec::new();
    let mut i: usize = 0;
    assert(text@.skip(0) =~= text@);
    loop
        invariant
            i <= n,
            i % 2 == 0,
            n == text@.len(),
            match spec_hex_parse(text@.skip(i as int)) {
                Some(rest) => spec_hex_parse(text@) == Some(out@ + rest),
                None => spec_hex_parse(text@) is None,
            },
        decreases n - i,
    {
        if i >= n {
            assert(text@.skip(i as int).len() == 0);
            assert(out@ + Seq::<u8>::empty() =~= out@);
            return Some(out);
        }
        if i + 1 >= n {
            assert(text@.skip(i as int).len() == 1);
            return None;
        }
        let hi = hex_value(text.get_char(i));
        let lo = hex_value(text.get_char(i + 1));
        proof {
            assert(text@.skip(i as int)[0] == text@[i as int]);
            assert(text@.skip(i as int)[1] == text@[i + 1]);
            assert(text@.skip(i as int).drop_first().drop_first() =~= text@.skip(i + 2));
        }
        if hi >= 16 || lo >= 16 {
            return None;
        }
        proof {
            if spec_hex_parse(text@.skip(i + 2)) is Some {
                let rest = spec_hex_parse(text@.skip(i + 2))->Some_0;
                assert(out@.push((hi * 16 + lo) as u8) + rest =~= out@ + (seq![(hi * 16 + lo) as u8]
                    + rest));
            }
        }
        out.push(hi * 16 + lo);
        i = i + 2;
    }
}

} // verus!
