//! Binary framing for the on-disk cache blobs.
//!
//! Every value is written with a fixed, self-describing layout: integers as
//! eight little-endian bytes, byte strings and text length-prefixed, lists
//! count-prefixed. Each decoder is specified against a total spec-level
//! decoder, and for each encoder there is a proof that decoding what it
//! wrote, at any position inside a larger buffer, gives the value back.

use vstd::prelude::*;
use vstd::bytes::{
    spec_u64_to_le_bytes,
    spec_u64_from_le_bytes,
    u64_to_le_bytes,
    u64_from_le_bytes,
    lemma_auto_spec_u64_to_from_le_bytes,
};
use vstd::utf8::{encode_utf8, decode_utf8, valid_utf8, encode_utf8_valid_utf8, encode_utf8_decode_utf8};
use vstd::slice::{slice_subrange, slice_to_vec};
use vstd::string::StringSliceAdditionalSpecFns;

verus! {

// ---------------------------------------------------------------- u64

/// A `u64`, as eight little-endian bytes.
pub open spec fn spec_enc_u64(v: u64) -> Seq<u8> {
    spec_u64_to_le_bytes(v)
}

/// Read a `u64` at `pos`: eight little-endian bytes.
pub open spec fn spec_dec_u64(bytes: Seq<u8>, pos: int) -> Option<(u64, int)> {
    if 0 <= pos && pos + 8 <= bytes.len() {
        Some((spec_u64_from_le_bytes(bytes.subrange(pos, pos + 8)), pos + 8))
    } else {
        None
    }
}

/// Decoding an encoded `u64` embedded in any buffer yields it back.
pub proof fn lemma_dec_enc_u64(v: u64, prefix: Seq<u8>, suffix: Seq<u8>)
    ensures
        spec_enc_u64(v).len() == 8,
        spec_dec_u64(prefix + spec_enc_u64(v) + suffix, prefix.len() as int) == Some(
            (v, prefix.len() as int + 8),
        ),
{
    lemma_auto_spec_u64_to_from_le_bytes();
    let all = prefix + spec_enc_u64(v) + suffix;
    let n = prefix.len() as int;
    assert(all.subrange(n, n + 8) =~= spec_enc_u64(v));
}

/// Append a `u64` to the output buffer.
pub fn enc_u64(out: &mut Vec<u8>, v: u64)
    ensures
        final(out)@ == old(out)@ + spec_enc_u64(v),
{
    let mut tmp = u64_to_le_bytes(v);
    out.append(&mut tmp);
}

/// Read a `u64` at `pos`, exactly as the spec decoder does.
pub fn dec_u64(bytes: &Vec<u8>, pos: usize) -> (r: Option<(u64, usize)>)
    ensures
        r matches Some(p) ==> spec_dec_u64(bytes@, pos as int) == Some((p.0, p.1 as int)),
        r is None ==> spec_dec_u64(bytes@, pos as int) is None,
{
    proof {
        lemma_auto_spec_u64_to_from_le_bytes();
    }
    if pos <= bytes.len() && bytes.len() - pos >= 8 {
        let v = u64_from_le_bytes(slice_subrange(bytes.as_slice(), pos, pos + 8));
        Some((v, pos + 8))
    } else {
        None
    }
}

// ---------------------------------------------------------------- bool

/// A `bool`, as one byte: 1 for true, 0 for false.
pub open spec fn spec_enc_bool(v: bool) -> Seq<u8> {
    seq![if v { 1u8 } else { 0u8 }]
}

/// Read a `bool` at `pos`; any byte other than 0 or 1 is rejected.
pub open spec fn spec_dec_bool(bytes: Seq<u8>, pos: int) -> Option<(bool, int)> {
    if 0 <= pos && pos + 1 <= bytes.len() {
        if bytes[pos] == 1u8 {
            Some((true, pos + 1))
        } else if bytes[pos] == 0u8 {
            Some((false, pos + 1))
        } else {
            None
        }
    } else {
        None
    }
}

/// Decoding an encoded `bool` embedded in any buffer yields it back.
pub proof fn lemma_dec_enc_bool(v: bool, prefix: Seq<u8>, suffix: Seq<u8>)
    ensures
        spec_enc_bool(v).len() == 1,
        spec_dec_bool(prefix + spec_enc_bool(v) + suffix, prefix.len() as int) == Some(
            (v, prefix.len() as int + 1),
        ),
{
    let all = prefix + spec_enc_bool(v) + suffix;
    let n = prefix.len() as int;
    assert(all[n] == spec_enc_bool(v)[0]);
}

/// Append a `bool` to the output buffer.
pub fn enc_bool(out: &mut Vec<u8>, v: bool)
    ensures
        final(out)@ == old(out)@ + spec_enc_bool(v),
{
    if v {
        out.push(1u8);
    } else {
        out.push(0u8);
    }
    assert(final(out)@ =~= old(out)@ + spec_enc_bool(v));
}

/// Read a `bool` at `pos`, exactly as the spec decoder does.
pub fn dec_bool(bytes: &Vec<u8>, pos: usize) -> (r: Option<(bool, usize)>)
    ensures
        r matches Some(p) ==> spec_dec_bool(bytes@, pos as int) == Some((p.0, p.1 as int)),
        r is None ==> spec_dec_bool(bytes@, pos as int) is None,
{
    if pos < bytes.len() {
        let b = bytes[pos];
        if b == 1u8 {
            Some((true, pos + 1))
        } else if b == 0u8 {
            Some((false, pos + 1))
        } else {
            None
        }
    } else {
        None
    }
}

// ---------------------------------------------------------------- bytes

/// A byte string: its length as a `u64`, then the bytes themselves.
pub open spec fn spec_enc_bytes(b: Seq<u8>) -> Seq<u8> {
    spec_enc_u64(b.len() as u64) + b
}

/// Read a length-prefixed byte string at `pos`.
pub open spec fn spec_dec_bytes(bytes: Seq<u8>, pos: int) -> Option<(Seq<u8>, int)> {
    match spec_dec_u64(bytes, pos) {
        Some((n, p)) => if p + n <= bytes.len() {
            Some((bytes.subrange(p, p + n), p + n))
        } else {
            None
        },
        None => None,
    }
}

/// Decoding an encoded byte string embedded in any buffer yields it back.
pub proof fn lemma_dec_enc_bytes(b: Seq<u8>, prefix: Seq<u8>, suffix: Seq<u8>)
    requires
        b.len() <= u64::MAX,
    ensures
        spec_enc_bytes(b).len() == 8 + b.len(),
        spec_dec_bytes(prefix + spec_enc_bytes(b) + suffix, prefix.len() as int) == Some(
            (b, prefix.len() as int + 8 + b.len()),
        ),
{
    let all = prefix + spec_enc_bytes(b) + suffix;
    let n = prefix.len() as int;
    assert(prefix + spec_enc_bytes(b) + suffix =~= prefix + spec_enc_u64(b.len() as u64) + (b
        + suffix));
    lemma_dec_enc_u64(b.len() as u64, prefix, b + suffix);
    assert(spec_dec_u64(all, n) == Some((b.len() as u64, n + 8)));
    assert(all.subrange(n + 8, n + 8 + b.len() as int) =~= b);
}

/// Append a length-prefixed byte string to the output buffer.
pub fn enc_bytes(out: &mut Vec<u8>, b: &Vec<u8>)
    ensures
        final(out)@ == old(out)@ + spec_enc_bytes(b@),
{
    let n = b.len();
    assert(n as nat == b@.len());
    enc_u64(out, n as u64);
    let mut tmp = slice_to_vec(b.as_slice());
    out.append(&mut tmp);
    assert(final(out)@ =~= old(out)@ + spec_enc_bytes(b@));
}

/// Read a length-prefixed byte string at `pos`, exactly as the spec decoder
/// does.
pub fn dec_bytes(bytes: &Vec<u8>, pos: usize) -> (r: Option<(Vec<u8>, usize)>)
    ensures
        r matches Some(p) ==> spec_dec_bytes(bytes@, pos as int) == Some((p.0@, p.1 as int)),
        r is None ==> spec_dec_bytes(bytes@, pos as int) is None,
{
    match dec_u64(bytes, pos) {
        Some((n, p)) => {
            if n <= (bytes.len() - p) as u64 {
                let end = p + (n as usize);
                let out = slice_to_vec(slice_subrange(bytes.as_slice(), p, end));
                Some((out, end))
            } else {
                None
            }
        },
        None => None,
    }
}

// ---------------------------------------------------------------- strings

/// Text: its UTF-8 bytes, length-prefixed.
pub open spec fn spec_enc_str(s: Seq<char>) -> Seq<u8> {
    spec_enc_bytes(encode_utf8(s))
}

/// Read a length-prefixed UTF-8 string at `pos`; bytes that are not valid
/// UTF-8 are rejected.
pub open spec fn spec_dec_str(bytes: Seq<u8>, pos: int) -> Option<(Seq<char>, int)> {
    match spec_dec_bytes(bytes, pos) {
        Some((b, p)) => if valid_utf8(b) {
            Some((decode_utf8(b), p))
        } else {
            None
        },
        None => None,
    }
}

/// Decoding an encoded string embedded in any buffer yields it back.
pub proof fn lemma_dec_enc_str(s: Seq<char>, prefix: Seq<u8>, suffix: Seq<u8>)
    requires
        encode_utf8(s).len() <= u64::MAX,
    ensures
        spec_enc_str(s).len() == 8 + encode_utf8(s).len(),
        spec_dec_str(prefix + spec_enc_str(s) + suffix, prefix.len() as int) == Some(
            (s, prefix.len() as int + 8 + encode_utf8(s).len()),
        ),
{
    broadcast use encode_utf8_valid_utf8, encode_utf8_decode_utf8;

    lemma_dec_enc_bytes(encode_utf8(s), prefix, suffix);
}

/// Relies on String::from_utf8: it returns the string holding exactly the
/// given bytes when they are valid UTF-8, and an error otherwise.
#[verifier::external_body]
fn string_from_utf8(bytes: Vec<u8>) -> (r: Option<String>)
    ensures
        r matches Some(s) ==> encode_utf8(s@) == bytes@,
        valid_utf8(bytes@) ==> r is Some,
{
    String::from_utf8(bytes).ok()
}

/// Append a length-prefixed string to the output buffer.
pub fn enc_str(out: &mut Vec<u8>, s: &str)
    ensures
        final(out)@ == old(out)@ + spec_enc_str(s@),
{
    let bytes = s.as_bytes();
    let owned = slice_to_vec(bytes);
    enc_bytes(out, &owned);
}

/// Read a length-prefixed string at `pos`, exactly as the spec decoder does.
pub fn dec_str(bytes: &Vec<u8>, pos: usize) -> (r: Option<(String, usize)>)
    ensures
        r matches Some(p) ==> spec_dec_str(bytes@, pos as int) == Some((p.0@, p.1 as int)),
        r is None ==> spec_dec_str(bytes@, pos as int) is None,
{
    broadcast use encode_utf8_valid_utf8, encode_utf8_decode_utf8;

    match dec_bytes(bytes, pos) {
        Some((b, p)) => {
            let ghost bv = b@;
            match string_from_utf8(b) {
                Some(s) => {
                    assert(valid_utf8(bv));
                    assert(decode_utf8(bv) == s@);
                    Some((s, p))
                },
                None => {
                    assert(!valid_utf8(bv));
                    None
                },
            }
        },
        None => None,
    }
}

// ---------------------------------------------------------------- string lists

/// The bodies of a list of strings, one after the other.
pub open spec fn spec_enc_str_seq_body(items: Seq<Seq<char>>) -> Seq<u8>
    decreases items.len(),
{
    if items.len() == 0 {
        Seq::empty()
    } else {
        spec_enc_str(items[0]) + spec_enc_str_seq_body(items.drop_first())
    }
}

/// A list of strings: its count as a `u64`, then each string in turn.
pub open spec fn spec_enc_str_seq(items: Seq<Seq<char>>) -> Seq<u8> {
    spec_enc_u64(items.len() as u64) + spec_enc_str_seq_body(items)
}

/// Read `count` strings one after the other, starting at `pos`.
pub open spec fn spec_dec_str_seq_body(bytes: Seq<u8>, pos: int, count: nat) -> Option<
    (Seq<Seq<char>>, int),
>
    decreases count,
{
    if count == 0 {
        Some((Seq::empty(), pos))
    } else {
        match spec_dec_str(bytes, pos) {
            Some((s, p)) => match spec_dec_str_seq_body(bytes, p, (count - 1) as nat) {
                Some((rest, end)) => Some((seq![s] + rest, end)),
                None => None,
            },
            None => None,
        }
    }
}

/// Read a count-prefixed list of strings at `pos`.
pub open spec fn spec_dec_str_seq(bytes: Seq<u8>, pos: int) -> Option<(Seq<Seq<char>>, int)> {
    match spec_dec_u64(bytes, pos) {
        Some((n, p)) => spec_dec_str_seq_body(bytes, p, n as nat),
        None => None,
    }
}

/// Every string of the list fits the length prefix.
pub open spec fn str_seq_fits(items: Seq<Seq<char>>) -> bool {
    forall|i: int| 0 <= i < items.len() ==> encode_utf8(#[trigger] items[i]).len() <= u64::MAX
}

/// Decoding the encoded bodies of a string list embedded in any buffer
/// yields the list back.
pub proof fn lemma_dec_enc_str_seq_body(items: Seq<Seq<char>>, prefix: Seq<u8>, suffix: Seq<u8>)
    requires
        str_seq_fits(items),
    ensures
        spec_dec_str_seq_body(
            prefix + spec_enc_str_seq_body(items) + suffix,
            prefix.len() as int,
            items.len(),
        ) == Some((items, prefix.len() as int + spec_enc_str_seq_body(items).len())),
    decreases items.len(),
{
    if items.len() == 0 {
        assert(prefix + spec_enc_str_seq_body(items) + suffix =~= prefix + suffix);
        assert(spec_dec_str_seq_body(prefix + suffix, prefix.len() as int, 0) == Some(
            (Seq::<Seq<char>>::empty(), prefix.len() as int),
        ));
        assert(items =~= Seq::<Seq<char>>::empty());
    } else {
        let head = items[0];
        let rest = items.drop_first();
        let all = prefix + spec_enc_str_seq_body(items) + suffix;
        assert(all =~= prefix + spec_enc_str(head) + (spec_enc_str_seq_body(rest) + suffix));
        lemma_dec_enc_str(head, prefix, spec_enc_str_seq_body(rest) + suffix);
        let p2 = prefix.len() + spec_enc_str(head).len();
        assert(all =~= (prefix + spec_enc_str(head)) + spec_enc_str_seq_body(rest) + suffix);
        lemma_dec_enc_str_seq_body(rest, prefix + spec_enc_str(head), suffix);
        assert(spec_dec_str_seq_body(all, p2 as int, rest.len()) == Some(
            (rest, p2 as int + spec_enc_str_seq_body(rest).len()),
        ));
        assert(seq![head] + rest =~= items);
    }
}

/// Decoding an encoded string list embedded in any buffer yields it back.
pub proof fn lemma_dec_enc_str_seq(items: Seq<Seq<char>>, prefix: Seq<u8>, suffix: Seq<u8>)
    requires
        str_seq_fits(items),
        items.len() <= u64::MAX,
    ensures
        spec_dec_str_seq(prefix + spec_enc_str_seq(items) + suffix, prefix.len() as int) == Some(
            (items, prefix.len() as int + spec_enc_str_seq(items).len()),
        ),
{
    let all = prefix + spec_enc_str_seq(items) + suffix;
    assert(all =~= prefix + spec_enc_u64(items.len() as u64) + (spec_enc_str_seq_body(items)
        + suffix));
    lemma_dec_enc_u64(items.len() as u64, prefix, spec_enc_str_seq_body(items) + suffix);
    assert(all =~= (prefix + spec_enc_u64(items.len() as u64)) + spec_enc_str_seq_body(items)
        + suffix);
    lemma_dec_enc_str_seq_body(items, prefix + spec_enc_u64(items.len() as u64), suffix);
}

/// Append a count-prefixed list of strings to the output buffer.
pub fn enc_str_list(out: &mut Vec<u8>, items: &Vec<String>)
    ensures
        final(out)@ == old(out)@ + spec_enc_str_seq(items@.map_values(|s: String| s@)),
{
    let ghost views = items@.map_values(|s: String| s@);
    enc_u64(out, items.len() as u64);
    let mut i: usize = 0;
    while i < items.len()
        invariant
            i <= items.len(),
            views == items@.map_values(|s: String| s@),
            out@ == old(out)@ + spec_enc_u64(items@.len() as u64) + spec_enc_str_seq_body(
                views.take(i as int),
            ),
        decreases items.len() - i,
    {
        proof {
            assert(views[i as int] == items@[i as int]@);
        }
        enc_str(out, items[i].as_str());
        proof {
            lemma_str_seq_body_snoc(views, i as int);
        }
        i = i + 1;
    }
    assert(views.take(items@.len() as int) =~= views);
}

/// Appending one more string to a list appends its encoding to the bodies.
proof fn lemma_str_seq_body_snoc(items: Seq<Seq<char>>, i: int)
    requires
        0 <= i < items.len(),
    ensures
        spec_enc_str_seq_body(items.take(i + 1)) == spec_enc_str_seq_body(items.take(i))
            + spec_enc_str(items[i]),
    decreases i,
{
    if i == 0 {
        assert(items.take(1).drop_first() =~= Seq::empty());
        assert(items.take(0) =~= Seq::<Seq<char>>::empty());
        assert(items.take(1)[0] == items[0]);
        assert(spec_enc_str_seq_body(items.take(1)) == spec_enc_str(items[0])
            + spec_enc_str_seq_body(items.take(1).drop_first()));
        assert(spec_enc_str_seq_body(items.take(1)) =~= spec_enc_str(items[0]));
        assert(spec_enc_str_seq_body(items.take(0)) + spec_enc_str(items[0]) =~= spec_enc_str(
            items[0],
        ));
    } else {
        lemma_str_seq_body_snoc(items.drop_first(), i - 1);
        assert(items.take(i + 1).drop_first() =~= items.drop_first().take(i));
        assert(items.take(i).drop_first() =~= items.drop_first().take(i - 1));
        assert(items.take(i + 1)[0] == items[0]);
        assert(items.take(i)[0] == items[0]);
        assert(items.drop_first()[i - 1] == items[i]);
        assert(spec_enc_str_seq_body(items.take(i + 1)) == spec_enc_str(items[0])
            + spec_enc_str_seq_body(items.drop_first().take(i)));
        assert(spec_enc_str_seq_body(items.take(i)) == spec_enc_str(items[0])
            + spec_enc_str_seq_body(items.drop_first().take(i - 1)));
        assert(spec_enc_str(items[0]) + (spec_enc_str_seq_body(items.drop_first().take(i - 1))
            + spec_enc_str(items[i])) =~= (spec_enc_str(items[0]) + spec_enc_str_seq_body(
            items.drop_first().take(i - 1),
        )) + spec_enc_str(items[i]));
    }
}

/// Read a count-prefixed list of strings at `pos`, exactly as the spec
/// decoder does.
pub fn dec_str_list(bytes: &Vec<u8>, pos: usize) -> (r: Option<(Vec<String>, usize)>)
    ensures
        r matches Some(p) ==> spec_dec_str_seq(bytes@, pos as int) == Some(
            (p.0@.map_values(|s: String| s@), p.1 as int),
        ),
        r is None ==> spec_dec_str_seq(bytes@, pos as int) is None,
{
    match dec_u64(bytes, pos) {
        Some((n, p0)) => {
            let mut acc: Vec<String> = Vec::new();
            let mut p = p0;
            let mut remaining = n;
            loop
                invariant
                    spec_dec_str_seq(bytes@, pos as int) == spec_dec_str_seq_body(
                        bytes@,
                        p0 as int,
                        n as nat,
                    ),
                    remaining <= n,
                    spec_dec_str_seq_body(bytes@, p0 as int, n as nat) matches Some(q)
                        ==> spec_dec_str_seq_body(bytes@, p as int, remaining as nat) matches Some(
                        t,
                    ) && q == (acc@.map_values(|s: String| s@) + t.0, t.1),
                    spec_dec_str_seq_body(bytes@, p0 as int, n as nat) is None
                        ==> spec_dec_str_seq_body(bytes@, p as int, remaining as nat) is None,
                decreases remaining,
            {
                if remaining == 0 {
                    assert(acc@.map_values(|s: String| s@) + Seq::<Seq<char>>::empty() =~= acc@
                        .map_values(|s: String| s@));
                    return Some((acc, p));
                }
                match dec_str(bytes, p) {
                    Some((s, p2)) => {
                        proof {
                            let sub = spec_dec_str_seq_body(
                                bytes@,
                                p2 as int,
                                (remaining - 1) as nat,
                            );
                            if sub is Some {
                                let t = sub->Some_0;
                                assert(acc@.push(s).map_values(|x: String| x@) =~= acc@.map_values(
                                    |x: String| x@,
                                ).push(s@));
                                assert(acc@.map_values(|x: String| x@).push(s@) + t.0 =~= acc@
                                    .map_values(|x: String| x@) + (seq![s@] + t.0));
                            }
                        }
                        acc.push(s);
                        p = p2;
                        remaining = remaining - 1;
                    },
                    None => {
                        return None;
                    },
                }
            }
        },
        None => None,
    }
}

} // verus!
