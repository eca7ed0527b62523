//! The on-disk record shapes: pure serialization types decoupled from the
//! runtime types, with encoders, decoders, and proved round trips.

use vstd::prelude::*;
use vstd::utf8::encode_utf8;
use vstd::string::StringSliceAdditionalSpecFns;
use vstd::seq_lib::lemma_concat_associative;

use crate::cache::codec::{
    spec_enc_u64,
    spec_dec_u64,
    lemma_dec_enc_u64,
    enc_u64,
    dec_u64,
    spec_enc_bytes,
    spec_dec_bytes,
    lemma_dec_enc_bytes,
    enc_bytes,
    dec_bytes,
    spec_enc_str,
    spec_dec_str,
    lemma_dec_enc_str,
    enc_str,
    dec_str,
    spec_enc_str_seq,
    spec_dec_str_seq,
    lemma_dec_enc_str_seq,
    enc_str_list,
    dec_str_list,
    str_seq_fits,
};
use crate::playback::PlaybackStatus;

verus! {

// ---------------------------------------------------------------- u64 lists

/// The bodies of a list of `u64`s, one after the other.
pub open spec fn spec_enc_u64_seq_body(items: Seq<u64>) -> Seq<u8>
    decreases items.len(),
{
    if items.len() == 0 {
        Seq::empty()
    } else {
        spec_enc_u64(items[0]) + spec_enc_u64_seq_body(items.drop_first())
    }
}

/// A list of `u64`s: its count, then each value.
pub open spec fn spec_enc_u64_seq(items: Seq<u64>) -> Seq<u8> {
    spec_enc_u64(items.len() as u64) + spec_enc_u64_seq_body(items)
}

/// Read `count` `u64`s one after the other.
pub open spec fn spec_dec_u64_seq_body(bytes: Seq<u8>, pos: int, count: nat) -> Option<
    (Seq<u64>, int),
>
    decreases count,
{
    if count == 0 {
        Some((Seq::empty(), pos))
    } else {
        match spec_dec_u64(bytes, pos) {
            Some((v, p)) => match spec_dec_u64_seq_body(bytes, p, (count - 1) as nat) {
                Some((rest, end)) => Some((seq![v] + rest, end)),
                None => None,
            },
            None => None,
        }
    }
}

/// Read a count-prefixed list of `u64`s.
pub open spec fn spec_dec_u64_seq(bytes: Seq<u8>, pos: int) -> Option<(Seq<u64>, int)> {
    match spec_dec_u64(bytes, pos) {
        Some((n, p)) => spec_dec_u64_seq_body(bytes, p, n as nat),
        None => None,
    }
}

/// Decoding the encoded bodies of a `u64` list embedded in any buffer yields
/// the list back.
#[verifier::rlimit(100)]
#[verifier::spinoff_prover]
pub proof fn lemma_dec_enc_u64_seq_body(items: Seq<u64>, prefix: Seq<u8>, suffix: Seq<u8>)
    ensures
        spec_dec_u64_seq_body(
            prefix + spec_enc_u64_seq_body(items) + suffix,
            prefix.len() as int,
            items.len(),
        ) == Some((items, prefix.len() as int + spec_enc_u64_seq_body(items).len())),
    decreases items.len(),
{
    if items.len() == 0 {
        assert(prefix + spec_enc_u64_seq_body(items) + suffix =~= prefix + suffix);
        assert(items =~= Seq::<u64>::empty());
    } else {
        let head = items[0];
        let rest = items.drop_first();
        let all = prefix + spec_enc_u64_seq_body(items) + suffix;
        assert(all =~= prefix + spec_enc_u64(head) + (spec_enc_u64_seq_body(rest) + suffix));
        lemma_dec_enc_u64(head, prefix, spec_enc_u64_seq_body(rest) + suffix);
        assert(all =~= (prefix + spec_enc_u64(head)) + spec_enc_u64_seq_body(rest) + suffix);
        lemma_dec_enc_u64_seq_body(rest, prefix + spec_enc_u64(head), suffix);
        assert(seq![head] + rest =~= items);
    }
}

/// Decoding an encoded `u64` list embedded in any buffer yields it back.
#[verifier::rlimit(100)]
#[verifier::spinoff_prover]
pub proof fn lemma_dec_enc_u64_seq(items: Seq<u64>, prefix: Seq<u8>, suffix: Seq<u8>)
    requires
        items.len() <= u64::MAX,
    ensures
        spec_dec_u64_seq(prefix + spec_enc_u64_seq(items) + suffix, prefix.len() as int) == Some(
            (items, prefix.len() as int + spec_enc_u64_seq(items).len()),
        ),
{
    let all = prefix + spec_enc_u64_seq(items) + suffix;
    assert(all =~= prefix + spec_enc_u64(items.len() as u64) + (spec_enc_u64_seq_body(items)
        + suffix));
    lemma_dec_enc_u64(items.len() as u64, prefix, spec_enc_u64_seq_body(items) + suffix);
    assert(all =~= (prefix + spec_enc_u64(items.len() as u64)) + spec_enc_u64_seq_body(items)
        + suffix);
    lemma_dec_enc_u64_seq_body(items, prefix + spec_enc_u64(items.len() as u64), suffix);
}

/// Encoding one more `u64` appends its eight bytes to the bodies.
proof fn lemma_u64_seq_body_snoc(items: Seq<u64>, i: int)
    requires
        0 <= i < items.len(),
    ensures
        spec_enc_u64_seq_body(items.take(i + 1)) == spec_enc_u64_seq_body(items.take(i))
            + spec_enc_u64(items[i]),
    decreases i,
{
    if i == 0 {
        assert(items.take(1)[0] == items[0]);
        assert(items.take(1).drop_first() =~= Seq::empty());
        assert(items.take(0) =~= Seq::<u64>::empty());
        assert(spec_enc_u64_seq_body(items.take(1)) == spec_enc_u64(items[0])
            + spec_enc_u64_seq_body(items.take(1).drop_first()));
        assert(spec_enc_u64_seq_body(items.take(1)) =~= spec_enc_u64(items[0]));
        assert(spec_enc_u64_seq_body(items.take(0)) + spec_enc_u64(items[0]) =~= spec_enc_u64(
            items[0],
        ));
    } else {
        lemma_u64_seq_body_snoc(items.drop_first(), i - 1);
        assert(items.take(i + 1).drop_first() =~= items.drop_first().take(i));
        assert(items.take(i).drop_first() =~= items.drop_first().take(i - 1));
        assert(items.take(i + 1)[0] == items[0]);
        assert(items.take(i)[0] == items[0]);
        assert(items.drop_first()[i - 1] == items[i]);
        assert(spec_enc_u64(items[0]) + (spec_enc_u64_seq_body(items.drop_first().take(i - 1))
            + spec_enc_u64(items[i])) =~= (spec_enc_u64(items[0]) + spec_enc_u64_seq_body(
            items.drop_first().take(i - 1),
        )) + spec_enc_u64(items[i]));
    }
}

/// The queue order as `u64`s, for the on-disk snapshot.
pub open spec fn spec_order_as_u64s(order: Seq<usize>) -> Seq<u64> {
    order.map_values(|v: usize| v as u64)
}

/// Append a count-prefixed list of queue positions to the output buffer.
pub fn enc_order(out: &mut Vec<u8>, items: &Vec<usize>)
    ensures
        final(out)@ == old(out)@ + spec_enc_u64_seq(spec_order_as_u64s(items@)),
{
    let ghost views = spec_order_as_u64s(items@);
    enc_u64(out, items.len() as u64);
    let mut i: usize = 0;
    while i < items.len()
        invariant
            i <= items.len(),
            views == spec_order_as_u64s(items@),
            out@ == old(out)@ + spec_enc_u64(items@.len() as u64) + spec_enc_u64_seq_body(
                views.take(i as int),
            ),
        decreases items.len() - i,
    {
        proof {
            assert(views[i as int] == items@[i as int] as u64);
        }
        enc_u64(out, items[i] as u64);
        proof {
            lemma_u64_seq_body_snoc(views, i as int);
        }
        i = i + 1;
    }
    assert(views.take(items@.len() as int) =~= views);
}

/// Read a count-prefixed list of queue positions, exactly as the spec
/// decoder does; a value too large for this platform's `usize` is rejected.
pub fn dec_order(bytes: &Vec<u8>, pos: usize) -> (r: Option<(Vec<usize>, usize)>)
    ensures
        r matches Some(p) ==> spec_dec_u64_seq(bytes@, pos as int) matches Some(q) && q.0
            == spec_order_as_u64s(p.0@) && q.1 == p.1 as int,
        r is None ==> spec_dec_u64_seq(bytes@, pos as int) is None || (spec_dec_u64_seq(
            bytes@,
            pos as int,
        ) matches Some(q) && exists|i: int| 0 <= i < q.0.len() && #[trigger] q.0[i] > usize::MAX),
{
    match dec_u64(bytes, pos) {
        Some((n, p0)) => {
            let mut acc: Vec<usize> = Vec::new();
            let mut p = p0;
            let mut remaining = n;
            loop
                invariant
                    spec_dec_u64_seq(bytes@, pos as int) == spec_dec_u64_seq_body(
                        bytes@,
                        p0 as int,
                        n as nat,
                    ),
                    remaining <= n,
                    spec_dec_u64_seq_body(bytes@, p0 as int, n as nat) matches Some(q)
                        ==> spec_dec_u64_seq_body(bytes@, p as int, remaining as nat) matches Some(
                        t,
                    ) && q == (spec_order_as_u64s(acc@) + t.0, t.1),
                    spec_dec_u64_seq_body(bytes@, p0 as int, n as nat) is None
                        ==> spec_dec_u64_seq_body(bytes@, p as int, remaining as nat) is None,
                    forall|i: int| 0 <= i < acc@.len() ==> #[trigger] acc@[i] <= usize::MAX,
                decreases remaining,
            {
                if remaining == 0 {
                    proof {
                        assert(spec_order_as_u64s(acc@) + Seq::<u64>::empty() =~= spec_order_as_u64s(
                            acc@,
                        ));
                    }
                    return Some((acc, p));
                }
                match dec_u64(bytes, p) {
                    Some((v, p2)) => {
                        if v > usize::MAX as u64 {
                            proof {
                                let full = spec_dec_u64_seq_body(bytes@, p0 as int, n as nat);
                                if full is Some {
                                    let q = full->Some_0;
                                    let t = spec_dec_u64_seq_body(
                                        bytes@,
                                        p as int,
                                        remaining as nat,
                                    )->Some_0;
                                    assert(t.0[0] == v);
                                    let k = spec_order_as_u64s(acc@).len() as int;
                                    assert(q.0[k] == v);
                                    assert(q.0[k] > usize::MAX);
                                }
                            }
                            return None;
                        }
                        proof {
                            let sub = spec_dec_u64_seq_body(bytes@, p2 as int, (remaining - 1) as nat);
                            if sub is Some {
                                let t = sub->Some_0;
                                assert(spec_order_as_u64s(acc@.push(v as usize)) =~= spec_order_as_u64s(
                                    acc@,
                                ).push(v));
                                assert(spec_order_as_u64s(acc@).push(v) + t.0 =~= spec_order_as_u64s(
                                    acc@,
                                ) + (seq![v] + t.0));
                            }
                        }
                        acc.push(v as usize);
                        p = p2;
                        remaining = remaining - 1;
                    },
                    None => {
                        return None;
                    },
                }
            }
        },
        None => None,
    }
}

// ---------------------------------------------------------------- metadata

/// On-disk shape of one track's tag metadata.
#[derive(Clone, Debug)]
pub struct MetadataCache {
    pub title: String,
    pub artists: Vec<String>,
    pub album: String,
    pub genre: String,
    pub duration: u64,
    pub writer: String,
    pub producer: String,
    pub publisher: String,
    pub label: String,
}

/// The abstract value of a `MetadataCache`.
pub ghost struct MetadataCacheV {
    pub title: Seq<char>,
    pub artists: Seq<Seq<char>>,
    pub album: Seq<char>,
    pub genre: Seq<char>,
    pub duration: u64,
    pub writer: Seq<char>,
    pub producer: Seq<char>,
    pub publisher: Seq<char>,
    pub label: Seq<char>,
}

impl View for MetadataCache {
    type V = MetadataCacheV;

    open spec fn view(&self) -> MetadataCacheV {
        MetadataCacheV {
            title: self.title@,
            artists: self.artists@.map_values(|s: String| s@),
            album: self.album@,
            genre: self.genre@,
            duration: self.duration,
            writer: self.writer@,
            producer: self.producer@,
            publisher: self.publisher@,
            label: self.label@,
        }
    }
}

/// All text of the record fits its length prefixes.
pub open spec fn meta_fits(m: MetadataCacheV) -> bool {
    &&& encode_utf8(m.title).len() <= u64::MAX
    &&& str_seq_fits(m.artists)
    &&& m.artists.len() <= u64::MAX
    &&& encode_utf8(m.album).len() <= u64::MAX
    &&& encode_utf8(m.genre).len() <= u64::MAX
    &&& encode_utf8(m.writer).len() <= u64::MAX
    &&& encode_utf8(m.producer).len() <= u64::MAX
    &&& encode_utf8(m.publisher).len() <= u64::MAX
    &&& encode_utf8(m.label).len() <= u64::MAX
}

/// The text fields at the record's front: title, artists, album, genre.
pub open spec fn spec_enc_meta_text(m: MetadataCacheV) -> Seq<u8> {
    spec_enc_str(m.title) + (spec_enc_str_seq(m.artists) + (spec_enc_str(m.album) + spec_enc_str(
        m.genre,
    )))
}

/// The rest of the record: duration and the credit fields.
pub open spec fn spec_enc_meta_credits(m: MetadataCacheV) -> Seq<u8> {
    spec_enc_u64(m.duration) + (spec_enc_str(m.writer) + (spec_enc_str(m.producer) + (
    spec_enc_str(m.publisher) + spec_enc_str(m.label))))
}

/// A metadata record: each field in order.
pub open spec fn spec_enc_meta(m: MetadataCacheV) -> Seq<u8> {
    spec_enc_meta_text(m) + spec_enc_meta_credits(m)
}

/// Read the four text fields.
pub open spec fn spec_dec_meta_text(bytes: Seq<u8>, pos: int) -> Option<
    ((Seq<char>, Seq<Seq<char>>, Seq<char>, Seq<char>), int),
> {
    match spec_dec_str(bytes, pos) {
        Some((title, p1)) => match spec_dec_str_seq(bytes, p1) {
            Some((artists, p2)) => match spec_dec_str(bytes, p2) {
                Some((album, p3)) => match spec_dec_str(bytes, p3) {
                    Some((genre, p4)) => Some(((title, artists, album, genre), p4)),
                    None => None,
                },
                None => None,
            },
            None => None,
        },
        None => None,
    }
}

/// Read the duration and the credit fields.
pub open spec fn spec_dec_meta_credits(bytes: Seq<u8>, pos: int) -> Option<
    ((u64, Seq<char>, Seq<char>, Seq<char>, Seq<char>), int),
> {
    match spec_dec_u64(bytes, pos) {
        Some((duration, p5)) => match spec_dec_str(bytes, p5) {
            Some((writer, p6)) => match spec_dec_str(bytes, p6) {
                Some((producer, p7)) => match spec_dec_str(bytes, p7) {
                    Some((publisher, p8)) => match spec_dec_str(bytes, p8) {
                        Some((label, p9)) => Some(((duration, writer, producer, publisher, label), p9)),
                        None => None,
                    },
                    None => None,
                },
                None => None,
            },
            None => None,
        },
        None => None,
    }
}

/// Read a metadata record.
pub open spec fn spec_dec_meta(bytes: Seq<u8>, pos: int) -> Option<(MetadataCacheV, int)> {
    match spec_dec_meta_text(bytes, pos) {
        Some(((title, artists, album, genre), p4)) => match spec_dec_meta_credits(bytes, p4) {
            Some(((duration, writer, producer, publisher, label), p9)) => Some(
                (
                    MetadataCacheV {
                        title,
                        artists,
                        album,
                        genre,
                        duration,
                        writer,
                        producer,
                        publisher,
                        label,
                    },
                    p9,
                ),
            ),
            None => None,
        },
        None => None,
    }
}

/// Decoding the encoded text fields embedded in any buffer yields them back.
#[verifier::rlimit(100)]
#[verifier::spinoff_prover]
proof fn lemma_dec_enc_meta_text(m: MetadataCacheV, prefix: Seq<u8>, suffix: Seq<u8>)
    requires
        meta_fits(m),
    ensures
        spec_dec_meta_text(prefix + spec_enc_meta_text(m) + suffix, prefix.len() as int) == Some(
            ((m.title, m.artists, m.album, m.genre), prefix.len() as int + spec_enc_meta_text(
                m,
            ).len()),
        ),
{
    let e1 = spec_enc_str(m.title);
    let e2 = spec_enc_str_seq(m.artists);
    let e3 = spec_enc_str(m.album);
    let e4 = spec_enc_str(m.genre);
    let r4 = e4;
    let r3 = e3 + r4;
    let r2 = e2 + r3;
    let r1 = e1 + r2;
    let all = prefix + spec_enc_meta_text(m) + suffix;
    let p0 = prefix;
    let p1 = p0 + e1;
    let p2 = p1 + e2;
    let p3 = p2 + e3;
    assert(all == (p0 + r1) + suffix);
    lemma_concat_associative(e1, r2, suffix);
    lemma_concat_associative(p0, r1, suffix);
    lemma_concat_associative(p0, e1, r2 + suffix);
    assert(all == (p0 + e1) + (r2 + suffix));
    lemma_dec_enc_str(m.title, p0, r2 + suffix);
    lemma_concat_associative(e2, r3, suffix);
    lemma_concat_associative(p1, e2, r3 + suffix);
    assert(all == (p1 + e2) + (r3 + suffix));
    lemma_dec_enc_str_seq(m.artists, p1, r3 + suffix);
    lemma_concat_associative(e3, r4, suffix);
    lemma_concat_associative(p2, e3, r4 + suffix);
    assert(all == (p2 + e3) + (r4 + suffix));
    lemma_dec_enc_str(m.album, p2, r4 + suffix);
    assert(all == (p3 + e4) + suffix);
    lemma_dec_enc_str(m.genre, p3, suffix);
}

/// Decoding the encoded duration and credits embedded in any buffer yields
/// them back.
#[verifier::rlimit(100)]
#[verifier::spinoff_prover]
proof fn lemma_dec_enc_meta_credits(m: MetadataCacheV, prefix: Seq<u8>, suffix: Seq<u8>)
    requires
        meta_fits(m),
    ensures
        spec_dec_meta_credits(prefix + spec_enc_meta_credits(m) + suffix, prefix.len() as int)
            == Some(
            ((m.duration, m.writer, m.producer, m.publisher, m.label), prefix.len() as int
                + spec_enc_meta_credits(m).len()),
        ),
{
    let e5 = spec_enc_u64(m.duration);
    let e6 = spec_enc_str(m.writer);
    let e7 = spec_enc_str(m.producer);
    let e8 = spec_enc_str(m.publisher);
    let e9 = spec_enc_str(m.label);
    let r9 = e9;
    let r8 = e8 + r9;
    let r7 = e7 + r8;
    let r6 = e6 + r7;
    let r5 = e5 + r6;
    let all = prefix + spec_enc_meta_credits(m) + suffix;
    let p4 = prefix;
    let p5 = p4 + e5;
    let p6 = p5 + e6;
    let p7 = p6 + e7;
    let p8 = p7 + e8;
    assert(all == (p4 + r5) + suffix);
    lemma_concat_associative(e5, r6, suffix);
    lemma_concat_associative(p4, r5, suffix);
    lemma_concat_associative(p4, e5, r6 + suffix);
    assert(all == (p4 + e5) + (r6 + suffix));
    lemma_dec_enc_u64(m.duration, p4, r6 + suffix);
    lemma_concat_associative(e6, r7, suffix);
    lemma_concat_associative(p5, e6, r7 + suffix);
    assert(all == (p5 + e6) + (r7 + suffix));
    lemma_dec_enc_str(m.writer, p5, r7 + suffix);
    lemma_concat_associative(e7, r8, suffix);
    lemma_concat_associative(p6, e7, r8 + suffix);
    assert(all == (p6 + e7) + (r8 + suffix));
    lemma_dec_enc_str(m.producer, p6, r8 + suffix);
    lemma_concat_associative(e8, r9, suffix);
    lemma_concat_associative(p7, e8, r9 + suffix);
    assert(all == (p7 + e8) + (r9 + suffix));
    lemma_dec_enc_str(m.publisher, p7, r9 + suffix);
    assert(all == (p8 + e9) + suffix);
    lemma_dec_enc_str(m.label, p8, suffix);
}

/// Decoding an encoded metadata record embedded in any buffer yields it
/// back.
#[verifier::rlimit(100)]
#[verifier::spinoff_prover]
pub proof fn lemma_dec_enc_meta(m: MetadataCacheV, prefix: Seq<u8>, suffix: Seq<u8>)
    requires
        meta_fits(m),
    ensures
        spec_dec_meta(prefix + spec_enc_meta(m) + suffix, prefix.len() as int) == Some(
            (m, prefix.len() as int + spec_enc_meta(m).len()),
        ),
{
    let a = spec_enc_meta_text(m);
    let b = spec_enc_meta_credits(m);
    let all = prefix + spec_enc_meta(m) + suffix;
    assert(all == (prefix + (a + b)) + suffix);
    lemma_concat_associative(prefix, a, b);
    lemma_concat_associative(prefix + a, b, suffix);
    lemma_concat_associative(prefix, a, b + suffix);
    assert(all == (prefix + a) + (b + suffix));
    lemma_dec_enc_meta_text(m, prefix, b + suffix);
    assert(all == ((prefix + a) + b) + suffix);
    lemma_dec_enc_meta_credits(m, prefix + a, suffix);
}

/// A record's encoding, appended field by field: what the encoder below
/// leaves in the buffer equals the record's one-piece encoding.
proof fn lemma_enc_meta_parts(m: MetadataCacheV, base: Seq<u8>)
    ensures
        base + spec_enc_meta(m) == base + spec_enc_str(m.title) + spec_enc_str_seq(m.artists)
            + spec_enc_str(m.album) + spec_enc_str(m.genre) + spec_enc_u64(m.duration)
            + spec_enc_str(m.writer) + spec_enc_str(m.producer) + spec_enc_str(m.publisher)
            + spec_enc_str(m.label),
{
    let e1 = spec_enc_str(m.title);
    let e2 = spec_enc_str_seq(m.artists);
    let e3 = spec_enc_str(m.album);
    let e4 = spec_enc_str(m.genre);
    let e5 = spec_enc_u64(m.duration);
    let e6 = spec_enc_str(m.writer);
    let e7 = spec_enc_str(m.producer);
    let e8 = spec_enc_str(m.publisher);
    let e9 = spec_enc_str(m.label);
    let a = spec_enc_meta_text(m);
    let b = spec_enc_meta_credits(m);
    lemma_concat_associative(base, a, b);
    lemma_concat_associative(base, e1, e2 + (e3 + e4));
    lemma_concat_associative(base + e1, e2, e3 + e4);
    lemma_concat_associative(base + e1 + e2, e3, e4);
    assert(base + a == base + e1 + e2 + e3 + e4);
    let c4 = base + e1 + e2 + e3 + e4;
    lemma_concat_associative(c4, e5, e6 + (e7 + (e8 + e9)));
    lemma_concat_associative(c4 + e5, e6, e7 + (e8 + e9));
    lemma_concat_associative(c4 + e5 + e6, e7, e8 + e9);
    lemma_concat_associative(c4 + e5 + e6 + e7, e8, e9);
    assert(c4 + b == c4 + e5 + e6 + e7 + e8 + e9);
}

/// Append a metadata record to the output buffer.
pub fn enc_meta(out: &mut Vec<u8>, m: &MetadataCache)
    ensures
        final(out)@ == old(out)@ + spec_enc_meta(m@),
{
    enc_str(out, self_str(&m.title));
    enc_str_list(out, &m.artists);
    enc_str(out, self_str(&m.album));
    enc_str(out, self_str(&m.genre));
    enc_u64(out, m.duration);
    enc_str(out, self_str(&m.writer));
    enc_str(out, self_str(&m.producer));
    enc_str(out, self_str(&m.publisher));
    enc_str(out, self_str(&m.label));
    proof {
        lemma_enc_meta_parts(m@, old(out)@);
    }
}

/// Borrow a string's text.
fn self_str(s: &String) -> (r: &str)
    ensures
        r@ == s@,
{
    s.as_str()
}

/// Read a metadata record, exactly as the spec decoder does.
pub fn dec_meta(bytes: &Vec<u8>, pos: usize) -> (r: Option<(MetadataCache, usize)>)
    ensures
        r matches Some(p) ==> spec_dec_meta(bytes@, pos as int) == Some((p.0@, p.1 as int)),
        r is None ==> spec_dec_meta(bytes@, pos as int) is None,
{
    let (title, p1) = match dec_str(bytes, pos) {
        Some(x) => x,
        None => {
            return None;
        },
    };
    let (artists, p2) = match dec_str_list(bytes, p1) {
        Some(x) => x,
        None => {
            return None;
        },
    };
    let (album, p3) = match dec_str(bytes, p2) {
        Some(x) => x,
        None => {
            return None;
        },
    };
    let (genre, p4) = match dec_str(bytes, p3) {
        Some(x) => x,
        None => {
            return None;
        },
    };
    let (duration, p5) = match dec_u64(bytes, p4) {
        Some(x) => x,
        None => {
            return None;
        },
    };
    let (writer, p6) = match dec_str(bytes, p5) {
        Some(x) => x,
        None => {
            return None;
        },
    };
    let (producer, p7) = match dec_str(bytes, p6) {
        Some(x) => x,
        None => {
            return None;
        },
    };
    let (publisher, p8) = match dec_str(bytes, p7) {
        Some(x) => x,
        None => {
            return None;
        },
    };
    let (label, p9) = match dec_str(bytes, p8) {
        Some(x) => x,
        None => {
            return None;
        },
    };
    Some(
        (
            MetadataCache {
                title,
                artists,
                album,
                genre,
                duration,
                writer,
                producer,
                publisher,
                label,
            },
            p9,
        ),
    )
}


// ---------------------------------------------------------------- tracks

/// On-disk shape of one track: its path, the size and modification time
/// its identity was derived from, and its tag metadata.
#[derive(Clone, Debug)]
pub struct TrackCache {
    pub path: String,
    pub size: u64,
    pub modified: u64,
    pub meta: MetadataCache,
}

/// The abstract value of a `TrackCache`.
pub ghost struct TrackCacheV {
    pub path: Seq<char>,
    pub size: u64,
    pub modified: u64,
    pub meta: MetadataCacheV,
}

impl View for TrackCache {
    type V = TrackCacheV;

    open spec fn view(&self) -> TrackCacheV {
        TrackCacheV { path: self.path@, size: self.size, modified: self.modified, meta: self.meta@ }
    }
}

/// All text of the record fits its length prefixes.
pub open spec fn track_fits(t: TrackCacheV) -> bool {
    &&& encode_utf8(t.path).len() <= u64::MAX
    &&& meta_fits(t.meta)
}

/// A track record: the path, the stat pair, then the metadata.
pub open spec fn spec_enc_track(t: TrackCacheV) -> Seq<u8> {
    spec_enc_str(t.path) + (spec_enc_u64(t.size) + (spec_enc_u64(t.modified) + spec_enc_meta(
        t.meta,
    )))
}

/// Read a track record.
pub open spec fn spec_dec_track(bytes: Seq<u8>, pos: int) -> Option<(TrackCacheV, int)> {
    match spec_dec_str(bytes, pos) {
        Some((path, p1)) => match spec_dec_u64(bytes, p1) {
            Some((size, p2)) => match spec_dec_u64(bytes, p2) {
                Some((modified, p3)) => match spec_dec_meta(bytes, p3) {
                    Some((meta, p4)) => Some((TrackCacheV { path, size, modified, meta }, p4)),
                    None => None,
                },
                None => None,
            },
            None => None,
        },
        None => None,
    }
}

/// Decoding an encoded track record embedded in any buffer yields it back.
#[verifier::rlimit(100)]
#[verifier::spinoff_prover]
pub proof fn lemma_dec_enc_track(t: TrackCacheV, prefix: Seq<u8>, suffix: Seq<u8>)
    requires
        track_fits(t),
    ensures
        spec_dec_track(prefix + spec_enc_track(t) + suffix, prefix.len() as int) == Some(
            (t, prefix.len() as int + spec_enc_track(t).len()),
        ),
{
    let e1 = spec_enc_str(t.path);
    let e2 = spec_enc_u64(t.size);
    let e3 = spec_enc_u64(t.modified);
    let e4 = spec_enc_meta(t.meta);
    let r4 = e4;
    let r3 = e3 + r4;
    let r2 = e2 + r3;
    let r1 = e1 + r2;
    let all = prefix + spec_enc_track(t) + suffix;
    let p0 = prefix;
    let p1 = p0 + e1;
    let p2 = p1 + e2;
    let p3 = p2 + e3;
    assert(all == (p0 + r1) + suffix);
    lemma_concat_associative(e1, r2, suffix);
    lemma_concat_associative(p0, r1, suffix);
    lemma_concat_associative(p0, e1, r2 + suffix);
    assert(all == (p0 + e1) + (r2 + suffix));
    lemma_dec_enc_str(t.path, p0, r2 + suffix);
    lemma_concat_associative(e2, r3, suffix);
    lemma_concat_associative(p1, e2, r3 + suffix);
    assert(all == (p1 + e2) + (r3 + suffix));
    lemma_dec_enc_u64(t.size, p1, r3 + suffix);
    lemma_concat_associative(e3, r4, suffix);
    lemma_concat_associative(p2, e3, r4 + suffix);
    assert(all == (p2 + e3) + (r4 + suffix));
    lemma_dec_enc_u64(t.modified, p2, r4 + suffix);
    assert(all == (p3 + e4) + suffix);
    lemma_dec_enc_meta(t.meta, p3, suffix);
}

/// Append a track record to the output buffer.
pub fn enc_track(out: &mut Vec<u8>, t: &TrackCache)
    ensures
        final(out)@ == old(out)@ + spec_enc_track(t@),
{
    enc_str(out, self_str(&t.path));
    enc_u64(out, t.size);
    enc_u64(out, t.modified);
    enc_meta(out, &t.meta);
    proof {
        let e1 = spec_enc_str(t.path@);
        let e2 = spec_enc_u64(t.size);
        let e3 = spec_enc_u64(t.modified);
        let e4 = spec_enc_meta(t.meta@);
        lemma_concat_associative(old(out)@, e1, e2 + (e3 + e4));
        lemma_concat_associative(old(out)@ + e1, e2, e3 + e4);
        lemma_concat_associative(old(out)@ + e1 + e2, e3, e4);
    }
}

/// Read a track record, exactly as the spec decoder does.
pub fn dec_track(bytes: &Vec<u8>, pos: usize) -> (r: Option<(TrackCache, usize)>)
    ensures
        r matches Some(p) ==> spec_dec_track(bytes@, pos as int) == Some((p.0@, p.1 as int)),
        r is None ==> spec_dec_track(bytes@, pos as int) is None,
{
    let (path, p1) = match dec_str(bytes, pos) {
        Some(x) => x,
        None => {
            return None;
        },
    };
    let (size, p2) = match dec_u64(bytes, p1) {
        Some(x) => x,
        None => {
            return None;
        },
    };
    let (modified, p3) = match dec_u64(bytes, p2) {
        Some(x) => x,
        None => {
            return None;
        },
    };
    let (meta, p4) = match dec_meta(bytes, p3) {
        Some(x) => x,
        None => {
            return None;
        },
    };
    Some((TrackCache { path, size, modified, meta }, p4))
}

// ---------------------------------------------------------------- track lists

/// The bodies of a list of track records, one after the other.
pub open spec fn spec_enc_track_seq_body(items: Seq<TrackCacheV>) -> Seq<u8>
    decreases items.len(),
{
    if items.len() == 0 {
        Seq::empty()
    } else {
        spec_enc_track(items[0]) + spec_enc_track_seq_body(items.drop_first())
    }
}

/// A list of track records: its count, then each record.
pub open spec fn spec_enc_track_seq(items: Seq<TrackCacheV>) -> Seq<u8> {
    spec_enc_u64(items.len() as u64) + spec_enc_track_seq_body(items)
}

/// Read `count` track records one after the other.
pub open spec fn spec_dec_track_seq_body(bytes: Seq<u8>, pos: int, count: nat) -> Option<
    (Seq<TrackCacheV>, int),
>
    decreases count,
{
    if count == 0 {
        Some((Seq::empty(), pos))
    } else {
        match spec_dec_track(bytes, pos) {
            Some((t, p)) => match spec_dec_track_seq_body(bytes, p, (count - 1) as nat) {
                Some((rest, end)) => Some((seq![t] + rest, end)),
                None => None,
            },
            None => None,
        }
    }
}

/// Read a count-prefixed list of track records.
pub open spec fn spec_dec_track_seq(bytes: Seq<u8>, pos: int) -> Option<(Seq<TrackCacheV>, int)> {
    match spec_dec_u64(bytes, pos) {
        Some((n, p)) => spec_dec_track_seq_body(bytes, p, n as nat),
        None => None,
    }
}

/// Every record of the list fits its length prefixes.
pub open spec fn track_seq_fits(items: Seq<TrackCacheV>) -> bool {
    forall|i: int| 0 <= i < items.len() ==> track_fits(#[trigger] items[i])
}

/// Decoding the encoded bodies of a track list embedded in any buffer yields
/// the list back.
#[verifier::rlimit(100)]
#[verifier::spinoff_prover]
pub proof fn lemma_dec_enc_track_seq_body(items: Seq<TrackCacheV>, prefix: Seq<u8>, suffix: Seq<u8>)
    requires
        track_seq_fits(items),
    ensures
        spec_dec_track_seq_body(
            prefix + spec_enc_track_seq_body(items) + suffix,
            prefix.len() as int,
            items.len(),
        ) == Some((items, prefix.len() as int + spec_enc_track_seq_body(items).len())),
    decreases items.len(),
{
    if items.len() == 0 {
        assert(prefix + spec_enc_track_seq_body(items) + suffix =~= prefix + suffix);
        assert(items =~= Seq::<TrackCacheV>::empty());
    } else {
        let head = items[0];
        let rest = items.drop_first();
        let e = spec_enc_track(head);
        let br = spec_enc_track_seq_body(rest);
        let all = prefix + spec_enc_track_seq_body(items) + suffix;
        assert(all == (prefix + (e + br)) + suffix);
        lemma_concat_associative(prefix, e, br);
        lemma_concat_associative(prefix + e, br, suffix);
        assert(all == (prefix + e) + (br + suffix));
        lemma_dec_enc_track(head, prefix, br + suffix);
        assert(all == ((prefix + e) + br) + suffix);
        lemma_dec_enc_track_seq_body(rest, prefix + e, suffix);
        assert(seq![head] + rest =~= items);
    }
}

/// Decoding an encoded track list embedded in any buffer yields it back.
#[verifier::rlimit(100)]
#[verifier::spinoff_prover]
pub proof fn lemma_dec_enc_track_seq(items: Seq<TrackCacheV>, prefix: Seq<u8>, suffix: Seq<u8>)
    requires
        track_seq_fits(items),
        items.len() <= u64::MAX,
    ensures
        spec_dec_track_seq(prefix + spec_enc_track_seq(items) + suffix, prefix.len() as int)
            == Some((items, prefix.len() as int + spec_enc_track_seq(items).len())),
{
    let all = prefix + spec_enc_track_seq(items) + suffix;
    assert(all =~= prefix + spec_enc_u64(items.len() as u64) + (spec_enc_track_seq_body(items)
        + suffix));
    lemma_dec_enc_u64(items.len() as u64, prefix, spec_enc_track_seq_body(items) + suffix);
    assert(all =~= (prefix + spec_enc_u64(items.len() as u64)) + spec_enc_track_seq_body(items)
        + suffix);
    lemma_dec_enc_track_seq_body(items, prefix + spec_enc_u64(items.len() as u64), suffix);
}

/// Encoding one more track appends its encoding to the bodies.
proof fn lemma_track_seq_body_snoc(items: Seq<TrackCacheV>, i: int)
    requires
        0 <= i < items.len(),
    ensures
        spec_enc_track_seq_body(items.take(i + 1)) == spec_enc_track_seq_body(items.take(i))
            + spec_enc_track(items[i]),
    decreases i,
{
    if i == 0 {
        assert(items.take(1)[0] == items[0]);
        assert(items.take(1).drop_first() =~= Seq::empty());
        assert(items.take(0) =~= Seq::<TrackCacheV>::empty());
        assert(spec_enc_track_seq_body(items.take(1)) == spec_enc_track(items[0])
            + spec_enc_track_seq_body(items.take(1).drop_first()));
        assert(spec_enc_track_seq_body(items.take(1)) =~= spec_enc_track(items[0]));
        assert(spec_enc_track_seq_body(items.take(0)) + spec_enc_track(items[0]) =~= spec_enc_track(
            items[0],
        ));
    } else {
        lemma_track_seq_body_snoc(items.drop_first(), i - 1);
        assert(items.take(i + 1).drop_first() =~= items.drop_first().take(i));
        assert(items.take(i).drop_first() =~= items.drop_first().take(i - 1));
        assert(items.take(i + 1)[0] == items[0]);
        assert(items.take(i)[0] == items[0]);
        assert(items.drop_first()[i - 1] == items[i]);
        assert(spec_enc_track(items[0]) + (spec_enc_track_seq_body(items.drop_first().take(i - 1))
            + spec_enc_track(items[i])) =~= (spec_enc_track(items[0]) + spec_enc_track_seq_body(
            items.drop_first().take(i - 1),
        )) + spec_enc_track(items[i]));
    }
}

/// The abstract values of a vector of track records.
pub open spec fn track_vec_view(items: Seq<TrackCache>) -> Seq<TrackCacheV> {
    items.map_values(|t: TrackCache| t@)
}

/// Append a count-prefixed list of track records to the output buffer.
pub fn enc_track_list(out: &mut Vec<u8>, items: &Vec<TrackCache>)
    ensures
        final(out)@ == old(out)@ + spec_enc_track_seq(track_vec_view(items@)),
{
    let ghost views = track_vec_view(items@);
    enc_u64(out, items.len() as u64);
    let mut i: usize = 0;
    while i < items.len()
        invariant
            i <= items.len(),
            views == track_vec_view(items@),
            out@ == old(out)@ + spec_enc_u64(items@.len() as u64) + spec_enc_track_seq_body(
                views.take(i as int),
            ),
        decreases items.len() - i,
    {
        proof {
            assert(views[i as int] == items@[i as int]@);
        }
        enc_track(out, &items[i]);
        proof {
            lemma_track_seq_body_snoc(views, i as int);
        }
        i = i + 1;
    }
    assert(views.take(items@.len() as int) =~= views);
}

/// Read a count-prefixed list of track records, exactly as the spec decoder
/// does.
pub fn dec_track_list(bytes: &Vec<u8>, pos: usize) -> (r: Option<(Vec<TrackCache>, usize)>)
    ensures
        r matches Some(p) ==> spec_dec_track_seq(bytes@, pos as int) == Some(
            (track_vec_view(p.0@), p.1 as int),
        ),
        r is None ==> spec_dec_track_seq(bytes@, pos as int) is None,
{
    match dec_u64(bytes, pos) {
        Some((n, p0)) => {
            let mut acc: Vec<TrackCache> = Vec::new();
            let mut p = p0;
            let mut remaining = n;
            loop
                invariant
                    spec_dec_track_seq(bytes@, pos as int) == spec_dec_track_seq_body(
                        bytes@,
                        p0 as int,
                        n as nat,
                    ),
                    remaining <= n,
                    spec_dec_track_seq_body(bytes@, p0 as int, n as nat) matches Some(q)
                        ==> spec_dec_track_seq_body(bytes@, p as int, remaining as nat)
                        matches Some(t) && q == (track_vec_view(acc@) + t.0, t.1),
                    spec_dec_track_seq_body(bytes@, p0 as int, n as nat) is None
                        ==> spec_dec_track_seq_body(bytes@, p as int, remaining as nat) is None,
                decreases remaining,
            {
                if remaining == 0 {
                    proof {
                        assert(track_vec_view(acc@) + Seq::<TrackCacheV>::empty()
                            =~= track_vec_view(acc@));
                    }
                    return Some((acc, p));
                }
                match dec_track(bytes, p) {
                    Some((t, p2)) => {
                        proof {
                            let sub = spec_dec_track_seq_body(
                                bytes@,
                                p2 as int,
                                (remaining - 1) as nat,
                            );
                            if sub is Some {
                                let tl = sub->Some_0;
                                assert(track_vec_view(acc@.push(t)) =~= track_vec_view(acc@).push(
                                    t@,
                                ));
                                assert(track_vec_view(acc@).push(t@) + tl.0 =~= track_vec_view(
                                    acc@,
                                ) + (seq![t@] + tl.0));
                            }
                        }
                        acc.push(t);
                        p = p2;
                        remaining = remaining - 1;
                    },
                    None => {
                        return None;
                    },
                }
            }
        },
        None => None,
    }
}


// ---------------------------------------------------------------- playlists

/// On-disk shape of a playlist: its identity in text form, its name, the
/// folder it was scanned from, and its tracks.
#[derive(Clone, Debug)]
pub struct PlaylistCache {
    pub id: String,
    pub name: String,
    pub path: String,
    pub tracks: Vec<TrackCache>,
}

/// The abstract value of a `PlaylistCache`.
pub ghost struct PlaylistCacheV {
    pub id: Seq<char>,
    pub name: Seq<char>,
    pub path: Seq<char>,
    pub tracks: Seq<TrackCacheV>,
}

impl View for PlaylistCache {
    type V = PlaylistCacheV;

    open spec fn view(&self) -> PlaylistCacheV {
        PlaylistCacheV {
            id: self.id@,
            name: self.name@,
            path: self.path@,
            tracks: track_vec_view(self.tracks@),
        }
    }
}

/// All text of the record fits its length prefixes.
pub open spec fn playlist_cache_fits(p: PlaylistCacheV) -> bool {
    &&& encode_utf8(p.id).len() <= u64::MAX
    &&& encode_utf8(p.name).len() <= u64::MAX
    &&& encode_utf8(p.path).len() <= u64::MAX
    &&& track_seq_fits(p.tracks)
    &&& p.tracks.len() <= u64::MAX
}

/// The playlist record's text fields: identity, name, path.
pub open spec fn spec_enc_playlist_head(p: PlaylistCacheV) -> Seq<u8> {
    spec_enc_str(p.id) + (spec_enc_str(p.name) + spec_enc_str(p.path))
}

/// Read the text fields.
pub open spec fn spec_dec_playlist_head(bytes: Seq<u8>, pos: int) -> Option<
    ((Seq<char>, Seq<char>, Seq<char>), int),
> {
    match spec_dec_str(bytes, pos) {
        Some((id, p1)) => match spec_dec_str(bytes, p1) {
            Some((name, p2)) => match spec_dec_str(bytes, p2) {
                Some((path, p3)) => Some(((id, name, path), p3)),
                None => None,
            },
            None => None,
        },
        None => None,
    }
}

/// A playlist record: identity, name, path, then the track list.
pub open spec fn spec_enc_playlist(p: PlaylistCacheV) -> Seq<u8> {
    spec_enc_playlist_head(p) + spec_enc_track_seq(p.tracks)
}

/// Read a playlist record.
pub open spec fn spec_dec_playlist(bytes: Seq<u8>, pos: int) -> Option<(PlaylistCacheV, int)> {
    match spec_dec_playlist_head(bytes, pos) {
        Some(((id, name, path), p3)) => match spec_dec_track_seq(bytes, p3) {
            Some((tracks, p4)) => Some((PlaylistCacheV { id, name, path, tracks }, p4)),
            None => None,
        },
        None => None,
    }
}

/// Decoding the encoded text fields embedded in any buffer yields them
/// back.
#[verifier::rlimit(100)]
#[verifier::spinoff_prover]
proof fn lemma_dec_enc_playlist_head(p: PlaylistCacheV, prefix: Seq<u8>, suffix: Seq<u8>)
    requires
        playlist_cache_fits(p),
    ensures
        spec_dec_playlist_head(prefix + spec_enc_playlist_head(p) + suffix, prefix.len() as int)
            == Some(
            ((p.id, p.name, p.path), prefix.len() as int + spec_enc_playlist_head(p).len()),
        ),
{
    let e1 = spec_enc_str(p.id);
    let e2 = spec_enc_str(p.name);
    let e3 = spec_enc_str(p.path);
    let r3 = e3;
    let r2 = e2 + r3;
    let r1 = e1 + r2;
    let all = prefix + spec_enc_playlist_head(p) + suffix;
    let p0 = prefix;
    let p1 = p0 + e1;
    let p2 = p1 + e2;
    assert(all == (p0 + r1) + suffix);
    lemma_concat_associative(e1, r2, suffix);
    lemma_concat_associative(p0, r1, suffix);
    lemma_concat_associative(p0, e1, r2 + suffix);
    assert(all == (p0 + e1) + (r2 + suffix));
    lemma_dec_enc_str(p.id, p0, r2 + suffix);
    lemma_concat_associative(e2, r3, suffix);
    lemma_concat_associative(p1, e2, r3 + suffix);
    assert(all == (p1 + e2) + (r3 + suffix));
    lemma_dec_enc_str(p.name, p1, r3 + suffix);
    assert(all == (p2 + e3) + suffix);
    lemma_dec_enc_str(p.path, p2, suffix);
}

/// Decoding an encoded playlist record embedded in any buffer yields it
/// back.
#[verifier::rlimit(100)]
#[verifier::spinoff_prover]
pub proof fn lemma_dec_enc_playlist(p: PlaylistCacheV, prefix: Seq<u8>, suffix: Seq<u8>)
    requires
        playlist_cache_fits(p),
    ensures
        spec_dec_playlist(prefix + spec_enc_playlist(p) + suffix, prefix.len() as int) == Some(
            (p, prefix.len() as int + spec_enc_playlist(p).len()),
        ),
{
    let a = spec_enc_playlist_head(p);
    let b = spec_enc_track_seq(p.tracks);
    let all = prefix + spec_enc_playlist(p) + suffix;
    assert(all == (prefix + (a + b)) + suffix);
    lemma_concat_associative(prefix, a, b);
    lemma_concat_associative(prefix + a, b, suffix);
    lemma_concat_associative(prefix, a, b + suffix);
    assert(all == (prefix + a) + (b + suffix));
    lemma_dec_enc_playlist_head(p, prefix, b + suffix);
    assert(all == ((prefix + a) + b) + suffix);
    lemma_dec_enc_track_seq(p.tracks, prefix + a, suffix);
}

/// Encode a playlist record as one blob.
pub fn encode_playlist_cache(p: &PlaylistCache) -> (r: Vec<u8>)
    ensures
        r@ == spec_enc_playlist(p@),
{
    let mut out: Vec<u8> = Vec::new();
    enc_str(&mut out, self_str(&p.id));
    enc_str(&mut out, self_str(&p.name));
    enc_str(&mut out, self_str(&p.path));
    enc_track_list(&mut out, &p.tracks);
    proof {
        let e1 = spec_enc_str(p.id@);
        let e2 = spec_enc_str(p.name@);
        let e3 = spec_enc_str(p.path@);
        let e4 = spec_enc_track_seq(track_vec_view(p.tracks@));
        lemma_concat_associative(e1, e2, e3);
        lemma_concat_associative(e1 + e2, e3, e4);
        assert(spec_enc_playlist(p@) == (e1 + (e2 + e3)) + e4);
    }
    out
}

/// What parsing a whole playlist blob yields: the record, if the bytes are
/// exactly one well-formed record.
pub open spec fn spec_parse_playlist(bytes: Seq<u8>) -> Option<PlaylistCacheV> {
    match spec_dec_playlist(bytes, 0) {
        Some((p, end)) => if end == bytes.len() {
            Some(p)
        } else {
            None
        },
        None => None,
    }
}

/// Decode a whole playlist blob; trailing bytes are rejected.
pub fn decode_playlist_cache(bytes: &Vec<u8>) -> (r: Option<PlaylistCache>)
    ensures
        r matches Some(p) ==> spec_parse_playlist(bytes@) == Some(p@),
        r is None ==> spec_parse_playlist(bytes@) is None,
{
    let (id, p1) = match dec_str(bytes, 0) {
        Some(x) => x,
        None => {
            return None;
        },
    };
    let (name, p2) = match dec_str(bytes, p1) {
        Some(x) => x,
        None => {
            return None;
        },
    };
    let (path, p3) = match dec_str(bytes, p2) {
        Some(x) => x,
        None => {
            return None;
        },
    };
    let (tracks, p4) = match dec_track_list(bytes, p3) {
        Some(x) => x,
        None => {
            return None;
        },
    };
    if p4 != bytes.len() {
        return None;
    }
    Some(PlaylistCache { id, name, path, tracks })
}

/// Writing a playlist record and reading it back yields a record with the
/// same identity, name, path, and track sequence.
pub proof fn lemma_playlist_cache_round_trip(p: PlaylistCacheV)
    requires
        playlist_cache_fits(p),
    ensures
        spec_parse_playlist(spec_enc_playlist(p)) == Some(p),
{
    let enc = spec_enc_playlist(p);
    assert(Seq::<u8>::empty() + enc + Seq::<u8>::empty() =~= enc);
    lemma_dec_enc_playlist(p, Seq::empty(), Seq::empty());
}

// ---------------------------------------------------------------- thumbnails

/// On-disk shape of a playlist's thumbnails: for each track path, the raw
/// pixel bytes of its downscaled cover art. Keys are unique; the order is
/// the order the entries were added in.
#[derive(Clone, Debug)]
pub struct ThumbnailsCached {
    pub thumbnails: Vec<(String, Vec<u8>)>,
}

/// The abstract value of `ThumbnailsCached`: key-value pairs.
pub open spec fn thumbs_view(items: Seq<(String, Vec<u8>)>) -> Seq<(Seq<char>, Seq<u8>)> {
    items.map_values(|e: (String, Vec<u8>)| (e.0@, e.1@))
}

impl View for ThumbnailsCached {
    type V = Seq<(Seq<char>, Seq<u8>)>;

    open spec fn view(&self) -> Seq<(Seq<char>, Seq<u8>)> {
        thumbs_view(self.thumbnails@)
    }
}

/// One entry: the key, then the bytes.
pub open spec fn spec_enc_thumb(e: (Seq<char>, Seq<u8>)) -> Seq<u8> {
    spec_enc_str(e.0) + spec_enc_bytes(e.1)
}

/// Read one entry.
pub open spec fn spec_dec_thumb(bytes: Seq<u8>, pos: int) -> Option<((Seq<char>, Seq<u8>), int)> {
    match spec_dec_str(bytes, pos) {
        Some((k, p1)) => match spec_dec_bytes(bytes, p1) {
            Some((v, p2)) => Some(((k, v), p2)),
            None => None,
        },
        None => None,
    }
}

/// An entry fits its length prefixes.
pub open spec fn thumb_fits(e: (Seq<char>, Seq<u8>)) -> bool {
    &&& encode_utf8(e.0).len() <= u64::MAX
    &&& e.1.len() <= u64::MAX
}

/// Decoding an encoded entry embedded in any buffer yields it back.
#[verifier::rlimit(100)]
#[verifier::spinoff_prover]
pub proof fn lemma_dec_enc_thumb(e: (Seq<char>, Seq<u8>), prefix: Seq<u8>, suffix: Seq<u8>)
    requires
        thumb_fits(e),
    ensures
        spec_dec_thumb(prefix + spec_enc_thumb(e) + suffix, prefix.len() as int) == Some(
            (e, prefix.len() as int + spec_enc_thumb(e).len()),
        ),
{
    let e1 = spec_enc_str(e.0);
    let e2 = spec_enc_bytes(e.1);
    let all = prefix + spec_enc_thumb(e) + suffix;
    assert(all == (prefix + (e1 + e2)) + suffix);
    lemma_concat_associative(prefix, e1, e2);
    lemma_concat_associative(prefix + e1, e2, suffix);
    lemma_concat_associative(prefix, e1, e2 + suffix);
    assert(all == (prefix + e1) + (e2 + suffix));
    lemma_dec_enc_str(e.0, prefix, e2 + suffix);
    assert(all == ((prefix + e1) + e2) + suffix);
    lemma_dec_enc_bytes(e.1, prefix + e1, suffix);
}

/// The bodies of an entry list, one after the other.
pub open spec fn spec_enc_thumb_seq_body(items: Seq<(Seq<char>, Seq<u8>)>) -> Seq<u8>
    decreases items.len(),
{
    if items.len() == 0 {
        Seq::empty()
    } else {
        spec_enc_thumb(items[0]) + spec_enc_thumb_seq_body(items.drop_first())
    }
}

/// A thumbnail map: its entry count, then each entry.
pub open spec fn spec_enc_thumb_seq(items: Seq<(Seq<char>, Seq<u8>)>) -> Seq<u8> {
    spec_enc_u64(items.len() as u64) + spec_enc_thumb_seq_body(items)
}

/// Read `count` entries one after the other.
pub open spec fn spec_dec_thumb_seq_body(bytes: Seq<u8>, pos: int, count: nat) -> Option<
    (Seq<(Seq<char>, Seq<u8>)>, int),
>
    decreases count,
{
    if count == 0 {
        Some((Seq::empty(), pos))
    } else {
        match spec_dec_thumb(bytes, pos) {
            Some((e, p)) => match spec_dec_thumb_seq_body(bytes, p, (count - 1) as nat) {
                Some((rest, end)) => Some((seq![e] + rest, end)),
                None => None,
            },
            None => None,
        }
    }
}

/// Read a count-prefixed thumbnail map.
pub open spec fn spec_dec_thumb_seq(bytes: Seq<u8>, pos: int) -> Option<
    (Seq<(Seq<char>, Seq<u8>)>, int),
> {
    match spec_dec_u64(bytes, pos) {
        Some((n, p)) => spec_dec_thumb_seq_body(bytes, p, n as nat),
        None => None,
    }
}

/// Every entry of the list fits its length prefixes.
pub open spec fn thumb_seq_fits(items: Seq<(Seq<char>, Seq<u8>)>) -> bool {
    forall|i: int| 0 <= i < items.len() ==> thumb_fits(#[trigger] items[i])
}

/// Decoding the encoded bodies of an entry list embedded in any buffer
/// yields the list back.
#[verifier::rlimit(100)]
#[verifier::spinoff_prover]
pub proof fn lemma_dec_enc_thumb_seq_body(
    items: Seq<(Seq<char>, Seq<u8>)>,
    prefix: Seq<u8>,
    suffix: Seq<u8>,
)
    requires
        thumb_seq_fits(items),
    ensures
        spec_dec_thumb_seq_body(
            prefix + spec_enc_thumb_seq_body(items) + suffix,
            prefix.len() as int,
            items.len(),
        ) == Some((items, prefix.len() as int + spec_enc_thumb_seq_body(items).len())),
    decreases items.len(),
{
    if items.len() == 0 {
        assert(prefix + spec_enc_thumb_seq_body(items) + suffix =~= prefix + suffix);
        assert(items =~= Seq::<(Seq<char>, Seq<u8>)>::empty());
    } else {
        let head = items[0];
        let rest = items.drop_first();
        let e = spec_enc_thumb(head);
        let br = spec_enc_thumb_seq_body(rest);
        let all = prefix + spec_enc_thumb_seq_body(items) + suffix;
        assert(all == (prefix + (e + br)) + suffix);
        lemma_concat_associative(prefix, e, br);
        lemma_concat_associative(prefix + e, br, suffix);
        assert(all == (prefix + e) + (br + suffix));
        lemma_dec_enc_thumb(head, prefix, br + suffix);
        assert(all == ((prefix + e) + br) + suffix);
        lemma_dec_enc_thumb_seq_body(rest, prefix + e, suffix);
        assert(seq![head] + rest =~= items);
    }
}

/// Decoding an encoded thumbnail map embedded in any buffer yields it back.
#[verifier::rlimit(100)]
#[verifier::spinoff_prover]
pub proof fn lemma_dec_enc_thumb_seq(
    items: Seq<(Seq<char>, Seq<u8>)>,
    prefix: Seq<u8>,
    suffix: Seq<u8>,
)
    requires
        thumb_seq_fits(items),
        items.len() <= u64::MAX,
    ensures
        spec_dec_thumb_seq(prefix + spec_enc_thumb_seq(items) + suffix, prefix.len() as int)
            == Some((items, prefix.len() as int + spec_enc_thumb_seq(items).len())),
{
    let all = prefix + spec_enc_thumb_seq(items) + suffix;
    assert(all =~= prefix + spec_enc_u64(items.len() as u64) + (spec_enc_thumb_seq_body(items)
        + suffix));
    lemma_dec_enc_u64(items.len() as u64, prefix, spec_enc_thumb_seq_body(items) + suffix);
    assert(all =~= (prefix + spec_enc_u64(items.len() as u64)) + spec_enc_thumb_seq_body(items)
        + suffix);
    lemma_dec_enc_thumb_seq_body(items, prefix + spec_enc_u64(items.len() as u64), suffix);
}

/// Encoding one more entry appends its encoding to the bodies.
proof fn lemma_thumb_seq_body_snoc(items: Seq<(Seq<char>, Seq<u8>)>, i: int)
    requires
        0 <= i < items.len(),
    ensures
        spec_enc_thumb_seq_body(items.take(i + 1)) == spec_enc_thumb_seq_body(items.take(i))
            + spec_enc_thumb(items[i]),
    decreases i,
{
    if i == 0 {
        assert(items.take(1)[0] == items[0]);
        assert(items.take(1).drop_first() =~= Seq::empty());
        assert(items.take(0) =~= Seq::<(Seq<char>, Seq<u8>)>::empty());
        assert(spec_enc_thumb_seq_body(items.take(1)) == spec_enc_thumb(items[0])
            + spec_enc_thumb_seq_body(items.take(1).drop_first()));
        assert(spec_enc_thumb_seq_body(items.take(1)) =~= spec_enc_thumb(items[0]));
        assert(spec_enc_thumb_seq_body(items.take(0)) + spec_enc_thumb(items[0]) =~= spec_enc_thumb(
            items[0],
        ));
    } else {
        lemma_thumb_seq_body_snoc(items.drop_first(), i - 1);
        assert(items.take(i + 1).drop_first() =~= items.drop_first().take(i));
        assert(items.take(i).drop_first() =~= items.drop_first().take(i - 1));
        assert(items.take(i + 1)[0] == items[0]);
        assert(items.take(i)[0] == items[0]);
        assert(items.drop_first()[i - 1] == items[i]);
        assert(spec_enc_thumb(items[0]) + (spec_enc_thumb_seq_body(items.drop_first().take(i - 1))
            + spec_enc_thumb(items[i])) =~= (spec_enc_thumb(items[0]) + spec_enc_thumb_seq_body(
            items.drop_first().take(i - 1),
        )) + spec_enc_thumb(items[i]));
    }
}

/// Encode a thumbnail map as one blob.
pub fn encode_thumbnails_cached(t: &ThumbnailsCached) -> (r: Vec<u8>)
    ensures
        r@ == spec_enc_thumb_seq(t@),
{
    let ghost views = t@;
    let items = &t.thumbnails;
    let mut out: Vec<u8> = Vec::new();
    enc_u64(&mut out, items.len() as u64);
    let mut i: usize = 0;
    while i < items.len()
        invariant
            i <= items.len(),
            views == thumbs_view(items@),
            out@ == spec_enc_u64(items@.len() as u64) + spec_enc_thumb_seq_body(
                views.take(i as int),
            ),
        decreases items.len() - i,
    {
        proof {
            assert(views[i as int] == (items@[i as int].0@, items@[i as int].1@));
        }
        let ghost mid = out@;
        enc_str(&mut out, self_str(&items[i].0));
        enc_bytes(&mut out, &items[i].1);
        proof {
            lemma_concat_associative(
                mid,
                spec_enc_str(views[i as int].0),
                spec_enc_bytes(views[i as int].1),
            );
            lemma_thumb_seq_body_snoc(views, i as int);
        }
        i = i + 1;
    }
    assert(views.take(items@.len() as int) =~= views);
    out
}

/// What parsing a whole thumbnail blob yields.
pub open spec fn spec_parse_thumbnails(bytes: Seq<u8>) -> Option<Seq<(Seq<char>, Seq<u8>)>> {
    match spec_dec_thumb_seq(bytes, 0) {
        Some((t, end)) => if end == bytes.len() {
            Some(t)
        } else {
            None
        },
        None => None,
    }
}

/// Decode a whole thumbnail blob; trailing bytes are rejected.
pub fn decode_thumbnails_cached(bytes: &Vec<u8>) -> (r: Option<ThumbnailsCached>)
    ensures
        r matches Some(t) ==> spec_parse_thumbnails(bytes@) == Some(t@),
        r is None ==> spec_parse_thumbnails(bytes@) is None,
{
    match dec_u64(bytes, 0) {
        Some((n, p0)) => {
            let mut acc: Vec<(String, Vec<u8>)> = Vec::new();
            let mut p = p0;
            let mut remaining = n;
            loop
                invariant
                    spec_dec_thumb_seq(bytes@, 0) == spec_dec_thumb_seq_body(
                        bytes@,
                        p0 as int,
                        n as nat,
                    ),
                    remaining <= n,
                    p <= bytes@.len(),
                    spec_dec_thumb_seq_body(bytes@, p0 as int, n as nat) matches Some(q)
                        ==> spec_dec_thumb_seq_body(bytes@, p as int, remaining as nat)
                        matches Some(t) && q == (thumbs_view(acc@) + t.0, t.1),
                    spec_dec_thumb_seq_body(bytes@, p0 as int, n as nat) is None
                        ==> spec_dec_thumb_seq_body(bytes@, p as int, remaining as nat) is None,
                decreases remaining,
            {
                if remaining == 0 {
                    proof {
                        assert(thumbs_view(acc@) + Seq::<(Seq<char>, Seq<u8>)>::empty()
                            =~= thumbs_view(acc@));
                    }
                    if p != bytes.len() {
                        return None;
                    }
                    return Some(ThumbnailsCached { thumbnails: acc });
                }
                let (k, p1) = match dec_str(bytes, p) {
                    Some(x) => x,
                    None => {
                        return None;
                    },
                };
                let (v, p2) = match dec_bytes(bytes, p1) {
                    Some(x) => x,
                    None => {
                        return None;
                    },
                };
                proof {
                    let sub = spec_dec_thumb_seq_body(bytes@, p2 as int, (remaining - 1) as nat);
                    if sub is Some {
                        let tl = sub->Some_0;
                        assert(thumbs_view(acc@.push((k, v))) =~= thumbs_view(acc@).push(
                            (k@, v@),
                        ));
                        assert(thumbs_view(acc@).push((k@, v@)) + tl.0 =~= thumbs_view(acc@) + (
                        seq![(k@, v@)] + tl.0));
                    }
                }
                acc.push((k, v));
                p = p2;
                remaining = remaining - 1;
            }
        },
        None => None,
    }
}

/// Writing a thumbnail map and reading it back yields entries with the same
/// keys and the same byte content, in the same order.
pub proof fn lemma_thumbnails_round_trip(items: Seq<(Seq<char>, Seq<u8>)>)
    requires
        thumb_seq_fits(items),
        items.len() <= u64::MAX,
    ensures
        spec_parse_thumbnails(spec_enc_thumb_seq(items)) == Some(items),
{
    let enc = spec_enc_thumb_seq(items);
    assert(Seq::<u8>::empty() + enc + Seq::<u8>::empty() =~= enc);
    lemma_dec_enc_thumb_seq(items, Seq::empty(), Seq::empty());
}

} // verus!
