//! The playlist index: the list of known playlists (identity, name, folder
//! path), read once at startup and rewritten atomically after each scan.

use vstd::prelude::*;
use vstd::utf8::encode_utf8;
use vstd::seq_lib::lemma_concat_associative;

use crate::cache::codec::{
    spec_enc_u64,
    spec_dec_u64,
    lemma_dec_enc_u64,
    enc_u64,
    dec_u64,
    spec_enc_str,
    spec_dec_str,
    lemma_dec_enc_str,
    enc_str,
    dec_str,
};

verus! {

/// One known playlist: its identity in text form, its display name, and the
/// folder it was scanned from.
#[derive(Clone, Debug)]
pub struct CachedPlaylistIndex {
    pub id: String,
    pub name: String,
    pub path: String,
}

/// The abstract value of a `CachedPlaylistIndex`.
pub ghost struct CachedPlaylistIndexV {
    pub id: Seq<char>,
    pub name: Seq<char>,
    pub path: Seq<char>,
}

impl View for CachedPlaylistIndex {
    type V = CachedPlaylistIndexV;

    open spec fn view(&self) -> CachedPlaylistIndexV {
        CachedPlaylistIndexV { id: self.id@, name: self.name@, path: self.path@ }
    }
}

/// All known playlists, in the order they were cached.
#[derive(Clone, Debug)]
pub struct CachedPlaylistIndexes {
    pub playlists: Vec<CachedPlaylistIndex>,
}

/// The abstract values of an index list.
pub open spec fn index_vec_view(items: Seq<CachedPlaylistIndex>) -> Seq<CachedPlaylistIndexV> {
    items.map_values(|e: CachedPlaylistIndex| e@)
}

impl View for CachedPlaylistIndexes {
    type V = Seq<CachedPlaylistIndexV>;

    open spec fn view(&self) -> Seq<CachedPlaylistIndexV> {
        index_vec_view(self.playlists@)
    }
}

impl CachedPlaylistIndexes {
    /// An empty index: what a missing or unreadable index file reads as.
    pub fn new() -> (r: CachedPlaylistIndexes)
        ensures
            r@ == Seq::<CachedPlaylistIndexV>::empty(),
    {
        let r = CachedPlaylistIndexes { playlists: Vec::new() };
        proof {
            assert(r@ =~= Seq::<CachedPlaylistIndexV>::empty());
        }
        r
    }

    /// The cached playlist for a folder, if one is indexed: the scanner
    /// consults this before walking, and serves a hit from the cache.
    pub fn find_by_path(&self, path: &str) -> (r: Option<&CachedPlaylistIndex>)
        ensures
            r matches Some(e) ==> self@.contains(e@) && e.path@ == path@,
            r is None ==> forall|i: int|
                0 <= i < self@.len() ==> (#[trigger] self@[i]).path != path@,
    {
        let mut i: usize = 0;
        while i < self.playlists.len()
            invariant
                i <= self.playlists@.len(),
                forall|j: int| 0 <= j < i ==> (#[trigger] self@[j]).path != path@,
            decreases self.playlists@.len() - i,
        {
            if str_eq(self.playlists[i].path.as_str(), path) {
                let e = &self.playlists[i];
                proof {
                    assert(self@[i as int] == e@);
                }
                return Some(e);
            }
            proof {
                assert(self@[i as int] == self.playlists@[i as int]@);
            }
            i = i + 1;
        }
        None
    }
}

/// Compare two pieces of text.
fn str_eq(a: &str, b: &str) -> (r: bool)
    ensures
        r == (a@ == b@),
{
    let a_owned = a.to_owned();
    let b_owned = b.to_owned();
    <String as PartialEq>::eq(&a_owned, &b_owned)
}

/// An entry fits its length prefixes.
pub open spec fn index_fits(e: CachedPlaylistIndexV) -> bool {
    &&& encode_utf8(e.id).len() <= u64::MAX
    &&& encode_utf8(e.name).len() <= u64::MAX
    &&& encode_utf8(e.path).len() <= u64::MAX
}

/// One entry: identity, name, path.
pub open spec fn spec_enc_index(e: CachedPlaylistIndexV) -> Seq<u8> {
    spec_enc_str(e.id) + (spec_enc_str(e.name) + spec_enc_str(e.path))
}

/// Read one entry.
pub open spec fn spec_dec_index(bytes: Seq<u8>, pos: int) -> Option<(CachedPlaylistIndexV, int)> {
    match spec_dec_str(bytes, pos) {
        Some((id, p1)) => match spec_dec_str(bytes, p1) {
            Some((name, p2)) => match spec_dec_str(bytes, p2) {
                Some((path, p3)) => Some((CachedPlaylistIndexV { id, name, path }, p3)),
                None => None,
            },
            None => None,
        },
        None => None,
    }
}

/// Decoding an encoded entry embedded in any buffer yields it back.
#[verifier::rlimit(100)]
#[verifier::spinoff_prover]
pub proof fn lemma_dec_enc_index(e: CachedPlaylistIndexV, prefix: Seq<u8>, suffix: Seq<u8>)
    requires
        index_fits(e),
    ensures
        spec_dec_index(prefix + spec_enc_index(e) + suffix, prefix.len() as int) == Some(
            (e, prefix.len() as int + spec_enc_index(e).len()),
        ),
{
    let e1 = spec_enc_str(e.id);
    let e2 = spec_enc_str(e.name);
    let e3 = spec_enc_str(e.path);
    let r3 = e3;
    let r2 = e2 + r3;
    let r1 = e1 + r2;
    let all = prefix + spec_enc_index(e) + suffix;
    let p0 = prefix;
    let p1 = p0 + e1;
    let p2 = p1 + e2;
    assert(all == (p0 + r1) + suffix);
    lemma_concat_associative(e1, r2, suffix);
    lemma_concat_associative(p0, r1, suffix);
    lemma_concat_associative(p0, e1, r2 + suffix);
    assert(all == (p0 + e1) + (r2 + suffix));
    lemma_dec_enc_str(e.id, p0, r2 + suffix);
    lemma_concat_associative(e2, r3, suffix);
    lemma_concat_associative(p1, e2, r3 + suffix);
    assert(all == (p1 + e2) + (r3 + suffix));
    lemma_dec_enc_str(e.name, p1, r3 + suffix);
    assert(all == (p2 + e3) + suffix);
    lemma_dec_enc_str(e.path, p2, suffix);
}

/// The bodies of an entry list, one after the other.
pub open spec fn spec_enc_index_seq_body(items: Seq<CachedPlaylistIndexV>) -> Seq<u8>
    decreases items.len(),
{
    if items.len() == 0 {
        Seq::empty()
    } else {
        spec_enc_index(items[0]) + spec_enc_index_seq_body(items.drop_first())
    }
}

/// An index: its entry count, then each entry.
pub open spec fn spec_enc_index_seq(items: Seq<CachedPlaylistIndexV>) -> Seq<u8> {
    spec_enc_u64(items.len() as u64) + spec_enc_index_seq_body(items)
}

/// Read `count` entries one after the other.
pub open spec fn spec_dec_index_seq_body(bytes: Seq<u8>, pos: int, count: nat) -> Option<
    (Seq<CachedPlaylistIndexV>, int),
>
    decreases count,
{
    if count == 0 {
        Some((Seq::empty(), pos))
    } else {
        match spec_dec_index(bytes, pos) {
            Some((e, p)) => match spec_dec_index_seq_body(bytes, p, (count - 1) as nat) {
                Some((rest, end)) => Some((seq![e] + rest, end)),
                None => None,
            },
            None => None,
        }
    }
}

/// Read a count-prefixed index.
pub open spec fn spec_dec_index_seq(bytes: Seq<u8>, pos: int) -> Option<
    (Seq<CachedPlaylistIndexV>, int),
> {
    match spec_dec_u64(bytes, pos) {
        Some((n, p)) => spec_dec_index_seq_body(bytes, p, n as nat),
        None => None,
    }
}

/// Every entry of the list fits its length prefixes.
pub open spec fn index_seq_fits(items: Seq<CachedPlaylistIndexV>) -> bool {
    forall|i: int| 0 <= i < items.len() ==> index_fits(#[trigger] items[i])
}

/// Decoding the encoded bodies of an entry list embedded in any buffer
/// yields the list back.
#[verifier::rlimit(100)]
#[verifier::spinoff_prover]
pub proof fn lemma_dec_enc_index_seq_body(
    items: Seq<CachedPlaylistIndexV>,
    prefix: Seq<u8>,
    suffix: Seq<u8>,
)
    requires
        index_seq_fits(items),
    ensures
        spec_dec_index_seq_body(
            prefix + spec_enc_index_seq_body(items) + suffix,
            prefix.len() as int,
            items.len(),
        ) == Some((items, prefix.len() as int + spec_enc_index_seq_body(items).len())),
    decreases items.len(),
{
    if items.len() == 0 {
        assert(prefix + spec_enc_index_seq_body(items) + suffix =~= prefix + suffix);
        assert(items =~= Seq::<CachedPlaylistIndexV>::empty());
    } else {
        let head = items[0];
        let rest = items.drop_first();
        let e = spec_enc_index(head);
        let br = spec_enc_index_seq_body(rest);
        let all = prefix + spec_enc_index_seq_body(items) + suffix;
        assert(all == (prefix + (e + br)) + suffix);
        lemma_concat_associative(prefix, e, br);
        lemma_concat_associative(prefix + e, br, suffix);
        assert(all == (prefix + e) + (br + suffix));
        lemma_dec_enc_index(head, prefix, br + suffix);
        assert(all == ((prefix + e) + br) + suffix);
        lemma_dec_enc_index_seq_body(rest, prefix + e, suffix);
        assert(seq![head] + rest =~= items);
    }
}

/// Decoding an encoded index embedded in any buffer yields it back.
#[verifier::rlimit(100)]
#[verifier::spinoff_prover]
pub proof fn lemma_dec_enc_index_seq(
    items: Seq<CachedPlaylistIndexV>,
    prefix: Seq<u8>,
    suffix: Seq<u8>,
)
    requires
        index_seq_fits(items),
        items.len() <= u64::MAX,
    ensures
        spec_dec_index_seq(prefix + spec_enc_index_seq(items) + suffix, prefix.len() as int)
            == Some((items, prefix.len() as int + spec_enc_index_seq(items).len())),
{
    let all = prefix + spec_enc_index_seq(items) + suffix;
    assert(all =~= prefix + spec_enc_u64(items.len() as u64) + (spec_enc_index_seq_body(items)
        + suffix));
    lemma_dec_enc_u64(items.len() as u64, prefix, spec_enc_index_seq_body(items) + suffix);
    assert(all =~= (prefix + spec_enc_u64(items.len() as u64)) + spec_enc_index_seq_body(items)
        + suffix);
    lemma_dec_enc_index_seq_body(items, prefix + spec_enc_u64(items.len() as u64), suffix);
}

/// Encoding one more entry appends its encoding to the bodies.
proof fn lemma_index_seq_body_snoc(items: Seq<CachedPlaylistIndexV>, i: int)
    requires
        0 <= i < items.len(),
    ensures
        spec_enc_index_seq_body(items.take(i + 1)) == spec_enc_index_seq_body(items.take(i))
            + spec_enc_index(items[i]),
    decreases i,
{
    if i == 0 {
        assert(items.take(1)[0] == items[0]);
        assert(items.take(1).drop_first() =~= Seq::empty());
        assert(items.take(0) =~= Seq::<CachedPlaylistIndexV>::empty());
        assert(spec_enc_index_seq_body(items.take(1)) == spec_enc_index(items[0])
            + spec_enc_index_seq_body(items.take(1).drop_first()));
        assert(spec_enc_index_seq_body(items.take(1)) =~= spec_enc_index(items[0]));
        assert(spec_enc_index_seq_body(items.take(0)) + spec_enc_index(items[0]) =~= spec_enc_index(
            items[0],
        ));
    } else {
        lemma_index_seq_body_snoc(items.drop_first(), i - 1);
        assert(items.take(i + 1).drop_first() =~= items.drop_first().take(i));
        assert(items.take(i).drop_first() =~= items.drop_first().take(i - 1));
        assert(items.take(i + 1)[0] == items[0]);
        assert(items.take(i)[0] == items[0]);
        assert(items.drop_first()[i - 1] == items[i]);
        assert(spec_enc_index(items[0]) + (spec_enc_index_seq_body(items.drop_first().take(i - 1))
            + spec_enc_index(items[i])) =~= (spec_enc_index(items[0]) + spec_enc_index_seq_body(
            items.drop_first().take(i - 1),
        )) + spec_enc_index(items[i]));
    }
}

/// Encode a whole index as one blob.
pub fn encode_playlist_indexes(x: &CachedPlaylistIndexes) -> (r: Vec<u8>)
    ensures
        r@ == spec_enc_index_seq(x@),
{
    let ghost views = x@;
    let items = &x.playlists;
    let mut out: Vec<u8> = Vec::new();
    enc_u64(&mut out, items.len() as u64);
    let mut i: usize = 0;
    while i < items.len()
        invariant
            i <= items.len(),
            views == index_vec_view(items@),
            out@ == spec_enc_u64(items@.len() as u64) + spec_enc_index_seq_body(
                views.take(i as int),
            ),
        decreases items.len() - i,
    {
        proof {
            assert(views[i as int] == items@[i as int]@);
        }
        let ghost mid = out@;
        enc_str(&mut out, items[i].id.as_str());
        enc_str(&mut out, items[i].name.as_str());
        enc_str(&mut out, items[i].path.as_str());
        proof {
            let e1 = spec_enc_str(views[i as int].id);
            let e2 = spec_enc_str(views[i as int].name);
            let e3 = spec_enc_str(views[i as int].path);
            lemma_concat_associative(mid, e1, e2);
            lemma_concat_associative(mid + e1, e2, e3);
            lemma_concat_associative(mid, e1, e2 + e3);
            lemma_index_seq_body_snoc(views, i as int);
        }
        i = i + 1;
    }
    assert(views.take(items@.len() as int) =~= views);
    out
}

/// What parsing a whole index blob yields.
pub open spec fn spec_parse_playlist_indexes(bytes: Seq<u8>) -> Option<Seq<CachedPlaylistIndexV>> {
    match spec_dec_index_seq(bytes, 0) {
        Some((t, end)) => if end == bytes.len() {
            Some(t)
        } else {
            None
        },
        None => None,
    }
}

/// Decode a whole index blob; trailing bytes are rejected.
pub fn decode_playlist_indexes(bytes: &Vec<u8>) -> (r: Option<CachedPlaylistIndexes>)
    ensures
        r matches Some(t) ==> spec_parse_playlist_indexes(bytes@) == Some(t@),
        r is None ==> spec_parse_playlist_indexes(bytes@) is None,
{
    match dec_u64(bytes, 0) {
        Some((n, p0)) => {
            let mut acc: Vec<CachedPlaylistIndex> = Vec::new();
            let mut p = p0;
            let mut remaining = n;
            loop
                invariant
                    spec_dec_index_seq(bytes@, 0) == spec_dec_index_seq_body(
                        bytes@,
                        p0 as int,
                        n as nat,
                    ),
                    remaining <= n,
                    spec_dec_index_seq_body(bytes@, p0 as int, n as nat) matches Some(q)
                        ==> spec_dec_index_seq_body(bytes@, p as int, remaining as nat)
                        matches Some(t) && q == (index_vec_view(acc@) + t.0, t.1),
                    spec_dec_index_seq_body(bytes@, p0 as int, n as nat) is None
                        ==> spec_dec_index_seq_body(bytes@, p as int, remaining as nat) is None,
                decreases remaining,
            {
                if remaining == 0 {
                    proof {
                        assert(index_vec_view(acc@) + Seq::<CachedPlaylistIndexV>::empty()
                            =~= index_vec_view(acc@));
                    }
                    if p != bytes.len() {
                        return None;
                    }
                    return Some(CachedPlaylistIndexes { playlists: acc });
                }
                let (id, p1) = match dec_str(bytes, p) {
                    Some(x) => x,
                    None => {
                        return None;
                    },
                };
                let (name, p2) = match dec_str(bytes, p1) {
                    Some(x) => x,
                    None => {
                        return None;
                    },
                };
                let (path, p3) = match dec_str(bytes, p2) {
                    Some(x) => x,
                    None => {
                        return None;
                    },
                };
                let entry = CachedPlaylistIndex { id, name, path };
                proof {
                    let sub = spec_dec_index_seq_body(bytes@, p3 as int, (remaining - 1) as nat);
                    if sub is Some {
                        let tl = sub->Some_0;
                        assert(index_vec_view(acc@.push(entry)) =~= index_vec_view(acc@).push(
                            entry@,
                        ));
                        assert(index_vec_view(acc@).push(entry@) + tl.0 =~= index_vec_view(acc@)
                            + (seq![entry@] + tl.0));
                    }
                }
                acc.push(entry);
                p = p3;
                remaining = remaining - 1;
            }
        },
        None => None,
    }
}

/// Writing an index and reading it back yields the same entries in the same
/// order.
pub proof fn lemma_playlist_indexes_round_trip(items: Seq<CachedPlaylistIndexV>)
    requires
        index_seq_fits(items),
        items.len() <= u64::MAX,
    ensures
        spec_parse_playlist_indexes(spec_enc_index_seq(items)) == Some(items),
{
    let enc = spec_enc_index_seq(items);
    assert(Seq::<u8>::empty() + enc + Seq::<u8>::empty() =~= enc);
    lemma_dec_enc_index_seq(items, Seq::empty(), Seq::empty());
}

} // verus!
