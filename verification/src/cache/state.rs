//! The app-state snapshot record: last playback position, volume, mute,
//! shuffle, repeat, and queue order, written on shutdown and read at startup
//! to resume the previous session.

use vstd::prelude::*;
use vstd::utf8::encode_utf8;
use vstd::seq_lib::lemma_concat_associative;

use crate::cache::codec::{
    spec_enc_u64,
    spec_dec_u64,
    lemma_dec_enc_u64,
    enc_u64,
    dec_u64,
    spec_enc_bool,
    spec_dec_bool,
    lemma_dec_enc_bool,
    enc_bool,
    dec_bool,
    spec_enc_str,
    spec_dec_str,
    lemma_dec_enc_str,
    enc_str,
    dec_str,
};
use crate::cache::records::{
    spec_enc_u64_seq,
    spec_dec_u64_seq,
    lemma_dec_enc_u64_seq,
    enc_order,
    dec_order,
    spec_order_as_u64s,
};
use crate::playback::PlaybackStatus;

verus! {

/// On-disk shape of the playback snapshot.
#[derive(Clone, Debug)]
pub struct AppStateCache {
    pub current: Option<String>,
    pub state: PlaybackStatus,
    pub position: u64,
    pub volume: u32,
    pub mute: bool,
    pub shuffling: bool,
    pub repeat: bool,
    pub index: usize,
    pub queue_order: Vec<usize>,
}

/// The abstract value of an `AppStateCache`.
pub ghost struct AppStateCacheV {
    pub current: Option<Seq<char>>,
    pub state: PlaybackStatus,
    pub position: u64,
    pub volume: u32,
    pub mute: bool,
    pub shuffling: bool,
    pub repeat: bool,
    pub index: usize,
    pub queue_order: Seq<usize>,
}

impl View for AppStateCache {
    type V = AppStateCacheV;

    open spec fn view(&self) -> AppStateCacheV {
        AppStateCacheV {
            current: match self.current {
                Some(ref s) => Some(s@),
                None => None,
            },
            state: self.state,
            position: self.position,
            volume: self.volume,
            mute: self.mute,
            shuffling: self.shuffling,
            repeat: self.repeat,
            index: self.index,
            queue_order: self.queue_order@,
        }
    }
}

/// The record fits its length prefixes.
pub open spec fn app_state_fits(a: AppStateCacheV) -> bool {
    &&& match a.current {
        Some(s) => encode_utf8(s).len() <= u64::MAX,
        None => true,
    }
    &&& a.queue_order.len() <= u64::MAX
    &&& a.index <= u64::MAX
    &&& a.volume <= u64::MAX
}

/// The wire code of a machine state.
pub open spec fn spec_status_code(s: PlaybackStatus) -> u64 {
    match s {
        PlaybackStatus::Stopped => 0u64,
        PlaybackStatus::Playing => 1u64,
        PlaybackStatus::Paused => 2u64,
    }
}

/// The machine state a wire code names, if any.
pub open spec fn spec_status_of(code: u64) -> Option<PlaybackStatus> {
    if code == 0 {
        Some(PlaybackStatus::Stopped)
    } else if code == 1 {
        Some(PlaybackStatus::Playing)
    } else if code == 2 {
        Some(PlaybackStatus::Paused)
    } else {
        None
    }
}

/// An optional string: a presence flag, then the text if present.
pub open spec fn spec_enc_opt_str(o: Option<Seq<char>>) -> Seq<u8> {
    match o {
        None => spec_enc_bool(false),
        Some(s) => spec_enc_bool(true) + spec_enc_str(s),
    }
}

/// Read an optional string.
pub open spec fn spec_dec_opt_str(bytes: Seq<u8>, pos: int) -> Option<(Option<Seq<char>>, int)> {
    match spec_dec_bool(bytes, pos) {
        Some((present, p1)) => if present {
            match spec_dec_str(bytes, p1) {
                Some((s, p2)) => Some((Some(s), p2)),
                None => None,
            }
        } else {
            Some((None, p1))
        },
        None => None,
    }
}

/// Decoding an encoded optional string embedded in any buffer yields it
/// back.
pub proof fn lemma_dec_enc_opt_str(o: Option<Seq<char>>, prefix: Seq<u8>, suffix: Seq<u8>)
    requires
        match o {
            Some(s) => encode_utf8(s).len() <= u64::MAX,
            None => true,
        },
    ensures
        spec_dec_opt_str(prefix + spec_enc_opt_str(o) + suffix, prefix.len() as int) == Some(
            (o, prefix.len() as int + spec_enc_opt_str(o).len()),
        ),
{
    match o {
        None => {
            lemma_dec_enc_bool(false, prefix, suffix);
        },
        Some(s) => {
            let e1 = spec_enc_bool(true);
            let e2 = spec_enc_str(s);
            let all = prefix + spec_enc_opt_str(o) + suffix;
            assert(all == (prefix + (e1 + e2)) + suffix);
            lemma_concat_associative(prefix, e1, e2);
            lemma_concat_associative(prefix + e1, e2, suffix);
            lemma_concat_associative(prefix, e1, e2 + suffix);
            assert(all == (prefix + e1) + (e2 + suffix));
            lemma_dec_enc_bool(true, prefix, e2 + suffix);
            assert(all == ((prefix + e1) + e2) + suffix);
            lemma_dec_enc_str(s, prefix + e1, suffix);
        },
    }
}

/// The snapshot's front half: the current path, the machine state, the
/// position, the volume.
pub open spec fn spec_enc_app_front(a: AppStateCacheV) -> Seq<u8> {
    spec_enc_opt_str(a.current) + (spec_enc_u64(spec_status_code(a.state)) + (spec_enc_u64(
        a.position,
    ) + spec_enc_u64(a.volume as u64)))
}

/// Read the snapshot's front half.
pub open spec fn spec_dec_app_front(bytes: Seq<u8>, pos: int) -> Option<
    ((Option<Seq<char>>, PlaybackStatus, u64, u64), int),
> {
    match spec_dec_opt_str(bytes, pos) {
        Some((current, p1)) => match spec_dec_u64(bytes, p1) {
            Some((code, p2)) => match spec_status_of(code) {
                Some(state) => match spec_dec_u64(bytes, p2) {
                    Some((position, p3)) => match spec_dec_u64(bytes, p3) {
                        Some((volume, p4)) => Some(((current, state, position, volume), p4)),
                        None => None,
                    },
                    None => None,
                },
                None => None,
            },
            None => None,
        },
        None => None,
    }
}

/// The snapshot's back half: the three flags, the queue index, the queue
/// order.
pub open spec fn spec_enc_app_rest(a: AppStateCacheV) -> Seq<u8> {
    spec_enc_bool(a.mute) + (spec_enc_bool(a.shuffling) + (spec_enc_bool(a.repeat) + (spec_enc_u64(
        a.index as u64,
    ) + spec_enc_u64_seq(spec_order_as_u64s(a.queue_order)))))
}

/// Read the snapshot's back half.
pub open spec fn spec_dec_app_rest(bytes: Seq<u8>, pos: int) -> Option<
    ((bool, bool, bool, u64, Seq<u64>), int),
> {
    match spec_dec_bool(bytes, pos) {
        Some((mute, p1)) => match spec_dec_bool(bytes, p1) {
            Some((shuffling, p2)) => match spec_dec_bool(bytes, p2) {
                Some((repeat, p3)) => match spec_dec_u64(bytes, p3) {
                    Some((index, p4)) => match spec_dec_u64_seq(bytes, p4) {
                        Some((order, p5)) => Some(((mute, shuffling, repeat, index, order), p5)),
                        None => None,
                    },
                    None => None,
                },
                None => None,
            },
            None => None,
        },
        None => None,
    }
}

/// A whole snapshot record.
pub open spec fn spec_enc_app_state(a: AppStateCacheV) -> Seq<u8> {
    spec_enc_app_front(a) + spec_enc_app_rest(a)
}

/// Read a whole snapshot record; values that cannot index this platform's
/// queues are rejected by the exec decoder, not here.
pub open spec fn spec_dec_app_state(bytes: Seq<u8>, pos: int) -> Option<
    ((Option<Seq<char>>, PlaybackStatus, u64, u64), (bool, bool, bool, u64, Seq<u64>), int),
> {
    match spec_dec_app_front(bytes, pos) {
        Some((front, p1)) => match spec_dec_app_rest(bytes, p1) {
            Some((rest, p2)) => Some((front, rest, p2)),
            None => None,
        },
        None => None,
    }
}

/// Decoding the encoded front half embedded in any buffer yields it back.
#[verifier::rlimit(100)]
#[verifier::spinoff_prover]
proof fn lemma_dec_enc_app_front(a: AppStateCacheV, prefix: Seq<u8>, suffix: Seq<u8>)
    requires
        app_state_fits(a),
    ensures
        spec_dec_app_front(prefix + spec_enc_app_front(a) + suffix, prefix.len() as int) == Some(
            ((a.current, a.state, a.position, a.volume as u64), prefix.len() as int
                + spec_enc_app_front(a).len()),
        ),
{
    let e1 = spec_enc_opt_str(a.current);
    let e2 = spec_enc_u64(spec_status_code(a.state));
    let e3 = spec_enc_u64(a.position);
    let e4 = spec_enc_u64(a.volume as u64);
    let r4 = e4;
    let r3 = e3 + r4;
    let r2 = e2 + r3;
    let r1 = e1 + r2;
    let all = prefix + spec_enc_app_front(a) + suffix;
    let p0 = prefix;
    let p1 = p0 + e1;
    let p2 = p1 + e2;
    let p3 = p2 + e3;
    assert(all == (p0 + r1) + suffix);
    lemma_concat_associative(e1, r2, suffix);
    lemma_concat_associative(p0, r1, suffix);
    lemma_concat_associative(p0, e1, r2 + suffix);
    assert(all == (p0 + e1) + (r2 + suffix));
    lemma_dec_enc_opt_str(a.current, p0, r2 + suffix);
    lemma_concat_associative(e2, r3, suffix);
    lemma_concat_associative(p1, e2, r3 + suffix);
    assert(all == (p1 + e2) + (r3 + suffix));
    lemma_dec_enc_u64(spec_status_code(a.state), p1, r3 + suffix);
    lemma_concat_associative(e3, r4, suffix);
    lemma_concat_associative(p2, e3, r4 + suffix);
    assert(all == (p2 + e3) + (r4 + suffix));
    lemma_dec_enc_u64(a.position, p2, r4 + suffix);
    assert(all == (p3 + e4) + suffix);
    lemma_dec_enc_u64(a.volume as u64, p3, suffix);
}

/// Decoding the encoded back half embedded in any buffer yields it back.
#[verifier::rlimit(100)]
#[verifier::spinoff_prover]
proof fn lemma_dec_enc_app_rest(a: AppStateCacheV, prefix: Seq<u8>, suffix: Seq<u8>)
    requires
        app_state_fits(a),
    ensures
        spec_dec_app_rest(prefix + spec_enc_app_rest(a) + suffix, prefix.len() as int) == Some(
            ((a.mute, a.shuffling, a.repeat, a.index as u64, spec_order_as_u64s(a.queue_order)),
            prefix.len() as int + spec_enc_app_rest(a).len()),
        ),
{
    let e1 = spec_enc_bool(a.mute);
    let e2 = spec_enc_bool(a.shuffling);
    let e3 = spec_enc_bool(a.repeat);
    let e4 = spec_enc_u64(a.index as u64);
    let e5 = spec_enc_u64_seq(spec_order_as_u64s(a.queue_order));
    let r5 = e5;
    let r4 = e4 + r5;
    let r3 = e3 + r4;
    let r2 = e2 + r3;
    let r1 = e1 + r2;
    let all = prefix + spec_enc_app_rest(a) + suffix;
    let p0 = prefix;
    let p1 = p0 + e1;
    let p2 = p1 + e2;
    let p3 = p2 + e3;
    let p4 = p3 + e4;
    assert(all == (p0 + r1) + suffix);
    lemma_concat_associative(e1, r2, suffix);
    lemma_concat_associative(p0, r1, suffix);
    lemma_concat_associative(p0, e1, r2 + suffix);
    assert(all == (p0 + e1) + (r2 + suffix));
    lemma_dec_enc_bool(a.mute, p0, r2 + suffix);
    lemma_concat_associative(e2, r3, suffix);
    lemma_concat_associative(p1, e2, r3 + suffix);
    assert(all == (p1 + e2) + (r3 + suffix));
    lemma_dec_enc_bool(a.shuffling, p1, r3 + suffix);
    lemma_concat_associative(e3, r4, suffix);
    lemma_concat_associative(p2, e3, r4 + suffix);
    assert(all == (p2 + e3) + (r4 + suffix));
    lemma_dec_enc_bool(a.repeat, p2, r4 + suffix);
    lemma_concat_associative(e4, r5, suffix);
    lemma_concat_associative(p3, e4, r5 + suffix);
    assert(all == (p3 + e4) + (r5 + suffix));
    lemma_dec_enc_u64(a.index as u64, p3, r5 + suffix);
    assert(all == (p4 + e5) + suffix);
    lemma_dec_enc_u64_seq(spec_order_as_u64s(a.queue_order), p4, suffix);
}

/// What parsing a whole snapshot blob yields: the field values, if the bytes
/// are exactly one well-formed record.
pub open spec fn spec_parse_app_state(bytes: Seq<u8>) -> Option<
    ((Option<Seq<char>>, PlaybackStatus, u64, u64), (bool, bool, bool, u64, Seq<u64>)),
> {
    match spec_dec_app_state(bytes, 0) {
        Some((front, rest, end)) => if end == bytes.len() {
            Some((front, rest))
        } else {
            None
        },
        None => None,
    }
}

/// Whether the parsed field values fit this platform's machine types: the
/// exec decoder rejects a snapshot it could not represent, even when the
/// bytes themselves parse.
pub open spec fn spec_app_state_fits_platform(
    parsed: ((Option<Seq<char>>, PlaybackStatus, u64, u64), (bool, bool, bool, u64, Seq<u64>)),
) -> bool {
    &&& parsed.0.3 <= u32::MAX
    &&& parsed.1.3 <= usize::MAX
    &&& forall|i: int| 0 <= i < parsed.1.4.len() ==> #[trigger] parsed.1.4[i] <= usize::MAX
}

/// Writing a snapshot and reading it back yields the same field values.
pub proof fn lemma_app_state_round_trip(a: AppStateCacheV)
    requires
        app_state_fits(a),
    ensures
        spec_parse_app_state(spec_enc_app_state(a)) == Some(
            ((a.current, a.state, a.position, a.volume as u64), (a.mute, a.shuffling, a.repeat,
            a.index as u64, spec_order_as_u64s(a.queue_order))),
        ),
{
    let f = spec_enc_app_front(a);
    let r = spec_enc_app_rest(a);
    let enc = spec_enc_app_state(a);
    assert(Seq::<u8>::empty() + enc + Seq::<u8>::empty() =~= enc);
    lemma_concat_associative(Seq::empty(), f, r);
    lemma_dec_enc_app_front(a, Seq::empty(), r);
    assert(Seq::<u8>::empty() + f + r == enc) by {
        assert(Seq::<u8>::empty() + f =~= f);
    }
    lemma_dec_enc_app_rest(a, f, Seq::empty());
    assert(f + spec_enc_app_rest(a) + Seq::<u8>::empty() =~= enc);
}

/// A snapshot's encoding, appended field by field: what the encoder below
/// leaves in the buffer equals the record's one-piece encoding.
proof fn lemma_enc_app_state_parts(a: AppStateCacheV)
    ensures
        spec_enc_app_state(a) == spec_enc_opt_str(a.current) + spec_enc_u64(
            spec_status_code(a.state),
        ) + spec_enc_u64(a.position) + spec_enc_u64(a.volume as u64) + spec_enc_bool(a.mute)
            + spec_enc_bool(a.shuffling) + spec_enc_bool(a.repeat) + spec_enc_u64(a.index as u64)
            + spec_enc_u64_seq(spec_order_as_u64s(a.queue_order)),
{
    let e1 = spec_enc_opt_str(a.current);
    let e2 = spec_enc_u64(spec_status_code(a.state));
    let e3 = spec_enc_u64(a.position);
    let e4 = spec_enc_u64(a.volume as u64);
    let e5 = spec_enc_bool(a.mute);
    let e6 = spec_enc_bool(a.shuffling);
    let e7 = spec_enc_bool(a.repeat);
    let e8 = spec_enc_u64(a.index as u64);
    let e9 = spec_enc_u64_seq(spec_order_as_u64s(a.queue_order));
    lemma_concat_associative(e1, e2, e3 + e4);
    lemma_concat_associative(e1 + e2, e3, e4);
    assert(spec_enc_app_front(a) == e1 + e2 + e3 + e4);
    let front = e1 + e2 + e3 + e4;
    lemma_concat_associative(front, e5, e6 + (e7 + (e8 + e9)));
    lemma_concat_associative(front + e5, e6, e7 + (e8 + e9));
    lemma_concat_associative(front + e5 + e6, e7, e8 + e9);
    lemma_concat_associative(front + e5 + e6 + e7, e8, e9);
    assert(front + spec_enc_app_rest(a) == front + e5 + e6 + e7 + e8 + e9);
}

/// Encode a snapshot as one blob.
pub fn encode_app_state_cache(a: &AppStateCache) -> (r: Vec<u8>)
    ensures
        r@ == spec_enc_app_state(a@),
{
    let mut out: Vec<u8> = Vec::new();
    match &a.current {
        Some(s) => {
            enc_bool(&mut out, true);
            enc_str(&mut out, s.as_str());
        },
        None => {
            enc_bool(&mut out, false);
        },
    }
    assert(out@ =~= spec_enc_opt_str(a@.current));
    let code: u64 = match a.state {
        PlaybackStatus::Stopped => 0,
        PlaybackStatus::Playing => 1,
        PlaybackStatus::Paused => 2,
    };
    enc_u64(&mut out, code);
    enc_u64(&mut out, a.position);
    enc_u64(&mut out, a.volume as u64);
    enc_bool(&mut out, a.mute);
    enc_bool(&mut out, a.shuffling);
    enc_bool(&mut out, a.repeat);
    enc_u64(&mut out, a.index as u64);
    enc_order(&mut out, &a.queue_order);
    proof {
        lemma_enc_app_state_parts(a@);
        assert(Seq::<u8>::empty() + spec_enc_opt_str(a@.current) =~= spec_enc_opt_str(a@.current));
        assert(code == spec_status_code(a@.state));
    }
    out
}

/// Decode a whole snapshot blob. Decoding succeeds exactly on bytes that
/// are one well-formed record whose values this platform can hold; trailing
/// bytes, unknown state codes, and values too large are rejected.
pub fn decode_app_state_cache(bytes: &Vec<u8>) -> (r: Option<AppStateCache>)
    ensures
        r matches Some(a) ==> spec_parse_app_state(bytes@) == Some(
            ((a@.current, a@.state, a@.position, a@.volume as u64), (a@.mute, a@.shuffling,
            a@.repeat, a@.index as u64, spec_order_as_u64s(a@.queue_order))),
        ),
        r is Some <==> (spec_parse_app_state(bytes@) matches Some(p)
            && spec_app_state_fits_platform(p)),
{
    let (current, p1) = match dec_bool(bytes, 0) {
        Some((true, q)) => match dec_str(bytes, q) {
            Some((s, q2)) => (Some(s), q2),
            None => {
                return None;
            },
        },
        Some((false, q)) => (None, q),
        None => {
            return None;
        },
    };
    let (code, p2) = match dec_u64(bytes, p1) {
        Some(x) => x,
        None => {
            return None;
        },
    };
    let state = if code == 0 {
        PlaybackStatus::Stopped
    } else if code == 1 {
        PlaybackStatus::Playing
    } else if code == 2 {
        PlaybackStatus::Paused
    } else {
        return None;
    };
    let (position, p3) = match dec_u64(bytes, p2) {
        Some(x) => x,
        None => {
            return None;
        },
    };
    let (volume64, p4) = match dec_u64(bytes, p3) {
        Some(x) => x,
        None => {
            return None;
        },
    };
    if volume64 > u32::MAX as u64 {
        return None;
    }
    let (mute, p5) = match dec_bool(bytes, p4) {
        Some(x) => x,
        None => {
            return None;
        },
    };
    let (shuffling, p6) = match dec_bool(bytes, p5) {
        Some(x) => x,
        None => {
            return None;
        },
    };
    let (repeat, p7) = match dec_bool(bytes, p6) {
        Some(x) => x,
        None => {
            return None;
        },
    };
    let (index64, p8) = match dec_u64(bytes, p7) {
        Some(x) => x,
        None => {
            return None;
        },
    };
    if index64 > usize::MAX as u64 {
        return None;
    }
    let (queue_order, p9) = match dec_order(bytes, p8) {
        Some(x) => x,
        None => {
            proof {
                let sdq = spec_dec_u64_seq(bytes@, p8 as int);
                if sdq is Some && spec_parse_app_state(bytes@) is Some {
                    let q = sdq->Some_0;
                    let p = spec_parse_app_state(bytes@)->Some_0;
                    assert(p.1.4 == q.0);
                    let i = choose|i: int| 0 <= i < q.0.len() && #[trigger] q.0[i] > usize::MAX;
                    assert(p.1.4[i] > usize::MAX);
                }
            }
            return None;
        },
    };
    if p9 != bytes.len() {
        return None;
    }
    proof {
        let order_u64s = spec_order_as_u64s(queue_order@);
        assert forall|i: int| 0 <= i < order_u64s.len() implies #[trigger] order_u64s[i]
            <= usize::MAX by {
            assert(order_u64s[i] == queue_order@[i] as u64);
        }
    }
    Some(
        AppStateCache {
            current,
            state,
            position,
            volume: volume64 as u32,
            mute,
            shuffling,
            repeat,
            index: index64 as usize,
            queue_order,
        },
    )
}

} // verus!
