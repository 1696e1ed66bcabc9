//! The HTTP/1 chunked transfer coding: what a chunk looks like on the wire,
//! what the decoder makes of the bytes it is given, and the laws between the two.
use vstd::arithmetic::div_mod::*;
use vstd::prelude::*;

verus! {

pub const CR: u8 = 13u8;

pub const LF: u8 = 10u8;

/// An ASCII hexadecimal digit, either case.
pub open spec fn is_hex_digit(b: u8) -> bool {
    (48 <= b && b <= 57) || (97 <= b && b <= 102) || (65 <= b && b <= 70)
}

/// The value of a hexadecimal digit.
pub open spec fn hex_digit_value(b: u8) -> nat {
    if 48 <= b && b <= 57 {
        (b - 48) as nat
    } else if 97 <= b && b <= 102 {
        (b - 97 + 10) as nat
    } else {
        (b - 65 + 10) as nat
    }
}

/// The number a sequence of hexadecimal digits denotes (most significant first).
pub open spec fn hex_value(s: Seq<u8>) -> nat
    decreases s.len(),
{
    if s.len() == 0 {
        0
    } else {
        hex_value(s.drop_last()) * 16 + hex_digit_value(s.last())
    }
}

/// The number of hexadecimal digits at the front of `s`.
pub open spec fn hex_prefix_len(s: Seq<u8>) -> nat
    decreases s.len(),
{
    if s.len() == 0 {
        0
    } else if is_hex_digit(s[0]) {
        1 + hex_prefix_len(s.drop_first())
    } else {
        0
    }
}

/// The upper-case hexadecimal digit for `d < 16`.
pub open spec fn hex_char(d: nat) -> u8 {
    if d < 10 {
        (48 + d) as u8
    } else {
        (65 + d - 10) as u8
    }
}

/// `n` in upper-case hexadecimal, without leading zeros (`0` is the single digit `0`).
pub open spec fn hex_upper(n: nat) -> Seq<u8>
    decreases n,
{
    if n < 16 {
        seq![hex_char(n)]
    } else {
        hex_upper(n / 16) + seq![hex_char(n % 16)]
    }
}

/// One chunk of the chunked coding: its size in hexadecimal, CRLF, the data, CRLF.
pub open spec fn encode_chunk(data: Seq<u8>) -> Seq<u8> {
    hex_upper(data.len()) + seq![CR, LF] + data + seq![CR, LF]
}

/// The last chunk of the chunked coding (no trailer): `0\r\n\r\n`.
pub open spec fn encode_last_chunk() -> Seq<u8> {
    seq![48u8, CR, LF, CR, LF]
}

/// A whole body in the chunked coding: each chunk in turn, then the last chunk.
pub open spec fn encode_chunked_body(chunks: Seq<Seq<u8>>) -> Seq<u8>
    decreases chunks.len(),
{
    if chunks.len() == 0 {
        encode_last_chunk()
    } else {
        encode_chunk(chunks[0]) + encode_chunked_body(chunks.drop_first())
    }
}

/// What one call of the chunked decoder yields.
pub enum ChunkOutcome {
    /// More bytes are needed.
    Insufficient,
    /// The bytes are not a valid chunk.
    Invalid,
    /// A chunk's data, or `None` for the last chunk.
    Data(Option<Seq<u8>>),
}

/// The decoder with a known chunk size `len`: needs the data and its CRLF.
pub open spec fn chunk_data_step(len: nat, s: Seq<u8>) -> (Option<nat>, Seq<u8>, ChunkOutcome) {
    if s.len() < len + 2 {
        (Some(len), s, ChunkOutcome::Insufficient)
    } else if s[len as int] != CR || s[len + 1int] != LF {
        (Some(len), s, ChunkOutcome::Invalid)
    } else {
        (
            None,
            s.skip(len + 2int),
            ChunkOutcome::Data(
                if len != 0 {
                    Some(s.take(len as int))
                } else {
                    None
                },
            ),
        )
    }
}

/// One call of the chunked decoder in state `state` (the pending chunk size, if the
/// size line was read already) on the bytes `s`: the next state, the bytes left, and
/// the outcome.
pub open spec fn chunk_step(state: Option<nat>, s: Seq<u8>) -> (Option<nat>, Seq<u8>, ChunkOutcome) {
    match state {
        Some(len) => chunk_data_step(len, s),
        None => {
            let read = hex_prefix_len(s);
            if s.len() < 3 {
                (None, s, ChunkOutcome::Insufficient)
            } else if (read < s.len() && s[read as int] != CR) || hex_value(s.take(read as int))
                > usize::MAX - 2 {
                (None, s, ChunkOutcome::Invalid)
            } else if s.len() < read + 2 {
                (None, s, ChunkOutcome::Insufficient)
            } else if s[read + 1int] != LF {
                (None, s, ChunkOutcome::Invalid)
            } else {
                chunk_data_step(hex_value(s.take(read as int)), s.skip(read + 2int))
            }
        },
    }
}

/// The decoder run from its start state over `s` for at most `calls` calls: the data of
/// the chunks it yields, whether it reached the last chunk, and the bytes left.
pub open spec fn run_chunked(s: Seq<u8>, calls: nat) -> (Seq<Seq<u8>>, bool, Seq<u8>)
    decreases calls,
{
    if calls == 0 {
        (Seq::empty(), false, s)
    } else {
        let (st, rest, out) = chunk_step(None, s);
        match out {
            ChunkOutcome::Data(Some(d)) => {
                let (ds, done, left) = run_chunked(rest, (calls - 1) as nat);
                (seq![d] + ds, done, left)
            },
            ChunkOutcome::Data(None) => (Seq::empty(), true, rest),
            _ => (Seq::empty(), false, s),
        }
    }
}

/// How a run of the chunked decoder ended.
pub enum RunEnd {
    /// It reached the last chunk.
    Done,
    /// It met an invalid chunk.
    Failed,
    /// A call needed more bytes.
    Stalled,
    /// It made all its calls, each yielding a chunk's data.
    Pending,
}

/// The decoder run from state `state` over `s` for at most `calls` calls: the data of
/// the chunks it yields, how it ended, and the state and bytes the last call left.
pub open spec fn run_from(state: Option<nat>, s: Seq<u8>, calls: nat) -> (Seq<Seq<u8>>, RunEnd, Option<nat>, Seq<u8>)
    decreases calls,
{
    if calls == 0 {
        (Seq::empty(), RunEnd::Pending, state, s)
    } else {
        let (st, rest, out) = chunk_step(state, s);
        match out {
            ChunkOutcome::Data(Some(d)) => {
                let (ds, end, st2, left) = run_from(st, rest, (calls - 1) as nat);
                (seq![d] + ds, end, st2, left)
            },
            ChunkOutcome::Data(None) => (Seq::empty(), RunEnd::Done, st, rest),
            ChunkOutcome::Invalid => (Seq::empty(), RunEnd::Failed, st, rest),
            ChunkOutcome::Insufficient => (Seq::empty(), RunEnd::Stalled, st, rest),
        }
    }
}

/// Every chunk can be sent as a chunk of its own: not empty (an empty chunk would be
/// the last chunk), and of a size the decoder accepts.
pub open spec fn sendable_chunks(chunks: Seq<Seq<u8>>) -> bool {
    forall|i: int| 0 <= i < chunks.len() ==> 0 < (#[trigger] chunks[i]).len() <= usize::MAX - 2
}

pub proof fn lemma_hex_char(d: nat)
    requires
        d < 16,
    ensures
        is_hex_digit(hex_char(d)),
        hex_digit_value(hex_char(d)) == d,
        hex_char(d) != CR,
{
}

pub proof fn lemma_hex_upper(n: nat)
    ensures
        hex_upper(n).len() >= 1,
        forall|i: int| 0 <= i < hex_upper(n).len() ==> is_hex_digit(#[trigger] hex_upper(n)[i]),
        hex_value(hex_upper(n)) == n,
    decreases n,
{
    if n < 16 {
        lemma_hex_char(n);
        let h = hex_upper(n);
        assert(h.drop_last() =~= Seq::<u8>::empty());
        assert(hex_value(Seq::<u8>::empty()) == 0);
        assert(hex_value(h) == hex_value(h.drop_last()) * 16 + hex_digit_value(h.last()));
    } else {
        lemma_hex_upper(n / 16);
        lemma_hex_char(n % 16);
        lemma_fundamental_div_mod(n as int, 16);
        let h = hex_upper(n);
        assert(h.drop_last() =~= hex_upper(n / 16));
        assert(h.last() == hex_char(n % 16));
        assert(hex_value(h) == hex_value(hex_upper(n / 16)) * 16 + hex_digit_value(hex_char(n % 16)));
        assert(hex_value(h) == (n / 16) * 16 + n % 16);
        assert forall|i: int| 0 <= i < h.len() implies is_hex_digit(#[trigger] h[i]) by {
            if i < h.len() - 1 {
                assert(h[i] == hex_upper(n / 16)[i]);
            }
        }
    }
}

/// The hex prefix of a sequence of digits followed by a non-digit is those digits.
pub proof fn lemma_hex_prefix_len(digits: Seq<u8>, rest: Seq<u8>)
    requires
        forall|i: int| 0 <= i < digits.len() ==> is_hex_digit(#[trigger] digits[i]),
        rest.len() > 0,
        !is_hex_digit(rest[0]),
    ensures
        hex_prefix_len(digits + rest) == digits.len(),
    decreases digits.len(),
{
    if digits.len() == 0 {
        assert(digits + rest =~= rest);
    } else {
        let s = digits + rest;
        assert(s.drop_first() =~= digits.drop_first() + rest);
        assert forall|i: int| 0 <= i < digits.drop_first().len() implies is_hex_digit(
            #[trigger] digits.drop_first()[i],
        ) by {
            assert(digits.drop_first()[i] == digits[i + 1]);
        }
        lemma_hex_prefix_len(digits.drop_first(), rest);
        assert(s[0] == digits[0]);
    }
}

/// Characterizes `hex_prefix_len` by where the first non-digit stands.
pub proof fn lemma_hex_prefix_len_at(s: Seq<u8>, i: int)
    requires
        0 <= i <= s.len(),
        forall|j: int| 0 <= j < i ==> is_hex_digit(#[trigger] s[j]),
        i == s.len() || !is_hex_digit(s[i]),
    ensures
        hex_prefix_len(s) == i,
    decreases i,
{
    if i > 0 {
        assert forall|j: int| 0 <= j < i - 1 implies is_hex_digit(#[trigger] s.drop_first()[j]) by {
            assert(s.drop_first()[j] == s[j + 1]);
        }
        if i < s.len() {
            assert(s.drop_first()[i - 1] == s[i]);
        }
        lemma_hex_prefix_len_at(s.drop_first(), i - 1);
    } else if s.len() > 0 {
    }
}

/// If the first `k` bytes are digits, the hex prefix is at least `k` long.
pub proof fn lemma_hex_prefix_len_ge(s: Seq<u8>, k: int)
    requires
        0 <= k <= s.len(),
        forall|j: int| 0 <= j < k ==> is_hex_digit(#[trigger] s[j]),
    ensures
        hex_prefix_len(s) >= k,
        hex_prefix_len(s) <= s.len(),
    decreases s.len(),
{
    if s.len() > 0 {
        assert forall|j: int| 0 <= j < k - 1 implies is_hex_digit(#[trigger] s.drop_first()[j]) by {
            assert(s.drop_first()[j] == s[j + 1]);
        }
        if k > 0 {
            lemma_hex_prefix_len_ge(s.drop_first(), k - 1);
        } else {
            lemma_hex_prefix_len_ge(s.drop_first(), 0);
        }
    }
}

/// A longer run of digits denotes at least as much.
pub proof fn lemma_hex_value_mono(s: Seq<u8>, j: int, k: int)
    requires
        0 <= j <= k <= s.len(),
    ensures
        hex_value(s.take(j)) <= hex_value(s.take(k)),
    decreases k - j,
{
    if j < k {
        lemma_hex_value_mono(s, j, k - 1);
        assert(s.take(k).drop_last() =~= s.take(k - 1));
    }
}

/// The law of the chunked coding: a chunk with data, followed by anything, decodes
/// from the start state to that data, leaving exactly what followed.
pub proof fn lemma_chunk_roundtrip(data: Seq<u8>, rest: Seq<u8>)
    requires
        0 < data.len() <= usize::MAX - 2,
    ensures
        chunk_step(None, encode_chunk(data) + rest) == (
            None::<nat>,
            rest,
            ChunkOutcome::Data(Some(data)),
        ),
{
    let h = hex_upper(data.len());
    let s = encode_chunk(data) + rest;
    lemma_hex_upper(data.len());
    let tail = seq![CR, LF] + data + seq![CR, LF] + rest;
    assert(s =~= h + tail);
    assert(tail[0] == CR);
    lemma_hex_prefix_len(h, tail);
    let read = h.len();
    assert(s.take(read as int) =~= h);
    assert(s[read as int] == CR);
    assert(s[read + 1int] == LF);
    let s2 = s.skip(read + 2int);
    assert(s2 =~= data + seq![CR, LF] + rest);
    assert(s2[data.len() as int] == CR);
    assert(s2[data.len() + 1int] == LF);
    assert(s2.take(data.len() as int) =~= data);
    assert(s2.skip(data.len() + 2int) =~= rest);
}

/// The last chunk, followed by anything, decodes from the start state to the end of
/// the body, leaving exactly what followed.
pub proof fn lemma_last_chunk_roundtrip(rest: Seq<u8>)
    ensures
        chunk_step(None, encode_last_chunk() + rest) == (
            None::<nat>,
            rest,
            ChunkOutcome::Data(None),
        ),
{
    let s = encode_last_chunk() + rest;
    let digits = seq![48u8];
    let tail = seq![CR, LF, CR, LF] + rest;
    assert(s =~= digits + tail);
    lemma_hex_prefix_len(digits, tail);
    assert(s.take(1) =~= digits);
    assert(digits.drop_last() =~= Seq::<u8>::empty());
    assert(hex_value(Seq::<u8>::empty()) == 0);
    assert(hex_value(digits) == hex_value(digits.drop_last()) * 16 + hex_digit_value(digits.last()));
    assert(hex_value(digits) == 0);
    assert(hex_prefix_len(s) == 1);
    assert(s[1] == CR);
    assert(s[2] == LF);
    let s2 = s.skip(3);
    assert(s2[0] == CR);
    assert(s2[1] == LF);
    assert(s2 =~= seq![CR, LF] + rest);
    assert(s2.skip(2) =~= rest);
}


/// The law of the chunked coding for a whole body: decoding the encoding of any
/// sequence of sendable chunks, followed by anything, gives back those chunks in order,
/// reaches the end of the body, and leaves exactly what followed.
pub proof fn lemma_chunked_body_roundtrip(chunks: Seq<Seq<u8>>, rest: Seq<u8>)
    requires
        sendable_chunks(chunks),
    ensures
        run_chunked(encode_chunked_body(chunks) + rest, chunks.len() + 1) == (chunks, true, rest),
    decreases chunks.len(),
{
    if chunks.len() == 0 {
        lemma_last_chunk_roundtrip(rest);
        assert(run_chunked(encode_chunked_body(chunks) + rest, 1) == (
            Seq::<Seq<u8>>::empty(),
            true,
            rest,
        ));
        assert(chunks =~= Seq::<Seq<u8>>::empty());
    } else {
        let tail = chunks.drop_first();
        assert forall|i: int| 0 <= i < tail.len() implies 0 < (#[trigger] tail[i]).len() <= usize::MAX
            - 2 by {
            assert(tail[i] == chunks[i + 1]);
        }
        lemma_chunked_body_roundtrip(tail, rest);
        let after = encode_chunked_body(tail) + rest;
        assert(encode_chunked_body(chunks) + rest =~= encode_chunk(chunks[0]) + after);
        lemma_chunk_roundtrip(chunks[0], after);
        assert(seq![chunks[0]] + tail =~= chunks);
    }
}


/// Where digits at the front of `s` end before its end, more bytes after `s` do not
/// change them.
proof fn lemma_hex_prefix_len_extend(s: Seq<u8>, t: Seq<u8>)
    requires
        hex_prefix_len(s) < s.len(),
    ensures
        hex_prefix_len(s + t) == hex_prefix_len(s),
    decreases s.len(),
{
    if is_hex_digit(s[0]) {
        assert((s + t).drop_first() =~= s.drop_first() + t);
        lemma_hex_prefix_len_extend(s.drop_first(), t);
    } else {
        assert((s + t)[0] == s[0]);
    }
}

/// All of `s` being digits, the digits at the front of `s + t` are at least those of
/// `s`, and denote at least as much.
proof fn lemma_hex_prefix_len_all(s: Seq<u8>, t: Seq<u8>)
    requires
        hex_prefix_len(s) == s.len(),
    ensures
        s.len() <= hex_prefix_len(s + t) <= s.len() + t.len(),
        hex_value((s + t).take(hex_prefix_len(s + t) as int)) >= hex_value(s),
    decreases s.len(),
{
    let u = s + t;
    assert forall|j: int| 0 <= j < s.len() implies is_hex_digit(#[trigger] u[j]) by {
        lemma_digits_of_prefix(s, j);
        assert(u[j] == s[j]);
    }
    lemma_hex_prefix_len_ge(u, s.len() as int);
    lemma_hex_value_mono(u, s.len() as int, hex_prefix_len(u) as int);
    assert(u.take(s.len() as int) =~= s);
}

/// Every byte counted by `hex_prefix_len` is a digit.
proof fn lemma_digits_of_prefix(s: Seq<u8>, j: int)
    requires
        0 <= j < hex_prefix_len(s),
    ensures
        is_hex_digit(s[j]),
    decreases s.len(),
{
    lemma_hex_prefix_len_ge(s, 0);
    assert(s.len() > 0 && is_hex_digit(s[0]));
    if j > 0 {
        assert(hex_prefix_len(s.drop_first()) == hex_prefix_len(s) - 1);
        lemma_digits_of_prefix(s.drop_first(), j - 1);
        assert(s.drop_first()[j - 1] == s[j]);
    }
}

/// The data step of the chunked decoder decides once it has the data and its CRLF;
/// bytes after them are left over.
proof fn lemma_chunk_data_step_extends(len: nat, s: Seq<u8>, t: Seq<u8>)
    requires
        !(chunk_data_step(len, s).2 is Insufficient),
    ensures
        chunk_data_step(len, s + t) == (chunk_data_step(len, s).0, chunk_data_step(len, s).1 + t, chunk_data_step(
            len,
            s,
        ).2),
{
    let u = s + t;
    assert(u[len as int] == s[len as int]);
    assert(u[len + 1int] == s[len + 1int]);
    assert(u.skip(len + 2int) =~= s.skip(len + 2int) + t);
    assert(u.take(len as int) =~= s.take(len as int));
}

/// The law of incremental chunk decoding: once a step of the chunked decoder decides
/// (a chunk's data, the last chunk, or an invalid chunk), bytes that arrive after the
/// ones it had change neither the decision nor the state, and are left over after
/// what it left.
pub proof fn lemma_chunk_step_extends(state: Option<nat>, s: Seq<u8>, t: Seq<u8>)
    requires
        !(chunk_step(state, s).2 is Insufficient),
    ensures
        chunk_step(state, s + t) == (chunk_step(state, s).0, chunk_step(state, s).1 + t, chunk_step(state, s).2),
{
    let u = s + t;
    match state {
        Some(len) => {
            assert(chunk_step(state, s) == chunk_data_step(len, s));
            assert(chunk_step(state, u) == chunk_data_step(len, u));
            lemma_chunk_data_step_extends(len, s, t);
        },
        None => {
            let read = hex_prefix_len(s);
            lemma_hex_prefix_len_ge(s, 0);
            if read < s.len() {
                lemma_hex_prefix_len_extend(s, t);
                assert(u[read as int] == s[read as int]);
                assert(u.take(read as int) =~= s.take(read as int));
                if read + 1 < s.len() {
                    assert(u[read + 1int] == s[read + 1int]);
                }
                if s.len() >= 3 && s[read as int] == CR && hex_value(s.take(read as int)) <= usize::MAX - 2
                    && s.len() >= read + 2 && s[read + 1int] == LF {
                    assert(u.skip(read + 2int) =~= s.skip(read + 2int) + t);
                    lemma_chunk_data_step_extends(hex_value(s.take(read as int)), s.skip(read + 2int), t);
                }
            } else {
                assert(s.take(read as int) =~= s);
                lemma_hex_prefix_len_all(s, t);
                assert(hex_value(u.take(hex_prefix_len(u) as int)) > usize::MAX - 2);
            }
        },
    }
}


/// The law of resuming chunk decoding: where a step of the chunked decoder needs more
/// bytes, resuming from the state and the bytes it left, once more bytes have come,
/// decides as one step over all the bytes at once would: nothing is lost or read twice.
pub proof fn lemma_chunk_step_resume(state: Option<nat>, s: Seq<u8>, t: Seq<u8>)
    requires
        chunk_step(state, s).2 is Insufficient,
    ensures
        chunk_step(chunk_step(state, s).0, chunk_step(state, s).1 + t) == chunk_step(state, s + t),
{
    let (st2, s2, _) = chunk_step(state, s);
    if st2 == state && s2 == s {
        return;
    }
    match state {
        Some(len) => {},
        None => {
            let u = s + t;
            let read = hex_prefix_len(s);
            lemma_hex_prefix_len_ge(s, 0);
            assert(read < s.len());
            lemma_hex_prefix_len_extend(s, t);
            assert(u[read as int] == s[read as int]);
            assert(u[read + 1int] == s[read + 1int]);
            assert(u.take(read as int) =~= s.take(read as int));
            assert(u.skip(read + 2int) =~= s.skip(read + 2int) + t);
            let len = hex_value(s.take(read as int));
            assert(st2 == Some(len));
            assert(s2 == s.skip(read + 2int));
            assert(chunk_step(Some(len), s2 + t) == chunk_data_step(len, s2 + t));
        },
    }
}

/// The law of chunked decoding over a body that arrives in two parts: where a run over
/// the first part `p` needs more bytes at its last call (call `calls_p`), going on from
/// the state and bytes that call left, once `q` has come, yields the chunks that a run
/// over `p + q` from the start yields after those of the first run, and ends as it does:
/// no byte is lost or read twice.
pub proof fn lemma_run_split(state: Option<nat>, p: Seq<u8>, q: Seq<u8>, calls_p: nat, calls_q: nat)
    requires
        calls_p > 0,
        run_from(state, p, calls_p).1 is Stalled,
        run_from(state, p, (calls_p - 1) as nat).1 is Pending,
        calls_q > 0,
    ensures
        ({
            let (ds1, _, st1, r1) = run_from(state, p, calls_p);
            let (ds2, end2, st2, r2) = run_from(st1, r1 + q, calls_q);
            run_from(state, p + q, (calls_p - 1 + calls_q) as nat) == (ds1 + ds2, end2, st2, r2)
        }),
    decreases calls_p,
{
    let (st, rest, out) = chunk_step(state, p);
    match out {
        ChunkOutcome::Data(Some(d)) => {
            lemma_chunk_step_extends(state, p, q);
            let n = (calls_p - 1) as nat;
            assert(run_from(state, p, calls_p).1 == run_from(st, rest, n).1);
            if n == 0 {
                assert(false);
            }
            assert(run_from(state, p, n).1 == run_from(st, rest, (n - 1) as nat).1);
            lemma_run_split(st, rest, q, n, calls_q);
            let (ds1, _, st1, r1) = run_from(st, rest, n);
            let (ds2, end2, st2, r2) = run_from(st1, r1 + q, calls_q);
            assert(run_from(state, p + q, (calls_p - 1 + calls_q) as nat) == (
                seq![d] + (ds1 + ds2),
                end2,
                st2,
                r2,
            ));
            assert(seq![d] + (ds1 + ds2) =~= (seq![d] + ds1) + ds2);
        },
        ChunkOutcome::Insufficient => {
            if calls_p > 1 {
                assert(run_from(state, p, (calls_p - 1) as nat).1 is Stalled);
            }
            lemma_chunk_step_resume(state, p, q);
            assert(run_from(state, p + q, calls_q) == run_from(st, rest + q, calls_q));
            assert(Seq::<Seq<u8>>::empty() + run_from(st, rest + q, calls_q).0 =~= run_from(st, rest + q, calls_q).0);
        },
        _ => {},
    }
}

} // verus!
