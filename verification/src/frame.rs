//! The serial wire format: overhead-byte stuffing around a fixed telemetry
//! payload.
//!
//! One telemetry sample travels as a 13-byte block that carries a 12-byte
//! payload. The byte value 0 is reserved as the frame sentinel and never
//! appears in a well-formed encoded block; instead, each run of payload
//! bytes is preceded by a code byte giving the distance to the next payload
//! zero (or to the end of the block), and the zeros themselves are elided.
//! The scheme as written here covers every frame short enough for a single
//! code byte, that is payloads of at most 254 bytes; the wire frames of this
//! system are far below that.

use vstd::prelude::*;

verus! {

/// Length of one encoded block on the wire.
pub const FRAME_LEN: usize = 13;

/// Length of the payload carried by one block.
pub const PAYLOAD_LEN: usize = 12;

/// Why a block failed to decode.
#[derive(Clone, Copy, PartialEq, Eq, Structural, Debug)]
pub enum DecodeError {
    /// A sentinel byte (0) stands where the stuffing forbids it: as a code
    /// byte or among the stuffed payload bytes.
    MisplacedSentinel,
    /// A code byte points past the end of the block.
    LengthMismatch,
}

/// Whether the sentinel value occurs anywhere in `s`.
pub open spec fn has_zero(s: Seq<u8>) -> bool {
    exists|i: int| 0 <= i < s.len() && s[i] == 0
}

/// Index of the first sentinel byte in `s`, or `s.len()` if there is none.
pub open spec fn first_zero(s: Seq<u8>) -> int
    decreases s.len(),
{
    if s.len() == 0 {
        0
    } else if s[0] == 0 {
        0
    } else {
        1 + first_zero(s.skip(1))
    }
}

/// `first_zero` lands in `[0, s.len()]`, on a sentinel when one exists,
/// with none before it.
pub proof fn lemma_first_zero_bounds(s: Seq<u8>)
    ensures
        0 <= first_zero(s) <= s.len(),
        first_zero(s) < s.len() ==> s[first_zero(s)] == 0,
        forall|i: int| 0 <= i < first_zero(s) ==> s[i] != 0,
    decreases s.len(),
{
    if s.len() == 0 {
    } else if s[0] == 0 {
    } else {
        lemma_first_zero_bounds(s.skip(1));
        assert forall|i: int| 0 <= i < first_zero(s) implies s[i] != 0 by {
            if i > 0 {
                assert(s.skip(1)[i - 1] == s[i]);
            }
        }
    }
}

/// `first_zero` is the unique index with no sentinel before it and a
/// sentinel (or the end of the sequence) at it.
pub proof fn lemma_first_zero_is(s: Seq<u8>, k: int)
    requires
        0 <= k <= s.len(),
        forall|i: int| 0 <= i < k ==> s[i] != 0,
        k < s.len() ==> s[k] == 0,
    ensures
        first_zero(s) == k,
    decreases s.len(),
{
    if s.len() == 0 {
    } else if s[0] == 0 {
    } else {
        assert(s[0] != 0);
        assert(k >= 1);
        assert forall|i: int| 0 <= i < k - 1 implies s.skip(1)[i] != 0 by {
            assert(s.skip(1)[i] == s[i + 1]);
        }
        assert(k - 1 < s.skip(1).len() ==> s.skip(1)[k - 1] == s[k]);
        lemma_first_zero_is(s.skip(1), k - 1);
    }
}

/// The stuffed encoding of payload `p`: before each run of non-sentinel
/// payload bytes stands one code byte holding the run's length plus one;
/// the payload's sentinel bytes are dropped, marked only by where one run
/// ends and the next code byte begins.
pub open spec fn encode_spec(p: Seq<u8>) -> Seq<u8>
    decreases p.len(),
{
    let z = first_zero(p);
    if 0 <= z < p.len() {
        seq![(z + 1) as u8] + p.subrange(0, z) + encode_spec(p.skip(z + 1))
    } else {
        seq![(p.len() + 1) as u8] + p
    }
}

/// What a received block means: the payload it carries, or the first fault
/// found reading its blocks left to right.
pub open spec fn decode_spec(b: Seq<u8>) -> Result<Seq<u8>, DecodeError>
    decreases b.len(),
{
    if b.len() == 0 {
        Ok(Seq::empty())
    } else {
        let code = b[0] as int;
        if code == 0 {
            Err(DecodeError::MisplacedSentinel)
        } else if code > b.len() {
            Err(DecodeError::LengthMismatch)
        } else if has_zero(b.subrange(1, code)) {
            Err(DecodeError::MisplacedSentinel)
        } else if code == b.len() {
            Ok(b.subrange(1, code))
        } else {
            match decode_spec(b.skip(code)) {
                Ok(rest) => Ok(b.subrange(1, code) + seq![0u8] + rest),
                Err(e) => Err(e),
            }
        }
    }
}

/// A stuffed encoding is always exactly one byte longer than its payload.
pub proof fn lemma_encode_len(p: Seq<u8>)
    ensures
        encode_spec(p).len() == p.len() + 1,
    decreases p.len(),
{
    lemma_first_zero_bounds(p);
    let z = first_zero(p);
    if 0 <= z < p.len() {
        lemma_encode_len(p.skip(z + 1));
    }
}

/// The sentinel never appears in the encoding of a payload short enough
/// for the scheme: that is what makes it usable as a frame delimiter.
pub proof fn lemma_encode_sentinel_free(p: Seq<u8>)
    requires
        p.len() <= 254,
    ensures
        !has_zero(encode_spec(p)),
    decreases p.len(),
{
    lemma_first_zero_bounds(p);
    let z = first_zero(p);
    let e = encode_spec(p);
    if 0 <= z < p.len() {
        lemma_encode_sentinel_free(p.skip(z + 1));
        let tail = encode_spec(p.skip(z + 1));
        assert(e == seq![(z + 1) as u8] + p.subrange(0, z) + tail);
        assert forall|i: int| 0 <= i < e.len() implies e[i] != 0 by {
            if i == 0 {
                assert(e[0] == (z + 1) as u8);
                assert((z + 1) as u8 != 0) by {
                    assert(1 <= z + 1 <= 254);
                }
            } else if i <= z {
                assert(e[i] == p.subrange(0, z)[i - 1]);
                assert(p.subrange(0, z)[i - 1] == p[i - 1]);
            } else {
                assert(e[i] == tail[i - z - 1]);
                assert(!has_zero(tail));
                assert(0 <= i - z - 1 < tail.len() && tail[i - z - 1] == 0 ==> has_zero(tail));
            }
        }
    } else {
        assert(z == p.len());
        assert forall|i: int| 0 <= i < e.len() implies e[i] != 0 by {
            if i == 0 {
                assert(e[0] == (p.len() + 1) as u8);
                assert(1 <= p.len() + 1 <= 255);
            } else {
                assert(e[i] == p[i - 1]);
            }
        }
    }
}

/// Decoding undoes encoding: every payload the scheme covers comes back
/// from its own encoding unchanged.
pub proof fn lemma_round_trip(p: Seq<u8>)
    requires
        p.len() <= 254,
    ensures
        decode_spec(encode_spec(p)) == Ok::<Seq<u8>, DecodeError>(p),
    decreases p.len(),
{
    lemma_first_zero_bounds(p);
    lemma_encode_len(p);
    let z = first_zero(p);
    let e = encode_spec(p);
    if 0 <= z < p.len() {
        let tail = encode_spec(p.skip(z + 1));
        lemma_encode_len(p.skip(z + 1));
        assert(e == seq![(z + 1) as u8] + p.subrange(0, z) + tail);
        let code = e[0] as int;
        assert(e[0] == (z + 1) as u8);
        assert(code == z + 1) by {
            assert(1 <= z + 1 <= 254);
        }
        assert(0 < code < e.len());
        assert(e.subrange(1, code) =~= p.subrange(0, z));
        assert(!has_zero(e.subrange(1, code))) by {
            assert forall|i: int| 0 <= i < z implies p.subrange(0, z)[i] != 0 by {
                assert(p.subrange(0, z)[i] == p[i]);
            }
        }
        assert(e.skip(code) =~= tail);
        lemma_round_trip(p.skip(z + 1));
        assert(decode_spec(e) == Ok::<Seq<u8>, DecodeError>(
            p.subrange(0, z) + seq![0u8] + p.skip(z + 1),
        ));
        assert(p.subrange(0, z) + seq![0u8] + p.skip(z + 1) =~= p) by {
            assert(p[z] == 0);
        }
    } else {
        assert(z == p.len());
        let code = e[0] as int;
        assert(e[0] == (p.len() + 1) as u8);
        assert(code == p.len() + 1) by {
            assert(1 <= p.len() + 1 <= 255);
        }
        assert(code == e.len());
        assert(e.subrange(1, code) =~= p);
        assert(!has_zero(e.subrange(1, code))) by {
            assert forall|i: int| 0 <= i < p.len() implies p[i] != 0 by {}
        }
        assert(decode_spec(e) == Ok::<Seq<u8>, DecodeError>(e.subrange(1, code)));
    }
}

/// Whatever block decodes at all decodes to exactly one byte less than the
/// block: a 13-byte wire block always carries a 12-byte payload.
pub proof fn lemma_decode_len(b: Seq<u8>)
    requires
        b.len() > 0,
        decode_spec(b) is Ok,
    ensures
        decode_spec(b)->Ok_0.len() == b.len() - 1,
    decreases b.len(),
{
    let code = b[0] as int;
    if code < b.len() {
        lemma_decode_len(b.skip(code));
    }
}

/// A block in which the sentinel occurs anywhere never decodes: every byte
/// of a block is either a code byte or a stuffed payload byte, and the
/// sentinel is legal as neither.
pub proof fn lemma_sentinel_rejected(b: Seq<u8>)
    requires
        has_zero(b),
    ensures
        decode_spec(b) is Err,
    decreases b.len(),
{
    if decode_spec(b) is Ok {
        let code = b[0] as int;
        let i = choose|i: int| 0 <= i < b.len() && b[i] == 0;
        assert(i != 0);
        if i < code {
            assert(b.subrange(1, code)[i - 1] == 0);
        } else {
            assert(code < b.len() ==> decode_spec(b.skip(code)) is Ok);
            assert(code == b.len() ==> b.subrange(1, code)[i - 1] == 0);
            assert(b.skip(code)[i - code] == 0);
            lemma_sentinel_rejected(b.skip(code));
        }
    }
}

/// Decodes one stuffed block into the payload it carries, reporting the
/// first fault found reading left to right.
#[verifier::loop_isolation(false)]
pub fn decode_block(b: &Vec<u8>) -> (r: Result<Vec<u8>, DecodeError>)
    ensures
        match r {
            Ok(p) => decode_spec(b@) == Ok::<Seq<u8>, DecodeError>(p@),
            Err(e) => decode_spec(b@) == Err::<Seq<u8>, DecodeError>(e),
        },
{
    let mut out: Vec<u8> = Vec::new();
    let mut i: usize = 0;
    proof {
        assert(b@.skip(0) =~= b@);
        if decode_spec(b@) is Ok {
            assert(Seq::<u8>::empty() + decode_spec(b@)->Ok_0 =~= decode_spec(b@)->Ok_0);
        }
    }
    while i < b.len()
        invariant
            0 <= i <= b@.len(),
            decode_spec(b@) == (match decode_spec(b@.skip(i as int)) {
                Ok(t) => Ok::<Seq<u8>, DecodeError>(out@ + t),
                Err(e) => Err::<Seq<u8>, DecodeError>(e),
            }),
        decreases b@.len() - i,
    {
        let ghost rem = b@.skip(i as int);
        proof {
            assert(rem.len() == b@.len() - i);
            assert(rem[0] == b@[i as int]);
        }
        let code_byte = b[i];
        if code_byte == 0 {
            return Err(DecodeError::MisplacedSentinel);
        }
        let code = code_byte as usize;
        if code > b.len() - i {
            return Err(DecodeError::LengthMismatch);
        }
        proof {
            assert(rem.subrange(1, code as int) =~= b@.subrange(i + 1, i + code));
        }
        let ghost pre = out@;
        let mut j: usize = i + 1;
        while j < i + code
            invariant
                i + 1 <= j <= i + code,
                i + code <= b@.len(),
                out@ == pre + b@.subrange(i + 1, j as int),
                forall|k: int| i + 1 <= k < j ==> b@[k] != 0,
            decreases i + code - j,
        {
            let byte = b[j];
            if byte == 0 {
                proof {
                    assert(b@.subrange(i + 1, i + code)[j - i - 1] == 0);
                    assert(has_zero(b@.subrange(i + 1, i + code)));
                }
                return Err(DecodeError::MisplacedSentinel);
            }
            out.push(byte);
            proof {
                assert(out@ =~= pre + b@.subrange(i + 1, j + 1));
            }
            j += 1;
        }
        proof {
            assert(!has_zero(rem.subrange(1, code as int))) by {
                assert forall|m: int|
                    0 <= m < rem.subrange(1, code as int).len() implies rem.subrange(
                    1,
                    code as int,
                )[m] != 0 by {
                    assert(rem.subrange(1, code as int)[m] == b@[i + 1 + m]);
                }
            }
        }
        if code == b.len() - i {
            proof {
                assert(decode_spec(rem) == Ok::<Seq<u8>, DecodeError>(
                    rem.subrange(1, code as int),
                ));
                assert(out@ =~= pre + rem.subrange(1, code as int));
                assert(b@.skip(b@.len() as int) =~= Seq::<u8>::empty());
                assert(pre + rem.subrange(1, code as int) + Seq::<u8>::empty() =~= out@);
            }
            i += code;
        } else {
            out.push(0);
            proof {
                assert(rem.skip(code as int) =~= b@.skip(i + code));
                let data = rem.subrange(1, code as int);
                assert(out@ =~= pre + data + seq![0u8]);
                if decode_spec(b@.skip(i + code)) is Ok {
                    let t = decode_spec(b@.skip(i + code))->Ok_0;
                    assert(decode_spec(rem) == Ok::<Seq<u8>, DecodeError>(
                        data + seq![0u8] + t,
                    ));
                    assert(pre + (data + seq![0u8] + t) =~= (pre + data + seq![0u8]) + t);
                }
            }
            i += code;
        }
    }
    proof {
        assert(b@.skip(i as int) =~= Seq::<u8>::empty());
        assert(out@ + Seq::<u8>::empty() =~= out@);
    }
    Ok(out)
}

/// Encodes a payload into its stuffed block, one code byte and one run of
/// non-sentinel bytes per iteration.
#[verifier::loop_isolation(false)]
pub fn encode_block(p: &Vec<u8>) -> (r: Vec<u8>)
    requires
        p@.len() <= 254,
    ensures
        r@ == encode_spec(p@),
        r@.len() == p@.len() + 1,
{
    let mut out: Vec<u8> = Vec::new();
    let mut s: usize = 0;
    let mut finished: bool = false;
    proof {
        assert(p@.skip(0) =~= p@);
        assert(Seq::<u8>::empty() + encode_spec(p@) =~= encode_spec(p@));
    }
    while !finished
        invariant
            0 <= s <= p@.len(),
            p@.len() <= 254,
            !finished ==> encode_spec(p@) == out@ + encode_spec(p@.skip(s as int)),
            finished ==> out@ == encode_spec(p@),
        decreases p@.len() - s + (if finished { 0int } else { 1int }),
    {
        let ghost rem = p@.skip(s as int);
        let mut z: usize = s;
        while z < p.len() && p[z] != 0
            invariant
                s <= z <= p@.len(),
                forall|k: int| s <= k < z ==> p@[k] != 0,
            decreases p@.len() - z,
        {
            z += 1;
        }
        proof {
            assert forall|m: int| 0 <= m < z - s implies rem[m] != 0 by {
                assert(rem[m] == p@[s + m]);
            }
            assert(z < p@.len() ==> rem[z - s] == p@[z as int]);
            lemma_first_zero_is(rem, z - s);
        }
        let ghost start = out@;
        if z < p.len() {
            out.push((z - s + 1) as u8);
            let ghost mid = out@;
            let mut j: usize = s;
            while j < z
                invariant
                    s <= j <= z <= p@.len(),
                    out@ == mid + p@.subrange(s as int, j as int),
                decreases z - j,
            {
                out.push(p[j]);
                proof {
                    assert(out@ =~= mid + p@.subrange(s as int, j + 1));
                }
                j += 1;
            }
            proof {
                assert(first_zero(rem) == z - s);
                assert(encode_spec(rem) == seq![(z - s + 1) as u8] + rem.subrange(0, z - s)
                    + encode_spec(rem.skip(z - s + 1)));
                assert(rem.subrange(0, z - s) =~= p@.subrange(s as int, z as int));
                assert(rem.skip(z - s + 1) =~= p@.skip(z + 1));
                assert(mid =~= start + seq![(z - s + 1) as u8]);
                assert(out@ + encode_spec(p@.skip(z + 1)) =~= start + encode_spec(rem));
            }
            s = z + 1;
        } else {
            out.push((p.len() - s + 1) as u8);
            let ghost mid = out@;
            let mut j: usize = s;
            while j < p.len()
                invariant
                    s <= j <= p@.len(),
                    out@ == mid + p@.subrange(s as int, j as int),
                decreases p@.len() - j,
            {
                out.push(p[j]);
                proof {
                    assert(out@ =~= mid + p@.subrange(s as int, j + 1));
                }
                j += 1;
            }
            proof {
                assert(first_zero(rem) == rem.len());
                assert(encode_spec(rem) == seq![(rem.len() + 1) as u8] + rem);
                assert(rem =~= p@.subrange(s as int, p@.len() as int));
                assert(mid =~= start + seq![(p@.len() - s + 1) as u8]);
                assert(out@ =~= start + encode_spec(rem));
            }
            finished = true;
        }
    }
    proof {
        lemma_encode_len(p@);
    }
    out
}

} // verus!
