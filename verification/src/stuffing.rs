//! Byte stuffing for self-delimiting frames.
//!
//! A payload is split at its zero bytes into blocks of nonzero bytes; each
//! block is emitted as a code byte (block length + 1) followed by the block
//! itself, and the frame ends with the single delimiter byte `0`.  The
//! stuffed body therefore contains no zero byte, so a reader can recover a
//! frame from a byte stream without an out-of-band length field.
//!
//! The transport works with a fixed 64-byte buffer.  Stuffing adds exactly
//! two bytes (one leading code byte and the trailing delimiter), so payloads
//! of up to 62 bytes are supported.

use vstd::prelude::*;

use crate::CodecError;

verus! {

/// Size of the transport's working buffer; a stuffed frame must fit in it.
pub const MAX_FRAME_LEN: usize = 64;

/// Longest payload whose stuffed frame fits in the working buffer.
pub const MAX_PAYLOAD_LEN: usize = 62;

/// Index of the first zero byte of `s`, or `s.len()` if `s` has none.
pub open spec fn first_zero(s: Seq<u8>) -> int
    decreases s.len(),
{
    if s.len() == 0 {
        0
    } else if s[0] == 0 {
        0
    } else {
        1 + first_zero(s.skip(1))
    }
}

proof fn lemma_first_zero(s: Seq<u8>)
    ensures
        0 <= first_zero(s) <= s.len(),
        forall|i: int| 0 <= i < first_zero(s) ==> s[i] != 0,
        first_zero(s) < s.len() ==> s[first_zero(s)] == 0,
    decreases s.len(),
{
    if s.len() == 0 {
    } else if s[0] == 0 {
    } else {
        lemma_first_zero(s.skip(1));
        assert forall|i: int| 0 <= i < first_zero(s) implies s[i] != 0 by {
            if i > 0 {
                assert(s[i] == s.skip(1)[i - 1]);
            }
        }
        if first_zero(s) < s.len() {
            assert(s[first_zero(s)] == s.skip(1)[first_zero(s.skip(1))]);
        }
    }
}

/// `first_zero` is the unique index with no zero before it and a zero (or
/// the end of the sequence) at it.
proof fn lemma_first_zero_is(s: Seq<u8>, k: int)
    requires
        0 <= k <= s.len(),
        forall|i: int| 0 <= i < k ==> s[i] != 0,
        k < s.len() ==> s[k] == 0,
    ensures
        first_zero(s) == k,
    decreases s.len(),
{
    if s.len() == 0 {
    } else if s[0] == 0 {
        assert(k == 0);
    } else {
        assert(k > 0) by {
            assert(k < s.len() ==> s[k] == 0);
        }
        assert forall|i: int| 0 <= i < k - 1 implies s.skip(1)[i] != 0 by {
            assert(s.skip(1)[i] == s[i + 1]);
        }
        if k - 1 < s.skip(1).len() {
            assert(s.skip(1)[k - 1] == s[k]);
        }
        lemma_first_zero_is(s.skip(1), k - 1);
    }
}

/// The stuffed body of a payload: each zero-separated run of nonzero bytes
/// becomes a code byte (run length + 1) followed by the run itself.  The
/// body contains no zero byte as long as the payload is short enough that
/// every code fits.
pub open spec fn stuff_body(data: Seq<u8>) -> Seq<u8>
    decreases data.len(),
    via stuff_body_decreases
{
    let k = first_zero(data);
    if k == data.len() {
        seq![(k + 1) as u8] + data
    } else {
        seq![(k + 1) as u8] + data.take(k) + stuff_body(data.skip(k + 1))
    }
}

#[via_fn]
proof fn stuff_body_decreases(data: Seq<u8>) {
    lemma_first_zero(data);
}

/// A complete frame: the stuffed body followed by the delimiter byte.
pub open spec fn stuffed_frame(data: Seq<u8>) -> Seq<u8> {
    stuff_body(data) + seq![0u8]
}

/// Stuffing a payload always adds exactly one code byte to the body.
proof fn lemma_stuff_body_len(data: Seq<u8>)
    ensures
        stuff_body(data).len() == data.len() + 1,
    decreases data.len(),
{
    lemma_first_zero(data);
    let k = first_zero(data);
    if k < data.len() {
        lemma_stuff_body_len(data.skip(k + 1));
    }
}

/// For payloads short enough that every code byte fits, the stuffed body
/// contains no zero byte.
proof fn lemma_stuff_body_nonzero(data: Seq<u8>)
    requires
        data.len() <= MAX_PAYLOAD_LEN as int,
    ensures
        forall|i: int| 0 <= i < stuff_body(data).len() ==> stuff_body(data)[i] != 0,
    decreases data.len(),
{
    lemma_first_zero(data);
    let k = first_zero(data);
    if k == data.len() {
        assert forall|i: int| 0 <= i < stuff_body(data).len() implies stuff_body(data)[i] != 0 by {
            if i > 0 {
                assert(stuff_body(data)[i] == data[i - 1]);
            }
        }
    } else {
        lemma_stuff_body_nonzero(data.skip(k + 1));
        assert forall|i: int| 0 <= i < stuff_body(data).len() implies stuff_body(data)[i] != 0 by {
            if 0 < i <= k {
                assert(stuff_body(data)[i] == data.take(k)[i - 1]);
            } else if i > k {
                assert(stuff_body(data)[i] == stuff_body(data.skip(k + 1))[i - k - 1]);
            }
        }
    }
}

/// Framing safety: a frame is two bytes longer than its payload, and the
/// delimiter byte appears in it only as its final byte.
pub proof fn lemma_framing_safety(data: Seq<u8>)
    requires
        data.len() <= MAX_PAYLOAD_LEN as int,
    ensures
        stuffed_frame(data).len() == data.len() + 2,
        stuffed_frame(data).len() <= MAX_FRAME_LEN as int,
        forall|i: int|
            0 <= i < stuffed_frame(data).len() - 1 ==> stuffed_frame(data)[i] != 0,
        stuffed_frame(data)[stuffed_frame(data).len() - 1] == 0,
{
    lemma_stuff_body_len(data);
    lemma_stuff_body_nonzero(data);
    assert forall|i: int|
        0 <= i < stuffed_frame(data).len() - 1 implies stuffed_frame(data)[i] != 0 by {
        assert(stuffed_frame(data)[i] == stuff_body(data)[i]);
    }
}

/// Unstuffs the first frame held in `frame`, if `frame` begins with a
/// well-formed one; bytes after that frame's delimiter are ignored.  A
/// malformed start — an empty buffer, a delimiter where a code byte is due,
/// a block cut short by the delimiter, or a missing delimiter — yields
/// `None`.
pub open spec fn unstuff_spec(frame: Seq<u8>) -> Option<Seq<u8>>
    decreases frame.len(),
{
    if frame.len() == 0 {
        None
    } else {
        let c = frame[0] as int;
        if c == 0 {
            None
        } else if frame.len() < c + 1 {
            None
        } else {
            let block = frame.subrange(1, c);
            if first_zero(block) != block.len() {
                None
            } else if frame[c] == 0 {
                Some(block)
            } else {
                match unstuff_spec(frame.skip(c)) {
                    Some(tail) => Some(block + seq![0u8] + tail),
                    None => None,
                }
            }
        }
    }
}

/// Round trip of the framing layer: unstuffing a stuffed frame yields the
/// original payload, whatever bytes follow the frame's delimiter in the
/// buffer it was read into.
pub proof fn lemma_unstuff_stuffed(data: Seq<u8>, junk: Seq<u8>)
    requires
        data.len() <= MAX_PAYLOAD_LEN as int,
    ensures
        unstuff_spec(stuffed_frame(data) + junk) == Some(data),
    decreases data.len(),
{
    lemma_first_zero(data);
    lemma_stuff_body_len(data);
    let k = first_zero(data);
    let f = stuffed_frame(data) + junk;
    assert(f[0] == (k + 1) as u8);
    let c = f[0] as int;
    assert(c == k + 1);
    if k == data.len() {
        // One block holding the whole payload, then the delimiter.
        assert(f.subrange(1, c) =~= data);
        lemma_first_zero_is(data, data.len() as int);
        assert(f[c] == stuffed_frame(data)[k + 1]);
        assert(f[c] == 0);
        assert(unstuff_spec(f) == Some(data));
    } else {
        // A block up to the first zero of the payload, then the frames of
        // the rest of the payload.
        let rest = data.skip(k + 1);
        assert(f.subrange(1, c) =~= data.take(k));
        assert forall|i: int| 0 <= i < k implies data.take(k)[i] != 0 by {
            assert(data.take(k)[i] == data[i]);
        }
        lemma_first_zero_is(data.take(k), k);
        lemma_stuff_body_len(rest);
        assert(f.skip(c) =~= stuffed_frame(rest) + junk);
        lemma_stuff_body_nonzero(rest);
        assert(f[c] == stuff_body(rest)[0]);
        assert(f[c] != 0);
        lemma_unstuff_stuffed(rest, junk);
        assert(unstuff_spec(f.skip(c)) == Some(rest));
        assert(data.take(k) + seq![0u8] + rest =~= data);
        assert(unstuff_spec(f) == Some(data));
    }
}

/// Returns the index of the first zero byte of `data` at or after `from`,
/// or `data.len()` if there is none.
fn find_zero(data: &[u8], from: usize) -> (r: usize)
    requires
        from <= data@.len(),
    ensures
        from <= r <= data@.len(),
        r - from == first_zero(data@.skip(from as int)),
{
    let mut j: usize = from;
    while j < data.len()
        invariant
            from <= j <= data@.len(),
            forall|i: int| from <= i < j ==> data@[i] != 0,
        decreases data@.len() - j,
    {
        if data[j] == 0 {
            proof {
                assert forall|i: int| 0 <= i < j - from implies data@.skip(from as int)[i] != 0 by {
                    assert(data@.skip(from as int)[i] == data@[from + i]);
                }
                assert(data@.skip(from as int)[j - from] == data@[j as int]);
                lemma_first_zero_is(data@.skip(from as int), j - from);
            }
            return j;
        }
        j += 1;
    }
    proof {
        assert forall|i: int| 0 <= i < j - from implies data@.skip(from as int)[i] != 0 by {
            assert(data@.skip(from as int)[i] == data@[from + i]);
        }
        lemma_first_zero_is(data@.skip(from as int), j - from);
    }
    j
}

/// Appends the stuffed body of `data[from..]` to `out`.
fn stuff_tail(data: &[u8], from: usize, out: &mut Vec<u8>)
    requires
        from <= data@.len(),
        data@.len() <= MAX_PAYLOAD_LEN as int,
    ensures
        final(out)@ == old(out)@ + stuff_body(data@.skip(from as int)),
    decreases data@.len() - from,
{
    let ghost s: Seq<u8> = data@.skip(from as int);
    proof {
        lemma_first_zero(s);
    }
    let k: usize = find_zero(data, from);
    out.push((k - from + 1) as u8);
    let mut j: usize = from;
    while j < k
        invariant
            from <= j <= k <= data@.len(),
            out@ == old(out)@ + seq![(k - from + 1) as u8] + data@.subrange(
                from as int,
                j as int,
            ),
        decreases k - j,
    {
        let b: u8 = data[j];
        out.push(b);
        proof {
            assert(out@ =~= old(out)@ + seq![(k - from + 1) as u8] + data@.subrange(
                from as int,
                j + 1,
            ));
        }
        j += 1;
    }
    proof {
        assert(s.take(k - from) =~= data@.subrange(from as int, k as int));
    }
    if k == data.len() {
        proof {
            assert(s.take(k - from) =~= s);
            assert(out@ =~= old(out)@ + stuff_body(s));
        }
    } else {
        proof {
            assert(s.skip(k - from + 1) =~= data@.skip(k + 1));
        }
        stuff_tail(data, k + 1, out);
        proof {
            assert(out@ =~= old(out)@ + stuff_body(s));
        }
    }
}

/// Stuffs a payload into a complete frame.  Succeeds exactly when the
/// stuffed frame fits the transport's 64-byte buffer, that is, when the
/// payload is at most 62 bytes; a longer payload is rejected, never
/// truncated.
pub fn stuff(data: &[u8]) -> (r: Result<Vec<u8>, CodecError>)
    ensures
        data@.len() <= MAX_PAYLOAD_LEN as int ==> (r matches Ok(f) && f@ == stuffed_frame(
            data@,
        )),
        data@.len() > MAX_PAYLOAD_LEN as int ==> (r matches Err(e) && e
            == CodecError::BufferOverflow),
{
    if data.len() > MAX_PAYLOAD_LEN {
        return Err(CodecError::BufferOverflow);
    }
    let mut out: Vec<u8> = Vec::new();
    stuff_tail(data, 0, &mut out);
    out.push(0);
    proof {
        assert(data@.skip(0) =~= data@);
        assert(out@ =~= stuffed_frame(data@));
    }
    Ok(out)
}

/// Appends the payload of the frame starting at `data[i..]` to `out` and
/// returns whether that frame was well formed.  On failure `out` may hold a
/// partial payload; the caller discards it.
#[verifier::loop_isolation(false)]
fn unstuff_tail(data: &[u8], i: usize, out: &mut Vec<u8>) -> (ok: bool)
    requires
        i <= data@.len(),
    ensures
        unstuff_spec(data@.skip(i as int)) matches Some(tail) ==> ok && final(out)@ == old(
            out,
        )@ + tail,
        unstuff_spec(data@.skip(i as int)) is None ==> !ok,
    decreases data@.len() - i,
{
    let ghost s: Seq<u8> = data@.skip(i as int);
    if i == data.len() {
        return false;
    }
    let c: u8 = data[i];
    assert(s[0] == c);
    if c == 0 {
        return false;
    }
    let clen: usize = c as usize;
    if data.len() - i < clen + 1 {
        return false;
    }
    let ghost block: Seq<u8> = s.subrange(1, c as int);
    proof {
        assert(block =~= data@.subrange(i + 1, i + clen));
    }
    let mut j: usize = i + 1;
    while j < i + clen
        invariant
            i + 1 <= j <= i + clen <= data@.len(),
            block == data@.subrange(i + 1, i + clen),
            forall|m: int| i + 1 <= m < j ==> data@[m] != 0,
            out@ == old(out)@ + data@.subrange(i + 1, j as int),
        decreases i + clen - j,
    {
        let b: u8 = data[j];
        if b == 0 {
            proof {
                assert forall|m: int| 0 <= m < j - i - 1 implies block[m] != 0 by {
                    assert(block[m] == data@[i + 1 + m]);
                }
                assert(block[j - i - 1] == data@[j as int]);
                lemma_first_zero_is(block, j - i - 1);
            }
            return false;
        }
        out.push(b);
        proof {
            assert(out@ =~= old(out)@ + data@.subrange(i + 1, j + 1));
        }
        j += 1;
    }
    proof {
        assert forall|m: int| 0 <= m < block.len() implies block[m] != 0 by {
            assert(block[m] == data@[i + 1 + m]);
        }
        lemma_first_zero_is(block, block.len() as int);
        assert(block =~= data@.subrange(i + 1, i + clen));
        assert(s[c as int] == data@[i + clen]);
    }
    if data[i + clen] == 0 {
        assert(out@ == old(out)@ + block);
        true
    } else {
        out.push(0);
        let ghost mid: Seq<u8> = out@;
        assert(mid == old(out)@ + block + seq![0u8]);
        let ok = unstuff_tail(data, i + clen, out);
        proof {
            assert(s.skip(c as int) =~= data@.skip(i + clen));
            if unstuff_spec(s) is Some {
                let tail = unstuff_spec(s.skip(c as int))->Some_0;
                assert(out@ == mid + tail);
                assert(out@ =~= old(out)@ + (block + seq![0u8] + tail));
            }
        }
        ok
    }
}

/// Unstuffs the first frame held in `data`, per [`unstuff_spec`]: the
/// payload of a well-formed frame at the start of the buffer, or a
/// deserialization error if the buffer does not begin with one.
pub fn unstuff(data: &[u8]) -> (r: Result<Vec<u8>, CodecError>)
    ensures
        unstuff_spec(data@) matches Some(payload) ==> (r matches Ok(v) && v@ == payload),
        unstuff_spec(data@) is None ==> (r matches Err(e) && e == CodecError::Deserialize),
{
    let mut out: Vec<u8> = Vec::new();
    proof {
        assert(data@.skip(0) =~= data@);
    }
    let ok = unstuff_tail(data, 0, &mut out);
    if ok {
        Ok(out)
    } else {
        Err(CodecError::Deserialize)
    }
}

} // verus!
