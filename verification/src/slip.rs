//! SLIP-style byte-stuffing codec for the host serial link.
//!
//! Frames are delimited by an `END` byte; `END` and `ESC` bytes occurring in
//! the payload are escaped as two-byte sequences.

use vstd::prelude::*;

use crate::error::Error;

verus! {

/// Frame end
pub const END: u8 = 0xC0;

/// Frame escape
pub const ESC: u8 = 0xDB;

/// Escaped end character
pub const ESC_END: u8 = 0xDC;

/// Escaped escape character
pub const ESC_ESC: u8 = 0xDD;

/// The one- or two-byte encoding of a single payload byte.
pub open spec fn escaped_byte(b: u8) -> Seq<u8> {
    if b == ESC {
        seq![ESC, ESC_ESC]
    } else if b == END {
        seq![ESC, ESC_END]
    } else {
        seq![b]
    }
}

/// The byte-stuffed body of a frame, without the delimiters.
pub open spec fn escaped_bytes(input: Seq<u8>) -> Seq<u8>
    decreases input.len(),
{
    if input.len() == 0 {
        Seq::empty()
    } else {
        escaped_byte(input[0]) + escaped_bytes(input.skip(1))
    }
}

/// The complete frame encoding of a payload: delimited and byte-stuffed.
/// An empty payload encodes to nothing at all.
pub open spec fn frame_encoding(input: Seq<u8>) -> Seq<u8> {
    if input.len() == 0 {
        Seq::empty()
    } else {
        seq![END] + escaped_bytes(input) + seq![END]
    }
}

proof fn lemma_escaped_bytes_take_step(input: Seq<u8>, i: int)
    requires
        0 <= i < input.len(),
    ensures
        escaped_bytes(input.take(i + 1)) == escaped_bytes(input.take(i)) + escaped_byte(input[i]),
    decreases i,
{
    if i == 0 {
        assert(input.take(1) =~= seq![input[0]]);
        assert(input.take(1).skip(1) =~= Seq::<u8>::empty());
        assert(input.take(0) =~= Seq::<u8>::empty());
        assert(escaped_bytes(input.take(1)) =~= escaped_byte(input[0]));
    } else {
        let s = input.skip(1);
        lemma_escaped_bytes_take_step(s, i - 1);
        assert(input.take(i + 1)[0] == input[0]);
        assert(input.take(i + 1).skip(1) =~= s.take(i));
        assert(input.take(i).skip(1) =~= s.take(i - 1));
        assert(s[i - 1] == input[i]);
        assert(escaped_bytes(input.take(i + 1)) == escaped_byte(input[0]) + escaped_bytes(s.take(i)));
        assert(escaped_bytes(input.take(i)) == escaped_byte(input[0]) + escaped_bytes(s.take(i - 1)));
        assert(escaped_bytes(input.take(i)) + escaped_byte(input[i]) == escaped_byte(input[0])
            + (escaped_bytes(s.take(i - 1)) + escaped_byte(s[i - 1])));
    }
}

proof fn lemma_escaped_bytes_len(input: Seq<u8>)
    ensures
        input.len() <= escaped_bytes(input).len() <= 2 * input.len(),
    decreases input.len(),
{
    if input.len() > 0 {
        lemma_escaped_bytes_len(input.skip(1));
    }
}

/// The number of output bytes that `encode` would produce.
fn calc_size(input: &[u8]) -> (size: usize)
    requires
        2 * input@.len() + 2 <= usize::MAX,
    ensures
        size == frame_encoding(input@).len(),
{
    if input.len() == 0 {
        return 0;
    }
    let mut size: usize = 2;  // END + END
    let mut n: usize = 0;
    proof {
        assert(input@.take(0) =~= Seq::<u8>::empty());
    }
    while n < input.len()
        invariant
            n <= input@.len(),
            2 * input@.len() + 2 <= usize::MAX,
            size == 2 + escaped_bytes(input@.take(n as int)).len(),
        decreases input@.len() - n,
    {
        proof {
            lemma_escaped_bytes_take_step(input@, n as int);
            lemma_escaped_bytes_len(input@.take(n as int));
        }
        match input[n] {
            ESC | END => {
                size += 2;
            },
            _ => {
                size += 1;
            },
        }
        n += 1;
    }
    proof {
        assert(input@.take(input@.len() as int) =~= input@);
    }
    size
}

/// Encode a payload as a SLIP frame into the front of `output`.
///
/// Bytes of `output` past the encoding keep their old values. Fails with
/// `NotEnoughBytes` when `output` is shorter than the encoding; an empty
/// payload produces no output at all.
pub fn encode(input: &[u8], output: &mut Vec<u8>) -> (r: Result<(usize, usize), Error>)
    requires
        2 * input@.len() + 2 <= usize::MAX,
    ensures
        final(output)@.len() == old(output)@.len(),
        input@.len() == 0 ==> r == Ok::<(usize, usize), Error>((0usize, 0usize)) && final(output)@
            == old(output)@,
        input@.len() > 0 && old(output)@.len() < frame_encoding(input@).len() ==> r == Err::<
            (usize, usize),
            Error,
        >(Error::NotEnoughBytes) && final(output)@ == old(output)@,
        input@.len() > 0 && old(output)@.len() >= frame_encoding(input@).len() ==> {
            let enc = frame_encoding(input@);
            r == Ok::<(usize, usize), Error>((input@.len() as usize, enc.len() as usize))
                && final(output)@ == enc + old(output)@.skip(enc.len() as int)
        },
{
    let out_size = calc_size(input);
    if out_size == 0 {
        return Ok((0, 0));
    }
    if output.len() < out_size {
        return Err(Error::NotEnoughBytes);
    }
    proof {
        lemma_escaped_bytes_len(input@);
    }
    let mut in_idx: usize = 0;
    output.set(0, END);
    let mut out_idx: usize = 1;
    proof {
        assert(input@.take(0) =~= Seq::<u8>::empty());
        assert(output@ =~= seq![END] + escaped_bytes(input@.take(0)) + old(output)@.skip(1));
    }
    while in_idx < input.len()
        invariant
            in_idx <= input@.len(),
            input@.len() > 0,
            out_idx == 1 + escaped_bytes(input@.take(in_idx as int)).len(),
            out_idx + 1 <= out_size,
            out_size == frame_encoding(input@).len(),
            out_size <= output@.len(),
            output@.len() == old(output)@.len(),
            output@ == seq![END] + escaped_bytes(input@.take(in_idx as int)) + old(
                output,
            )@.skip(out_idx as int),
        decreases input@.len() - in_idx,
    {
        proof {
            lemma_escaped_bytes_take_step(input@, in_idx as int);
            lemma_escaped_bytes_split(input@, in_idx as int);
            lemma_escaped_bytes_len(input@.skip(in_idx as int));
            assert(input@.skip(in_idx as int)[0] == input@[in_idx as int]);
            assert(escaped_bytes(input@.skip(in_idx as int)).len() >= escaped_byte(
                input@[in_idx as int],
            ).len()) by {
                assert(escaped_bytes(input@.skip(in_idx as int)) == escaped_byte(
                    input@[in_idx as int],
                ) + escaped_bytes(input@.skip(in_idx as int).skip(1)));
            }
        }
        let ghost pre = output@;
        match input[in_idx] {
            ESC => {
                output.set(out_idx, ESC);
                output.set(out_idx + 1, ESC_ESC);
                out_idx += 2;
            },
            END => {
                output.set(out_idx, ESC);
                output.set(out_idx + 1, ESC_END);
                out_idx += 2;
            },
            _ => {
                output.set(out_idx, input[in_idx]);
                out_idx += 1;
            },
        }
        proof {
            assert(output@ =~= seq![END] + escaped_bytes(input@.take(in_idx + 1)) + old(
                output,
            )@.skip(out_idx as int));
        }
        in_idx += 1;
    }
    proof {
        assert(input@.take(input@.len() as int) =~= input@);
    }
    output.set(out_idx, END);
    out_idx += 1;
    proof {
        assert(output@ =~= frame_encoding(input@) + old(output)@.skip(out_idx as int));
    }
    Ok((in_idx, out_idx))
}

proof fn lemma_escaped_bytes_split(input: Seq<u8>, i: int)
    requires
        0 <= i <= input.len(),
    ensures
        escaped_bytes(input) == escaped_bytes(input.take(i)) + escaped_bytes(input.skip(i)),
    decreases i,
{
    if i == 0 {
        assert(input.take(0) =~= Seq::<u8>::empty());
        assert(input.skip(0) =~= input);
        assert(escaped_bytes(input) =~= escaped_bytes(input.take(0)) + escaped_bytes(input.skip(0)));
    } else {
        lemma_escaped_bytes_take_step(input, i - 1);
        lemma_escaped_bytes_split(input, i - 1);
        assert(input.skip(i - 1)[0] == input[i - 1]);
        assert(input.skip(i - 1).skip(1) =~= input.skip(i));
        assert(escaped_bytes(input.skip(i - 1)) == escaped_byte(input[i - 1]) + escaped_bytes(
            input.skip(i),
        ));
        assert(escaped_bytes(input) == (escaped_bytes(input.take(i - 1)) + escaped_byte(
            input[i - 1],
        )) + escaped_bytes(input.skip(i)));
    }
}

/// The result of scanning an incoming byte stream from position `i`, having
/// already accumulated the decoded bytes `acc`. A leading `END` (at position
/// zero) is skipped; the first later `END` completes the frame; the scan fails
/// when the input runs out first or an escape is not followed by a recognized
/// code.
pub open spec fn scan(input: Seq<u8>, i: int, acc: Seq<u8>) -> Result<(Seq<u8>, int), Error>
    decreases input.len() - i,
{
    if i < 0 || i >= input.len() {
        Err(Error::EndNotFound)
    } else {
        let b = input[i];
        if b == ESC {
            if i + 1 < input.len() {
                if input[i + 1] == ESC_ESC {
                    scan(input, i + 2, acc.push(ESC))
                } else if input[i + 1] == ESC_END {
                    scan(input, i + 2, acc.push(END))
                } else {
                    Err(Error::InvalidEscapeSequence)
                }
            } else {
                scan(input, i + 1, acc)
            }
        } else if b == END {
            if i > 0 {
                Ok((acc, i + 1))
            } else {
                scan(input, i + 1, acc)
            }
        } else {
            scan(input, i + 1, acc.push(b))
        }
    }
}

/// The decoding of an incoming byte stream: the payload of the first complete
/// frame and the number of input bytes consumed. An empty input decodes to
/// nothing.
pub open spec fn frame_decoding(input: Seq<u8>) -> Result<(Seq<u8>, int), Error> {
    if input.len() == 0 {
        Ok((Seq::empty(), 0))
    } else {
        scan(input, 0, Seq::empty())
    }
}

/// Decode the first SLIP frame found in `input` into the front of `output`.
///
/// Returns the number of input bytes consumed (delimiter included) and the
/// number of payload bytes written. Fails with `NotEnoughBytes` when `output`
/// is shorter than `input`, with `EndNotFound` when no closing delimiter is
/// present, and with `InvalidEscapeSequence` on an unrecognized escape code.
pub fn decode(input: &[u8], output: &mut Vec<u8>) -> (r: Result<(usize, usize), Error>)
    ensures
        final(output)@.len() == old(output)@.len(),
        input@.len() == 0 ==> r == Ok::<(usize, usize), Error>((0usize, 0usize)) && final(output)@
            == old(output)@,
        input@.len() > 0 && old(output)@.len() < input@.len() ==> r == Err::<
            (usize, usize),
            Error,
        >(Error::NotEnoughBytes) && final(output)@ == old(output)@,
        input@.len() > 0 && old(output)@.len() >= input@.len() ==> match frame_decoding(input@) {
            Ok((data, used)) => r == Ok::<(usize, usize), Error>(
                (used as usize, data.len() as usize),
            ) && final(output)@ == data + old(output)@.skip(data.len() as int),
            Err(e) => r == Err::<(usize, usize), Error>(e),
        },
{
    if input.len() == 0 {
        return Ok((0, 0));
    }
    if output.len() < input.len() {
        return Err(Error::NotEnoughBytes);
    }
    let mut in_idx: usize = 0;
    let mut out_idx: usize = 0;
    proof {
        assert(output@.take(0) =~= Seq::<u8>::empty());
    }
    loop
        invariant_except_break
            input@.len() > 0,
            in_idx < input@.len(),
            out_idx <= in_idx,
            input@.len() <= output@.len(),
            output@.len() == old(output)@.len(),
            output@ == output@.take(out_idx as int) + old(output)@.skip(out_idx as int),
            scan(input@, 0, Seq::empty()) == scan(
                input@,
                in_idx as int,
                output@.take(out_idx as int),
            ),
        ensures
            input@.len() <= output@.len(),
            output@.len() == old(output)@.len(),
            in_idx < input@.len(),
            out_idx <= in_idx,
            output@ == output@.take(out_idx as int) + old(output)@.skip(out_idx as int),
            scan(input@, 0, Seq::empty()) == Ok::<(Seq<u8>, int), Error>(
                (output@.take(out_idx as int), in_idx + 1),
            ),
        decreases input@.len() - in_idx,
    {
        let ghost acc = output@.take(out_idx as int);
        let b = input[in_idx];
        if b == ESC {
            if in_idx + 1 < input.len() {
                let e = input[in_idx + 1];
                if e == ESC_ESC {
                    output.set(out_idx, ESC);
                    out_idx += 1;
                    proof {
                        assert(output@.take(out_idx as int) =~= acc.push(ESC));
                        assert(output@ =~= output@.take(out_idx as int) + old(output)@.skip(
                            out_idx as int,
                        ));
                    }
                } else if e == ESC_END {
                    output.set(out_idx, END);
                    out_idx += 1;
                    proof {
                        assert(output@.take(out_idx as int) =~= acc.push(END));
                        assert(output@ =~= output@.take(out_idx as int) + old(output)@.skip(
                            out_idx as int,
                        ));
                    }
                } else {
                    return Err(Error::InvalidEscapeSequence);
                }
                in_idx += 1;
            }
        } else if b == END {
            if in_idx > 0 {
                break ;
            }
        } else {
            output.set(out_idx, b);
            out_idx += 1;
            proof {
                assert(output@.take(out_idx as int) =~= acc.push(b));
                assert(output@ =~= output@.take(out_idx as int) + old(output)@.skip(out_idx as int));
            }
        }
        in_idx += 1;
        if in_idx >= input.len() {
            return Err(Error::EndNotFound);
        }
    }
    Ok((in_idx + 1, out_idx))
}

/// A successful scan consumes more bytes than it produces: the decoded
/// payload grows by at most one byte for each input byte before the final
/// delimiter.
pub proof fn lemma_scan_len(input: Seq<u8>, i: int, acc: Seq<u8>)
    ensures
        match scan(input, i, acc) {
            Ok((d, u)) => i < u <= input.len() && d.len() <= acc.len() + (u - 1 - i),
            Err(_) => true,
        },
    decreases input.len() - i,
{
    if i < 0 || i >= input.len() {
    } else {
        let b = input[i];
        if b == ESC {
            if i + 1 < input.len() {
                if input[i + 1] == ESC_ESC {
                    lemma_scan_len(input, i + 2, acc.push(ESC));
                } else if input[i + 1] == ESC_END {
                    lemma_scan_len(input, i + 2, acc.push(END));
                }
            } else {
                lemma_scan_len(input, i + 1, acc);
            }
        } else if b == END {
            if i > 0 {
            } else {
                lemma_scan_len(input, i + 1, acc);
            }
        } else {
            lemma_scan_len(input, i + 1, acc.push(b));
        }
    }
}

/// Decoding a frame recovers exactly the payload it was encoded from: the
/// scan of `escaped_bytes(payload) + [END]` accumulates `payload`.
proof fn lemma_scan_escaped(payload: Seq<u8>, rest: Seq<u8>, prefix: Seq<u8>, i: int, acc: Seq<u8>)
    requires
        0 < i,
        prefix.len() == i,
        rest == prefix + escaped_bytes(payload) + seq![END],
    ensures
        scan(rest, i, acc) == Ok::<(Seq<u8>, int), Error>((acc + payload, rest.len() as int)),
    decreases payload.len(),
{
    if payload.len() == 0 {
        assert(rest[i] == END);
        assert(rest.len() == i + 1);
    } else {
        let b = payload[0];
        let tail = payload.skip(1);
        assert(escaped_bytes(payload) == escaped_byte(b) + escaped_bytes(tail));
        if b == ESC {
            assert(rest[i] == ESC && rest[i + 1] == ESC_ESC);
            assert(rest =~= (prefix + seq![ESC, ESC_ESC]) + escaped_bytes(tail) + seq![END]);
            lemma_scan_escaped(tail, rest, prefix + seq![ESC, ESC_ESC], i + 2, acc.push(ESC));
            assert(acc.push(ESC) + tail =~= acc + payload);
        } else if b == END {
            assert(rest[i] == ESC && rest[i + 1] == ESC_END);
            assert(rest =~= (prefix + seq![ESC, ESC_END]) + escaped_bytes(tail) + seq![END]);
            lemma_scan_escaped(tail, rest, prefix + seq![ESC, ESC_END], i + 2, acc.push(END));
            assert(acc.push(END) + tail =~= acc + payload);
        } else {
            assert(rest[i] == b);
            assert(rest =~= (prefix + seq![b]) + escaped_bytes(tail) + seq![END]);
            lemma_scan_escaped(tail, rest, prefix + seq![b], i + 1, acc.push(b));
            assert(acc.push(b) + tail =~= acc + payload);
        }
    }
}

/// SLIP round-trip: decoding the encoding of any payload yields that payload
/// back and consumes the whole frame.
pub proof fn lemma_round_trip(payload: Seq<u8>)
    ensures
        payload.len() == 0 ==> frame_decoding(frame_encoding(payload)) == Ok::<
            (Seq<u8>, int),
            Error,
        >((Seq::empty(), 0)),
        payload.len() > 0 ==> frame_decoding(frame_encoding(payload)) == Ok::<
            (Seq<u8>, int),
            Error,
        >((payload, frame_encoding(payload).len() as int)),
{
    if payload.len() > 0 {
        let enc = frame_encoding(payload);
        assert(enc[0] == END);
        lemma_escaped_bytes_len(payload);
        assert(enc =~= seq![END] + escaped_bytes(payload) + seq![END]);
        lemma_scan_escaped(payload, enc, seq![END], 1, Seq::empty());
        assert(Seq::<u8>::empty() + payload =~= payload);
        assert(scan(enc, 0, Seq::empty()) == scan(enc, 1, Seq::empty()));
    }
}

} // verus!
