use vstd::prelude::*;

use vstd::arithmetic::div_mod::{lemma_div_denominator, lemma_div_is_ordered,
    lemma_fundamental_div_mod, lemma_mod_bound};

use crate::types::NetworkError;

verus! {

/// The value of a four-byte big-endian length prefix.
pub open spec fn be_val(b: Seq<u8>) -> int {
    (b[0] as int) * 0x100_0000 + (b[1] as int) * 0x1_0000 + (b[2] as int) * 0x100 + (b[3] as int)
}

/// `data` is exactly one frame carrying `payload`: a four-byte big-endian
/// length prefix followed by the payload itself, nothing more.
pub open spec fn frame_ok(data: Seq<u8>, payload: Seq<u8>) -> bool {
    &&& data.len() == payload.len() + 4
    &&& be_val(data.subrange(0, 4)) == payload.len()
    &&& data.subrange(4, data.len() as int) == payload
}

/// The big-endian digits of a 32-bit value, each below 0x100, recompose to it.
proof fn lemma_be_decompose(x: u32)
    ensures
        0 <= x as int / 0x100_0000 < 0x100,
        0 <= (x as int / 0x1_0000) % 0x100 < 0x100,
        0 <= (x as int / 0x100) % 0x100 < 0x100,
        0 <= x as int % 0x100 < 0x100,
        (x as int / 0x100_0000) * 0x100_0000 + ((x as int / 0x1_0000) % 0x100) * 0x1_0000 + ((
        x as int / 0x100) % 0x100) * 0x100 + (x as int % 0x100) == x as int,
{
    let xi = x as int;
    lemma_mod_bound(xi, 0x100);
    lemma_mod_bound(xi / 0x100, 0x100);
    lemma_mod_bound(xi / 0x1_0000, 0x100);
    lemma_div_is_ordered(0, xi, 0x100_0000);
    lemma_div_is_ordered(xi, 0xffff_ffff, 0x100_0000);
    assert(0xffff_ffffint / 0x100_0000 == 0xff);
    lemma_fundamental_div_mod(xi, 0x100);
    lemma_fundamental_div_mod(xi / 0x100, 0x100);
    lemma_div_denominator(xi, 0x100, 0x100);
    assert(xi / 0x100 / 0x100 == xi / 0x1_0000);
    lemma_fundamental_div_mod(xi / 0x1_0000, 0x100);
    lemma_div_denominator(xi, 0x1_0000, 0x100);
    assert(xi / 0x1_0000 / 0x100 == xi / 0x100_0000);
}

/// Frame a payload: its length as four big-endian bytes, then the payload.
pub fn frame(payload: &Vec<u8>) -> (r: Vec<u8>)
    requires
        payload@.len() <= 0xffff_ffff,
    ensures
        frame_ok(r@, payload@),
{
    let n: u32 = payload.len() as u32;
    proof {
        lemma_be_decompose(n);
    }
    let b0: u8 = (n / 0x100_0000) as u8;
    let b1: u8 = ((n / 0x1_0000) % 0x100) as u8;
    let b2: u8 = ((n / 0x100) % 0x100) as u8;
    let b3: u8 = (n % 0x100) as u8;
    let mut r: Vec<u8> = Vec::new();
    r.push(b0);
    r.push(b1);
    r.push(b2);
    r.push(b3);
    let ghost prefix = r@;
    let mut k: usize = 0;
    while k < payload.len()
        invariant
            k <= payload@.len(),
            r@ == prefix + payload@.subrange(0, k as int),
            prefix.len() == 4,
        decreases payload@.len() - k,
    {
        r.push(payload[k]);
        proof {
            assert(r@ =~= prefix + payload@.subrange(0, k as int + 1));
        }
        k += 1;
    }
    proof {
        assert(payload@.subrange(0, payload@.len() as int) =~= payload@);
        assert(r@.subrange(0, 4) =~= prefix);
        assert(r@.subrange(4, r@.len() as int) =~= payload@);
        assert(be_val(r@.subrange(0, 4)) == payload@.len());
    }
    r
}

/// Undo `frame`: the carried payload if `data` is exactly one well-formed
/// frame, and nothing otherwise.
pub fn deframe(data: &Vec<u8>) -> (r: Option<Vec<u8>>)
    ensures
        match r {
            Some(p) => frame_ok(data@, p@),
            None => forall|p: Seq<u8>| !frame_ok(data@, p),
        },
{
    if data.len() < 4 {
        return None;
    }
    let n: u64 = (data[0] as u64) * 0x100_0000 + (data[1] as u64) * 0x1_0000 + (data[2] as u64)
        * 0x100 + (data[3] as u64);
    proof {
        assert(be_val(data@.subrange(0, 4)) == n as int);
    }
    if n != (data.len() - 4) as u64 {
        return None;
    }
    let mut p: Vec<u8> = Vec::new();
    let mut k: usize = 4;
    while k < data.len()
        invariant
            4 <= k <= data@.len(),
            p@ == data@.subrange(4, k as int),
        decreases data@.len() - k,
    {
        p.push(data[k]);
        proof {
            assert(p@ =~= data@.subrange(4, k as int + 1));
        }
        k += 1;
    }
    proof {
        assert(p@ =~= data@.subrange(4, data@.len() as int));
    }
    Some(p)
}

/// A frame determines its payload: what the receiving side deframes is
/// exactly what the sending side framed. This is the round-trip at the heart
/// of the request/response exchange — the dispatcher reads exactly the
/// request that was sent, and the caller reads exactly the reply that the
/// remote handler returned.
pub proof fn lemma_frame_round_trip(data: Seq<u8>, sent: Seq<u8>, received: Seq<u8>)
    requires
        frame_ok(data, sent),
        frame_ok(data, received),
    ensures
        received == sent,
{
    assert(received =~= sent);
}

/// As `lemma_frame_round_trip`, for a response frame: one response body
/// determines one reply payload behind the status byte.
pub proof fn lemma_response_round_trip(data: Seq<u8>, reply: Seq<u8>, decoded: Seq<u8>)
    requires
        frame_ok(data, seq![0u8] + reply),
        frame_ok(data, seq![0u8] + decoded),
    ensures
        decoded == reply,
{
    lemma_frame_round_trip(data, seq![0u8] + reply, seq![0u8] + decoded);
    assert(reply =~= (seq![0u8] + reply).skip(1));
    assert(decoded =~= (seq![0u8] + decoded).skip(1));
}

/// Frame a successful response: a zero status byte, then the reply payload.
pub fn encode_response_ok(payload: &Vec<u8>) -> (r: Vec<u8>)
    requires
        payload@.len() <= 0xffff_fffe,
    ensures
        frame_ok(r@, seq![0u8] + payload@),
{
    let mut body: Vec<u8> = Vec::new();
    body.push(0u8);
    let mut k: usize = 0;
    while k < payload.len()
        invariant
            k <= payload@.len(),
            body@ == seq![0u8] + payload@.subrange(0, k as int),
        decreases payload@.len() - k,
    {
        body.push(payload[k]);
        proof {
            assert(body@ =~= seq![0u8] + payload@.subrange(0, k as int + 1));
        }
        k += 1;
    }
    proof {
        assert(body@ =~= seq![0u8] + payload@);
    }
    frame(&body)
}

/// Frame the error indication sent when the application handler failed: a
/// body of one nonzero status byte.
pub fn encode_response_err() -> (r: Vec<u8>)
    ensures
        frame_ok(r@, seq![1u8]),
{
    let mut body: Vec<u8> = Vec::new();
    body.push(1u8);
    proof {
        assert(body@ =~= seq![1u8]);
    }
    frame(&body)
}

/// Undo the response framing: the reply payload of a well-formed successful
/// response, the remote handler's failure as `HandlerError`, and anything
/// else as `MalformedFrame`.
pub fn decode_response(data: &Vec<u8>) -> (r: Result<Vec<u8>, NetworkError>)
    ensures
        match r {
            Ok(p) => frame_ok(data@, seq![0u8] + p@),
            Err(NetworkError::HandlerError) => frame_ok(data@, seq![1u8]),
            Err(NetworkError::MalformedFrame) => !frame_ok(data@, seq![1u8]) && forall|p: Seq<u8>|
                !frame_ok(data@, seq![0u8] + p),
            Err(_) => false,
        },
{
    match deframe(data) {
        None => Err(NetworkError::MalformedFrame),
        Some(body) => {
            if body.len() == 0 {
                proof {
                    lemma_no_other_body(data@, body@);
                }
                Err(NetworkError::MalformedFrame)
            } else if body[0] == 0 {
                let mut p: Vec<u8> = Vec::new();
                let mut k: usize = 1;
                while k < body.len()
                    invariant
                        1 <= k <= body@.len(),
                        p@ == body@.subrange(1, k as int),
                    decreases body@.len() - k,
                {
                    p.push(body[k]);
                    proof {
                        assert(p@ =~= body@.subrange(1, k as int + 1));
                    }
                    k += 1;
                }
                proof {
                    assert(seq![0u8] + p@ =~= body@);
                }
                Ok(p)
            } else if body[0] == 1 && body.len() == 1 {
                proof {
                    assert(body@ =~= seq![1u8]);
                }
                Err(NetworkError::HandlerError)
            } else {
                proof {
                    lemma_no_other_body(data@, body@);
                }
                Err(NetworkError::MalformedFrame)
            }
        },
    }
}

/// A frame whose body does not start with a zero byte carries no successful
/// response, and one whose body is not exactly a single one-byte carries no
/// failure indication.
proof fn lemma_no_other_body(data: Seq<u8>, body: Seq<u8>)
    requires
        frame_ok(data, body),
        body.len() == 0 || (body[0] != 0 && !(body.len() == 1 && body[0] == 1)),
    ensures
        !frame_ok(data, seq![1u8]),
        forall|p: Seq<u8>| !frame_ok(data, seq![0u8] + p),
{
    if frame_ok(data, seq![1u8]) {
        lemma_frame_round_trip(data, body, seq![1u8]);
    }
    assert forall|p: Seq<u8>| !frame_ok(data, seq![0u8] + p) by {
        if frame_ok(data, seq![0u8] + p) {
            lemma_frame_round_trip(data, body, seq![0u8] + p);
            assert(body[0] == 0u8);
        }
    }
}

} // verus!
