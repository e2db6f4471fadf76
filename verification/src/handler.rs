use vstd::prelude::*;

use crate::num::{parse_decimal_range, push_decimal, spec_dec, spec_parse_dec};
use crate::serde::{
    crlf, lemma_next_word_bounds, lemma_token_in_widen, lemma_tokenize_bounds, spec_mat,
    spec_next_word, spec_tokenize, tokenize, RespError, SpecParse,
};
use crate::value::RedisValue;

verus! {

/// Parses one complete frame from the front of a connection buffer.
///
/// On success the returned position is where the frame ends: the caller owns
/// those bytes and should drop them from the buffer before the next read.
/// `None` means the buffer does not yet hold a whole frame; the caller should
/// read more bytes and retry. An error is fatal to the connection.
pub fn parse_frame(buf: &Vec<u8>) -> (r: Result<Option<(RedisValue, usize)>, RespError>)
    ensures
        (r matches Result::Ok(Option::Some(p))
            ==> spec_tokenize(buf@, 0) matches SpecParse::Done(t, end)
                && end == p.1 as int && p.0@ == spec_mat(t, buf@) && 0 < p.1 <= buf@.len()),
        (r matches Result::Ok(Option::None) ==> spec_tokenize(buf@, 0) is Incomplete),
        (r is Err ==> spec_tokenize(buf@, 0) is Malformed),
{
    match tokenize(buf, 0) {
        Result::Err(e) => Result::Err(e),
        Result::Ok(Option::None) => Result::Ok(Option::None),
        Result::Ok(Option::Some(t)) => {
            proof {
                lemma_tokenize_bounds(buf@, 0);
                lemma_token_in_widen(t.0@, t.1 as int, buf@.len() as int);
            }
            let v = RedisValue::from_token(&t.0, buf);
            Result::Ok(Option::Some((v, t.1)))
        },
    }
}

/// What extracting a full-resync payload from a buffer yields.
///
/// The buffer must begin with `$<n>\r\n` followed by exactly `n` more bytes
/// (no trailing CRLF); the payload handed on is the first `n - 1` of them,
/// matching the observed framing of the snapshot transfer.
pub open spec fn spec_rdb_payload(bytes: Seq<u8>) -> Option<Seq<u8>> {
    if bytes.len() == 0 || bytes[0] != 36 {
        Option::None
    } else {
        match spec_next_word(bytes, 1) {
            Option::None => Option::None,
            Option::Some(w) => match spec_parse_dec(bytes.subrange(1, w)) {
                Option::None => Option::None,
                Option::Some(n) => if n > 0 && bytes.len() - (w + 2) == n {
                    Option::Some(bytes.subrange(w + 2, w + 2 + n - 1))
                } else {
                    Option::None
                },
            },
        }
    }
}

/// Extracts the raw snapshot payload that follows a full-resync reply.
pub fn parse_rdb_payload(buf: &Vec<u8>) -> (r: Option<Vec<u8>>)
    ensures
        (match spec_rdb_payload(buf@) {
            Option::Some(payload) => r matches Option::Some(v) && v@ == payload,
            Option::None => r is None,
        }),
{
    if buf.len() == 0 {
        return Option::None;
    }
    if buf[0] != 36 {
        return Option::None;
    }
    match crate::serde::get_next_word(buf, 1) {
        Option::None => Option::None,
        Option::Some((tok, next)) => {
            proof {
                lemma_next_word_bounds(buf@, 1);
            }
            match parse_decimal_range(buf, tok.0, tok.1) {
                Option::None => Option::None,
                Option::Some(n) => {
                    if n <= 0 {
                        return Option::None;
                    }
                    let size = n as usize;
                    proof {
                        crate::num::lemma_parse_dec_bound(
                            buf@.subrange(tok.0 as int, tok.1 as int),
                        );
                    }
                    if buf.len() - next == size {
                        Option::Some(crate::serde::copy_range(buf, next, next + size - 1))
                    } else {
                        Option::None
                    }
                },
            }
        },
    }
}

/// The raw length prefix `$<len>\r\n` that frames a snapshot payload on the
/// wire after a full-resync reply.
pub fn rdb_frame_prefix(len: usize) -> (r: Vec<u8>)
    ensures
        r@ == seq![36u8] + spec_dec(len as nat) + crlf(),
{
    let mut out: Vec<u8> = Vec::new();
    out.push(36);
    push_decimal(&mut out, len as u64);
    out.push(13);
    out.push(10);
    assert(out@ =~= seq![36u8] + spec_dec(len as nat) + crlf());
    out
}

} // verus!
