use vstd::prelude::*;

use crate::num::{parse_decimal_range, push_decimal, spec_dec, spec_parse_dec};
use crate::value::{values_view, RedisValue, SpecValue};

verus! {

/// Why a frame was rejected outright (as opposed to merely incomplete).
#[derive(PartialEq, Eq, Structural, Debug)]
pub enum RespError {
    /// The leading byte of a frame is not a recognized type prefix.
    InvalidIdentifier,
    /// A length word is not a signed decimal number.
    BadLengthWord,
    /// A bulk string declared a negative length other than the null marker.
    InvalidBulkLength,
    /// An array declared a negative length.
    InvalidArrayLength,
}

/// Start and one-past-end index of a token's payload in the owning buffer.
#[derive(PartialEq, Eq, Debug, Clone, Copy)]
pub struct Tok(pub usize, pub usize);

/// A parsed frame, with leaf payloads as index ranges into the owning buffer.
#[derive(PartialEq, Debug)]
pub enum RESPRaw {
    SimpleString(Tok),
    BulkString(Tok),
    Array(Vec<RESPRaw>),
    /// The null bulk string has no payload; the field is the position just
    /// after the frame.
    NullBulkString(usize),
}

/// A parsed frame together with the position just after it: the caller may
/// consume exactly that prefix of the buffer.
#[derive(PartialEq, Debug)]
pub struct RESPToken(pub RESPRaw, pub usize);

/// Model of a raw token, with mathematical integers for the index ranges.
pub enum SpecRaw {
    SimpleString(int, int),
    BulkString(int, int),
    Array(Seq<SpecRaw>),
    NullBulkString(int),
}

/// Model of a raw token tree.
pub open spec fn raw_view(t: RESPRaw) -> SpecRaw
    decreases t,
{
    match t {
        RESPRaw::SimpleString(r) => SpecRaw::SimpleString(r.0 as int, r.1 as int),
        RESPRaw::BulkString(r) => SpecRaw::BulkString(r.0 as int, r.1 as int),
        RESPRaw::Array(ts) => SpecRaw::Array(raws_view(ts@)),
        RESPRaw::NullBulkString(p) => SpecRaw::NullBulkString(p as int),
    }
}

/// Model of a sequence of raw tokens, element by element.
pub open spec fn raws_view(ts: Seq<RESPRaw>) -> Seq<SpecRaw>
    decreases ts,
{
    if ts.len() == 0 {
        Seq::empty()
    } else {
        seq![raw_view(ts[0])] + raws_view(ts.subrange(1, ts.len() as int))
    }
}

impl View for RESPRaw {
    type V = SpecRaw;

    open spec fn view(&self) -> SpecRaw {
        raw_view(*self)
    }
}

pub proof fn lemma_raws_view(ts: Seq<RESPRaw>)
    ensures
        raws_view(ts).len() == ts.len(),
        forall|i: int| 0 <= i < ts.len() ==> raws_view(ts)[i] == raw_view(ts[i]),
    decreases ts,
{
    if ts.len() > 0 {
        lemma_raws_view(ts.subrange(1, ts.len() as int));
    }
}

/// What one attempt at parsing a frame yields: a fatal error, too few bytes,
/// or a token together with the position just after the frame.
pub enum SpecParse {
    Malformed,
    Incomplete,
    Done(SpecRaw, int),
}

/// The same, for a run of consecutive frames.
pub enum SpecParseElems {
    Malformed,
    Incomplete,
    Done(Seq<SpecRaw>, int),
}

/// A CRLF pair sits at position `j`.
pub open spec fn crlf_at(bytes: Seq<u8>, j: int) -> bool {
    &&& 0 <= j
    &&& j + 2 <= bytes.len()
    &&& bytes[j] == 13
    &&& bytes[j + 1] == 10
}

/// Position of the first CRLF pair at or after `pos`, if any.
pub open spec fn spec_next_word(bytes: Seq<u8>, pos: int) -> Option<int>
    decreases bytes.len() - pos,
{
    if pos < 0 || pos + 2 > bytes.len() {
        Option::None
    } else if bytes[pos] == 13 && bytes[pos + 1] == 10 {
        Option::Some(pos)
    } else {
        spec_next_word(bytes, pos + 1)
    }
}

pub proof fn lemma_next_word_bounds(bytes: Seq<u8>, pos: int)
    requires
        pos >= 0,
    ensures
        (match spec_next_word(bytes, pos) {
            Option::Some(w) => pos <= w && crlf_at(bytes, w)
                && (forall|j: int| pos <= j < w ==> !crlf_at(bytes, j)),
            Option::None => forall|j: int| pos <= j ==> !crlf_at(bytes, j),
        }),
    decreases bytes.len() - pos,
{
    if pos < 0 || pos + 2 > bytes.len() {
    } else if bytes[pos] == 13 && bytes[pos + 1] == 10 {
    } else {
        lemma_next_word_bounds(bytes, pos + 1);
    }
}

/// Parsing a simple-string payload: everything up to the next CRLF.
pub open spec fn spec_parse_simple(bytes: Seq<u8>, pos: int) -> SpecParse {
    match spec_next_word(bytes, pos) {
        Option::None => SpecParse::Incomplete,
        Option::Some(w) => SpecParse::Done(SpecRaw::SimpleString(pos, w), w + 2),
    }
}

/// Parsing a bulk string: a signed decimal length word, then that many bytes
/// and a trailing CRLF; length -1 denotes the null bulk string.
pub open spec fn spec_parse_bulk(bytes: Seq<u8>, pos: int) -> SpecParse {
    match spec_next_word(bytes, pos) {
        Option::None => SpecParse::Incomplete,
        Option::Some(w) => match spec_parse_dec(bytes.subrange(pos, w)) {
            Option::None => SpecParse::Malformed,
            Option::Some(n) => if n == -1 {
                SpecParse::Done(SpecRaw::NullBulkString(w + 2), w + 2)
            } else if n >= 0 {
                if w + 2 + n + 2 <= bytes.len() {
                    SpecParse::Done(SpecRaw::BulkString(w + 2, w + 2 + n), w + 2 + n + 2)
                } else {
                    SpecParse::Incomplete
                }
            } else {
                SpecParse::Malformed
            },
        },
    }
}

/// Parsing one frame starting at `pos`.
pub open spec fn spec_tokenize(bytes: Seq<u8>, pos: int) -> SpecParse
    decreases bytes.len() - pos, 0int, 0int,
{
    if pos < 0 || pos >= bytes.len() {
        SpecParse::Incomplete
    } else if bytes[pos] == 43 {
        spec_parse_simple(bytes, pos + 1)
    } else if bytes[pos] == 36 {
        spec_parse_bulk(bytes, pos + 1)
    } else if bytes[pos] == 42 {
        spec_parse_array(bytes, pos + 1)
    } else {
        SpecParse::Malformed
    }
}

/// Parsing an array: a signed decimal length word, then that many frames.
pub open spec fn spec_parse_array(bytes: Seq<u8>, pos: int) -> SpecParse
    decreases bytes.len() - pos, 2int, 0int,
{
    match spec_next_word(bytes, pos) {
        Option::None => SpecParse::Incomplete,
        Option::Some(w) => match spec_parse_dec(bytes.subrange(pos, w)) {
            Option::None => SpecParse::Malformed,
            Option::Some(n) => if n < 0 {
                SpecParse::Malformed
            } else if pos <= w && w + 2 <= bytes.len() {
                match spec_tokenize_elems(bytes, w + 2, n) {
                    SpecParseElems::Malformed => SpecParse::Malformed,
                    SpecParseElems::Incomplete => SpecParse::Incomplete,
                    SpecParseElems::Done(ts, end) => SpecParse::Done(SpecRaw::Array(ts), end),
                }
            } else {
                // unreachable: a found CRLF always lies ahead of `pos` and
                // inside the buffer
                SpecParse::Malformed
            },
        },
    }
}

/// Parsing `n` consecutive frames starting at `pos`.
pub open spec fn spec_tokenize_elems(bytes: Seq<u8>, pos: int, n: int) -> SpecParseElems
    decreases bytes.len() - pos, 1int, n,
{
    if n <= 0 {
        SpecParseElems::Done(Seq::empty(), pos)
    } else if pos >= bytes.len() {
        SpecParseElems::Incomplete
    } else {
        match spec_tokenize(bytes, pos) {
            SpecParse::Malformed => SpecParseElems::Malformed,
            SpecParse::Incomplete => SpecParseElems::Incomplete,
            SpecParse::Done(t, next) => if pos < next && next <= bytes.len() {
                match spec_tokenize_elems(bytes, next, n - 1) {
                    SpecParseElems::Malformed => SpecParseElems::Malformed,
                    SpecParseElems::Incomplete => SpecParseElems::Incomplete,
                    SpecParseElems::Done(ts, end) => SpecParseElems::Done(seq![t] + ts, end),
                }
            } else {
                // unreachable: a parsed frame always consumes at least one byte
                SpecParseElems::Malformed
            },
        }
    }
}

/// Frame terminator, as a byte sequence.
pub open spec fn crlf() -> Seq<u8> {
    seq![13u8, 10u8]
}

/// Wire bytes of a value: the RESP encoding.
pub open spec fn spec_ser(v: SpecValue) -> Seq<u8>
    decreases v,
{
    match v {
        SpecValue::SimpleString(s) => seq![43u8] + s + crlf(),
        SpecValue::SimpleError(e) => seq![45u8] + e + crlf(),
        SpecValue::BulkString(b) => seq![36u8] + spec_dec(b.len()) + crlf() + b + crlf(),
        SpecValue::NullBulkString => seq![36u8, 45u8, 49u8, 13u8, 10u8],
        SpecValue::Array(xs) => seq![42u8] + spec_dec(xs.len()) + crlf() + spec_ser_elems(xs),
    }
}

/// Concatenated encodings of the elements of an array.
pub open spec fn spec_ser_elems(xs: Seq<SpecValue>) -> Seq<u8>
    decreases xs,
{
    if xs.len() == 0 {
        Seq::empty()
    } else {
        spec_ser(xs[0]) + spec_ser_elems(xs.subrange(1, xs.len() as int))
    }
}

pub proof fn lemma_ser_elems_push(xs: Seq<SpecValue>, x: SpecValue)
    ensures
        spec_ser_elems(xs.push(x)) == spec_ser_elems(xs) + spec_ser(x),
    decreases xs,
{
    let w = xs.push(x);
    if xs.len() == 0 {
        assert(w.subrange(1, w.len() as int) =~= Seq::<SpecValue>::empty());
        assert(w[0] == x);
        assert(spec_ser_elems(Seq::<SpecValue>::empty()) == Seq::<u8>::empty());
        assert(spec_ser_elems(w) == spec_ser(x) + Seq::<u8>::empty());
        assert(spec_ser_elems(w) =~= spec_ser_elems(xs) + spec_ser(x));
    } else {
        assert(w.subrange(1, w.len() as int) =~= xs.subrange(1, xs.len() as int).push(x));
        lemma_ser_elems_push(xs.subrange(1, xs.len() as int), x);
        assert(spec_ser_elems(w) =~= spec_ser_elems(xs) + spec_ser(x));
    }
}

/// Every index range in the token lies within `[0, hi]`, with ordered ends.
pub open spec fn token_in(t: SpecRaw, hi: int) -> bool
    decreases t,
{
    match t {
        SpecRaw::SimpleString(a, b) => 0 <= a <= b <= hi,
        SpecRaw::BulkString(a, b) => 0 <= a <= b <= hi,
        SpecRaw::NullBulkString(p) => 0 <= p <= hi,
        SpecRaw::Array(ts) => tokens_in(ts, hi),
    }
}

pub open spec fn tokens_in(ts: Seq<SpecRaw>, hi: int) -> bool
    decreases ts,
{
    if ts.len() == 0 {
        true
    } else {
        token_in(ts[0], hi) && tokens_in(ts.subrange(1, ts.len() as int), hi)
    }
}

pub proof fn lemma_token_in_widen(t: SpecRaw, hi: int, hi2: int)
    requires
        token_in(t, hi),
        hi <= hi2,
    ensures
        token_in(t, hi2),
    decreases t,
{
    match t {
        SpecRaw::Array(ts) => {
            lemma_tokens_in_widen(ts, hi, hi2);
        },
        _ => {},
    }
}

pub proof fn lemma_tokens_in_widen(ts: Seq<SpecRaw>, hi: int, hi2: int)
    requires
        tokens_in(ts, hi),
        hi <= hi2,
    ensures
        tokens_in(ts, hi2),
    decreases ts,
{
    if ts.len() > 0 {
        lemma_token_in_widen(ts[0], hi, hi2);
        lemma_tokens_in_widen(ts.subrange(1, ts.len() as int), hi, hi2);
    }
}

/// A parsed frame consumes at least one byte, ends inside the buffer, and its
/// token's index ranges lie inside the consumed region.
pub proof fn lemma_tokenize_bounds(bytes: Seq<u8>, pos: int)
    requires
        pos >= 0,
    ensures
        (spec_tokenize(bytes, pos) matches SpecParse::Done(t, next)
            ==> pos < next <= bytes.len() && token_in(t, next)),
    decreases bytes.len() - pos, 0int, 0int,
{
    if 0 <= pos < bytes.len() {
        if bytes[pos] == 43 {
            lemma_next_word_bounds(bytes, pos + 1);
        } else if bytes[pos] == 36 {
            lemma_next_word_bounds(bytes, pos + 1);
        } else if bytes[pos] == 42 {
            lemma_next_word_bounds(bytes, pos + 1);
            match spec_next_word(bytes, pos + 1) {
                Option::Some(w) => {
                    match spec_parse_dec(bytes.subrange(pos + 1, w)) {
                        Option::Some(n) => {
                            if n >= 0 && pos < w + 2 && w + 2 <= bytes.len() {
                                lemma_tokenize_elems_bounds(bytes, w + 2, n);
                            }
                        },
                        Option::None => {},
                    }
                },
                Option::None => {},
            }
        }
    }
}

pub proof fn lemma_tokenize_elems_bounds(bytes: Seq<u8>, pos: int, n: int)
    requires
        pos >= 0,
    ensures
        (spec_tokenize_elems(bytes, pos, n) matches SpecParseElems::Done(ts, end)
            ==> (n <= 0 || (pos < end <= bytes.len() && tokens_in(ts, end)))),
        (n <= 0 ==> spec_tokenize_elems(bytes, pos, n)
            == SpecParseElems::Done(Seq::<SpecRaw>::empty(), pos)),
    decreases bytes.len() - pos, 1int, n,
{
    if n <= 0 {
    } else if pos >= bytes.len() {
    } else {
        lemma_tokenize_bounds(bytes, pos);
        match spec_tokenize(bytes, pos) {
            SpecParse::Done(t, next) => {
                if pos < next && next <= bytes.len() {
                    lemma_tokenize_elems_bounds(bytes, next, n - 1);
                    match spec_tokenize_elems(bytes, next, n - 1) {
                        SpecParseElems::Done(ts, end) => {
                            if n - 1 <= 0 {
                                assert(ts =~= Seq::<SpecRaw>::empty());
                                assert(tokens_in(ts, end));
                            }
                            lemma_token_in_widen(t, next, end);
                            assert((seq![t] + ts).subrange(1, (seq![t] + ts).len() as int)
                                =~= ts);
                            assert(tokens_in(seq![t] + ts, end));
                        },
                        _ => {},
                    }
                }
            },
            _ => {},
        }
    }
}

impl Tok {
    pub fn new(from: usize, to: usize) -> (t: Tok)
        ensures
            t == Tok(from, to),
    {
        Tok(from, to)
    }

    /// The token's bytes, borrowed from the owning buffer.
    pub fn as_slice<'a>(&self, buf: &'a Vec<u8>) -> (r: &'a [u8])
        requires
            self.0 <= self.1 <= buf@.len(),
        ensures
            r@ == buf@.subrange(self.0 as int, self.1 as int),
    {
        vstd::slice::slice_subrange(buf.as_slice(), self.0, self.1)
    }

    /// The token's bytes, copied out of the owning buffer.
    pub fn as_bytes(&self, buf: &Vec<u8>) -> (r: Vec<u8>)
        requires
            self.0 <= self.1 <= buf@.len(),
        ensures
            r@ == buf@.subrange(self.0 as int, self.1 as int),
    {
        copy_range(buf, self.0, self.1)
    }
}

/// Copies `buf[from..to]` into a fresh vector.
#[verifier::loop_isolation(false)]
pub fn copy_range(buf: &Vec<u8>, from: usize, to: usize) -> (r: Vec<u8>)
    requires
        from <= to <= buf@.len(),
    ensures
        r@ == buf@.subrange(from as int, to as int),
{
    let mut out: Vec<u8> = Vec::new();
    let mut i: usize = from;
    while i < to
        invariant
            from <= i <= to,
            out@ == buf@.subrange(from as int, i as int),
        decreases to - i,
    {
        out.push(buf[i]);
        assert(out@ =~= buf@.subrange(from as int, i + 1));
        i += 1;
    }
    assert(out@ =~= buf@.subrange(from as int, to as int));
    out
}

/// Finds the next CRLF-terminated word: the word's index range (CRLF excluded)
/// and the position just after the CRLF.
#[verifier::loop_isolation(false)]
pub fn get_next_word(buf: &Vec<u8>, pos: usize) -> (r: Option<(Tok, usize)>)
    ensures
        (match spec_next_word(buf@, pos as int) {
            Option::Some(w) => r matches Option::Some(p) && p.0 == Tok(pos, p.0.1)
                && p.0.1 as int == w && p.1 == w + 2,
            Option::None => r is None,
        }),
{
    let mut i: usize = pos;
    while i < buf.len() && i + 1 < buf.len()
        invariant
            pos <= i,
            spec_next_word(buf@, pos as int) == spec_next_word(buf@, i as int),
        decreases buf.len() - i,
    {
        if buf[i] == 13 && buf[i + 1] == 10 {
            return Option::Some((Tok::new(pos, i), i + 2));
        }
        i += 1;
    }
    Option::None
}

/// Parses a simple-string frame; `pos` points just after the `+` prefix.
fn parse_basic_string(buf: &Vec<u8>, pos: usize) -> (r: Result<Option<RESPToken>, RespError>)
    ensures
        (match r {
            Result::Ok(o) => match o {
                Option::Some(t) => spec_parse_simple(buf@, pos as int)
                    == SpecParse::Done(t.0@, t.1 as int),
                Option::None => spec_parse_simple(buf@, pos as int) is Incomplete,
            },
            Result::Err(_) => spec_parse_simple(buf@, pos as int) is Malformed,
        }),
{
    match get_next_word(buf, pos) {
        Option::Some((tok, next)) => Result::Ok(Option::Some(RESPToken(
            RESPRaw::SimpleString(tok),
            next,
        ))),
        Option::None => Result::Ok(Option::None),
    }
}

/// Parses a bulk-string frame; `pos` points just after the `$` prefix.
fn parse_bulk_string(buf: &Vec<u8>, pos: usize) -> (r: Result<Option<RESPToken>, RespError>)
    ensures
        (match r {
            Result::Ok(o) => match o {
                Option::Some(t) => spec_parse_bulk(buf@, pos as int)
                    == SpecParse::Done(t.0@, t.1 as int),
                Option::None => spec_parse_bulk(buf@, pos as int) is Incomplete,
            },
            Result::Err(_) => spec_parse_bulk(buf@, pos as int) is Malformed,
        }),
{
    match get_next_word(buf, pos) {
        Option::Some((tok, next)) => {
            proof {
                lemma_next_word_bounds(buf@, pos as int);
            }
            match parse_decimal_range(buf, tok.0, tok.1) {
                Option::None => Result::Err(RespError::BadLengthWord),
                Option::Some(n) => {
                    proof {
                        crate::num::lemma_parse_dec_bound(
                            buf@.subrange(tok.0 as int, tok.1 as int),
                        );
                    }
                    if n == -1 {
                        Result::Ok(Option::Some(RESPToken(RESPRaw::NullBulkString(next), next)))
                    } else if n >= 0 {
                        let len = n as usize;
                        let avail = buf.len() - next;
                        if len <= avail && avail - len >= 2 {
                            Result::Ok(Option::Some(RESPToken(
                                RESPRaw::BulkString(Tok::new(next, next + len)),
                                next + len + 2,
                            )))
                        } else {
                            Result::Ok(Option::None)
                        }
                    } else {
                        Result::Err(RespError::InvalidBulkLength)
                    }
                },
            }
        },
        Option::None => Result::Ok(Option::None),
    }
}

/// Parses one frame starting at `pos`; returns the token and the position just
/// after the frame, or nothing if the buffer does not yet hold a whole frame.
pub fn tokenize(buf: &Vec<u8>, pos: usize) -> (r: Result<Option<RESPToken>, RespError>)
    ensures
        (match r {
            Result::Ok(o) => match o {
                Option::Some(t) => spec_tokenize(buf@, pos as int)
                    == SpecParse::Done(t.0@, t.1 as int),
                Option::None => spec_tokenize(buf@, pos as int) is Incomplete,
            },
            Result::Err(_) => spec_tokenize(buf@, pos as int) is Malformed,
        }),
    decreases buf@.len() - pos, 3int, 0int,
{
    if pos >= buf.len() {
        return Result::Ok(Option::None);
    }
    let b = buf[pos];
    if b == 43 {
        parse_basic_string(buf, pos + 1)
    } else if b == 36 {
        parse_bulk_string(buf, pos + 1)
    } else if b == 42 {
        parse_array(buf, pos + 1)
    } else {
        Result::Err(RespError::InvalidIdentifier)
    }
}

/// Parses an array frame; `pos` points just after the `*` prefix.
#[verifier::loop_isolation(false)]
fn parse_array(buf: &Vec<u8>, pos: usize) -> (r: Result<Option<RESPToken>, RespError>)
    ensures
        (match r {
            Result::Ok(o) => match o {
                Option::Some(t) => spec_parse_array(buf@, pos as int)
                    == SpecParse::Done(t.0@, t.1 as int),
                Option::None => spec_parse_array(buf@, pos as int) is Incomplete,
            },
            Result::Err(_) => spec_parse_array(buf@, pos as int) is Malformed,
        }),
    decreases buf@.len() - pos, 2int, 0int,
{
    let word = get_next_word(buf, pos);
    proof {
        lemma_next_word_bounds(buf@, pos as int);
    }
    match word {
        Option::None => Result::Ok(Option::None),
        Option::Some((tok, next)) => {
            match parse_decimal_range(buf, tok.0, tok.1) {
                Option::None => Result::Err(RespError::BadLengthWord),
                Option::Some(n_signed) => {
                    if n_signed < 0 {
                        return Result::Err(RespError::InvalidArrayLength);
                    }
                    let n = n_signed as u64;
                    let ghost n_int = n as int;
                    let mut elems: Vec<RESPRaw> = Vec::new();
                    let mut cur: usize = next;
                    let mut k: u64 = 0;
                    while k < n
                        invariant
                            k <= n,
                            pos < cur <= buf@.len(),
                            raws_view(elems@).len() == k,
                            spec_tokenize_elems(buf@, next as int, n_int)
                                == (match spec_tokenize_elems(buf@, cur as int, n_int - k) {
                                    SpecParseElems::Malformed => SpecParseElems::Malformed,
                                    SpecParseElems::Incomplete => SpecParseElems::Incomplete,
                                    SpecParseElems::Done(ts, end) => SpecParseElems::Done(
                                        raws_view(elems@) + ts,
                                        end,
                                    ),
                                }),
                        decreases n - k,
                    {
                        match tokenize(buf, cur) {
                            Result::Err(e) => {
                                return Result::Err(e);
                            },
                            Result::Ok(Option::None) => {
                                return Result::Ok(Option::None);
                            },
                            Result::Ok(Option::Some(t)) => {
                                proof {
                                    lemma_tokenize_bounds(buf@, cur as int);
                                }
                                let RESPToken(raw, tnext) = t;
                                proof {
                                    let ghost rv = raws_view(elems@);
                                    lemma_raws_view(elems@.push(raw));
                                    lemma_raws_view(elems@);
                                    assert(raws_view(elems@.push(raw))
                                        =~= rv.push(raw_view(raw)));
                                    let rest = spec_tokenize_elems(buf@, tnext as int,
                                        n_int - k - 1);
                                    match rest {
                                        SpecParseElems::Done(ts, end) => {
                                            assert(rv.push(raw@) + ts =~= rv + (seq![raw@] + ts));
                                        },
                                        _ => {},
                                    }
                                }
                                elems.push(raw);
                                cur = tnext;
                                k = k + 1;
                            },
                        }
                    }
                    proof {
                        assert(spec_tokenize_elems(buf@, cur as int, 0)
                            == SpecParseElems::Done(Seq::<SpecRaw>::empty(), cur as int));
                        assert(raws_view(elems@) + Seq::<SpecRaw>::empty() =~= raws_view(elems@));
                    }
                    Result::Ok(Option::Some(RESPToken(RESPRaw::Array(elems), cur)))
                },
            }
        },
    }
}

/// Appends a copy of `src` to `out`.
#[verifier::loop_isolation(false)]
pub fn push_all(out: &mut Vec<u8>, src: &Vec<u8>)
    ensures
        final(out)@ == old(out)@ + src@,
{
    let mut i: usize = 0;
    while i < src.len()
        invariant
            i <= src.len(),
            out@ == old(out)@ + src@.subrange(0, i as int),
        decreases src.len() - i,
    {
        out.push(src[i]);
        assert(out@ =~= old(out)@ + src@.subrange(0, i + 1));
        i += 1;
    }
    assert(out@ =~= old(out)@ + src@);
}

/// Appends the encoding of `v` to `out`.
#[verifier::loop_isolation(false)]
fn ser_into(v: &RedisValue, out: &mut Vec<u8>)
    ensures
        final(out)@ == old(out)@ + spec_ser(v@),
    decreases *v,
{
    match v {
        RedisValue::SimpleString(s) => {
            out.push(43);
            push_all(out, s);
            out.push(13);
            out.push(10);
            assert(out@ =~= old(out)@ + spec_ser(v@));
        },
        RedisValue::SimpleError(e) => {
            out.push(45);
            push_all(out, e);
            out.push(13);
            out.push(10);
            assert(out@ =~= old(out)@ + spec_ser(v@));
        },
        RedisValue::BulkString(b) => {
            out.push(36);
            push_decimal(out, b.len() as u64);
            out.push(13);
            out.push(10);
            push_all(out, b);
            out.push(13);
            out.push(10);
            assert(out@ =~= old(out)@ + spec_ser(v@));
        },
        RedisValue::NullBulkString => {
            out.push(36);
            out.push(45);
            out.push(49);
            out.push(13);
            out.push(10);
            assert(out@ =~= old(out)@ + spec_ser(v@));
        },
        RedisValue::Array(vs) => {
            out.push(42);
            push_decimal(out, vs.len() as u64);
            out.push(13);
            out.push(10);
            let ghost pre = out@;
            let mut i: usize = 0;
            while i < vs.len()
                invariant
                    i <= vs.len(),
                    out@ == pre + spec_ser_elems(values_view(vs@).subrange(0, i as int)),
                decreases vs.len() - i,
            {
                ser_into(&vs[i], out);
                proof {
                    crate::value::lemma_values_view(vs@);
                    let vv = values_view(vs@);
                    assert(vv.subrange(0, i + 1) =~= vv.subrange(0, i as int).push(vv[i as int]));
                    lemma_ser_elems_push(vv.subrange(0, i as int), vv[i as int]);
                }
                i += 1;
            }
            proof {
                crate::value::lemma_values_view(vs@);
                let vv = values_view(vs@);
                assert(vv.subrange(0, vv.len() as int) =~= vv);
                assert(out@ =~= old(out)@ + spec_ser(v@));
            }
        },
    }
}

pub proof fn lemma_tokens_in_index(rs: Seq<SpecRaw>, hi: int, i: int)
    requires
        tokens_in(rs, hi),
        0 <= i < rs.len(),
    ensures
        token_in(rs[i], hi),
    decreases rs,
{
    if i > 0 {
        lemma_tokens_in_index(rs.subrange(1, rs.len() as int), hi, i - 1);
    }
}

pub proof fn lemma_mat_elems_push(ts: Seq<SpecRaw>, x: SpecRaw, bytes: Seq<u8>)
    ensures
        spec_mat_elems(ts.push(x), bytes) == spec_mat_elems(ts, bytes).push(spec_mat(x, bytes)),
    decreases ts,
{
    let w = ts.push(x);
    if ts.len() == 0 {
        assert(w.subrange(1, w.len() as int) =~= Seq::<SpecRaw>::empty());
        assert(w[0] == x);
        assert(spec_mat_elems(Seq::<SpecRaw>::empty(), bytes) == Seq::<SpecValue>::empty());
        assert(spec_mat_elems(w, bytes) == seq![spec_mat(x, bytes)] + Seq::<SpecValue>::empty());
        assert(spec_mat_elems(w, bytes) =~= spec_mat_elems(ts, bytes).push(spec_mat(x, bytes)));
    } else {
        assert(w.subrange(1, w.len() as int) =~= ts.subrange(1, ts.len() as int).push(x));
        lemma_mat_elems_push(ts.subrange(1, ts.len() as int), x, bytes);
        assert(spec_mat_elems(w, bytes) =~= spec_mat_elems(ts, bytes).push(spec_mat(x, bytes)));
    }
}

/// The value a token denotes, reading leaf payloads out of the buffer.
pub open spec fn spec_mat(t: SpecRaw, bytes: Seq<u8>) -> SpecValue
    decreases t,
{
    match t {
        SpecRaw::SimpleString(a, b) => SpecValue::SimpleString(bytes.subrange(a, b)),
        SpecRaw::BulkString(a, b) => SpecValue::BulkString(bytes.subrange(a, b)),
        SpecRaw::NullBulkString(_) => SpecValue::NullBulkString,
        SpecRaw::Array(ts) => SpecValue::Array(spec_mat_elems(ts, bytes)),
    }
}

pub open spec fn spec_mat_elems(ts: Seq<SpecRaw>, bytes: Seq<u8>) -> Seq<SpecValue>
    decreases ts,
{
    if ts.len() == 0 {
        Seq::empty()
    } else {
        seq![spec_mat(ts[0], bytes)] + spec_mat_elems(ts.subrange(1, ts.len() as int), bytes)
    }
}

impl RedisValue {
    /// Builds the owned value a token denotes, copying leaf payloads out of
    /// the buffer the token indexes into.
    #[verifier::loop_isolation(false)]
    pub fn from_token(t: &RESPRaw, buf: &Vec<u8>) -> (v: RedisValue)
        requires
            token_in(t@, buf@.len() as int),
        ensures
            v@ == spec_mat(t@, buf@),
        decreases *t,
    {
        match t {
            RESPRaw::SimpleString(r) => RedisValue::SimpleString(copy_range(buf, r.0, r.1)),
            RESPRaw::BulkString(r) => RedisValue::BulkString(copy_range(buf, r.0, r.1)),
            RESPRaw::NullBulkString(_) => RedisValue::NullBulkString,
            RESPRaw::Array(ts) => {
                let mut out: Vec<RedisValue> = Vec::new();
                let mut i: usize = 0;
                proof {
                    lemma_raws_view(ts@);
                }
                while i < ts.len()
                    invariant
                        i <= ts@.len(),
                        values_view(out@) == spec_mat_elems(raws_view(ts@).subrange(0, i as int),
                            buf@),
                    decreases ts@.len() - i,
                {
                    proof {
                        lemma_tokens_in_index(raws_view(ts@), buf@.len() as int, i as int);
                    }
                    let child = RedisValue::from_token(&ts[i], buf);
                    proof {
                        let rv = raws_view(ts@);
                        crate::value::lemma_values_view(out@.push(child));
                        crate::value::lemma_values_view(out@);
                        assert(values_view(out@.push(child)) =~= values_view(out@).push(child@));
                        lemma_mat_elems_push(rv.subrange(0, i as int), rv[i as int], buf@);
                        assert(rv.subrange(0, i + 1)
                            =~= rv.subrange(0, i as int).push(rv[i as int]));
                    }
                    out.push(child);
                    i += 1;
                }
                proof {
                    let rv = raws_view(ts@);
                    assert(rv.subrange(0, rv.len() as int) =~= rv);
                }
                RedisValue::Array(out)
            },
        }
    }

    /// Encodes the value into RESP wire bytes.
    pub fn serialize(&self) -> (r: Vec<u8>)
        ensures
            r@ == spec_ser(self@),
    {
        let mut out: Vec<u8> = Vec::new();
        ser_into(self, &mut out);
        out
    }
}

} // verus!
