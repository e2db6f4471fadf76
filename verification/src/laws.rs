use vstd::prelude::*;

use crate::num::{
    all_digits, dec_val, is_digit, lemma_dec_val_spec_dec, lemma_spec_dec_digits, spec_dec,
    spec_len_max, spec_parse_dec,
};
use crate::serde::{
    crlf, spec_mat, spec_mat_elems, spec_next_word, spec_parse_array, spec_parse_bulk,
    spec_parse_simple, spec_ser, spec_ser_elems, spec_tokenize, spec_tokenize_elems, SpecParse,
    SpecParseElems, SpecRaw,
};
use crate::value::SpecValue;

verus! {

/// No CRLF pair occurs anywhere in `s`.
pub open spec fn no_crlf(s: Seq<u8>) -> bool {
    forall|j: int| 0 <= j && j + 2 <= s.len() ==> !(#[trigger] s[j] == 13 && s[j + 1] == 10)
}

/// A value the wire grammar can carry faithfully: simple strings carry no
/// frame terminator, declared lengths fit the parser's signed 32-bit reading,
/// and errors never appear inside a request.
pub open spec fn wf_frame(v: SpecValue) -> bool
    decreases v,
{
    match v {
        SpecValue::SimpleString(s) => no_crlf(s),
        SpecValue::BulkString(b) => b.len() <= spec_len_max(),
        SpecValue::NullBulkString => true,
        SpecValue::SimpleError(_) => false,
        SpecValue::Array(xs) => xs.len() <= spec_len_max() && wf_elems(xs),
    }
}

pub open spec fn wf_elems(xs: Seq<SpecValue>) -> bool
    decreases xs,
{
    if xs.len() == 0 {
        true
    } else {
        wf_frame(xs[0]) && wf_elems(xs.subrange(1, xs.len() as int))
    }
}

/// `s` occurs in `bytes` starting at `pos`.
pub open spec fn bytes_at(bytes: Seq<u8>, pos: int, s: Seq<u8>) -> bool {
    &&& 0 <= pos
    &&& pos + s.len() <= bytes.len()
    &&& bytes.subrange(pos, pos + s.len()) == s
}

proof fn lemma_bytes_at_index(bytes: Seq<u8>, pos: int, s: Seq<u8>, i: int)
    requires
        bytes_at(bytes, pos, s),
        0 <= i < s.len(),
    ensures
        bytes[pos + i] == s[i],
{
    assert(bytes.subrange(pos, pos + s.len())[i] == s[i]);
}

proof fn lemma_bytes_at_split(bytes: Seq<u8>, pos: int, a: Seq<u8>, b: Seq<u8>)
    requires
        bytes_at(bytes, pos, a + b),
    ensures
        bytes_at(bytes, pos, a),
        bytes_at(bytes, pos + a.len(), b),
{
    assert(bytes.subrange(pos, pos + a.len()) =~= a) by {
        assert forall|i: int| 0 <= i < a.len() implies bytes.subrange(pos, pos + a.len())[i]
            == a[i] by {
            lemma_bytes_at_index(bytes, pos, a + b, i);
            assert((a + b)[i] == a[i]);
        }
    }
    assert(bytes.subrange(pos + a.len(), pos + a.len() + b.len()) =~= b) by {
        assert forall|i: int| 0 <= i < b.len() implies bytes.subrange(
            pos + a.len(),
            pos + a.len() + b.len(),
        )[i] == b[i] by {
            lemma_bytes_at_index(bytes, pos, a + b, a.len() + i);
            assert((a + b)[a.len() + i] == b[i]);
        }
    }
}

proof fn lemma_digits_no_crlf(s: Seq<u8>)
    requires
        all_digits(s),
    ensures
        no_crlf(s),
{
    assert forall|j: int| 0 <= j && j + 2 <= s.len() implies !(#[trigger] s[j] == 13
        && s[j + 1] == 10) by {
        assert(is_digit(s[j]));
    }
}

/// Scanning a region whose content holds no CRLF finds nothing.
proof fn lemma_scan_none_at(bytes: Seq<u8>, pos: int)
    requires
        0 <= pos <= bytes.len(),
        no_crlf(bytes.subrange(pos, bytes.len() as int)),
    ensures
        spec_next_word(bytes, pos) is None,
    decreases bytes.len() - pos,
{
    let c = bytes.subrange(pos, bytes.len() as int);
    if pos + 2 > bytes.len() {
    } else {
        assert(bytes[pos] == c[0] && bytes[pos + 1] == c[1]);
        assert(!(c[0] == 13 && c[1] == 10));
        assert(bytes.subrange(pos + 1, bytes.len() as int) =~= c.subrange(1, c.len() as int));
        assert(no_crlf(c.subrange(1, c.len() as int))) by {
            let d = c.subrange(1, c.len() as int);
            assert forall|j: int| 0 <= j && j + 2 <= d.len() implies !(#[trigger] d[j] == 13
                && d[j + 1] == 10) by {
                assert(d[j] == c[j + 1] && d[j + 1] == c[j + 2]);
            }
        }
        lemma_scan_none_at(bytes, pos + 1);
    }
}

/// Scanning a region that begins with a CRLF-free word followed by CRLF finds
/// exactly the end of that word.
proof fn lemma_scan_found_at(bytes: Seq<u8>, pos: int, c: Seq<u8>)
    requires
        bytes_at(bytes, pos, c + crlf()),
        no_crlf(c),
    ensures
        spec_next_word(bytes, pos) == Option::Some(pos + c.len()),
        bytes.subrange(pos, pos + c.len()) == c,
    decreases c.len(),
{
    lemma_bytes_at_split(bytes, pos, c, crlf());
    lemma_bytes_at_index(bytes, pos + c.len(), crlf(), 0);
    lemma_bytes_at_index(bytes, pos + c.len(), crlf(), 1);
    if c.len() == 0 {
        assert(bytes[pos] == 13 && bytes[pos + 1] == 10);
    } else {
        lemma_bytes_at_index(bytes, pos, c, 0);
        if c.len() >= 2 {
            lemma_bytes_at_index(bytes, pos, c, 1);
            assert(!(c[0] == 13 && c[1] == 10));
        } else {
            assert(bytes[pos + 1] == 13);
        }
        let d = c.subrange(1, c.len() as int);
        assert(no_crlf(d)) by {
            assert forall|j: int| 0 <= j && j + 2 <= d.len() implies !(#[trigger] d[j] == 13
                && d[j + 1] == 10) by {
                assert(d[j] == c[j + 1] && d[j + 1] == c[j + 2]);
            }
        }
        assert(bytes_at(bytes, pos + 1, d + crlf())) by {
            assert(bytes.subrange(pos + 1, pos + 1 + d.len() + 2) =~= d + crlf()) by {
                assert forall|i: int| 0 <= i < d.len() + 2 implies bytes.subrange(
                    pos + 1,
                    pos + 1 + d.len() + 2,
                )[i] == (d + crlf())[i] by {
                    lemma_bytes_at_index(bytes, pos, c + crlf(), i + 1);
                    assert((c + crlf())[i + 1] == (d + crlf())[i]);
                }
            }
        }
        lemma_scan_found_at(bytes, pos + 1, d);
    }
}

/// A digit word parses to its value.
proof fn lemma_parse_dec_digits(d: Seq<u8>)
    requires
        all_digits(d),
        d.len() >= 1,
        dec_val(d) <= spec_len_max(),
    ensures
        spec_parse_dec(d) == Option::Some(dec_val(d)),
{
    assert(is_digit(d[0]));
}

/// Every encoding is at least three bytes long.
proof fn lemma_ser_min_len(v: SpecValue)
    ensures
        spec_ser(v).len() >= 3,
{
    match v {
        SpecValue::SimpleString(s) => {},
        SpecValue::SimpleError(e) => {},
        SpecValue::BulkString(b) => {
            lemma_spec_dec_digits(b.len());
        },
        SpecValue::NullBulkString => {},
        SpecValue::Array(xs) => {
            lemma_spec_dec_digits(xs.len());
            assert(spec_ser_elems(xs).len() >= 0);
        },
    }
}

/// Round trip, one frame: where the encoding of a well-formed value sits in a
/// buffer, tokenizing from its start consumes exactly the encoding and the
/// token denotes the value itself.
pub proof fn lemma_tokenize_serialize_at(bytes: Seq<u8>, pos: int, v: SpecValue)
    requires
        wf_frame(v),
        bytes_at(bytes, pos, spec_ser(v)),
    ensures
        spec_tokenize(bytes, pos) matches SpecParse::Done(t, end)
            && end == pos + spec_ser(v).len() && spec_mat(t, bytes) == v,
    decreases v,
{
    let ser = spec_ser(v);
    lemma_bytes_at_index(bytes, pos, ser, 0);
    match v {
        SpecValue::SimpleString(s) => {
            assert(ser =~= seq![43u8] + (s + crlf()));
            lemma_bytes_at_split(bytes, pos, seq![43u8], s + crlf());
            assert(bytes[pos] == 43);
            lemma_scan_found_at(bytes, pos + 1, s);
            assert(spec_parse_simple(bytes, pos + 1) == SpecParse::Done(
                SpecRaw::SimpleString(pos + 1, pos + 1 + s.len()),
                pos + 1 + s.len() + 2,
            ));
            assert(spec_mat(SpecRaw::SimpleString(pos + 1, pos + 1 + s.len()), bytes)
                == SpecValue::SimpleString(s));
        },
        SpecValue::BulkString(b) => {
            let d = spec_dec(b.len());
            lemma_spec_dec_digits(b.len());
            lemma_dec_val_spec_dec(b.len());
            lemma_digits_no_crlf(d);
            assert(ser =~= seq![36u8] + ((d + crlf()) + (b + crlf())));
            lemma_bytes_at_split(bytes, pos, seq![36u8], (d + crlf()) + (b + crlf()));
            lemma_bytes_at_split(bytes, pos + 1, d + crlf(), b + crlf());
            lemma_bytes_at_split(bytes, pos + 1 + d.len() + 2, b, crlf());
            assert(bytes[pos] == 36);
            lemma_scan_found_at(bytes, pos + 1, d);
            let w = pos + 1 + d.len();
            assert(spec_next_word(bytes, pos + 1) == Option::Some(w));
            lemma_parse_dec_digits(d);
            assert(spec_parse_dec(bytes.subrange(pos + 1, w)) == Option::Some(b.len() as int));
            assert(spec_parse_bulk(bytes, pos + 1) == SpecParse::Done(
                SpecRaw::BulkString(w + 2, w + 2 + b.len()),
                w + 2 + b.len() + 2,
            ));
            assert(bytes.subrange(w + 2, w + 2 + b.len()) == b);
            assert(spec_mat(SpecRaw::BulkString(w + 2, w + 2 + b.len()), bytes)
                == SpecValue::BulkString(b));
        },
        SpecValue::NullBulkString => {
            assert(ser =~= seq![36u8] + (seq![45u8, 49u8] + crlf()));
            lemma_bytes_at_split(bytes, pos, seq![36u8], seq![45u8, 49u8] + crlf());
            assert(bytes[pos] == 36);
            let m = seq![45u8, 49u8];
            assert(no_crlf(m));
            lemma_scan_found_at(bytes, pos + 1, m);
            let w = pos + 3;
            assert(spec_next_word(bytes, pos + 1) == Option::Some(w));
            let word = bytes.subrange(pos + 1, w);
            assert(word == m);
            assert(word[0] == 45);
            let dd = word.subrange(1, word.len() as int);
            assert(dd =~= seq![49u8]);
            assert(all_digits(dd));
            assert(dd.subrange(0, 0) =~= Seq::<u8>::empty());
            assert(dec_val(Seq::<u8>::empty()) == 0);
            assert(dec_val(dd) == 1);
            assert(spec_parse_dec(word) == Option::Some(-1));
            assert(spec_parse_bulk(bytes, pos + 1) == SpecParse::Done(
                SpecRaw::NullBulkString(w + 2),
                w + 2,
            ));
        },
        SpecValue::SimpleError(_) => {
            assert(false);
        },
        SpecValue::Array(xs) => {
            let d = spec_dec(xs.len());
            lemma_spec_dec_digits(xs.len());
            lemma_dec_val_spec_dec(xs.len());
            lemma_digits_no_crlf(d);
            assert(ser =~= seq![42u8] + ((d + crlf()) + spec_ser_elems(xs)));
            lemma_bytes_at_split(bytes, pos, seq![42u8], (d + crlf()) + spec_ser_elems(xs));
            lemma_bytes_at_split(bytes, pos + 1, d + crlf(), spec_ser_elems(xs));
            assert(bytes[pos] == 42);
            lemma_scan_found_at(bytes, pos + 1, d);
            let w = pos + 1 + d.len();
            assert(spec_next_word(bytes, pos + 1) == Option::Some(w));
            lemma_parse_dec_digits(d);
            assert(spec_parse_dec(bytes.subrange(pos + 1, w)) == Option::Some(xs.len() as int));
            lemma_tokenize_serialize_elems(bytes, w + 2, xs);
            assert(spec_parse_array(bytes, pos + 1) matches SpecParse::Done(t, end)
                && end == pos + ser.len() && spec_mat(t, bytes) == v);
        },
    }
}

/// Round trip, a run of frames: where the concatenated encodings of
/// well-formed values sit in a buffer, parsing that many frames consumes
/// exactly the concatenation and the tokens denote the values themselves.
pub proof fn lemma_tokenize_serialize_elems(bytes: Seq<u8>, pos: int, xs: Seq<SpecValue>)
    requires
        wf_elems(xs),
        bytes_at(bytes, pos, spec_ser_elems(xs)),
    ensures
        spec_tokenize_elems(bytes, pos, xs.len() as int) matches SpecParseElems::Done(ts, end)
            && end == pos + spec_ser_elems(xs).len() && spec_mat_elems(ts, bytes) == xs,
    decreases xs,
{
    if xs.len() == 0 {
        assert(spec_tokenize_elems(bytes, pos, 0) == SpecParseElems::Done(
            Seq::<SpecRaw>::empty(),
            pos,
        ));
        assert(spec_mat_elems(Seq::<SpecRaw>::empty(), bytes) =~= xs);
    } else {
        let x0 = xs[0];
        let rest = xs.subrange(1, xs.len() as int);
        assert(spec_ser_elems(xs) == spec_ser(x0) + spec_ser_elems(rest));
        lemma_bytes_at_split(bytes, pos, spec_ser(x0), spec_ser_elems(rest));
        lemma_tokenize_serialize_at(bytes, pos, x0);
        lemma_ser_min_len(x0);
        let next = pos + spec_ser(x0).len();
        lemma_tokenize_serialize_elems(bytes, next, rest);
        let t0 = spec_tokenize(bytes, pos)->Done_0;
        let ts1 = spec_tokenize_elems(bytes, next, rest.len() as int)->Done_0;
        let end = spec_tokenize_elems(bytes, next, rest.len() as int)->Done_1;
        assert(spec_tokenize_elems(bytes, pos, xs.len() as int) == SpecParseElems::Done(
            seq![t0] + ts1,
            end,
        ));
        assert((seq![t0] + ts1).subrange(1, (seq![t0] + ts1).len() as int) =~= ts1);
        assert((seq![t0] + ts1)[0] == t0);
        assert(spec_mat_elems(seq![t0] + ts1, bytes) =~= xs);
    }
}

/// The first `k` bytes of `s` occur at `pos` and are all the buffer holds.
pub open spec fn prefix_at(bytes: Seq<u8>, pos: int, s: Seq<u8>, k: int) -> bool {
    &&& 0 <= pos
    &&& 0 <= k <= s.len()
    &&& bytes.len() == pos + k
    &&& bytes.subrange(pos, pos + k) == s.subrange(0, k)
}

proof fn lemma_prefix_at_index(bytes: Seq<u8>, pos: int, s: Seq<u8>, k: int, i: int)
    requires
        prefix_at(bytes, pos, s, k),
        0 <= i < k,
    ensures
        bytes[pos + i] == s[i],
{
    assert(bytes.subrange(pos, pos + k)[i] == s.subrange(0, k)[i]);
}

proof fn lemma_prefix_at_split(bytes: Seq<u8>, pos: int, a: Seq<u8>, b: Seq<u8>, k: int)
    requires
        prefix_at(bytes, pos, a + b, k),
    ensures
        k <= a.len() ==> prefix_at(bytes, pos, a, k),
        k >= a.len() ==> bytes_at(bytes, pos, a) && prefix_at(bytes, pos + a.len(), b, k
            - a.len()),
{
    if k <= a.len() {
        assert(bytes.subrange(pos, pos + k) =~= a.subrange(0, k)) by {
            assert forall|i: int| 0 <= i < k implies bytes.subrange(pos, pos + k)[i]
                == a.subrange(0, k)[i] by {
                lemma_prefix_at_index(bytes, pos, a + b, k, i);
                assert((a + b)[i] == a[i]);
            }
        }
    }
    if k >= a.len() {
        assert(bytes.subrange(pos, pos + a.len()) =~= a) by {
            assert forall|i: int| 0 <= i < a.len() implies bytes.subrange(pos, pos
                + a.len())[i] == a[i] by {
                lemma_prefix_at_index(bytes, pos, a + b, k, i);
                assert((a + b)[i] == a[i]);
            }
        }
        assert(bytes.subrange(pos + a.len(), pos + k) =~= b.subrange(0, k - a.len())) by {
            assert forall|i: int| 0 <= i < k - a.len() implies #[trigger] bytes.subrange(
                pos + a.len(),
                pos + k,
            )[i] == b.subrange(0, k - a.len())[i] by {
                lemma_prefix_at_index(bytes, pos, a + b, k, a.len() + i);
                assert((a + b)[a.len() + i] == b[i]);
            }
        }
    }
}

/// Any cut of a CRLF-free word followed by at most the first terminator byte
/// still holds no CRLF.
proof fn lemma_no_crlf_word_prefix(c: Seq<u8>, m: int)
    requires
        no_crlf(c),
        0 <= m <= c.len() + 1,
    ensures
        no_crlf((c + crlf()).subrange(0, m)),
{
    let p = (c + crlf()).subrange(0, m);
    assert forall|j: int| 0 <= j && j + 2 <= p.len() implies !(#[trigger] p[j] == 13
        && p[j + 1] == 10) by {
        assert(p[j] == (c + crlf())[j]);
        assert(p[j + 1] == (c + crlf())[j + 1]);
        if j + 1 < c.len() {
            assert(p[j] == c[j] && p[j + 1] == c[j + 1]);
        } else {
            assert(j + 1 == c.len());
            assert(p[j + 1] == 13);
        }
    }
}

/// A scan that starts inside a cut-short word cannot find a terminator.
proof fn lemma_scan_prefix_none(bytes: Seq<u8>, pos: int, c: Seq<u8>, m: int)
    requires
        0 <= pos,
        0 <= m <= c.len() + 1,
        bytes.len() == pos + m,
        bytes.subrange(pos, pos + m) == (c + crlf()).subrange(0, m),
        no_crlf(c),
    ensures
        spec_next_word(bytes, pos) is None,
{
    lemma_no_crlf_word_prefix(c, m);
    lemma_scan_none_at(bytes, pos);
}

/// Partial frame, one value: a proper prefix of the encoding of a well-formed
/// value, with nothing after it, tokenizes to "incomplete".
pub proof fn lemma_tokenize_prefix_at(bytes: Seq<u8>, pos: int, v: SpecValue, k: int)
    requires
        wf_frame(v),
        0 <= k < spec_ser(v).len(),
        prefix_at(bytes, pos, spec_ser(v), k),
    ensures
        spec_tokenize(bytes, pos) is Incomplete,
    decreases v,
{
    let ser = spec_ser(v);
    if k == 0 {
        return;
    }
    lemma_prefix_at_index(bytes, pos, ser, k, 0);
    match v {
        SpecValue::SimpleString(s) => {
            assert(ser =~= seq![43u8] + (s + crlf()));
            lemma_prefix_at_split(bytes, pos, seq![43u8], s + crlf(), k);
            assert(bytes[pos] == 43);
            lemma_scan_prefix_none(bytes, pos + 1, s, k - 1);
        },
        SpecValue::BulkString(b) => {
            let d = spec_dec(b.len());
            lemma_spec_dec_digits(b.len());
            lemma_dec_val_spec_dec(b.len());
            lemma_digits_no_crlf(d);
            assert(ser =~= seq![36u8] + ((d + crlf()) + (b + crlf())));
            lemma_prefix_at_split(bytes, pos, seq![36u8], (d + crlf()) + (b + crlf()), k);
            assert(bytes[pos] == 36);
            if k - 1 <= d.len() + 1 {
                assert(((d + crlf()) + (b + crlf())).subrange(0, k - 1)
                    =~= (d + crlf()).subrange(0, k - 1));
                lemma_scan_prefix_none(bytes, pos + 1, d, k - 1);
            } else {
                lemma_prefix_at_split(bytes, pos + 1, d + crlf(), b + crlf(), k - 1);
                lemma_scan_found_at(bytes, pos + 1, d);
                let w = pos + 1 + d.len();
                lemma_parse_dec_digits(d);
                assert(spec_parse_dec(bytes.subrange(pos + 1, w)) == Option::Some(
                    b.len() as int,
                ));
                assert(w + 2 + b.len() + 2 > bytes.len());
                assert(spec_parse_bulk(bytes, pos + 1) is Incomplete);
            }
        },
        SpecValue::NullBulkString => {
            let m = seq![45u8, 49u8];
            assert(ser =~= seq![36u8] + (m + crlf()));
            lemma_prefix_at_split(bytes, pos, seq![36u8], m + crlf(), k);
            assert(bytes[pos] == 36);
            assert(no_crlf(m));
            lemma_scan_prefix_none(bytes, pos + 1, m, k - 1);
        },
        SpecValue::SimpleError(_) => {
            assert(false);
        },
        SpecValue::Array(xs) => {
            let d = spec_dec(xs.len());
            lemma_spec_dec_digits(xs.len());
            lemma_dec_val_spec_dec(xs.len());
            lemma_digits_no_crlf(d);
            let elems = spec_ser_elems(xs);
            assert(ser =~= seq![42u8] + ((d + crlf()) + elems));
            lemma_prefix_at_split(bytes, pos, seq![42u8], (d + crlf()) + elems, k);
            assert(bytes[pos] == 42);
            if k - 1 <= d.len() + 1 {
                assert(((d + crlf()) + elems).subrange(0, k - 1)
                    =~= (d + crlf()).subrange(0, k - 1));
                lemma_scan_prefix_none(bytes, pos + 1, d, k - 1);
            } else {
                lemma_prefix_at_split(bytes, pos + 1, d + crlf(), elems, k - 1);
                lemma_scan_found_at(bytes, pos + 1, d);
                let w = pos + 1 + d.len();
                lemma_parse_dec_digits(d);
                assert(spec_parse_dec(bytes.subrange(pos + 1, w)) == Option::Some(
                    xs.len() as int,
                ));
                lemma_tokenize_prefix_elems(bytes, w + 2, xs, k - 1 - (d.len() + 2));
                assert(spec_parse_array(bytes, pos + 1) is Incomplete);
            }
        },
    }
}

/// Partial frame, a run of values: a proper prefix of the concatenated
/// encodings, with nothing after it, parses to "incomplete".
pub proof fn lemma_tokenize_prefix_elems(bytes: Seq<u8>, pos: int, xs: Seq<SpecValue>, k: int)
    requires
        wf_elems(xs),
        0 <= k < spec_ser_elems(xs).len(),
        prefix_at(bytes, pos, spec_ser_elems(xs), k),
    ensures
        spec_tokenize_elems(bytes, pos, xs.len() as int) is Incomplete,
    decreases xs,
{
    assert(xs.len() > 0);
    let x0 = xs[0];
    let rest = xs.subrange(1, xs.len() as int);
    assert(spec_ser_elems(xs) == spec_ser(x0) + spec_ser_elems(rest));
    let l0 = spec_ser(x0).len() as int;
    if k == 0 {
        return;
    }
    lemma_prefix_at_split(bytes, pos, spec_ser(x0), spec_ser_elems(rest), k);
    if k < l0 {
        lemma_tokenize_prefix_at(bytes, pos, x0, k);
    } else {
        lemma_tokenize_serialize_at(bytes, pos, x0);
        lemma_ser_min_len(x0);
        lemma_tokenize_prefix_elems(bytes, pos + l0, rest, k - l0);
    }
}

/// A proper prefix of a well-formed value's serialization tokenizes to
/// "incomplete": no bytes are consumed and no error is raised.
pub proof fn lemma_partial_frame(v: SpecValue, k: int)
    requires
        wf_frame(v),
        0 <= k < spec_ser(v).len(),
    ensures
        spec_tokenize(spec_ser(v).subrange(0, k), 0) is Incomplete,
{
    let p = spec_ser(v).subrange(0, k);
    assert(p.subrange(0, k) =~= spec_ser(v).subrange(0, k));
    lemma_tokenize_prefix_at(p, 0, v, k);
}

/// Tokenizing the complete serialization of a well-formed value consumes every
/// byte and denotes the value itself.
pub proof fn lemma_round_trip(v: SpecValue)
    requires
        wf_frame(v),
    ensures
        spec_tokenize(spec_ser(v), 0) matches SpecParse::Done(t, end)
            && end == spec_ser(v).len() && spec_mat(t, spec_ser(v)) == v,
{
    let ser = spec_ser(v);
    assert(ser.subrange(0, ser.len() as int) =~= ser);
    lemma_tokenize_serialize_at(ser, 0, v);
}

} // verus!
