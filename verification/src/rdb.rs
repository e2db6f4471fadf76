use vstd::prelude::*;

use crate::store::Store;

verus! {

/// Value of `count` little-endian bytes at `pos`.
pub open spec fn spec_le_bytes(bytes: Seq<u8>, pos: int, count: int) -> int
    decreases count,
{
    if count <= 0 {
        0
    } else {
        bytes[pos] + 256 * spec_le_bytes(bytes, pos + 1, count - 1)
    }
}

/// What one length encoding at `pos` yields: the length and the position just
/// after it. The top two bits of the first byte select the variant; only the
/// 6-bit immediate and the 4-byte little-endian forms are supported, all
/// others fail.
pub open spec fn spec_parse_len(bytes: Seq<u8>, pos: int) -> Option<(int, int)> {
    if pos < 0 || pos >= bytes.len() {
        Option::None
    } else {
        let b = bytes[pos];
        if b < 64 {
            Option::Some((b as int, pos + 1))
        } else if b < 128 {
            // 14-bit length: not supported
            Option::None
        } else if b < 192 {
            if pos + 5 <= bytes.len() {
                Option::Some((spec_le_bytes(bytes, pos + 1, 4), pos + 5))
            } else {
                Option::None
            }
        } else {
            // special encoding: not supported
            Option::None
        }
    }
}

/// What a length-prefixed string at `pos` yields: its bytes and the position
/// just after them.
pub open spec fn spec_parse_rdb_string(bytes: Seq<u8>, pos: int) -> Option<(Seq<u8>, int)> {
    match spec_parse_len(bytes, pos) {
        Option::None => Option::None,
        Option::Some((len, next)) => if next + len <= bytes.len() {
            Option::Some((bytes.subrange(next, next + len), next + len))
        } else {
            Option::None
        },
    }
}

/// Index of the first occurrence of `b` at or after `pos`, if any.
pub open spec fn spec_find_byte(bytes: Seq<u8>, pos: int, b: u8) -> Option<int>
    decreases bytes.len() - pos,
{
    if pos < 0 || pos >= bytes.len() {
        Option::None
    } else if bytes[pos] == b {
        Option::Some(pos)
    } else {
        spec_find_byte(bytes, pos + 1, b)
    }
}

/// What the record loop yields from `pos` on, given the maps decoded so far:
/// the final maps if a database-end marker (0xFF) is reached, nothing on any
/// failure — an unsupported encoding, a non-string value type, a truncated
/// record, or the end of the buffer without the marker.
///
/// A record with an expiry (0xFC) is kept only when its deadline lies after
/// `now`; one without is kept unconditionally.
pub open spec fn spec_rdb_entries(
    bytes: Seq<u8>,
    pos: int,
    now: u64,
    main: Map<Seq<u8>, Seq<u8>>,
    expiry: Map<Seq<u8>, u64>,
) -> Option<(Map<Seq<u8>, Seq<u8>>, Map<Seq<u8>, u64>)>
    decreases bytes.len() - pos,
{
    if pos < 0 || pos >= bytes.len() {
        Option::None
    } else if bytes[pos] == 0xfe {
        Option::None
    } else if bytes[pos] == 0xff {
        Option::Some((main, expiry))
    } else if bytes[pos] == 0xfc {
        if pos + 9 < bytes.len() && bytes[pos + 9] == 0 {
            let deadline = spec_le_bytes(bytes, pos + 1, 8);
            match spec_parse_rdb_string(bytes, pos + 10) {
                Option::None => Option::None,
                Option::Some((key, p2)) => match spec_parse_rdb_string(bytes, p2) {
                    Option::None => Option::None,
                    Option::Some((val, p3)) => if p3 > pos && p3 <= bytes.len() {
                        if deadline > now {
                            spec_rdb_entries(bytes, p3, now, main.insert(key, val),
                                expiry.insert(key, deadline as u64))
                        } else {
                            spec_rdb_entries(bytes, p3, now, main, expiry)
                        }
                    } else {
                        // unreachable: a parsed string always ends inside the
                        // buffer, past its own length prefix
                        Option::None
                    },
                },
            }
        } else {
            Option::None
        }
    } else if bytes[pos] == 0 {
        match spec_parse_rdb_string(bytes, pos + 1) {
            Option::None => Option::None,
            Option::Some((key, p2)) => match spec_parse_rdb_string(bytes, p2) {
                Option::None => Option::None,
                Option::Some((val, p3)) => if p3 > pos && p3 <= bytes.len() {
                    spec_rdb_entries(bytes, p3, now, main.insert(key, val), expiry)
                } else {
                    Option::None
                },
            },
        }
    } else {
        // a value type other than the string encoding
        Option::None
    }
}

/// What decoding a whole snapshot yields: the two key spaces, or nothing when
/// the snapshot cannot be decoded to completion.
pub open spec fn spec_decode_rdb(bytes: Seq<u8>, now: u64) -> Option<
    (Map<Seq<u8>, Seq<u8>>, Map<Seq<u8>, u64>),
> {
    match spec_find_byte(bytes, 0, 0xfb) {
        Option::None => Option::None,
        Option::Some(fb) => match spec_parse_len(bytes, fb + 1) {
            Option::None => Option::None,
            Option::Some((_main_size, p1)) => match spec_parse_len(bytes, p1) {
                Option::None => Option::None,
                Option::Some((_expiry_size, p2)) => spec_rdb_entries(bytes, p2, now,
                    Map::empty(), Map::empty()),
            },
        },
    }
}

/// Parses one length encoding, exactly as `spec_parse_len` says.
pub fn parse_length_encoding(buf: &Vec<u8>, pos: usize) -> (r: Option<(usize, usize)>)
    ensures
        (match r {
            Option::Some(p) => spec_parse_len(buf@, pos as int) == Option::Some(
                (p.0 as int, p.1 as int),
            ) && p.1 <= buf@.len(),
            Option::None => spec_parse_len(buf@, pos as int) is None,
        }),
{
    if pos >= buf.len() {
        return Option::None;
    }
    let b = buf[pos];
    if b < 64 {
        Option::Some((b as usize, pos + 1))
    } else if b < 128 {
        Option::None
    } else if b < 192 {
        if buf.len() - pos >= 5 {
            let v = le_u32(buf, pos + 1);
            Option::Some((v as usize, pos + 5))
        } else {
            Option::None
        }
    } else {
        Option::None
    }
}

/// Parses one length-prefixed string, exactly as `spec_parse_rdb_string` says.
pub fn parse_rdb_string(buf: &Vec<u8>, pos: usize) -> (r: Option<(Vec<u8>, usize)>)
    ensures
        (match r {
            Option::Some(p) => spec_parse_rdb_string(buf@, pos as int) == Option::Some(
                (p.0@, p.1 as int),
            ) && pos < p.1 <= buf@.len(),
            Option::None => spec_parse_rdb_string(buf@, pos as int) is None,
        }),
{
    match parse_length_encoding(buf, pos) {
        Option::None => Option::None,
        Option::Some((len, next)) => {
            if buf.len() - next >= len {
                let s = crate::serde::copy_range(buf, next, next + len);
                Option::Some((s, next + len))
            } else {
                Option::None
            }
        },
    }
}

/// Finds the first occurrence of `b` in the buffer.
#[verifier::loop_isolation(false)]
fn find_byte(buf: &Vec<u8>, b: u8) -> (r: Option<usize>)
    ensures
        (match spec_find_byte(buf@, 0, b) {
            Option::Some(i) => r matches Option::Some(j) && j as int == i && j < buf@.len(),
            Option::None => r is None,
        }),
{
    let mut i: usize = 0;
    while i < buf.len()
        invariant
            i <= buf@.len(),
            spec_find_byte(buf@, 0, b) == spec_find_byte(buf@, i as int, b),
        decreases buf@.len() - i,
    {
        if buf[i] == b {
            return Option::Some(i);
        }
        i += 1;
    }
    Option::None
}

/// Decodes a whole snapshot into a keyspace. A snapshot that cannot be
/// decoded to completion yields empty stores, as does one with no
/// database-start marker.
#[verifier::loop_isolation(false)]
pub fn decode_rdb(buf: &Vec<u8>, now: u64) -> (r: Store)
    ensures
        r.wf(),
        (match spec_decode_rdb(buf@, now) {
            Option::Some(maps) => r.main_view() == maps.0 && r.expiry_view() == maps.1,
            Option::None => r.main_view() == Map::<Seq<u8>, Seq<u8>>::empty()
                && r.expiry_view() == Map::<Seq<u8>, u64>::empty(),
        }),
{
    // fixes the buffer length as a machine word: every position the scan
    // reaches then fits a usize
    let buf_len = buf.len();
    let fb = match find_byte(buf, 0xfb) {
        Option::None => {
            return Store::new();
        },
        Option::Some(i) => i,
    };
    let p1 = match parse_length_encoding(buf, fb + 1) {
        Option::None => {
            return Store::new();
        },
        Option::Some((_, p)) => p,
    };
    let p2 = match parse_length_encoding(buf, p1) {
        Option::None => {
            return Store::new();
        },
        Option::Some((_, p)) => p,
    };
    let mut store = Store::new();
    let mut pos = p2;
    while pos < buf.len()
        invariant
            store.wf(),
            pos <= buf@.len(),
            spec_rdb_entries(buf@, p2 as int, now, Map::empty(), Map::empty())
                == spec_rdb_entries(buf@, pos as int, now, store.main_view(),
                store.expiry_view()),
        decreases buf@.len() - pos,
    {
        let b = buf[pos];
        if b == 0xfe {
            return Store::new();
        } else if b == 0xff {
            return store;
        } else if b == 0xfc {
            if buf.len() - pos <= 9 {
                return Store::new();
            }
            if buf[pos + 9] != 0 {
                return Store::new();
            }
            let deadline = le_u64(buf, pos + 1);
            let (key, pk) = match parse_rdb_string(buf, pos + 10) {
                Option::None => {
                    return Store::new();
                },
                Option::Some(p) => p,
            };
            let (val, pv) = match parse_rdb_string(buf, pk) {
                Option::None => {
                    return Store::new();
                },
                Option::Some(p) => p,
            };
            if deadline > now {
                store.set(key, val, Option::Some(deadline));
            }
            pos = pv;
        } else if b == 0 {
            let (key, pk) = match parse_rdb_string(buf, pos + 1) {
                Option::None => {
                    return Store::new();
                },
                Option::Some(p) => p,
            };
            let (val, pv) = match parse_rdb_string(buf, pk) {
                Option::None => {
                    return Store::new();
                },
                Option::Some(p) => p,
            };
            store.set(key, val, Option::None);
            pos = pv;
        } else {
            return Store::new();
        }
    }
    Store::new()
}

/// Reads 8 little-endian bytes at `pos`.
#[verifier::loop_isolation(false)]
fn le_u64(buf: &Vec<u8>, pos: usize) -> (r: u64)
    requires
        pos + 8 <= buf@.len(),
    ensures
        r == spec_le_bytes(buf@, pos as int, 8),
{
    // fixes the buffer length as a machine word: every position the scan
    // reaches then fits a usize
    let buf_len = buf.len();
    let mut acc: u64 = 0;
    let mut i: usize = 8;
    while i > 0
        invariant
            i <= 8,
            acc == spec_le_bytes(buf@, pos + i, 8 - i),
            acc as int <= (if i == 8 {
                0int
            } else if i == 7 {
                0xffint
            } else if i == 6 {
                0xffffint
            } else if i == 5 {
                0xffffffint
            } else if i == 4 {
                0xffffffffint
            } else if i == 3 {
                0xffffffffffint
            } else if i == 2 {
                0xffffffffffffint
            } else if i == 1 {
                0xffffffffffffffint
            } else {
                0xffffffffffffffffint
            }),
        decreases i,
    {
        i -= 1;
        acc = acc * 256 + buf[pos + i] as u64;
    }
    acc
}

/// Reads 4 little-endian bytes at `pos`.
#[verifier::loop_isolation(false)]
fn le_u32(buf: &Vec<u8>, pos: usize) -> (r: u32)
    requires
        pos + 4 <= buf@.len(),
    ensures
        r == spec_le_bytes(buf@, pos as int, 4),
{
    // fixes the buffer length as a machine word: every position the scan
    // reaches then fits a usize
    let buf_len = buf.len();
    let mut acc: u32 = 0;
    let mut i: usize = 4;
    while i > 0
        invariant
            i <= 4,
            acc == spec_le_bytes(buf@, pos + i, 4 - i),
            acc as int <= (if i == 4 {
                0int
            } else if i == 3 {
                0xffint
            } else if i == 2 {
                0xffffint
            } else if i == 1 {
                0xffffffint
            } else {
                0xffffffffint
            }),
        decreases i,
    {
        i -= 1;
        acc = acc * 256 + buf[pos + i] as u32;
    }
    acc
}

} // verus!
