use vstd::prelude::*;

use crate::num::{parse_u64, push_decimal, spec_dec, spec_parse_u64};
use crate::repl::{spec_ok, spec_pong, ServerContext};
use crate::serde::copy_range;
use crate::server::RedisServerConfig;
use crate::store::Store;
use crate::value::{bytes_eq, values_view, RedisValue, SpecValue};

verus! {

/// Milliseconds since the Unix epoch by the system clock, or zero if the
/// clock reads earlier than the epoch.
///
/// Relies on std::time::SystemTime::now and SystemTime::duration_since: the
/// elapsed time since the epoch, truncated to 64 bits of milliseconds.
#[verifier::external_body]
pub fn now() -> u64 {
    match std::time::SystemTime::now().duration_since(std::time::UNIX_EPOCH) {
        Ok(d) => d.as_millis() as u64,
        Err(_) => 0,
    }
}

/// The ASCII uppercase of a byte: letters a-z fold, everything else stays.
pub open spec fn spec_ascii_upper_byte(b: u8) -> u8 {
    if 97 <= b <= 122 {
        (b - 32) as u8
    } else {
        b
    }
}

/// The ASCII uppercase of a byte string.
pub open spec fn spec_ascii_upper(s: Seq<u8>) -> Seq<u8> {
    s.map_values(|b: u8| spec_ascii_upper_byte(b))
}

/// Uppercases a byte string, ASCII letters only.
#[verifier::loop_isolation(false)]
pub fn to_ascii_upper(v: &Vec<u8>) -> (r: Vec<u8>)
    ensures
        r@ == spec_ascii_upper(v@),
{
    let mut out: Vec<u8> = Vec::new();
    let mut i: usize = 0;
    while i < v.len()
        invariant
            i <= v@.len(),
            out@.len() == i,
            forall|j: int| 0 <= j < i ==> out@[j] == spec_ascii_upper_byte(v@[j]),
        decreases v@.len() - i,
    {
        let b = v[i];
        if b >= 97 && b <= 122 {
            out.push(b - 32);
        } else {
            out.push(b);
        }
        i += 1;
    }
    proof {
        assert(out@ =~= spec_ascii_upper(v@));
    }
    out
}

impl RedisValue {
    /// Splits a request into the command name and its arguments: the payload
    /// of the first element and the remaining elements. Nothing unless the
    /// request is a non-empty array whose first element is a bulk string,
    /// which is fatal to the connection.
    pub fn get_cmd_and_args(self) -> (r: Option<(Vec<u8>, Vec<RedisValue>)>)
        ensures
            (match r {
                Option::Some(p) => self@ matches SpecValue::Array(xs) && xs.len() >= 1
                    && xs[0] == SpecValue::BulkString(p.0@)
                    && values_view(p.1@) == xs.subrange(1, xs.len() as int),
                Option::None => !(self@ matches SpecValue::Array(xs) && xs.len() >= 1
                    && xs[0] is BulkString),
            }),
    {
        match self {
            RedisValue::Array(mut items) => {
                if items.len() == 0 {
                    return Option::None;
                }
                proof {
                    crate::value::lemma_values_view(items@);
                }
                let first = items.remove(0);
                let ghost items0 = items@;
                match first {
                    RedisValue::BulkString(cmd) => {
                        proof {
                            crate::value::lemma_values_view(items@);
                            assert(values_view(items@) =~= values_view(
                                seq![RedisValue::BulkString(cmd)] + items@,
                            ).subrange(
                                1,
                                values_view(seq![RedisValue::BulkString(cmd)] + items@).len()
                                    as int,
                            )) by {
                                crate::value::lemma_values_view(
                                    seq![RedisValue::BulkString(cmd)] + items@,
                                );
                            }
                        }
                        Option::Some((cmd, items))
                    },
                    _ => Option::None,
                }
            },
            _ => Option::None,
        }
    }
}

/// The PING reply.
pub fn ping() -> (r: RedisValue)
    ensures
        r@ == SpecValue::SimpleString(spec_pong()),
{
    let v = RedisValue::SimpleString(vec![80u8, 79, 78, 71]);
    proof {
        assert(v@ =~~= SpecValue::SimpleString(spec_pong()));
    }
    v
}

/// The ECHO reply: the first argument handed back; nothing without one, which
/// is fatal to the connection.
pub fn echo(args: &mut Vec<RedisValue>) -> (r: Option<RedisValue>)
    ensures
        old(args)@.len() >= 1 ==> (r matches Option::Some(v) && v@ == values_view(
            old(args)@,
        )[0]),
        old(args)@.len() == 0 ==> r is None,
{
    if args.len() == 0 {
        return Option::None;
    }
    let first = args.remove(0);
    proof {
        crate::value::lemma_values_view(old(args)@);
    }
    Option::Some(first)
}

/// The REPLCONF reply: arguments are accepted and ignored.
pub fn replconf() -> (r: RedisValue)
    ensures
        r@ == SpecValue::SimpleString(spec_ok()),
{
    let v = RedisValue::SimpleString(vec![79u8, 75]);
    proof {
        assert(v@ =~~= SpecValue::SimpleString(spec_ok()));
    }
    v
}

/// The bytes "PX".
pub open spec fn spec_px() -> Seq<u8> {
    seq![80u8, 88]
}

/// What SET does to the two key spaces, or nothing when the request is fatal
/// to the connection: a missing key or value, an option other than PX, a
/// missing or non-numeric millisecond count, or a deadline past the 64-bit
/// range.
pub open spec fn spec_set_outcome(
    main: Map<Seq<u8>, Seq<u8>>,
    expiry: Map<Seq<u8>, u64>,
    args: Seq<SpecValue>,
    now: u64,
) -> Option<(Map<Seq<u8>, Seq<u8>>, Map<Seq<u8>, u64>)> {
    if args.len() < 2 || !(args[0] is BulkString) || !(args[1] is BulkString) {
        Option::None
    } else {
        let k = args[0]->BulkString_0;
        let v = args[1]->BulkString_0;
        if args.len() == 2 {
            Option::Some((main.insert(k, v), expiry))
        } else if !(args[2] is BulkString) {
            Option::None
        } else if spec_ascii_upper(args[2]->BulkString_0) == spec_px() {
            if args.len() >= 4 && args[3] is BulkString {
                match spec_parse_u64(args[3]->BulkString_0) {
                    Option::Some(t) => if now + t <= u64::MAX {
                        Option::Some((main.insert(k, v), expiry.insert(k, (now + t) as u64)))
                    } else {
                        Option::None
                    },
                    Option::None => Option::None,
                }
            } else {
                Option::None
            }
        } else {
            Option::None
        }
    }
}

/// SET: binds the key, optionally with a PX millisecond deadline, and replies
/// OK. Nothing on a request that is fatal to the connection.
pub fn set(store: &mut Store, args: &Vec<RedisValue>, now: u64) -> (r: Option<RedisValue>)
    requires
        old(store).wf(),
    ensures
        final(store).wf(),
        (match spec_set_outcome(old(store).main_view(), old(store).expiry_view(), values_view(
            args@,
        ), now) {
            Option::Some(maps) => r matches Option::Some(v) && v@ == SpecValue::SimpleString(
                spec_ok(),
            ) && final(store).main_view() == maps.0 && final(store).expiry_view() == maps.1,
            Option::None => r is None && final(store).main_view() == old(store).main_view()
                && final(store).expiry_view() == old(store).expiry_view(),
        }),
{
    proof {
        crate::value::lemma_values_view(args@);
    }
    if args.len() < 2 {
        return Option::None;
    }
    let key: &Vec<u8> = match &args[0] {
        RedisValue::BulkString(b) => b,
        _ => {
            return Option::None;
        },
    };
    let val: &Vec<u8> = match &args[1] {
        RedisValue::BulkString(b) => b,
        _ => {
            return Option::None;
        },
    };
    let deadline: Option<u64> = if args.len() >= 3 {
        let opt: &Vec<u8> = match &args[2] {
            RedisValue::BulkString(b) => b,
            _ => {
                return Option::None;
            },
        };
        let upper = to_ascii_upper(opt);
        let px: Vec<u8> = vec![80u8, 88];
        if !bytes_eq(&upper, &px) {
            proof {
                assert(spec_ascii_upper(values_view(args@)[2]->BulkString_0) != spec_px());
            }
            return Option::None;
        }
        if args.len() < 4 {
            return Option::None;
        }
        let t_bytes: &Vec<u8> = match &args[3] {
            RedisValue::BulkString(b) => b,
            _ => {
                return Option::None;
            },
        };
        match parse_u64(t_bytes) {
            Option::None => {
                return Option::None;
            },
            Option::Some(t) => {
                if t > u64::MAX - now {
                    return Option::None;
                }
                Option::Some(now + t)
            },
        }
    } else {
        Option::None
    };
    let k = copy_range(key, 0, key.len());
    let v = copy_range(val, 0, val.len());
    proof {
        assert(k@ =~= key@);
        assert(v@ =~= val@);
    }
    store.set(k, v, deadline);
    let okv = RedisValue::SimpleString(vec![79u8, 75]);
    proof {
        assert(okv@ =~~= SpecValue::SimpleString(spec_ok()));
    }
    Option::Some(okv)
}

/// GET: the stored bulk string, or the null bulk string for an absent or
/// expired key; an expired key is removed from both stores. Nothing without a
/// key argument, which is fatal to the connection.
pub fn get(store: &mut Store, args: &Vec<RedisValue>, now: u64) -> (r: Option<RedisValue>)
    requires
        old(store).wf(),
    ensures
        final(store).wf(),
        (values_view(args@).len() == 0 || !(values_view(args@)[0] is BulkString)) ==> (r is None
            && final(store).main_view() == old(store).main_view()
            && final(store).expiry_view() == old(store).expiry_view()),
        ({
            let a = values_view(args@);
            a.len() >= 1 && a[0] is BulkString ==> {
                let k = a[0]->BulkString_0;
                &&& (old(store).spec_live(k, now) ==> (r matches Option::Some(v)
                    && v@ == SpecValue::BulkString(old(store).main_view()[k])
                    && final(store).main_view() == old(store).main_view()
                    && final(store).expiry_view() == old(store).expiry_view()))
                &&& ((old(store).main_view().contains_key(k) && !old(store).spec_live(k, now))
                    ==> (r matches Option::Some(v) && v@ == SpecValue::NullBulkString
                    && final(store).main_view() == old(store).main_view().remove(k)
                    && final(store).expiry_view() == old(store).expiry_view().remove(k)))
                &&& (!old(store).main_view().contains_key(k) ==> (r matches Option::Some(v)
                    && v@ == SpecValue::NullBulkString
                    && final(store).main_view() == old(store).main_view()
                    && final(store).expiry_view() == old(store).expiry_view()))
            }
        }),
{
    proof {
        crate::value::lemma_values_view(args@);
    }
    if args.len() == 0 {
        return Option::None;
    }
    let key: &Vec<u8> = match &args[0] {
        RedisValue::BulkString(b) => b,
        _ => {
            return Option::None;
        },
    };
    match store.get(key, now) {
        Option::Some(v) => Option::Some(RedisValue::BulkString(v)),
        Option::None => Option::Some(RedisValue::NullBulkString),
    }
}

/// KEYS: an array of the live keys as bulk strings, each exactly once, the
/// pattern argument accepted but not matched against. Nothing without that
/// argument, which is fatal to the connection.
#[verifier::loop_isolation(false)]
pub fn keys(store: &Store, args: &Vec<RedisValue>, now: u64) -> (r: Option<RedisValue>)
    requires
        store.wf(),
    ensures
        args@.len() == 0 ==> r is None,
        args@.len() >= 1 ==> (r matches Option::Some(v) && v@ matches SpecValue::Array(ks) && {
            &&& forall|i: int| 0 <= i < ks.len() ==> ((#[trigger] ks[i]) matches
                SpecValue::BulkString(b) && store.spec_live(b, now))
            &&& forall|k: Seq<u8>| store.spec_live(k, now) ==> exists|i: int| 0 <= i < ks.len()
                && (#[trigger] ks[i]) == SpecValue::BulkString(k)
            &&& forall|i: int, j: int| 0 <= i < j < ks.len() ==> (#[trigger] ks[i]) != (
            #[trigger] ks[j])
        }),
{
    if args.len() == 0 {
        return Option::None;
    }
    let live = store.keys(now);
    let mut out: Vec<RedisValue> = Vec::new();
    let mut i: usize = 0;
    while i < live.len()
        invariant
            i <= live@.len(),
            out@.len() == i,
            forall|j: int| 0 <= j < i ==> (#[trigger] values_view(out@)[j])
                == SpecValue::BulkString(live@[j]@),
        decreases live@.len() - i,
    {
        let kv = &live[i];
        let k2 = copy_range(kv, 0, kv.len());
        proof {
            crate::value::lemma_values_view(out@.push(RedisValue::BulkString(k2)));
            crate::value::lemma_values_view(out@);
            assert(k2@ =~= live@[i as int]@);
            assert forall|j: int| 0 <= j < i + 1 implies (#[trigger] values_view(
                out@.push(RedisValue::BulkString(k2)),
            )[j]) == SpecValue::BulkString(live@[j]@) by {
                if j < i {
                    assert(out@.push(RedisValue::BulkString(k2))[j] == out@[j]);
                    assert(values_view(out@)[j] == SpecValue::BulkString(live@[j]@));
                }
            }
        }
        out.push(RedisValue::BulkString(k2));
        i += 1;
    }
    proof {
        crate::value::lemma_values_view(out@);
        let ks = values_view(out@);
        assert forall|k: Seq<u8>| store.spec_live(k, now) implies exists|j: int| 0 <= j < ks.len()
            && (#[trigger] ks[j]) == SpecValue::BulkString(k) by {
            let a = choose|a: int| 0 <= a < live@.len() && (#[trigger] live@[a]@) == k;
            assert(ks[a] == SpecValue::BulkString(k));
        }
        assert forall|a: int, b: int| 0 <= a < b < ks.len() implies (#[trigger] ks[a]) != (
        #[trigger] ks[b]) by {
            assert(live@[a]@ != live@[b]@);
            assert(ks[a] == SpecValue::BulkString(live@[a]@));
            assert(ks[b] == SpecValue::BulkString(live@[b]@));
        }
    }
    Option::Some(RedisValue::Array(out))
}

/// The bytes "GET".
pub open spec fn spec_get_word() -> Seq<u8> {
    seq![71u8, 69, 84]
}

/// The bytes "dir".
pub open spec fn spec_dir_word() -> Seq<u8> {
    seq![100u8, 105, 114]
}

/// The bytes "dbfilename".
pub open spec fn spec_dbfilename_word() -> Seq<u8> {
    seq![100u8, 98, 102, 105, 108, 101, 110, 97, 109, 101]
}

/// The bytes "No config object exists".
pub open spec fn spec_no_config_msg() -> Seq<u8> {
    seq![
        78u8, 111, 32, 99, 111, 110, 102, 105, 103, 32, 111, 98, 106, 101, 99, 116, 32, 101,
        120, 105, 115, 116, 115,
    ]
}

/// The bytes "Invalid sub command for 'CONFIG': '" followed by the
/// uppercased subcommand and a closing quote.
pub open spec fn spec_invalid_sub_msg(sub: Seq<u8>) -> Seq<u8> {
    seq![
        73u8, 110, 118, 97, 108, 105, 100, 32, 115, 117, 98, 32, 99, 111, 109, 109, 97, 110,
        100, 32, 102, 111, 114, 32, 39, 67, 79, 78, 70, 73, 71, 39, 58, 32, 39,
    ] + sub + seq![39u8]
}

/// The key/value pairs CONFIG GET replies for the requested keys: `dir` and
/// `dbfilename` answered with the configured values, anything else skipped.
pub open spec fn spec_config_pairs(dir: Seq<u8>, dbfilename: Seq<u8>, args: Seq<SpecValue>)
    -> Seq<SpecValue>
    decreases args.len(),
{
    if args.len() == 0 {
        Seq::empty()
    } else {
        let rest = spec_config_pairs(dir, dbfilename, args.subrange(1, args.len() as int));
        match args[0] {
            SpecValue::BulkString(k) => if k == spec_dir_word() {
                seq![SpecValue::BulkString(k), SpecValue::BulkString(dir)] + rest
            } else if k == spec_dbfilename_word() {
                seq![SpecValue::BulkString(k), SpecValue::BulkString(dbfilename)] + rest
            } else {
                rest
            },
            _ => rest,
        }
    }
}

proof fn lemma_config_pairs_concat(dir: Seq<u8>, dbfilename: Seq<u8>, a: Seq<SpecValue>,
    b: Seq<SpecValue>)
    ensures
        spec_config_pairs(dir, dbfilename, a + b) == spec_config_pairs(dir, dbfilename, a)
            + spec_config_pairs(dir, dbfilename, b),
    decreases a.len(),
{
    if a.len() == 0 {
        assert(a + b =~= b);
        assert(spec_config_pairs(dir, dbfilename, a) =~= Seq::<SpecValue>::empty());
        assert(spec_config_pairs(dir, dbfilename, a + b) =~= spec_config_pairs(dir, dbfilename,
            a,
        ) + spec_config_pairs(dir, dbfilename, b));
    } else {
        let w = a + b;
        assert(w.subrange(1, w.len() as int) =~= a.subrange(1, a.len() as int) + b);
        assert(w[0] == a[0]);
        lemma_config_pairs_concat(dir, dbfilename, a.subrange(1, a.len() as int), b);
        assert(spec_config_pairs(dir, dbfilename, a + b) =~= spec_config_pairs(dir, dbfilename,
            a,
        ) + spec_config_pairs(dir, dbfilename, b));
    }
}

/// The CONFIG reply: for GET, the recognized key/value pairs (or an error
/// when no configuration was loaded); for any other subcommand, an error.
/// Nothing without a subcommand argument, which is fatal to the connection.
pub open spec fn spec_config_reply(cfg: Option<RedisServerConfig>, args: Seq<SpecValue>)
    -> Option<SpecValue> {
    if args.len() == 0 || !(args[0] is BulkString) {
        Option::None
    } else {
        let sub = spec_ascii_upper(args[0]->BulkString_0);
        if sub == spec_get_word() {
            match cfg {
                Option::None => Option::Some(SpecValue::SimpleError(spec_no_config_msg())),
                Option::Some(c) => Option::Some(SpecValue::Array(spec_config_pairs(c.dir@,
                    c.dbfilename@, args.subrange(1, args.len() as int)))),
            }
        } else {
            Option::Some(SpecValue::SimpleError(spec_invalid_sub_msg(sub)))
        }
    }
}

/// CONFIG, as `spec_config_reply` says.
#[verifier::loop_isolation(false)]
pub fn config(cfg: &Option<RedisServerConfig>, args: &Vec<RedisValue>) -> (r: Option<
    RedisValue,
>)
    ensures
        (match spec_config_reply(*cfg, values_view(args@)) {
            Option::Some(v) => r matches Option::Some(rv) && rv@ == v,
            Option::None => r is None,
        }),
{
    proof {
        crate::value::lemma_values_view(args@);
    }
    if args.len() == 0 {
        return Option::None;
    }
    let sub: &Vec<u8> = match &args[0] {
        RedisValue::BulkString(b) => b,
        _ => {
            return Option::None;
        },
    };
    let upper = to_ascii_upper(sub);
    let get_word: Vec<u8> = vec![71u8, 69, 84];
    if !bytes_eq(&upper, &get_word) {
        let mut msg: Vec<u8> = vec![
            73u8, 110, 118, 97, 108, 105, 100, 32, 115, 117, 98, 32, 99, 111, 109, 109, 97,
            110, 100, 32, 102, 111, 114, 32, 39, 67, 79, 78, 70, 73, 71, 39, 58, 32, 39,
        ];
        crate::serde::push_all(&mut msg, &upper);
        msg.push(39);
        proof {
            assert(msg@ =~= spec_invalid_sub_msg(spec_ascii_upper(values_view(
                args@,
            )[0]->BulkString_0)));
        }
        return Option::Some(RedisValue::SimpleError(msg));
    }
    let c: &RedisServerConfig = match cfg {
        Option::None => {
            let msg: Vec<u8> = vec![
                78u8, 111, 32, 99, 111, 110, 102, 105, 103, 32, 111, 98, 106, 101, 99, 116, 32,
                101, 120, 105, 115, 116, 115,
            ];
            proof {
                assert(msg@ =~= spec_no_config_msg());
            }
            return Option::Some(RedisValue::SimpleError(msg));
        },
        Option::Some(c) => c,
    };
    let ghost a = values_view(args@);
    let mut out: Vec<RedisValue> = Vec::new();
    let mut i: usize = 1;
    while i < args.len()
        invariant
            1 <= i <= args@.len(),
            values_view(out@) == spec_config_pairs(c.dir@, c.dbfilename@, a.subrange(
                1,
                i as int,
            )),
        decreases args@.len() - i,
    {
        proof {
            assert(a.subrange(1, i + 1) =~= a.subrange(1, i as int) + seq![a[i as int]]);
            lemma_config_pairs_concat(c.dir@, c.dbfilename@, a.subrange(1, i as int),
                seq![a[i as int]]);
            assert(seq![a[i as int]].subrange(1, 1) =~= Seq::<SpecValue>::empty());
            assert(spec_config_pairs(c.dir@, c.dbfilename@, Seq::<SpecValue>::empty())
                == Seq::<SpecValue>::empty());
        }
        let ghost pre = out@;
        proof {
            assert(a[i as int] == crate::value::value_view(args@[i as int]));
        }
        match &args[i] {
            RedisValue::BulkString(k) => {
                let dir_word: Vec<u8> = vec![100u8, 105, 114];
                let dbfilename_word: Vec<u8> = vec![
                    100u8, 98, 102, 105, 108, 101, 110, 97, 109, 101,
                ];
                proof {
                    assert(dir_word@ =~= spec_dir_word());
                    assert(dbfilename_word@ =~= spec_dbfilename_word());
                    assert(a[i as int] == SpecValue::BulkString(k@));
                }
                if bytes_eq(k, &dir_word) {
                    let k2 = copy_range(k, 0, k.len());
                    let dv = copy_range(&c.dir, 0, c.dir.len());
                    proof {
                        assert(k2@ =~= k@ && dv@ =~= c.dir@);
                    }
                    out.push(RedisValue::BulkString(k2));
                    out.push(RedisValue::BulkString(dv));
                    proof {
                        crate::value::lemma_values_view(out@);
                        crate::value::lemma_values_view(pre);
                        assert(values_view(out@) =~= values_view(pre) + seq![
                            SpecValue::BulkString(k@), SpecValue::BulkString(c.dir@),
                        ]);
                        assert(spec_config_pairs(c.dir@, c.dbfilename@, seq![a[i as int]])
                            =~= seq![
                            SpecValue::BulkString(k@), SpecValue::BulkString(c.dir@),
                        ]);
                    }
                } else if bytes_eq(k, &dbfilename_word) {
                    let k2 = copy_range(k, 0, k.len());
                    let fv = copy_range(&c.dbfilename, 0, c.dbfilename.len());
                    proof {
                        assert(k2@ =~= k@ && fv@ =~= c.dbfilename@);
                    }
                    out.push(RedisValue::BulkString(k2));
                    out.push(RedisValue::BulkString(fv));
                    proof {
                        crate::value::lemma_values_view(out@);
                        crate::value::lemma_values_view(pre);
                        assert(values_view(out@) =~= values_view(pre) + seq![
                            SpecValue::BulkString(k@), SpecValue::BulkString(c.dbfilename@),
                        ]);
                        assert(spec_config_pairs(c.dir@, c.dbfilename@, seq![a[i as int]])
                            =~= seq![
                            SpecValue::BulkString(k@), SpecValue::BulkString(c.dbfilename@),
                        ]);
                    }
                } else {
                    proof {
                        assert(spec_config_pairs(c.dir@, c.dbfilename@, seq![a[i as int]])
                            =~= Seq::<SpecValue>::empty());
                        assert(values_view(out@) + Seq::<SpecValue>::empty() =~= values_view(
                            out@,
                        ));
                    }
                }
            },
            _ => {},
        }
        i += 1;
    }
    proof {
        assert(a.subrange(1, a.len() as int) =~= a.subrange(1, args@.len() as int));
    }
    Option::Some(RedisValue::Array(out))
}

/// One `name:value` line of the INFO payload.
pub fn format_info(key: &Vec<u8>, value: &Vec<u8>) -> (r: Vec<u8>)
    ensures
        r@ == key@ + seq![58u8] + value@,
{
    let mut out: Vec<u8> = Vec::new();
    crate::serde::push_all(&mut out, key);
    out.push(58);
    crate::serde::push_all(&mut out, value);
    proof {
        assert(out@ =~= key@ + seq![58u8] + value@);
    }
    out
}

/// The INFO payload: CRLF-joined `name:value` lines describing the
/// replication role and identity.
pub open spec fn spec_info_payload(ctx: ServerContext) -> Seq<u8> {
    let role_key = seq![114u8, 111, 108, 101];
    let replid_key = seq![109u8, 97, 115, 116, 101, 114, 95, 114, 101, 112, 108, 105, 100];
    let offset_key = seq![
        109u8, 97, 115, 116, 101, 114, 95, 114, 101, 112, 108, 95, 111, 102, 102, 115, 101,
        116,
    ];
    match ctx {
        ServerContext::Master(c) => role_key + seq![58u8] + seq![
            109u8, 97, 115, 116, 101, 114,
        ] + crate::serde::crlf() + replid_key + seq![58u8] + c.master_replid@
            + crate::serde::crlf() + offset_key + seq![58u8] + spec_dec(
            c.master_repl_offset as nat,
        ),
        ServerContext::Replica(c) => role_key + seq![58u8] + seq![115u8, 108, 97, 118, 101]
            + crate::serde::crlf() + replid_key + seq![58u8] + c.master_replid@
            + crate::serde::crlf() + offset_key + seq![58u8] + spec_dec(
            c.master_repl_offset as nat,
        ) + crate::serde::crlf() + seq![
            115u8, 108, 97, 118, 101, 95, 114, 101, 112, 108, 95, 111, 102, 102, 115, 101, 116,
        ] + seq![58u8] + spec_dec(c.slave_repl_offset as nat) + crate::serde::crlf() + seq![
            109u8, 97, 115, 116, 101, 114, 95, 114, 101, 112, 108, 105, 100, 50,
        ] + seq![58u8] + (match c.master_replid2 {
            Option::Some(id2) => id2@,
            Option::None => Seq::<u8>::empty(),
        }) + crate::serde::crlf() + seq![
            115u8, 101, 99, 111, 110, 100, 95, 114, 101, 112, 108, 95, 111, 102, 102, 115,
            101, 116,
        ] + seq![58u8] + (match c.second_repl_offset {
            Option::Some(n) => spec_dec(n as nat),
            Option::None => seq![45u8, 49],
        }),
    }
}

/// INFO: a bulk string holding the replication section.
#[verifier::rlimit(50)]
pub fn info(ctx: &ServerContext) -> (r: RedisValue)
    ensures
        r@ == SpecValue::BulkString(spec_info_payload(*ctx)),
{
    let mut p: Vec<u8> = Vec::new();
    crate::serde::push_all(&mut p, &vec![114u8, 111, 108, 101]);
    p.push(58);
    match ctx {
        ServerContext::Master(c) => {
            crate::serde::push_all(&mut p, &vec![109u8, 97, 115, 116, 101, 114]);
            p.push(13);
            p.push(10);
            crate::serde::push_all(
                &mut p,
                &vec![109u8, 97, 115, 116, 101, 114, 95, 114, 101, 112, 108, 105, 100],
            );
            p.push(58);
            crate::serde::push_all(&mut p, &c.master_replid);
            p.push(13);
            p.push(10);
            crate::serde::push_all(
                &mut p,
                &vec![
                    109u8, 97, 115, 116, 101, 114, 95, 114, 101, 112, 108, 95, 111, 102, 102,
                    115, 101, 116,
                ],
            );
            p.push(58);
            push_decimal(&mut p, c.master_repl_offset);
            proof {
                assert(p@ =~= spec_info_payload(*ctx));
            }
        },
        ServerContext::Replica(c) => {
            crate::serde::push_all(&mut p, &vec![115u8, 108, 97, 118, 101]);
            p.push(13);
            p.push(10);
            crate::serde::push_all(
                &mut p,
                &vec![109u8, 97, 115, 116, 101, 114, 95, 114, 101, 112, 108, 105, 100],
            );
            p.push(58);
            crate::serde::push_all(&mut p, &c.master_replid);
            p.push(13);
            p.push(10);
            crate::serde::push_all(
                &mut p,
                &vec![
                    109u8, 97, 115, 116, 101, 114, 95, 114, 101, 112, 108, 95, 111, 102, 102,
                    115, 101, 116,
                ],
            );
            p.push(58);
            push_decimal(&mut p, c.master_repl_offset);
            p.push(13);
            p.push(10);
            crate::serde::push_all(
                &mut p,
                &vec![
                    115u8, 108, 97, 118, 101, 95, 114, 101, 112, 108, 95, 111, 102, 102, 115,
                    101, 116,
                ],
            );
            p.push(58);
            push_decimal(&mut p, c.slave_repl_offset);
            p.push(13);
            p.push(10);
            crate::serde::push_all(
                &mut p,
                &vec![109u8, 97, 115, 116, 101, 114, 95, 114, 101, 112, 108, 105, 100, 50],
            );
            p.push(58);
            match &c.master_replid2 {
                Option::Some(id2) => {
                    crate::serde::push_all(&mut p, id2);
                },
                Option::None => {},
            }
            p.push(13);
            p.push(10);
            crate::serde::push_all(
                &mut p,
                &vec![
                    115u8, 101, 99, 111, 110, 100, 95, 114, 101, 112, 108, 95, 111, 102, 102,
                    115, 101, 116,
                ],
            );
            p.push(58);
            match c.second_repl_offset {
                Option::Some(n) => {
                    push_decimal(&mut p, n);
                },
                Option::None => {
                    p.push(45);
                    p.push(49);
                },
            }
            proof {
                assert(p@ =~= spec_info_payload(*ctx));
            }
        },
    }
    RedisValue::BulkString(p)
}

/// The PSYNC reply payload: the literal full-resync line, replication ID and
/// zero offset, terminator included, carried inside a simple string.
pub open spec fn spec_psync_reply(ctx: ServerContext) -> Seq<u8> {
    seq![43u8, 70, 85, 76, 76, 82, 69, 83, 89, 78, 67, 32] + ctx.spec_replid() + seq![
        32u8, 48, 13, 10,
    ]
}

/// PSYNC: the full-resync preamble; the caller must follow it with the raw
/// length-prefixed snapshot payload on the wire.
pub fn psync(ctx: &ServerContext) -> (r: RedisValue)
    ensures
        r@ == SpecValue::SimpleString(spec_psync_reply(*ctx)),
{
    let mut p: Vec<u8> = vec![43u8, 70, 85, 76, 76, 82, 69, 83, 89, 78, 67, 32];
    crate::serde::push_all(&mut p, ctx.get_master_replid());
    p.push(32);
    p.push(48);
    p.push(13);
    p.push(10);
    proof {
        assert(p@ =~= spec_psync_reply(*ctx));
    }
    RedisValue::SimpleString(p)
}

/// What the dispatcher decides for one request: reply and keep the
/// connection; reply and then stream the snapshot; or close the connection.
pub enum Outcome {
    Reply(RedisValue),
    FullResync(RedisValue),
    Close,
}

/// A well-formed request: an array of bulk strings.
pub open spec fn spec_shape_ok(v: SpecValue) -> bool {
    v matches SpecValue::Array(xs) && (forall|i: int| 0 <= i < xs.len()
        ==> (#[trigger] xs[i]) is BulkString)
}

/// The two stores read the same.
pub open spec fn store_same(a: Store, b: Store) -> bool {
    a.main_view() == b.main_view() && a.expiry_view() == b.expiry_view()
}

/// The bytes "PING".
pub open spec fn spec_ping_word() -> Seq<u8> {
    seq![80u8, 73, 78, 71]
}

/// The bytes "ECHO".
pub open spec fn spec_echo_word() -> Seq<u8> {
    seq![69u8, 67, 72, 79]
}

/// The bytes "INFO".
pub open spec fn spec_info_word() -> Seq<u8> {
    seq![73u8, 78, 70, 79]
}

/// The bytes "SET".
pub open spec fn spec_set_word() -> Seq<u8> {
    seq![83u8, 69, 84]
}

/// The bytes "KEYS".
pub open spec fn spec_keys_word() -> Seq<u8> {
    seq![75u8, 69, 89, 83]
}

/// The bytes "REPLCONF".
pub open spec fn spec_replconf_word() -> Seq<u8> {
    seq![82u8, 69, 80, 76, 67, 79, 78, 70]
}

/// The bytes "PSYNC".
pub open spec fn spec_psync_word() -> Seq<u8> {
    seq![80u8, 83, 89, 78, 67]
}

/// The bytes "CONFIG".
pub open spec fn spec_config_word() -> Seq<u8> {
    seq![67u8, 79, 78, 70, 73, 71]
}

/// The bytes "Invalid command: '" followed by the command name as sent and a
/// closing quote.
pub open spec fn spec_invalid_cmd_msg(cmd: Seq<u8>) -> Seq<u8> {
    seq![
        73u8, 110, 118, 97, 108, 105, 100, 32, 99, 111, 109, 109, 97, 110, 100, 58, 32, 39,
    ] + cmd + seq![39u8]
}

/// Routes one request to its handler: validates the array-of-bulk-strings
/// shape, uppercases the command name, runs the command against the store,
/// and decides what the connection does next.
#[verifier::rlimit(100)]
pub fn dispatch(
    req: RedisValue,
    store: &mut Store,
    cfg: &Option<RedisServerConfig>,
    ctx: &ServerContext,
    now_ms: u64,
) -> (r: Outcome)
    requires
        old(store).wf(),
    ensures
        final(store).wf(),
        !spec_shape_ok(req@) ==> r is Close && store_same(*old(store), *final(store)),
        (spec_shape_ok(req@) && req@->Array_0.len() == 0) ==> r is Close && store_same(
            *old(store),
            *final(store),
        ),
        ({
            let xs = req@->Array_0;
            (spec_shape_ok(req@) && xs.len() >= 1) ==> {
                let cmd = xs[0]->BulkString_0;
                let u = spec_ascii_upper(cmd);
                let args = xs.subrange(1, xs.len() as int);
                &&& (u == spec_ping_word() ==> (r matches Outcome::Reply(v)
                    && v@ == SpecValue::SimpleString(spec_pong())) && store_same(
                    *old(store),
                    *final(store),
                ))
                &&& (u == spec_echo_word() ==> store_same(*old(store), *final(store)) && (
                if args.len() >= 1 {
                    r matches Outcome::Reply(v) && v@ == args[0]
                } else {
                    r is Close
                }))
                &&& (u == spec_info_word() ==> (r matches Outcome::Reply(v)
                    && v@ == SpecValue::BulkString(spec_info_payload(*ctx))) && store_same(
                    *old(store),
                    *final(store),
                ))
                &&& (u == spec_set_word() ==> (match spec_set_outcome(old(store).main_view(),
                    old(store).expiry_view(), args, now_ms) {
                    Option::Some(maps) => (r matches Outcome::Reply(v)
                        && v@ == SpecValue::SimpleString(spec_ok())) && final(store).main_view()
                        == maps.0 && final(store).expiry_view() == maps.1,
                    Option::None => r is Close && store_same(*old(store), *final(store)),
                }))
                &&& (u == spec_get_word() ==> ((args.len() == 0 || !(args[0] is BulkString))
                    ==> r is Close && store_same(*old(store), *final(store))) && ((args.len()
                    >= 1 && args[0] is BulkString) ==> {
                    let k = args[0]->BulkString_0;
                    &&& (old(store).spec_live(k, now_ms) ==> (r matches Outcome::Reply(v)
                        && v@ == SpecValue::BulkString(old(store).main_view()[k]))
                        && store_same(*old(store), *final(store)))
                    &&& ((old(store).main_view().contains_key(k) && !old(store).spec_live(
                        k,
                        now_ms,
                    )) ==> (r matches Outcome::Reply(v) && v@ == SpecValue::NullBulkString)
                        && final(store).main_view() == old(store).main_view().remove(k)
                        && final(store).expiry_view() == old(store).expiry_view().remove(k))
                    &&& (!old(store).main_view().contains_key(k) ==> (r matches Outcome::Reply(
                        v,
                    ) && v@ == SpecValue::NullBulkString) && store_same(
                        *old(store),
                        *final(store),
                    ))
                }))
                &&& (u == spec_keys_word() ==> store_same(*old(store), *final(store)) && (
                if args.len() == 0 {
                    r is Close
                } else {
                    r matches Outcome::Reply(v) && v@ matches SpecValue::Array(ks) && {
                        &&& forall|i: int| 0 <= i < ks.len() ==> ((#[trigger] ks[i]) matches
                            SpecValue::BulkString(b) && old(store).spec_live(b, now_ms))
                        &&& forall|k: Seq<u8>| old(store).spec_live(k, now_ms) ==> exists|i: int|
                            0 <= i < ks.len() && (#[trigger] ks[i]) == SpecValue::BulkString(k)
                        &&& forall|i: int, j: int| 0 <= i < j < ks.len() ==> (#[trigger] ks[i])
                            != (#[trigger] ks[j])
                    }
                }))
                &&& (u == spec_replconf_word() ==> (r matches Outcome::Reply(v)
                    && v@ == SpecValue::SimpleString(spec_ok())) && store_same(
                    *old(store),
                    *final(store),
                ))
                &&& (u == spec_psync_word() ==> (r matches Outcome::FullResync(v)
                    && v@ == SpecValue::SimpleString(spec_psync_reply(*ctx))) && store_same(
                    *old(store),
                    *final(store),
                ))
                &&& (u == spec_config_word() ==> store_same(*old(store), *final(store)) && (
                match spec_config_reply(*cfg, args) {
                    Option::Some(v) => r matches Outcome::Reply(rv) && rv@ == v,
                    Option::None => r is Close,
                }))
                &&& ((u != spec_ping_word() && u != spec_echo_word() && u != spec_info_word()
                    && u != spec_set_word() && u != spec_get_word() && u != spec_keys_word()
                    && u != spec_replconf_word() && u != spec_psync_word() && u
                    != spec_config_word()) ==> (r matches Outcome::Reply(v)
                    && v@ == SpecValue::SimpleError(spec_invalid_cmd_msg(cmd))) && store_same(
                    *old(store),
                    *final(store),
                ))
            }
        }),
{
    let shape_ok: bool = match &req {
        RedisValue::Array(items) => {
            let mut ok = true;
            let mut i: usize = 0;
            proof {
                crate::value::lemma_values_view(items@);
            }
            while i < items.len()
                invariant
                    i <= items@.len(),
                    req@ matches SpecValue::Array(xs) && xs == values_view(items@),
                    values_view(items@).len() == items@.len(),
                    forall|j: int| 0 <= j < items@.len() ==> values_view(items@)[j]
                        == crate::value::value_view(items@[j]),
                    ok ==> forall|j: int| 0 <= j < i ==> (#[trigger] values_view(
                        items@,
                    )[j]) is BulkString,
                    !ok ==> !spec_shape_ok(req@),
                decreases items@.len() - i,
            {
                match &items[i] {
                    RedisValue::BulkString(_) => {},
                    _ => {
                        proof {
                            assert(!(values_view(items@)[i as int] is BulkString));
                        }
                        ok = false;
                    },
                }
                i += 1;
            }
            ok
        },
        _ => false,
    };
    if !shape_ok {
        return Outcome::Close;
    }
    let (cmd, args) = match req.get_cmd_and_args() {
        Option::None => {
            return Outcome::Close;
        },
        Option::Some(p) => p,
    };
    let upper = to_ascii_upper(&cmd);
    if bytes_eq(&upper, &vec![80u8, 73, 78, 71]) {
        Outcome::Reply(ping())
    } else if bytes_eq(&upper, &vec![69u8, 67, 72, 79]) {
        let mut a = args;
        match echo(&mut a) {
            Option::Some(v) => Outcome::Reply(v),
            Option::None => Outcome::Close,
        }
    } else if bytes_eq(&upper, &vec![73u8, 78, 70, 79]) {
        Outcome::Reply(info(ctx))
    } else if bytes_eq(&upper, &vec![83u8, 69, 84]) {
        match set(store, &args, now_ms) {
            Option::Some(v) => Outcome::Reply(v),
            Option::None => Outcome::Close,
        }
    } else if bytes_eq(&upper, &vec![71u8, 69, 84]) {
        match get(store, &args, now_ms) {
            Option::Some(v) => Outcome::Reply(v),
            Option::None => Outcome::Close,
        }
    } else if bytes_eq(&upper, &vec![75u8, 69, 89, 83]) {
        match keys(store, &args, now_ms) {
            Option::Some(v) => Outcome::Reply(v),
            Option::None => Outcome::Close,
        }
    } else if bytes_eq(&upper, &vec![82u8, 69, 80, 76, 67, 79, 78, 70]) {
        Outcome::Reply(replconf())
    } else if bytes_eq(&upper, &vec![80u8, 83, 89, 78, 67]) {
        Outcome::FullResync(psync(ctx))
    } else if bytes_eq(&upper, &vec![67u8, 79, 78, 70, 73, 71]) {
        match config(cfg, &args) {
            Option::Some(v) => Outcome::Reply(v),
            Option::None => Outcome::Close,
        }
    } else {
        let mut msg: Vec<u8> = vec![
            73u8, 110, 118, 97, 108, 105, 100, 32, 99, 111, 109, 109, 97, 110, 100, 58, 32, 39,
        ];
        crate::serde::push_all(&mut msg, &cmd);
        msg.push(39);
        proof {
            assert(msg@ =~= spec_invalid_cmd_msg(cmd@));
        }
        Outcome::Reply(RedisValue::SimpleError(msg))
    }
}

} // verus!
