//! The binary form of an event's payload mapping.
//!
//! The store keeps the whole payload as one opaque blob; this module
//! defines that framing: a count followed by length-prefixed entries,
//! strings as 32-bit code points, integers as sign and magnitude,
//! floats as bit patterns, and lists and dictionaries nesting freely.
//! Decoding is total on arbitrary bytes and inverts encoding exactly,
//! so no payload field is ever lost or reshaped by storage.

use vstd::prelude::*;
use vstd::bytes::{
    spec_u32_from_le_bytes, spec_u32_to_le_bytes, spec_u64_from_le_bytes, spec_u64_to_le_bytes,
    lemma_auto_spec_u32_to_from_le_bytes, lemma_auto_spec_u64_to_from_le_bytes, u32_from_le_bytes,
    u32_to_le_bytes, u64_from_le_bytes, u64_to_le_bytes,
};
use crate::data::{ExtraEntry, Value, ValueV, extra_v};

verus! {

pub const TAG_STR: u8 = 0;

pub const TAG_INT: u8 = 1;

pub const TAG_BOOL: u8 = 2;

pub const TAG_BYTES: u8 = 3;

pub const TAG_F64: u8 = 4;

pub const TAG_NULL: u8 = 5;

pub const TAG_LIST: u8 = 6;

pub const TAG_DICT: u8 = 7;

// ---------------------------------------------------------------------------
// Encoding, at the specification level.
// ---------------------------------------------------------------------------
/// Characters, one 32-bit little-endian code point each.
pub open spec fn enc_chars(s: Seq<char>) -> Seq<u8>
    decreases s.len(),
{
    if s.len() == 0 {
        Seq::empty()
    } else {
        spec_u32_to_le_bytes(s[0] as u32) + enc_chars(s.drop_first())
    }
}

/// A string: 64-bit character count, then the characters.
pub open spec fn enc_str(s: Seq<char>) -> Seq<u8> {
    spec_u64_to_le_bytes(s.len() as u64) + enc_chars(s)
}

/// A value: a tag byte, then the payload of its variant.  Lists and
/// dictionaries nest, prefixed by their element count.
pub open spec fn enc_value(v: ValueV) -> Seq<u8>
    decreases v, 0int,
    via enc_value_dec
{
    match v {
        ValueV::Str(s) => seq![TAG_STR] + enc_str(s),
        ValueV::Int(i) => if i >= 0 {
            seq![TAG_INT, 0u8] + spec_u64_to_le_bytes(i as u64)
        } else {
            seq![TAG_INT, 1u8] + spec_u64_to_le_bytes((-1 - i) as u64)
        },
        ValueV::Bool(b) => seq![TAG_BOOL, (if b { 1u8 } else { 0u8 })],
        ValueV::Bytes(bs) => seq![TAG_BYTES] + spec_u64_to_le_bytes(bs.len() as u64) + bs,
        ValueV::F64Bits(b) => seq![TAG_F64] + spec_u64_to_le_bytes(b),
        ValueV::Null => seq![TAG_NULL],
        ValueV::List(l) => seq![TAG_LIST] + spec_u64_to_le_bytes(l.len() as u64) + enc_values(l),
        ValueV::Dict(m) => seq![TAG_DICT] + spec_u64_to_le_bytes(m.len() as u64) + enc_entries(
            m,
        ),
    }
}

/// List elements, one after the other.
pub open spec fn enc_values(l: Seq<ValueV>) -> Seq<u8>
    decreases l, 1int,
    via enc_values_dec
{
    if l.len() == 0 {
        Seq::empty()
    } else {
        enc_value(l[0]) + enc_values(l.drop_first())
    }
}

/// Entries, one after the other: key string, then value.
pub open spec fn enc_entries(m: Seq<(Seq<char>, ValueV)>) -> Seq<u8>
    decreases m, 1int,
    via enc_entries_dec
{
    if m.len() == 0 {
        Seq::empty()
    } else {
        enc_str(m[0].0) + enc_value(m[0].1) + enc_entries(m.drop_first())
    }
}

#[via_fn]
proof fn enc_value_dec(v: ValueV) {
    match v {
        ValueV::List(l) => {
            assert(decreases_to!(v => l));
        },
        ValueV::Dict(m) => {
            assert(decreases_to!(v => m));
        },
        _ => {},
    }
}

#[via_fn]
proof fn enc_values_dec(l: Seq<ValueV>) {
    broadcast use vstd::seq::axiom_seq_index_decreases;
    broadcast use vstd::seq::axiom_seq_subrange_decreases;

    if l.len() > 0 {
        assert(decreases_to!(l => l[0]));
        assert(l.drop_first() == l.subrange(1, l.len() as int));
        assert(decreases_to!(l => l.subrange(1, l.len() as int)));
    }
}

#[via_fn]
proof fn enc_entries_dec(m: Seq<(Seq<char>, ValueV)>) {
    broadcast use vstd::seq::axiom_seq_index_decreases;
    broadcast use vstd::seq::axiom_seq_subrange_decreases;

    if m.len() > 0 {
        assert(decreases_to!(m => m[0]));
        assert(decreases_to!(m[0] => m[0].1));
        assert(m.drop_first() == m.subrange(1, m.len() as int));
        assert(decreases_to!(m => m.subrange(1, m.len() as int)));
    }
}

/// A whole payload mapping: 64-bit entry count, then the entries.
pub open spec fn enc_extra(m: Seq<(Seq<char>, ValueV)>) -> Seq<u8> {
    spec_u64_to_le_bytes(m.len() as u64) + enc_entries(m)
}

/// The lengths a payload must respect for its counts to fit the framing;
/// every value held in memory respects them.
pub open spec fn wf_value(v: ValueV) -> bool
    decreases v, 0int,
    via wf_value_dec
{
    match v {
        ValueV::Str(s) => s.len() <= u64::MAX,
        ValueV::Bytes(bs) => bs.len() <= u64::MAX,
        ValueV::List(l) => l.len() <= u64::MAX && wf_values(l),
        ValueV::Dict(m) => m.len() <= u64::MAX && wf_entries(m),
        _ => true,
    }
}

pub open spec fn wf_values(l: Seq<ValueV>) -> bool
    decreases l, 1int,
    via wf_values_dec
{
    if l.len() == 0 {
        true
    } else {
        wf_value(l[0]) && wf_values(l.drop_first())
    }
}

pub open spec fn wf_entries(m: Seq<(Seq<char>, ValueV)>) -> bool
    decreases m, 1int,
    via wf_entries_dec
{
    if m.len() == 0 {
        true
    } else {
        wf_entry(m[0]) && wf_entries(m.drop_first())
    }
}

pub open spec fn wf_entry(e: (Seq<char>, ValueV)) -> bool
    decreases e, 0int,
    via wf_entry_dec
{
    e.0.len() <= u64::MAX && wf_value(e.1)
}

#[via_fn]
proof fn wf_value_dec(v: ValueV) {
    match v {
        ValueV::List(l) => {
            assert(decreases_to!(v => l));
        },
        ValueV::Dict(m) => {
            assert(decreases_to!(v => m));
        },
        _ => {},
    }
}

#[via_fn]
proof fn wf_values_dec(l: Seq<ValueV>) {
    broadcast use vstd::seq::axiom_seq_index_decreases;
    broadcast use vstd::seq::axiom_seq_subrange_decreases;

    if l.len() > 0 {
        assert(decreases_to!(l => l[0]));
        assert(l.drop_first() == l.subrange(1, l.len() as int));
        assert(decreases_to!(l => l.subrange(1, l.len() as int)));
    }
}

#[via_fn]
proof fn wf_entries_dec(m: Seq<(Seq<char>, ValueV)>) {
    broadcast use vstd::seq::axiom_seq_index_decreases;
    broadcast use vstd::seq::axiom_seq_subrange_decreases;

    if m.len() > 0 {
        assert(decreases_to!(m => m[0]));
        assert(m.drop_first() == m.subrange(1, m.len() as int));
        assert(decreases_to!(m => m.subrange(1, m.len() as int)));
    }
}

#[via_fn]
proof fn wf_entry_dec(e: (Seq<char>, ValueV)) {
    assert(decreases_to!(e => e.1));
}

/// A well-formed entry run is well-formed entry by entry.
proof fn lemma_wf_entries_index(m: Seq<(Seq<char>, ValueV)>)
    requires
        wf_entries(m),
    ensures
        forall|k: int| 0 <= k < m.len() ==> wf_entry(#[trigger] m[k]),
    decreases m.len(),
{
    if m.len() > 0 {
        lemma_wf_entries_index(m.drop_first());
        assert forall|k: int| 0 <= k < m.len() implies wf_entry(#[trigger] m[k]) by {
            if k > 0 {
                assert(m.drop_first()[k - 1] == m[k]);
            }
        }
    }
}

pub open spec fn wf_extra(m: Seq<(Seq<char>, ValueV)>) -> bool {
    m.len() <= u64::MAX && forall|i: int| 0 <= i < m.len() ==> wf_entry(#[trigger] m[i])
}

// ---------------------------------------------------------------------------
// Decoding, at the specification level.  A decoder takes the buffer and a
// cursor and yields the decoded piece with the cursor after it, or nothing.
// ---------------------------------------------------------------------------
pub open spec fn dec_u64(s: Seq<u8>, i: int) -> Option<(u64, int)> {
    if 0 <= i && i + 8 <= s.len() {
        Some((spec_u64_from_le_bytes(s.subrange(i, i + 8)), i + 8))
    } else {
        None
    }
}

pub open spec fn dec_u32(s: Seq<u8>, i: int) -> Option<(u32, int)> {
    if 0 <= i && i + 4 <= s.len() {
        Some((spec_u32_from_le_bytes(s.subrange(i, i + 4)), i + 4))
    } else {
        None
    }
}

/// The code points that are characters.
pub open spec fn valid_scalar(v: u32) -> bool {
    v < 0xD800 || (0xE000 <= v && v <= 0x10FFFF)
}

pub open spec fn dec_char(s: Seq<u8>, i: int) -> Option<(char, int)> {
    match dec_u32(s, i) {
        Some((v, j)) => if valid_scalar(v) {
            Some((v as char, j))
        } else {
            None
        },
        None => None,
    }
}

pub open spec fn dec_chars(s: Seq<u8>, i: int, n: nat) -> Option<(Seq<char>, int)>
    decreases n,
{
    if n == 0 {
        Some((Seq::empty(), i))
    } else {
        match dec_char(s, i) {
            Some((c, j)) => match dec_chars(s, j, (n - 1) as nat) {
                Some((cs, e)) => Some((seq![c] + cs, e)),
                None => None,
            },
            None => None,
        }
    }
}

pub open spec fn dec_str(s: Seq<u8>, i: int) -> Option<(Seq<char>, int)> {
    match dec_u64(s, i) {
        Some((n, j)) => dec_chars(s, j, n as nat),
        None => None,
    }
}

/// One tagged value; nesting spends one unit of `fuel`, which the
/// callers bound by the buffer length: a value cannot nest deeper than
/// its own encoding is long.
pub open spec fn dec_value(s: Seq<u8>, i: int, fuel: nat) -> Option<(ValueV, int)>
    decreases fuel, 0int, 0int,
{
    if fuel == 0 {
        None
    } else if !(0 <= i && i < s.len()) {
        None
    } else if s[i] == TAG_STR {
        match dec_str(s, i + 1) {
            Some((cs, j)) => Some((ValueV::Str(cs), j)),
            None => None,
        }
    } else if s[i] == TAG_INT {
        if i + 2 <= s.len() {
            match dec_u64(s, i + 2) {
                Some((m, j)) => if s[i + 1] == 0 && m <= i64::MAX {
                    Some((ValueV::Int(m as i64), j))
                } else if s[i + 1] == 1 && m <= i64::MAX {
                    Some((ValueV::Int((-1 - m) as i64), j))
                } else {
                    None
                },
                None => None,
            }
        } else {
            None
        }
    } else if s[i] == TAG_BOOL {
        if i + 2 <= s.len() && (s[i + 1] == 0 || s[i + 1] == 1) {
            Some((ValueV::Bool(s[i + 1] == 1), i + 2))
        } else {
            None
        }
    } else if s[i] == TAG_BYTES {
        match dec_u64(s, i + 1) {
            Some((n, j)) => if j + n <= s.len() {
                Some((ValueV::Bytes(s.subrange(j, j + n)), j + n))
            } else {
                None
            },
            None => None,
        }
    } else if s[i] == TAG_F64 {
        match dec_u64(s, i + 1) {
            Some((b, j)) => Some((ValueV::F64Bits(b), j)),
            None => None,
        }
    } else if s[i] == TAG_NULL {
        Some((ValueV::Null, i + 1))
    } else if s[i] == TAG_LIST {
        match dec_u64(s, i + 1) {
            Some((n, j)) => match dec_values(s, j, n as nat, (fuel - 1) as nat) {
                Some((vs, e)) => Some((ValueV::List(vs), e)),
                None => None,
            },
            None => None,
        }
    } else if s[i] == TAG_DICT {
        match dec_u64(s, i + 1) {
            Some((n, j)) => match dec_entries(s, j, n as nat, (fuel - 1) as nat) {
                Some((es, e)) => Some((ValueV::Dict(es), e)),
                None => None,
            },
            None => None,
        }
    } else {
        None
    }
}

pub open spec fn dec_values(s: Seq<u8>, i: int, n: nat, fuel: nat) -> Option<(Seq<ValueV>, int)>
    decreases fuel, 1int, n,
{
    if n == 0 {
        Some((Seq::empty(), i))
    } else {
        match dec_value(s, i, fuel) {
            Some((v, j)) => match dec_values(s, j, (n - 1) as nat, fuel) {
                Some((rest, e)) => Some((seq![v] + rest, e)),
                None => None,
            },
            None => None,
        }
    }
}

pub open spec fn dec_entries(s: Seq<u8>, i: int, n: nat, fuel: nat) -> Option<
    (Seq<(Seq<char>, ValueV)>, int),
>
    decreases fuel, 1int, n,
{
    if n == 0 {
        Some((Seq::empty(), i))
    } else {
        match dec_str(s, i) {
            Some((k, j)) => match dec_value(s, j, fuel) {
                Some((v, j2)) => match dec_entries(s, j2, (n - 1) as nat, fuel) {
                    Some((rest, e)) => Some((seq![(k, v)] + rest, e)),
                    None => None,
                },
                None => None,
            },
            None => None,
        }
    }
}

/// A whole blob; the entries must consume it exactly.
pub open spec fn dec_extra(s: Seq<u8>) -> Option<Seq<(Seq<char>, ValueV)>> {
    match dec_u64(s, 0) {
        Some((n, j)) => match dec_entries(s, j, n as nat, s.len()) {
            Some((m, e)) => if e == s.len() {
                Some(m)
            } else {
                None
            },
            None => None,
        },
        None => None,
    }
}

// ---------------------------------------------------------------------------
// Round trip: decoding an encoding, wherever it sits in a buffer, yields
// the encoded piece and moves the cursor past it.
// ---------------------------------------------------------------------------
/// A buffer window equal to a concatenation splits into windows equal to
/// the two parts.
proof fn lemma_split2(s: Seq<u8>, i: int, a: Seq<u8>, b: Seq<u8>)
    requires
        0 <= i,
        i + a.len() + b.len() <= s.len(),
        s.subrange(i, i + a.len() + b.len()) == a + b,
    ensures
        s.subrange(i, i + a.len()) == a,
        s.subrange(i + a.len(), i + a.len() + b.len()) == b,
{
    let la = a.len() as int;
    let lb = b.len() as int;
    assert(s.subrange(i, i + la) =~= a) by {
        assert forall|k: int| 0 <= k < la implies s.subrange(i, i + la)[k] == a[k] by {
            assert(s.subrange(i, i + la + lb)[k] == (a + b)[k]);
        }
    }
    assert(s.subrange(i + la, i + la + lb) =~= b) by {
        assert forall|k: int| 0 <= k < lb implies s.subrange(i + la, i + la + lb)[k] == b[k] by {
            assert(s.subrange(i, i + la + lb)[la + k] == (a + b)[la + k]);
        }
    }
}

pub proof fn lemma_dec_u64(s: Seq<u8>, i: int, x: u64)
    requires
        0 <= i,
        i + 8 <= s.len(),
        s.subrange(i, i + 8) == spec_u64_to_le_bytes(x),
    ensures
        dec_u64(s, i) == Some((x, i + 8)),
{
    lemma_auto_spec_u64_to_from_le_bytes();
}

pub proof fn lemma_dec_char(s: Seq<u8>, i: int, c: char)
    requires
        0 <= i,
        i + 4 <= s.len(),
        s.subrange(i, i + 4) == spec_u32_to_le_bytes(c as u32),
    ensures
        dec_char(s, i) == Some((c, i + 4)),
{
    lemma_auto_spec_u32_to_from_le_bytes();
    assert(spec_u32_to_le_bytes(c as u32).len() == 4);
    assert(spec_u32_from_le_bytes(spec_u32_to_le_bytes(c as u32)) == c as u32);
    assert(dec_u32(s, i) == Some((c as u32, i + 4)));
    assert(valid_scalar(c as u32));
    assert((c as u32) as char == c);
    assert(dec_char(s, i) == Some(((c as u32) as char, i + 4)));
}

pub proof fn lemma_enc_chars_len(cs: Seq<char>)
    ensures
        enc_chars(cs).len() == 4 * cs.len(),
    decreases cs.len(),
{
    lemma_auto_spec_u32_to_from_le_bytes();
    if cs.len() > 0 {
        lemma_enc_chars_len(cs.drop_first());
    }
}

pub proof fn lemma_dec_chars(s: Seq<u8>, i: int, cs: Seq<char>)
    requires
        0 <= i,
        i + enc_chars(cs).len() <= s.len(),
        s.subrange(i, i + enc_chars(cs).len()) == enc_chars(cs),
    ensures
        dec_chars(s, i, cs.len()) == Some((cs, i + enc_chars(cs).len())),
    decreases cs.len(),
{
    lemma_enc_chars_len(cs);
    lemma_auto_spec_u32_to_from_le_bytes();
    if cs.len() == 0 {
        assert(cs =~= Seq::<char>::empty());
    } else {
        let c = cs[0];
        let rest = cs.drop_first();
        lemma_enc_chars_len(rest);
        assert(enc_chars(cs) == spec_u32_to_le_bytes(c as u32) + enc_chars(rest));
        lemma_split2(s, i, spec_u32_to_le_bytes(c as u32), enc_chars(rest));
        lemma_dec_char(s, i, c);
        lemma_dec_chars(s, i + 4, rest);
        assert(seq![c] + rest =~= cs);
    }
}

pub proof fn lemma_dec_str(s: Seq<u8>, i: int, cs: Seq<char>)
    requires
        0 <= i,
        cs.len() <= u64::MAX,
        i + enc_str(cs).len() <= s.len(),
        s.subrange(i, i + enc_str(cs).len()) == enc_str(cs),
    ensures
        dec_str(s, i) == Some((cs, i + enc_str(cs).len())),
{
    lemma_enc_chars_len(cs);
    lemma_auto_spec_u64_to_from_le_bytes();
    let n = cs.len() as u64;
    assert(enc_str(cs) == spec_u64_to_le_bytes(n) + enc_chars(cs));
    lemma_split2(s, i, spec_u64_to_le_bytes(n), enc_chars(cs));
    lemma_dec_u64(s, i, n);
    lemma_dec_chars(s, i + 8, cs);
    assert(n as nat == cs.len());
}

pub proof fn lemma_dec_value(s: Seq<u8>, i: int, v: ValueV, fuel: nat)
    requires
        0 <= i,
        wf_value(v),
        fuel >= enc_value(v).len(),
        i + enc_value(v).len() <= s.len(),
        s.subrange(i, i + enc_value(v).len()) == enc_value(v),
    ensures
        dec_value(s, i, fuel) == Some((v, i + enc_value(v).len())),
    decreases v, 0int,
{
    match v {
        ValueV::Str(cs) => {
            assert(enc_value(v) == seq![TAG_STR] + enc_str(cs));
            lemma_auto_spec_u64_to_from_le_bytes();
            lemma_enc_chars_len(cs);
            lemma_split2(s, i, seq![TAG_STR], enc_str(cs));
            assert(s.subrange(i, i + 1)[0] == TAG_STR);
            assert(s[i] == TAG_STR);
            lemma_dec_str(s, i + 1, cs);
        },
        ValueV::Int(x) => {
            let m: u64 = if x >= 0 {
                x as u64
            } else {
                (-1 - x) as u64
            };
            let sb: u8 = if x >= 0 {
                0
            } else {
                1
            };
            assert(enc_value(v) == seq![TAG_INT, sb] + spec_u64_to_le_bytes(m));
            lemma_auto_spec_u64_to_from_le_bytes();
            lemma_split2(s, i, seq![TAG_INT, sb], spec_u64_to_le_bytes(m));
            assert(s.subrange(i, i + 2)[0] == TAG_INT);
            assert(s.subrange(i, i + 2)[1] == sb);
            assert(s[i] == TAG_INT);
            assert(s[i + 1] == sb);
            lemma_dec_u64(s, i + 2, m);
            assert(m <= i64::MAX);
            if x >= 0 {
                assert(m as i64 == x);
            } else {
                assert((-1 - m) as i64 == x);
            }
        },
        ValueV::Bool(b) => {
            let byt: u8 = if b {
                1
            } else {
                0
            };
            assert(enc_value(v) == seq![TAG_BOOL, byt]);
            assert(s.subrange(i, i + 2)[0] == TAG_BOOL);
            assert(s.subrange(i, i + 2)[1] == byt);
            assert(s[i] == TAG_BOOL);
            assert(s[i + 1] == byt);
        },
        ValueV::Bytes(bs) => {
            let n: u64 = bs.len() as u64;
            assert(enc_value(v) == seq![TAG_BYTES] + (spec_u64_to_le_bytes(n) + bs));
            lemma_auto_spec_u64_to_from_le_bytes();
            lemma_split2(s, i, seq![TAG_BYTES], spec_u64_to_le_bytes(n) + bs);
            assert(s.subrange(i, i + 1)[0] == TAG_BYTES);
            assert(s[i] == TAG_BYTES);
            lemma_split2(s, i + 1, spec_u64_to_le_bytes(n), bs);
            lemma_dec_u64(s, i + 1, n);
            assert(s.subrange(i + 9, i + 9 + n) == bs);
        },
        ValueV::F64Bits(b) => {
            assert(enc_value(v) == seq![TAG_F64] + spec_u64_to_le_bytes(b));
            lemma_auto_spec_u64_to_from_le_bytes();
            lemma_split2(s, i, seq![TAG_F64], spec_u64_to_le_bytes(b));
            assert(s.subrange(i, i + 1)[0] == TAG_F64);
            assert(s[i] == TAG_F64);
            lemma_dec_u64(s, i + 1, b);
        },
        ValueV::Null => {
            assert(enc_value(v) == seq![TAG_NULL]);
            assert(s.subrange(i, i + 1)[0] == TAG_NULL);
            assert(s[i] == TAG_NULL);
        },
        ValueV::List(l) => {
            let n: u64 = l.len() as u64;
            assert(enc_value(v) == seq![TAG_LIST] + (spec_u64_to_le_bytes(n) + enc_values(l)));
            lemma_auto_spec_u64_to_from_le_bytes();
            lemma_split2(s, i, seq![TAG_LIST], spec_u64_to_le_bytes(n) + enc_values(l));
            assert(s.subrange(i, i + 1)[0] == TAG_LIST);
            assert(s[i] == TAG_LIST);
            lemma_split2(s, i + 1, spec_u64_to_le_bytes(n), enc_values(l));
            lemma_dec_u64(s, i + 1, n);
            assert(decreases_to!(v => l));
            lemma_dec_values(s, i + 9, l, (fuel - 1) as nat);
            assert(n as nat == l.len());
        },
        ValueV::Dict(m) => {
            let n: u64 = m.len() as u64;
            assert(enc_value(v) == seq![TAG_DICT] + (spec_u64_to_le_bytes(n) + enc_entries(m)));
            lemma_auto_spec_u64_to_from_le_bytes();
            lemma_split2(s, i, seq![TAG_DICT], spec_u64_to_le_bytes(n) + enc_entries(m));
            assert(s.subrange(i, i + 1)[0] == TAG_DICT);
            assert(s[i] == TAG_DICT);
            lemma_split2(s, i + 1, spec_u64_to_le_bytes(n), enc_entries(m));
            lemma_dec_u64(s, i + 1, n);
            assert(decreases_to!(v => m));
            lemma_wf_entries_index(m);
            lemma_dec_entries(s, i + 9, m, (fuel - 1) as nat);
            assert(n as nat == m.len());
        },
    }
}

pub proof fn lemma_dec_values(s: Seq<u8>, i: int, l: Seq<ValueV>, fuel: nat)
    requires
        0 <= i,
        wf_values(l),
        fuel >= enc_values(l).len(),
        i + enc_values(l).len() <= s.len(),
        s.subrange(i, i + enc_values(l).len()) == enc_values(l),
    ensures
        dec_values(s, i, l.len(), fuel) == Some((l, i + enc_values(l).len())),
    decreases l, 1int,
{
    broadcast use vstd::seq::axiom_seq_index_decreases;
    broadcast use vstd::seq::axiom_seq_subrange_decreases;

    if l.len() == 0 {
        assert(l =~= Seq::<ValueV>::empty());
    } else {
        let v0 = l[0];
        let rest = l.drop_first();
        let lv = enc_value(v0).len() as int;
        let lr = enc_values(rest).len() as int;
        assert(enc_values(l) == enc_value(v0) + enc_values(rest));
        lemma_split2(s, i, enc_value(v0), enc_values(rest));
        assert(decreases_to!(l => l[0]));
        lemma_dec_value(s, i, v0, fuel);
        assert(rest == l.subrange(1, l.len() as int));
        assert(decreases_to!(l => l.subrange(1, l.len() as int)));
        lemma_dec_values(s, i + lv, rest, fuel);
        assert(seq![v0] + rest =~= l);
    }
}

pub proof fn lemma_dec_entries(s: Seq<u8>, i: int, m: Seq<(Seq<char>, ValueV)>, fuel: nat)
    requires
        0 <= i,
        forall|k: int| 0 <= k < m.len() ==> wf_entry(#[trigger] m[k]),
        fuel >= enc_entries(m).len(),
        i + enc_entries(m).len() <= s.len(),
        s.subrange(i, i + enc_entries(m).len()) == enc_entries(m),
    ensures
        dec_entries(s, i, m.len(), fuel) == Some((m, i + enc_entries(m).len())),
    decreases m, 1int,
{
    broadcast use vstd::seq::axiom_seq_index_decreases;
    broadcast use vstd::seq::axiom_seq_subrange_decreases;

    if m.len() == 0 {
        assert(m =~= Seq::<(Seq<char>, ValueV)>::empty());
    } else {
        let k0 = m[0].0;
        let v0 = m[0].1;
        let rest = m.drop_first();
        let lk = enc_str(k0).len() as int;
        let lv = enc_value(v0).len() as int;
        let lr = enc_entries(rest).len() as int;
        assert(wf_entry(m[0]));
        assert(enc_entries(m) == enc_str(k0) + enc_value(v0) + enc_entries(rest));
        assert(enc_str(k0) + enc_value(v0) + enc_entries(rest) =~= enc_str(k0) + (enc_value(v0)
            + enc_entries(rest)));
        lemma_split2(s, i, enc_str(k0), enc_value(v0) + enc_entries(rest));
        lemma_dec_str(s, i, k0);
        lemma_split2(s, i + lk, enc_value(v0), enc_entries(rest));
        assert(decreases_to!(m => m[0]));
        assert(decreases_to!(m[0] => m[0].1));
        lemma_dec_value(s, i + lk, v0, fuel);
        assert(forall|k: int| 0 <= k < rest.len() ==> wf_entry(#[trigger] rest[k]));
        assert(rest == m.subrange(1, m.len() as int));
        assert(decreases_to!(m => m.subrange(1, m.len() as int)));
        lemma_dec_entries(s, i + lk + lv, rest, fuel);
        assert(seq![(k0, v0)] + rest =~= m);
    }
}

/// Decoding inverts encoding: the central guarantee of the blob format.
pub proof fn lemma_codec_round_trip(m: Seq<(Seq<char>, ValueV)>)
    requires
        wf_extra(m),
    ensures
        dec_extra(enc_extra(m)) == Some(m),
{
    let s = enc_extra(m);
    lemma_auto_spec_u64_to_from_le_bytes();
    let n = m.len() as u64;
    assert(s == spec_u64_to_le_bytes(n) + enc_entries(m));
    assert(s.subrange(0, s.len() as int) =~= s);
    lemma_split2(s, 0, spec_u64_to_le_bytes(n), enc_entries(m));
    lemma_dec_u64(s, 0, n);
    lemma_dec_entries(s, 8, m, s.len());
    assert(n as nat == m.len());
}

// ---------------------------------------------------------------------------
// Encoding, executable.
// ---------------------------------------------------------------------------
/// Appends the bytes of `b` to `out`.
fn push_bytes(out: &mut Vec<u8>, b: &Vec<u8>)
    ensures
        final(out)@ == old(out)@ + b@,
{
    let mut i: usize = 0;
    while i < b.len()
        invariant
            0 <= i <= b.len(),
            out@ =~= old(out)@ + b@.take(i as int),
        decreases b.len() - i,
    {
        out.push(b[i]);
        assert(old(out)@ + b@.take(i as int) + seq![b@[i as int]] =~= old(out)@ + b@.take(
            i + 1 as int,
        ));
        i += 1;
    }
    assert(out@ =~= old(out)@ + b@);
}

proof fn lemma_enc_chars_snoc(cs: Seq<char>, c: char)
    ensures
        enc_chars(cs.push(c)) == enc_chars(cs) + spec_u32_to_le_bytes(c as u32),
    decreases cs.len(),
{
    lemma_auto_spec_u32_to_from_le_bytes();
    if cs.len() == 0 {
        assert(cs.push(c)[0] == c);
        assert(cs.push(c).drop_first() =~= Seq::<char>::empty());
        assert(enc_chars(Seq::<char>::empty()) == Seq::<u8>::empty());
        assert(enc_chars(cs.push(c)) == spec_u32_to_le_bytes(c as u32) + Seq::<u8>::empty());
        assert(spec_u32_to_le_bytes(c as u32) + Seq::<u8>::empty() =~= enc_chars(cs)
            + spec_u32_to_le_bytes(c as u32));
    } else {
        assert(cs.push(c)[0] == cs[0]);
        assert(cs.push(c).drop_first() =~= cs.drop_first().push(c));
        lemma_enc_chars_snoc(cs.drop_first(), c);
        assert(enc_chars(cs.push(c)) == spec_u32_to_le_bytes(cs[0] as u32) + enc_chars(
            cs.drop_first().push(c),
        ));
        assert(enc_chars(cs) == spec_u32_to_le_bytes(cs[0] as u32) + enc_chars(cs.drop_first()));
        assert(spec_u32_to_le_bytes(cs[0] as u32) + (enc_chars(cs.drop_first())
            + spec_u32_to_le_bytes(c as u32)) =~= enc_chars(cs) + spec_u32_to_le_bytes(c as u32));
    }
}

proof fn lemma_enc_entries_snoc(m: Seq<(Seq<char>, ValueV)>, e: (Seq<char>, ValueV))
    ensures
        enc_entries(m.push(e)) == enc_entries(m) + enc_str(e.0) + enc_value(e.1),
    decreases m.len(),
{
    if m.len() == 0 {
        assert(m.push(e)[0] == e);
        assert(m.push(e).drop_first() =~= Seq::<(Seq<char>, ValueV)>::empty());
        assert(enc_entries(Seq::<(Seq<char>, ValueV)>::empty()) == Seq::<u8>::empty());
        assert(enc_entries(m.push(e)) == enc_str(e.0) + enc_value(e.1) + Seq::<u8>::empty());
        assert(enc_str(e.0) + enc_value(e.1) + Seq::<u8>::empty() =~= enc_entries(m) + enc_str(
            e.0,
        ) + enc_value(e.1));
    } else {
        assert(m.push(e)[0] == m[0]);
        assert(m.push(e).drop_first() =~= m.drop_first().push(e));
        lemma_enc_entries_snoc(m.drop_first(), e);
        assert(enc_entries(m.push(e)) == enc_str(m[0].0) + enc_value(m[0].1) + enc_entries(
            m.drop_first().push(e),
        ));
        assert(enc_entries(m) == enc_str(m[0].0) + enc_value(m[0].1) + enc_entries(
            m.drop_first(),
        ));
        assert(enc_str(m[0].0) + enc_value(m[0].1) + (enc_entries(m.drop_first()) + enc_str(e.0)
            + enc_value(e.1)) =~= enc_entries(m) + enc_str(e.0) + enc_value(e.1));
    }
}

/// Appends the encoding of the string `s` to `out`.
fn encode_str_into(out: &mut Vec<u8>, s: &str)
    ensures
        final(out)@ == old(out)@ + enc_str(s@),
        s@.len() <= u64::MAX,
{
    let n = s.unicode_len();
    let lenb = u64_to_le_bytes(n as u64);
    push_bytes(out, &lenb);
    let ghost mid = out@;
    let mut i: usize = 0;
    while i < n
        invariant
            n == s@.len(),
            0 <= i <= n,
            mid == old(out)@ + spec_u64_to_le_bytes(n as u64),
            out@ == mid + enc_chars(s@.take(i as int)),
        decreases n - i,
    {
        let c = s.get_char(i);
        let cb = u32_to_le_bytes(c as u32);
        push_bytes(out, &cb);
        proof {
            lemma_enc_chars_snoc(s@.take(i as int), c);
            assert(s@.take(i as int).push(c) =~= s@.take(i + 1 as int));
        }
        i += 1;
    }
    assert(s@.take(n as int) =~= s@);
}

proof fn lemma_enc_values_snoc(l: Seq<ValueV>, x: ValueV)
    ensures
        enc_values(l.push(x)) == enc_values(l) + enc_value(x),
    decreases l.len(),
{
    if l.len() == 0 {
        assert(l.push(x)[0] == x);
        assert(l.push(x).drop_first() =~= Seq::<ValueV>::empty());
        assert(enc_values(Seq::<ValueV>::empty()) == Seq::<u8>::empty());
        assert(enc_values(l.push(x)) == enc_value(x) + Seq::<u8>::empty());
        assert(enc_values(l) == Seq::<u8>::empty());
        assert(enc_value(x) + Seq::<u8>::empty() =~= enc_values(l) + enc_value(x));
    } else {
        assert(l.push(x)[0] == l[0]);
        assert(l.push(x).drop_first() =~= l.drop_first().push(x));
        lemma_enc_values_snoc(l.drop_first(), x);
        assert(enc_values(l.push(x)) == enc_value(l[0]) + (enc_values(l.drop_first())
            + enc_value(x)));
        assert(enc_value(l[0]) + (enc_values(l.drop_first()) + enc_value(x)) =~= enc_values(l)
            + enc_value(x));
    }
}

proof fn lemma_wf_values_snoc(l: Seq<ValueV>, x: ValueV)
    ensures
        wf_values(l.push(x)) == (wf_values(l) && wf_value(x)),
    decreases l.len(),
{
    if l.len() == 0 {
        assert(l.push(x)[0] == x);
        assert(l.push(x).drop_first() =~= Seq::<ValueV>::empty());
        assert(wf_values(Seq::<ValueV>::empty()));
        assert(wf_values(l));
    } else {
        assert(l.push(x)[0] == l[0]);
        assert(l.push(x).drop_first() =~= l.drop_first().push(x));
        lemma_wf_values_snoc(l.drop_first(), x);
    }
}

proof fn lemma_wf_entries_snoc(m: Seq<(Seq<char>, ValueV)>, e: (Seq<char>, ValueV))
    ensures
        wf_entries(m.push(e)) == (wf_entries(m) && wf_entry(e)),
    decreases m.len(),
{
    if m.len() == 0 {
        assert(m.push(e)[0] == e);
        assert(m.push(e).drop_first() =~= Seq::<(Seq<char>, ValueV)>::empty());
        assert(wf_entries(Seq::<(Seq<char>, ValueV)>::empty()));
        assert(wf_entries(m));
    } else {
        assert(m.push(e)[0] == m[0]);
        assert(m.push(e).drop_first() =~= m.drop_first().push(e));
        lemma_wf_entries_snoc(m.drop_first(), e);
    }
}

/// Appends the encoding of one payload value to `out`.
fn encode_value_into(out: &mut Vec<u8>, v: &Value)
    ensures
        final(out)@ == old(out)@ + enc_value(v@),
        wf_value(v@),
    decreases *v,
{
    match v {
        Value::Str(s) => {
            out.push(TAG_STR);
            encode_str_into(out, s.as_str());
            assert(out@ =~= old(out)@ + enc_value(v@));
        },
        Value::Int(i) => {
            out.push(TAG_INT);
            let m: u64 = if *i >= 0 {
                out.push(0u8);
                *i as u64
            } else {
                out.push(1u8);
                (-1 - *i) as u64
            };
            let mb = u64_to_le_bytes(m);
            push_bytes(out, &mb);
            assert(out@ =~= old(out)@ + enc_value(v@));
        },
        Value::Bool(b) => {
            out.push(TAG_BOOL);
            out.push(if *b {
                1u8
            } else {
                0u8
            });
            assert(out@ =~= old(out)@ + enc_value(v@));
        },
        Value::Bytes(bs) => {
            out.push(TAG_BYTES);
            let lenb = u64_to_le_bytes(bs.len() as u64);
            push_bytes(out, &lenb);
            push_bytes(out, bs);
            assert(out@ =~= old(out)@ + enc_value(v@));
        },
        Value::F64Bits(b) => {
            out.push(TAG_F64);
            let bb = u64_to_le_bytes(*b);
            push_bytes(out, &bb);
            assert(out@ =~= old(out)@ + enc_value(v@));
        },
        Value::Null => {
            out.push(TAG_NULL);
            assert(out@ =~= old(out)@ + enc_value(v@));
        },
        Value::List(l) => {
            let ghost lv = l@.map_values(|x: Value| crate::data::value_v(x));
            out.push(TAG_LIST);
            let lenb = u64_to_le_bytes(l.len() as u64);
            push_bytes(out, &lenb);
            let ghost head = out@;
            let mut k: usize = 0;
            while k < l.len()
                invariant
                    *v == Value::List(*l),
                    lv == l@.map_values(|x: Value| crate::data::value_v(x)),
                    0 <= k <= l.len(),
                    out@ == head + enc_values(lv.take(k as int)),
                    wf_values(lv.take(k as int)),
                decreases l.len() - k,
            {
                proof {
                    broadcast use vstd::seq::axiom_seq_index_decreases;

                    assert(decreases_to!(*v => v->List_0));
                    assert(v->List_0 == *l);
                    assert(decreases_to!(*l => l@));
                    assert(decreases_to!(l@ => l@[k as int]));
                }
                encode_value_into(out, &l[k]);
                proof {
                    lemma_enc_values_snoc(lv.take(k as int), lv[k as int]);
                    lemma_wf_values_snoc(lv.take(k as int), lv[k as int]);
                    assert(lv.take(k as int).push(lv[k as int]) =~= lv.take(k + 1 as int));
                }
                k += 1;
            }
            proof {
                assert(lv.take(lv.len() as int) =~= lv);
                crate::data::lemma_values_v_bridge(l@);
                assert(v@ == ValueV::List(lv));
            }
            assert(out@ =~= old(out)@ + enc_value(v@));
        },
        Value::Dict(m) => {
            let ghost ev = extra_v(m@);
            out.push(TAG_DICT);
            let lenb = u64_to_le_bytes(m.len() as u64);
            push_bytes(out, &lenb);
            let ghost head = out@;
            let mut k: usize = 0;
            while k < m.len()
                invariant
                    *v == Value::Dict(*m),
                    ev == extra_v(m@),
                    0 <= k <= m.len(),
                    out@ == head + enc_entries(ev.take(k as int)),
                    wf_entries(ev.take(k as int)),
                decreases m.len() - k,
            {
                proof {
                    broadcast use vstd::seq::axiom_seq_index_decreases;

                    assert(decreases_to!(*v => v->Dict_0));
                    assert(v->Dict_0 == *m);
                    assert(decreases_to!(*m => m@));
                    assert(decreases_to!(m@ => m@[k as int]));
                    assert(decreases_to!(m@[k as int] => m@[k as int].value));
                }
                encode_str_into(out, m[k].key.as_str());
                encode_value_into(out, &m[k].value);
                proof {
                    lemma_enc_entries_snoc(ev.take(k as int), ev[k as int]);
                    lemma_wf_entries_snoc(ev.take(k as int), ev[k as int]);
                    assert(ev.take(k as int).push(ev[k as int]) =~= ev.take(k + 1 as int));
                    assert(ev[k as int] == m@[k as int]@);
                }
                k += 1;
            }
            proof {
                assert(ev.take(ev.len() as int) =~= ev);
                crate::data::lemma_entries_v_bridge(m@);
                assert(v@ == ValueV::Dict(ev));
            }
            assert(out@ =~= old(out)@ + enc_value(v@));
        },
    }
}

/// Serializes a payload mapping in full: the blob stored beside a row.
pub fn encode_extra(extra: &Vec<ExtraEntry>) -> (r: Vec<u8>)
    ensures
        r@ == enc_extra(extra_v(extra@)),
        wf_extra(extra_v(extra@)),
{
    let mut out: Vec<u8> = Vec::new();
    let lenb = u64_to_le_bytes(extra.len() as u64);
    push_bytes(&mut out, &lenb);
    let ghost m = extra_v(extra@);
    proof {
        assert(m.len() == extra@.len());
    }
    let mut i: usize = 0;
    while i < extra.len()
        invariant
            m == extra_v(extra@),
            m.len() == extra@.len(),
            0 <= i <= extra.len(),
            out@ == spec_u64_to_le_bytes(extra@.len() as u64) + enc_entries(m.take(i as int)),
            forall|j: int| 0 <= j < i ==> wf_entry(#[trigger] m[j]),
        decreases extra.len() - i,
    {
        encode_str_into(&mut out, extra[i].key.as_str());
        encode_value_into(&mut out, &extra[i].value);
        proof {
            lemma_enc_entries_snoc(m.take(i as int), m[i as int]);
            assert(m.take(i as int).push(m[i as int]) =~= m.take(i + 1 as int));
            assert(m[i as int] == extra@[i as int]@);
            assert(wf_entry(m[i as int]));
        }
        i += 1;
    }
    assert(m.take(extra@.len() as int) =~= m);
    out
}


// ---------------------------------------------------------------------------
// Decoding, executable.  Each reader mirrors its specification decoder
// exactly, including every way a corrupt blob can fail.
// ---------------------------------------------------------------------------
/// Reads eight little-endian bytes at `i`.
fn read_u64(data: &Vec<u8>, i: usize) -> (r: Option<(u64, usize)>)
    ensures
        match r {
            Some((x, j)) => dec_u64(data@, i as int) == Some((x, j as int)),
            None => (dec_u64(data@, i as int) is None),
        },
{
    if i <= data.len() && data.len() - i >= 8 {
        let mut tmp: Vec<u8> = Vec::new();
        let mut k: usize = 0;
        while k < 8
            invariant
                i + 8 <= data.len(),
                0 <= k <= 8,
                tmp@ =~= data@.subrange(i as int, i as int + k as int),
            decreases 8 - k,
        {
            tmp.push(data[i + k]);
            assert(tmp@ =~= data@.subrange(i as int, i as int + (k + 1) as int));
            k += 1;
        }
        let x = u64_from_le_bytes(tmp.as_slice());
        Some((x, i + 8))
    } else {
        None
    }
}

/// Reads one character: four little-endian bytes holding a scalar value.
fn read_char(data: &Vec<u8>, i: usize) -> (r: Option<(char, usize)>)
    ensures
        match r {
            Some((c, j)) => dec_char(data@, i as int) == Some((c, j as int)),
            None => (dec_char(data@, i as int) is None),
        },
{
    if i <= data.len() && data.len() - i >= 4 {
        let mut tmp: Vec<u8> = Vec::new();
        let mut k: usize = 0;
        while k < 4
            invariant
                i + 4 <= data.len(),
                0 <= k <= 4,
                tmp@ =~= data@.subrange(i as int, i as int + k as int),
            decreases 4 - k,
        {
            tmp.push(data[i + k]);
            assert(tmp@ =~= data@.subrange(i as int, i as int + (k + 1) as int));
            k += 1;
        }
        let v = u32_from_le_bytes(tmp.as_slice());
        if v < 0xD800 || (0xE000 <= v && v <= 0x10FFFF) {
            let c = crate::text::char_from_code(v);
            Some((c, i + 4))
        } else {
            None
        }
    } else {
        None
    }
}

/// Prepends decoded characters onto a decoder outcome.
spec fn chain_chars(acc: Seq<char>, r: Option<(Seq<char>, int)>) -> Option<(Seq<char>, int)> {
    match r {
        Some((cs, e)) => Some((acc + cs, e)),
        None => None,
    }
}

/// Reads a length-prefixed string.
fn read_string(data: &Vec<u8>, i: usize) -> (r: Option<(String, usize)>)
    ensures
        match r {
            Some((s2, j)) => dec_str(data@, i as int) == Some((s2@, j as int)),
            None => (dec_str(data@, i as int) is None),
        },
{
    let (n, first) = match read_u64(data, i) {
        Some(p) => p,
        None => {
            return None;
        },
    };
    let mut cur = first;
    let ghost start = cur as int;
    let mut acc = String::new();
    let mut k: u64 = 0;
    while k < n
        invariant
            0 <= k <= n,
            start == first as int,
            dec_u64(data@, i as int) == Some((n, start)),
            dec_chars(data@, start, n as nat) == chain_chars(
                acc@,
                dec_chars(data@, cur as int, (n - k) as nat),
            ),
        decreases n - k,
    {
        match read_char(data, cur) {
            Some((c, j)) => {
                proof {
                    let tail = dec_chars(data@, j as int, (n - k - 1) as nat);
                    assert(dec_chars(data@, cur as int, (n - k) as nat) == chain_chars(
                        seq![c],
                        tail,
                    ));
                    match tail {
                        Some((cs, e)) => {
                            assert(acc@ + (seq![c] + cs) =~= acc@.push(c) + cs);
                        },
                        None => {},
                    }
                }
                crate::text::push_char(&mut acc, c);
                cur = j;
                k = k + 1;
            },
            None => {
                proof {
                    assert(dec_chars(data@, cur as int, (n - k) as nat) is None);
                }
                return None;
            },
        }
    }
    proof {
        assert(dec_chars(data@, cur as int, 0) == Some((Seq::<char>::empty(), cur as int)));
        assert(acc@ + Seq::<char>::empty() =~= acc@);
    }
    Some((acc, cur))
}

/// Reads a length-prefixed run of raw bytes.
fn read_bytes(data: &Vec<u8>, i: usize) -> (r: Option<(Vec<u8>, usize)>)
    ensures
        match r {
            Some((bs, j)) => dec_u64(data@, i as int) matches Some(p) && p.1 + bs@.len()
                <= data@.len() && bs@ == data@.subrange(p.1, p.1 + bs@.len()) && p.0 == bs@.len()
                && j == p.1 + bs@.len(),
            None => ({
                ||| dec_u64(data@, i as int) is None
                ||| (dec_u64(data@, i as int) matches Some(p) && p.1 + p.0 > data@.len())
            }),
        },
{
    let (n, j) = match read_u64(data, i) {
        Some(p) => p,
        None => {
            return None;
        },
    };
    assert(j as int == i as int + 8 && i as int + 8 <= data@.len());
    if n > (data.len() - j) as u64 {
        return None;
    }
    let cnt = n as usize;
    assert(cnt == n);
    assert(j + cnt <= data.len());
    let mut bs: Vec<u8> = Vec::new();
    let mut k: usize = 0;
    while k < cnt
        invariant
            j + cnt <= data@.len(),
            data@.len() <= usize::MAX,
            0 <= k <= cnt,
            bs@ =~= data@.subrange(j as int, j as int + k as int),
        decreases cnt - k,
    {
        bs.push(data[j + k]);
        assert(bs@ =~= data@.subrange(j as int, j as int + (k + 1) as int));
        k += 1;
    }
    Some((bs, j + cnt))
}

/// Reads one tagged value; `fuel` bounds the nesting and is spent one
/// unit per level.
fn read_value(data: &Vec<u8>, i: usize, fuel: usize) -> (r: Option<(Value, usize)>)
    ensures
        match r {
            Some((v, j)) => dec_value(data@, i as int, fuel as nat) == Some((v@, j as int)),
            None => (dec_value(data@, i as int, fuel as nat) is None),
        },
    decreases fuel, 0int,
{
    if fuel == 0 {
        return None;
    }
    if i >= data.len() {
        return None;
    }
    let tag = data[i];
    if tag == TAG_STR {
        match read_string(data, i + 1) {
            Some((s2, j)) => Some((Value::Str(s2), j)),
            None => None,
        }
    } else if tag == TAG_INT {
        if data.len() - i >= 2 {
            let sign = data[i + 1];
            match read_u64(data, i + 2) {
                Some((m, j)) => {
                    if sign == 0 && m <= i64::MAX as u64 {
                        Some((Value::Int(m as i64), j))
                    } else if sign == 1 && m <= i64::MAX as u64 {
                        let x: i64 = -1 - (m as i64);
                        Some((Value::Int(x), j))
                    } else {
                        None
                    }
                },
                None => None,
            }
        } else {
            None
        }
    } else if tag == TAG_BOOL {
        if data.len() - i >= 2 {
            let b = data[i + 1];
            if b == 0 {
                Some((Value::Bool(false), i + 2))
            } else if b == 1 {
                Some((Value::Bool(true), i + 2))
            } else {
                None
            }
        } else {
            None
        }
    } else if tag == TAG_BYTES {
        match read_bytes(data, i + 1) {
            Some((bs, j)) => Some((Value::Bytes(bs), j)),
            None => None,
        }
    } else if tag == TAG_F64 {
        match read_u64(data, i + 1) {
            Some((b, j)) => Some((Value::F64Bits(b), j)),
            None => None,
        }
    } else if tag == TAG_NULL {
        Some((Value::Null, i + 1))
    } else if tag == TAG_LIST {
        let (n, j) = match read_u64(data, i + 1) {
            Some(p) => p,
            None => {
                return None;
            },
        };
        match read_values(data, j, n, fuel - 1) {
            Some((vs, e)) => {
                proof {
                    crate::data::lemma_values_v_bridge(vs@);
                }
                Some((Value::List(vs), e))
            },
            None => None,
        }
    } else if tag == TAG_DICT {
        let (n, j) = match read_u64(data, i + 1) {
            Some(p) => p,
            None => {
                return None;
            },
        };
        match read_entries(data, j, n, fuel - 1) {
            Some((es, e)) => {
                proof {
                    crate::data::lemma_entries_v_bridge(es@);
                }
                Some((Value::Dict(es), e))
            },
            None => None,
        }
    } else {
        None
    }
}

/// The loop relation of a value-run reader: what remains to decode,
/// chained after what is already decoded, settles the whole run.
spec fn values_inv(s: Seq<u8>, start: int, n: nat, fuel: nat, acc: Seq<ValueV>, cur: int, left: nat) -> bool {
    match dec_values(s, cur, left, fuel) {
        Some((vs, e)) => dec_values(s, start, n, fuel) == Some((acc + vs, e)),
        None => dec_values(s, start, n, fuel) is None,
    }
}

/// Reads `n` values, one after the other.
fn read_values(data: &Vec<u8>, i: usize, n: u64, fuel: usize) -> (r: Option<(Vec<Value>, usize)>)
    ensures
        match r {
            Some((vs, j)) => dec_values(data@, i as int, n as nat, fuel as nat) == Some(
                (vs@.map_values(|x: Value| crate::data::value_v(x)), j as int),
            ),
            None => (dec_values(data@, i as int, n as nat, fuel as nat) is None),
        },
    decreases fuel, 1int,
{
    let ghost start = i as int;
    let mut cur = i;
    let mut acc: Vec<Value> = Vec::new();
    let ghost accv = Seq::<ValueV>::empty();
    let mut k: u64 = 0;
    while k < n
        invariant
            0 <= k <= n,
            start == i as int,
            acc@.map_values(|x: Value| crate::data::value_v(x)).len() == k,
            values_inv(
                data@,
                start,
                n as nat,
                fuel as nat,
                acc@.map_values(|x: Value| crate::data::value_v(x)),
                cur as int,
                (n - k) as nat,
            ),
        decreases n - k,
    {
        let ghost av = acc@.map_values(|x: Value| crate::data::value_v(x));
        let (v, j) = match read_value(data, cur, fuel) {
            Some(p) => p,
            None => {
                proof {
                    assert(dec_values(data@, cur as int, (n - k) as nat, fuel as nat) is None);
                }
                return None;
            },
        };
        proof {
            let tail = dec_values(data@, j as int, (n - k - 1) as nat, fuel as nat);
            match tail {
                Some((vs, e)) => {
                    assert(dec_values(data@, cur as int, (n - k) as nat, fuel as nat) == Some(
                        (seq![v@] + vs, e),
                    ));
                    assert(av + (seq![v@] + vs) =~= av.push(v@) + vs);
                },
                None => {
                    assert(dec_values(data@, cur as int, (n - k) as nat, fuel as nat) is None);
                },
            }
        }
        let ghost acc_old = acc@;
        acc.push(v);
        proof {
            assert(acc@ =~= acc_old.push(v));
            assert(acc@.map_values(|x: Value| crate::data::value_v(x)) =~= av.push(v@));
        }
        cur = j;
        k = k + 1;
    }
    proof {
        assert(dec_values(data@, cur as int, 0, fuel as nat) == Some(
            (Seq::<ValueV>::empty(), cur as int),
        ));
        let av = acc@.map_values(|x: Value| crate::data::value_v(x));
        assert(av + Seq::<ValueV>::empty() =~= av);
    }
    Some((acc, cur))
}

/// The loop relation of an entry-run reader.
spec fn entries_inv(s: Seq<u8>, start: int, n: nat, fuel: nat, acc: Seq<(Seq<char>, ValueV)>, cur: int, left: nat) -> bool {
    match dec_entries(s, cur, left, fuel) {
        Some((es, e)) => dec_entries(s, start, n, fuel) == Some((acc + es, e)),
        None => dec_entries(s, start, n, fuel) is None,
    }
}

/// Reads `n` entries, one after the other: key string, then value.
fn read_entries(data: &Vec<u8>, i: usize, n: u64, fuel: usize) -> (r: Option<
    (Vec<ExtraEntry>, usize),
>)
    ensures
        match r {
            Some((es, j)) => dec_entries(data@, i as int, n as nat, fuel as nat) == Some(
                (extra_v(es@), j as int),
            ),
            None => (dec_entries(data@, i as int, n as nat, fuel as nat) is None),
        },
    decreases fuel, 1int,
{
    let ghost start = i as int;
    let mut cur = i;
    let mut acc: Vec<ExtraEntry> = Vec::new();
    let mut k: u64 = 0;
    while k < n
        invariant
            0 <= k <= n,
            start == i as int,
            entries_inv(
                data@,
                start,
                n as nat,
                fuel as nat,
                extra_v(acc@),
                cur as int,
                (n - k) as nat,
            ),
        decreases n - k,
    {
        let (key, j1) = match read_string(data, cur) {
            Some(p) => p,
            None => {
                proof {
                    assert(dec_entries(data@, cur as int, (n - k) as nat, fuel as nat) is None);
                }
                return None;
            },
        };
        let (val, j2) = match read_value(data, j1, fuel) {
            Some(p) => p,
            None => {
                proof {
                    assert(dec_entries(data@, cur as int, (n - k) as nat, fuel as nat) is None);
                }
                return None;
            },
        };
        proof {
            let tail = dec_entries(data@, j2 as int, (n - k - 1) as nat, fuel as nat);
            match tail {
                Some((es, e)) => {
                    assert(dec_entries(data@, cur as int, (n - k) as nat, fuel as nat) == Some(
                        (seq![(key@, val@)] + es, e),
                    ));
                    assert(extra_v(acc@) + (seq![(key@, val@)] + es) =~= extra_v(acc@).push(
                        (key@, val@),
                    ) + es);
                },
                None => {
                    assert(dec_entries(data@, cur as int, (n - k) as nat, fuel as nat) is None);
                },
            }
        }
        let ghost acc_old = acc@;
        acc.push(ExtraEntry { key, value: val });
        proof {
            assert(extra_v(acc@) =~= extra_v(acc_old).push(acc@[acc_old.len() as int]@));
        }
        cur = j2;
        k = k + 1;
    }
    proof {
        assert(dec_entries(data@, cur as int, 0, fuel as nat) == Some(
            (Seq::<(Seq<char>, ValueV)>::empty(), cur as int),
        ));
        assert(extra_v(acc@) + Seq::<(Seq<char>, ValueV)>::empty() =~= extra_v(acc@));
    }
    Some((acc, cur))
}

/// Deserializes a stored blob back into a payload mapping, filling
/// `out`; a blob that is not exactly an encoding is rejected.
pub fn decode_extra(data: &Vec<u8>, out: &mut Vec<ExtraEntry>) -> (ok: bool)
    ensures
        ok ==> dec_extra(data@) == Some(extra_v(final(out)@)),
        !ok ==> (dec_extra(data@) is None),
{
    out.clear();
    let (n, first) = match read_u64(data, 0) {
        Some(p) => p,
        None => {
            return false;
        },
    };
    match read_entries(data, first, n, data.len()) {
        Some((es, end)) => {
            if end == data.len() {
                *out = es;
                true
            } else {
                false
            }
        },
        None => false,
    }
}

} // verus!
