//! A verified JSON reader and writer for the bridge's wire traffic.
//!
//! The grammar here is the bridge's own: objects, arrays, strings with the
//! standard escapes, integers, booleans and null. Values are kept at the byte
//! level (strings as escape-resolved UTF-8 bytes); conversion to `String`
//! happens where an event is assembled. Deliberate policy choices, each of
//! which makes an undecodable frame a recoverable diagnostic rather than an
//! error: numbers with a fraction or exponent are rejected, integers must fit
//! in `i64` (leading zeros are tolerated), `\u` escapes for surrogates are
//! rejected, nesting is bounded, and on duplicate object keys the first
//! occurrence wins.

use vstd::prelude::*;

verus! {

/// Nesting depth bound for parsed documents.
pub const MAX_JSON_DEPTH: usize = 64;

/// Spec-level JSON document.
pub ghost enum JsonV {
    Null,
    Bool(bool),
    Int(int),
    Str(Seq<u8>),
    Arr(Seq<JsonV>),
    Obj(Seq<(Seq<u8>, JsonV)>),
}

/// Executable JSON document. Strings are escape-resolved UTF-8 bytes.
pub enum JsonValue {
    Null,
    Bool(bool),
    Int(i64),
    Str(Vec<u8>),
    Arr(Vec<JsonValue>),
    Obj(Vec<(Vec<u8>, JsonValue)>),
}

/// Recursive view of an executable JSON value.
pub open spec fn jv_view(v: JsonValue) -> JsonV
    decreases v,
{
    match v {
        JsonValue::Null => JsonV::Null,
        JsonValue::Bool(b) => JsonV::Bool(b),
        JsonValue::Int(i) => JsonV::Int(i as int),
        JsonValue::Str(s) => JsonV::Str(s@),
        JsonValue::Arr(items) => JsonV::Arr(jv_seq_view(items@)),
        JsonValue::Obj(entries) => JsonV::Obj(jv_entries_view(entries@)),
    }
}

/// View of a sequence of array elements.
pub open spec fn jv_seq_view(s: Seq<JsonValue>) -> Seq<JsonV>
    decreases s,
{
    if s.len() == 0 {
        Seq::empty()
    } else {
        seq![jv_view(s[0])] + jv_seq_view(s.drop_first())
    }
}

/// View of a sequence of object entries.
pub open spec fn jv_entries_view(s: Seq<(Vec<u8>, JsonValue)>) -> Seq<(Seq<u8>, JsonV)>
    decreases s,
{
    if s.len() == 0 {
        Seq::empty()
    } else {
        seq![(s[0].0@, jv_view(s[0].1))] + jv_entries_view(s.drop_first())
    }
}

impl View for JsonValue {
    type V = JsonV;

    open spec fn view(&self) -> JsonV {
        jv_view(*self)
    }
}

/// JSON insignificant whitespace.
pub open spec fn spec_is_ws(b: u8) -> bool {
    b == 0x20 || b == 0x09 || b == 0x0a || b == 0x0d
}

/// Index of the first non-whitespace byte at or after `i`.
pub open spec fn spec_skip_ws(s: Seq<u8>, i: int) -> int
    decreases s.len() - i,
{
    if 0 <= i < s.len() && spec_is_ws(s[i]) {
        spec_skip_ws(s, i + 1)
    } else {
        i
    }
}

pub open spec fn spec_is_digit(b: u8) -> bool {
    0x30 <= b <= 0x39
}

/// Value of a hexadecimal digit byte, or none.
pub open spec fn spec_hex_val(b: u8) -> Option<u32> {
    if 0x30 <= b <= 0x39 {
        Some((b - 0x30) as u32)
    } else if 0x61 <= b <= 0x66 {
        Some((b - 0x61 + 10) as u32)
    } else if 0x41 <= b <= 0x46 {
        Some((b - 0x41 + 10) as u32)
    } else {
        None
    }
}

/// The four hex digits of a `\u` escape starting at `i`.
pub open spec fn spec_hex4(s: Seq<u8>, i: int) -> Option<u32> {
    if i + 4 <= s.len() {
        match (spec_hex_val(s[i]), spec_hex_val(s[i + 1]), spec_hex_val(s[i + 2]), spec_hex_val(
            s[i + 3],
        )) {
            (Some(a), Some(b), Some(c), Some(d)) => Some(
                (a * 0x1000 + b * 0x100 + c * 0x10 + d) as u32,
            ),
            _ => None,
        }
    } else {
        None
    }
}

/// UTF-8 encoding of a scalar below 0x10000 outside the surrogate range.
pub open spec fn spec_utf8_of_scalar(v: u32) -> Seq<u8>
    recommends
        v < 0x10000,
        !(0xd800 <= v < 0xe000),
{
    if v < 0x80 {
        seq![v as u8]
    } else if v < 0x800 {
        seq![(0xc0 + v / 0x40) as u8, (0x80 + v % 0x40) as u8]
    } else {
        seq![(0xe0 + v / 0x1000) as u8, (0x80 + (v / 0x40) % 0x40) as u8, (0x80 + v % 0x40) as u8]
    }
}

/// Bytes denoted by the escape beginning at `i` (just after the backslash),
/// together with the index after the escape. Surrogate `\u` escapes are
/// rejected.
pub open spec fn spec_escape(s: Seq<u8>, i: int) -> Option<(Seq<u8>, int)> {
    if i < s.len() {
        let b = s[i];
        if b == 0x22 || b == 0x5c || b == 0x2f {
            Some((seq![b], i + 1))
        } else if b == 0x62 {
            Some((seq![0x08u8], i + 1))
        } else if b == 0x66 {
            Some((seq![0x0cu8], i + 1))
        } else if b == 0x6e {
            Some((seq![0x0au8], i + 1))
        } else if b == 0x72 {
            Some((seq![0x0du8], i + 1))
        } else if b == 0x74 {
            Some((seq![0x09u8], i + 1))
        } else if b == 0x75 {
            match spec_hex4(s, i + 1) {
                Some(v) => if 0xd800 <= v < 0xe000 {
                    None
                } else {
                    Some((spec_utf8_of_scalar(v), i + 5))
                },
                None => None,
            }
        } else {
            None
        }
    } else {
        None
    }
}

/// Content of a string whose opening quote stands just before `i`: the
/// escape-resolved bytes and the index after the closing quote.
pub open spec fn spec_str_body(s: Seq<u8>, i: int) -> Option<(Seq<u8>, int)>
    decreases s.len() - i,
{
    if 0 <= i < s.len() {
        let b = s[i];
        if b == 0x22 {
            Some((Seq::empty(), i + 1))
        } else if b == 0x5c {
            match spec_escape(s, i + 1) {
                Some((eb, j)) => if i < j <= s.len() {
                    match spec_str_body(s, j) {
                        Some((rest, k)) => Some((eb + rest, k)),
                        None => None,
                    }
                } else {
                    None
                },
                None => None,
            }
        } else if b < 0x20 {
            None
        } else {
            match spec_str_body(s, i + 1) {
                Some((rest, k)) => Some((seq![b] + rest, k)),
                None => None,
            }
        }
    } else {
        None
    }
}

/// Digits of an integer literal, accumulated onto `acc`; stops at the first
/// non-digit. A magnitude above `i64::MAX` is rejected.
pub open spec fn spec_digits(s: Seq<u8>, i: int, acc: int) -> Option<(int, int)>
    decreases s.len() - i,
{
    if 0 <= i < s.len() && spec_is_digit(s[i]) {
        let acc2 = acc * 10 + (s[i] - 0x30);
        if acc2 > 0x7fff_ffff_ffff_ffff {
            None
        } else {
            spec_digits(s, i + 1, acc2)
        }
    } else {
        Some((acc, i))
    }
}

/// An integer literal at `i`: optional minus, then at least one digit.
pub open spec fn spec_number(s: Seq<u8>, i: int) -> Option<(int, int)> {
    let (neg, j) = if i < s.len() && s[i] == 0x2d {
        (true, i + 1)
    } else {
        (false, i)
    };
    if j < s.len() && spec_is_digit(s[j]) {
        match spec_digits(s, j, 0) {
            Some((m, k)) => Some((if neg { -m } else { m }, k)),
            None => None,
        }
    } else {
        None
    }
}

/// A JSON value at `i` (after whitespace): the parsed value and the index
/// just after it. `depth` bounds the nesting of containers.
pub open spec fn spec_value(s: Seq<u8>, i: int, depth: nat) -> Option<(JsonV, int)>
    decreases depth, s.len() - i, 2int,
{
    if depth == 0 {
        None
    } else {
        let j = spec_skip_ws(s, i);
        if !(i <= j < s.len()) {
            None
        } else {
            let b = s[j];
            if b == 0x7b {  // {
                spec_obj_body(s, j + 1, depth)
            } else if b == 0x5b {  // [
                spec_arr_body(s, j + 1, depth)
            } else if b == 0x22 {  // "
                match spec_str_body(s, j + 1) {
                    Some((bs, k)) => Some((JsonV::Str(bs), k)),
                    None => None,
                }
            } else if b == 0x74 {  // true
                if j + 4 <= s.len() && s[j + 1] == 0x72 && s[j + 2] == 0x75 && s[j + 3] == 0x65 {
                    Some((JsonV::Bool(true), j + 4))
                } else {
                    None
                }
            } else if b == 0x66 {  // false
                if j + 5 <= s.len() && s[j + 1] == 0x61 && s[j + 2] == 0x6c && s[j + 3] == 0x73
                    && s[j + 4] == 0x65 {
                    Some((JsonV::Bool(false), j + 5))
                } else {
                    None
                }
            } else if b == 0x6e {  // null
                if j + 4 <= s.len() && s[j + 1] == 0x75 && s[j + 2] == 0x6c && s[j + 3] == 0x6c {
                    Some((JsonV::Null, j + 4))
                } else {
                    None
                }
            } else if b == 0x2d || spec_is_digit(b) {
                match spec_number(s, j) {
                    Some((n, k)) => Some((JsonV::Int(n), k)),
                    None => None,
                }
            } else {
                None
            }
        }
    }
}

/// Body of an object whose `{` stands just before `i`.
pub open spec fn spec_obj_body(s: Seq<u8>, i: int, depth: nat) -> Option<(JsonV, int)>
    decreases depth, s.len() - i, 1int,
{
    if !(0 <= i <= s.len()) {
        None
    } else {
        let j = spec_skip_ws(s, i);
        if !(i <= j < s.len()) {
            None
        } else if s[j] == 0x7d {  // }
            Some((JsonV::Obj(Seq::empty()), j + 1))
        } else {
            match spec_members(s, j, depth) {
                Some((entries, k)) => Some((JsonV::Obj(entries), k)),
                None => None,
            }
        }
    }
}

/// One or more `key: value` members starting at the opening quote of a key,
/// up to and including the closing `}`.
pub open spec fn spec_members(s: Seq<u8>, i: int, depth: nat) -> Option<(
    Seq<(Seq<u8>, JsonV)>,
    int,
)>
    decreases depth, s.len() - i, 0int,
{
    if !(0 <= i < s.len() && s[i] == 0x22 && depth > 0) {
        None
    } else {
        match spec_str_body(s, i + 1) {
            None => None,
            Some((key, j)) => if !(i < j <= s.len()) {
                None
            } else {
                let m = spec_skip_ws(s, j);
                if !(j <= m < s.len() && s[m] == 0x3a) {  // :
                    None
                } else {
                    match spec_value(s, m + 1, (depth - 1) as nat) {
                        None => None,
                        Some((v, p)) => if !(m < p <= s.len()) {
                            None
                        } else {
                            let q = spec_skip_ws(s, p);
                            if !(p <= q < s.len()) {
                                None
                            } else if s[q] == 0x2c {  // ,
                                let r = spec_skip_ws(s, q + 1);
                                if !(q < r < s.len()) {
                                    None
                                } else {
                                    match spec_members(s, r, depth) {
                                        Some((rest, e)) => Some((seq![(key, v)] + rest, e)),
                                        None => None,
                                    }
                                }
                            } else if s[q] == 0x7d {  // }
                                Some((seq![(key, v)], q + 1))
                            } else {
                                None
                            }
                        },
                    }
                }
            },
        }
    }
}

/// Body of an array whose `[` stands just before `i`.
pub open spec fn spec_arr_body(s: Seq<u8>, i: int, depth: nat) -> Option<(JsonV, int)>
    decreases depth, s.len() - i, 1int,
{
    if !(0 <= i <= s.len()) {
        None
    } else {
        let j = spec_skip_ws(s, i);
        if !(i <= j < s.len()) {
            None
        } else if s[j] == 0x5d {  // ]
            Some((JsonV::Arr(Seq::empty()), j + 1))
        } else {
            match spec_elems(s, i, depth) {
                Some((items, k)) => Some((JsonV::Arr(items), k)),
                None => None,
            }
        }
    }
}

/// One or more array elements, up to and including the closing `]`.
pub open spec fn spec_elems(s: Seq<u8>, i: int, depth: nat) -> Option<(Seq<JsonV>, int)>
    decreases depth, s.len() - i, 0int,
{
    if !(0 <= i <= s.len() && depth > 0) {
        None
    } else {
        match spec_value(s, i, (depth - 1) as nat) {
            None => None,
            Some((v, p)) => if !(i < p <= s.len()) {
                None
            } else {
                let q = spec_skip_ws(s, p);
                if !(p <= q < s.len()) {
                    None
                } else if s[q] == 0x2c {  // ,
                    if !(q + 1 <= s.len()) {
                        None
                    } else {
                        match spec_elems(s, q + 1, depth) {
                            Some((rest, e)) => Some((seq![v] + rest, e)),
                            None => None,
                        }
                    }
                } else if s[q] == 0x5d {  // ]
                    Some((seq![v], q + 1))
                } else {
                    None
                }
            },
        }
    }
}

/// A whole JSON document: one value, with insignificant whitespace around it.
pub open spec fn spec_json(s: Seq<u8>) -> Option<JsonV> {
    match spec_value(s, 0, MAX_JSON_DEPTH as nat) {
        Some((v, j)) => if 0 <= j <= s.len() && spec_skip_ws(s, j) == s.len() {
            Some(v)
        } else {
            None
        },
        None => None,
    }
}

pub proof fn lemma_seq_view_push(s: Seq<JsonValue>, v: JsonValue)
    ensures
        jv_seq_view(s.push(v)) =~= jv_seq_view(s) + seq![jv_view(v)],
    decreases s,
{
    if s.len() == 0 {
        assert(s.push(v)[0] == v);
        assert(s.push(v).drop_first() =~= Seq::<JsonValue>::empty());
        assert(jv_seq_view(s.push(v).drop_first()) =~= Seq::<JsonV>::empty());
    } else {
        assert(s.push(v)[0] == s[0]);
        assert(s.push(v).drop_first() =~= s.drop_first().push(v));
        lemma_seq_view_push(s.drop_first(), v);
    }
}

pub proof fn lemma_entries_view_push(s: Seq<(Vec<u8>, JsonValue)>, p: (Vec<u8>, JsonValue))
    ensures
        jv_entries_view(s.push(p)) =~= jv_entries_view(s) + seq![(p.0@, jv_view(p.1))],
    decreases s,
{
    if s.len() == 0 {
        assert(s.push(p)[0] == p);
        assert(s.push(p).drop_first() =~= Seq::<(Vec<u8>, JsonValue)>::empty());
        assert(jv_entries_view(s.push(p).drop_first()) =~= Seq::<(Seq<u8>, JsonV)>::empty());
    } else {
        assert(s.push(p)[0] == s[0]);
        assert(s.push(p).drop_first() =~= s.drop_first().push(p));
        lemma_entries_view_push(s.drop_first(), p);
    }
}

fn is_ws_byte(b: u8) -> (r: bool)
    ensures
        r == spec_is_ws(b),
{
    b == 0x20 || b == 0x09 || b == 0x0a || b == 0x0d
}

fn is_digit_byte(b: u8) -> (r: bool)
    ensures
        r == spec_is_digit(b),
{
    0x30 <= b && b <= 0x39
}

fn skip_ws(s: &Vec<u8>, i: usize) -> (r: usize)
    requires
        i <= s@.len(),
    ensures
        i <= r <= s@.len(),
        r as int == spec_skip_ws(s@, i as int),
{
    let mut k = i;
    while k < s.len() && is_ws_byte(s[k])
        invariant
            i <= k <= s@.len(),
            spec_skip_ws(s@, i as int) == spec_skip_ws(s@, k as int),
        decreases s@.len() - k,
    {
        k = k + 1;
    }
    k
}

fn hex_val(b: u8) -> (r: Option<u32>)
    ensures
        r == spec_hex_val(b),
{
    if 0x30 <= b && b <= 0x39 {
        Some((b - 0x30) as u32)
    } else if 0x61 <= b && b <= 0x66 {
        Some((b - 0x61 + 10) as u32)
    } else if 0x41 <= b && b <= 0x46 {
        Some((b - 0x41 + 10) as u32)
    } else {
        None
    }
}

fn hex4(s: &Vec<u8>, i: usize) -> (r: Option<u32>)
    requires
        i <= s@.len(),
    ensures
        r == spec_hex4(s@, i as int),
{
    if s.len() - i >= 4 {
        match (hex_val(s[i]), hex_val(s[i + 1]), hex_val(s[i + 2]), hex_val(s[i + 3])) {
            (Some(a), Some(b), Some(c), Some(d)) => Some(a * 0x1000 + b * 0x100 + c * 0x10 + d),
            _ => None,
        }
    } else {
        None
    }
}

fn utf8_of_scalar(v: u32) -> (r: Vec<u8>)
    requires
        v < 0x10000,
    ensures
        r@ == spec_utf8_of_scalar(v),
{
    let mut out: Vec<u8> = Vec::new();
    if v < 0x80 {
        out.push(v as u8);
    } else if v < 0x800 {
        out.push((0xc0 + v / 0x40) as u8);
        out.push((0x80 + v % 0x40) as u8);
    } else {
        out.push((0xe0 + v / 0x1000) as u8);
        out.push((0x80 + (v / 0x40) % 0x40) as u8);
        out.push((0x80 + v % 0x40) as u8);
    }
    assert(out@ =~= spec_utf8_of_scalar(v));
    out
}

fn parse_escape(s: &Vec<u8>, i: usize) -> (r: Option<(Vec<u8>, usize)>)
    requires
        i <= s@.len(),
    ensures
        match r {
            Some((eb, j)) => spec_escape(s@, i as int) == Some((eb@, j as int)) && i < j <= s@.len(),
            None => spec_escape(s@, i as int) is None,
        },
{
    if i >= s.len() {
        return None;
    }
    let b = s[i];
    if b == 0x22 || b == 0x5c || b == 0x2f {
        let mut out: Vec<u8> = Vec::new();
        out.push(b);
        assert(out@ =~= seq![b]);
        Some((out, i + 1))
    } else if b == 0x62 || b == 0x66 || b == 0x6e || b == 0x72 || b == 0x74 {
        let c: u8 = if b == 0x62 {
            0x08
        } else if b == 0x66 {
            0x0c
        } else if b == 0x6e {
            0x0a
        } else if b == 0x72 {
            0x0d
        } else {
            0x09
        };
        let mut out: Vec<u8> = Vec::new();
        out.push(c);
        assert(out@ =~= seq![c]);
        Some((out, i + 1))
    } else if b == 0x75 {
        match hex4(s, i + 1) {
            Some(v) => {
                if 0xd800 <= v && v < 0xe000 {
                    None
                } else {
                    Some((utf8_of_scalar(v), i + 5))
                }
            },
            None => None,
        }
    } else {
        None
    }
}

fn parse_str_body(s: &Vec<u8>, i: usize) -> (r: Option<(Vec<u8>, usize)>)
    requires
        i <= s@.len(),
    ensures
        match r {
            Some((bs, k)) => spec_str_body(s@, i as int) == Some((bs@, k as int)) && i < k
                <= s@.len(),
            None => spec_str_body(s@, i as int) is None,
        },
{
    let mut acc: Vec<u8> = Vec::new();
    let mut k = i;
    loop
        invariant
            i <= k <= s@.len(),
            spec_str_body(s@, i as int) == match spec_str_body(s@, k as int) {
                Some((rest, e)) => Some((acc@ + rest, e)),
                None => None::<(Seq<u8>, int)>,
            },
        decreases s@.len() - k,
    {
        if k >= s.len() {
            return None;
        }
        let b = s[k];
        if b == 0x22 {
            assert(acc@ + Seq::<u8>::empty() =~= acc@);
            return Some((acc, k + 1));
        } else if b == 0x5c {
            match parse_escape(s, k + 1) {
                Some((eb, j)) => {
                    let ghost old_acc = acc@;
                    let mut m: usize = 0;
                    while m < eb.len()
                        invariant
                            0 <= m <= eb@.len(),
                            acc@ == old_acc + eb@.subrange(0, m as int),
                        decreases eb@.len() - m,
                    {
                        acc.push(eb[m]);
                        assert(old_acc + eb@.subrange(0, m as int) + seq![eb@[m as int]] =~= old_acc
                            + eb@.subrange(0, m + 1));
                        m = m + 1;
                    }
                    assert(eb@.subrange(0, eb@.len() as int) =~= eb@);
                    proof {
                        if spec_str_body(s@, j as int) is Some {
                            let (rest, e) = spec_str_body(s@, j as int)->Some_0;
                            assert(old_acc + (eb@ + rest) =~= (old_acc + eb@) + rest);
                        }
                    }
                    k = j;
                },
                None => {
                    return None;
                },
            }
        } else if b < 0x20 {
            return None;
        } else {
            proof {
                if spec_str_body(s@, k + 1) is Some {
                    let (rest, e) = spec_str_body(s@, k + 1)->Some_0;
                    assert(acc@ + (seq![b] + rest) =~= (acc@ + seq![b]) + rest);
                    assert(acc@.push(b) =~= acc@ + seq![b]);
                } else {
                    assert(acc@.push(b) =~= acc@ + seq![b]);
                }
            }
            acc.push(b);
            k = k + 1;
        }
    }
}

fn parse_number(s: &Vec<u8>, i: usize) -> (r: Option<(i64, usize)>)
    requires
        i <= s@.len(),
    ensures
        match r {
            Some((n, k)) => spec_number(s@, i as int) == Some((n as int, k as int)) && i < k
                <= s@.len(),
            None => spec_number(s@, i as int) is None,
        },
{
    let (neg, j) = if i < s.len() && s[i] == 0x2d {
        (true, i + 1)
    } else {
        (false, i)
    };
    if !(j < s.len() && is_digit_byte(s[j])) {
        return None;
    }
    let mut k = j;
    let mut a: u64 = 0;
    loop
        invariant
            i <= j <= k <= s@.len(),
            neg == (i < s@.len() && s@[i as int] == 0x2d),
            j == if neg {
                i + 1
            } else {
                i as int
            },
            j < s@.len() && spec_is_digit(s@[j as int]),
            a <= 0x7fff_ffff_ffff_ffff,
            spec_digits(s@, j as int, 0) == spec_digits(s@, k as int, a as int),
        ensures
            j < k <= s@.len(),
            a <= 0x7fff_ffff_ffff_ffff,
            spec_digits(s@, j as int, 0) == Some((a as int, k as int)),
        decreases s@.len() - k,
    {
        if !(k < s.len() && is_digit_byte(s[k])) {
            break ;
        }
        let d = (s[k] - 0x30) as u64;
        let lim = (0x7fff_ffff_ffff_ffffu64 - d) / 10;
        if a > lim {
            proof {
                assert(a * 10 + d > 0x7fff_ffff_ffff_ffff) by (nonlinear_arith)
                    requires
                        a > (0x7fff_ffff_ffff_ffffu64 - d) / 10,
                        d <= 9,
                        a <= 0x7fff_ffff_ffff_ffff,
                ;
                assert(spec_digits(s@, k as int, a as int) is None);
            }
            return None;
        }
        proof {
            assert(a * 10 + d <= 0x7fff_ffff_ffff_ffff) by (nonlinear_arith)
                requires
                    a <= (0x7fff_ffff_ffff_ffffu64 - d) / 10,
                    d <= 9,
            ;
        }
        a = a * 10 + d;
        k = k + 1;
    }
    let m = a;
    let n: i64 = if neg {
        -(m as i64)
    } else {
        m as i64
    };
    Some((n, k))
}

fn parse_value(s: &Vec<u8>, i: usize, depth: usize) -> (r: Option<(JsonValue, usize)>)
    requires
        i <= s@.len(),
    ensures
        match r {
            Some((v, k)) => spec_value(s@, i as int, depth as nat) == Some((v@, k as int)) && i < k
                <= s@.len(),
            None => spec_value(s@, i as int, depth as nat) is None,
        },
    decreases depth, s@.len() - i, 2int,
{
    if depth == 0 {
        return None;
    }
    let j = skip_ws(s, i);
    if !(j < s.len()) {
        return None;
    }
    let b = s[j];
    if b == 0x7b {
        match parse_obj_body(s, j + 1, depth) {
            Some((v, k)) => Some((v, k)),
            None => None,
        }
    } else if b == 0x5b {
        match parse_arr_body(s, j + 1, depth) {
            Some((v, k)) => Some((v, k)),
            None => None,
        }
    } else if b == 0x22 {
        match parse_str_body(s, j + 1) {
            Some((bs, k)) => Some((JsonValue::Str(bs), k)),
            None => None,
        }
    } else if b == 0x74 {
        if s.len() - j >= 4 && s[j + 1] == 0x72 && s[j + 2] == 0x75 && s[j + 3] == 0x65 {
            Some((JsonValue::Bool(true), j + 4))
        } else {
            None
        }
    } else if b == 0x66 {
        if s.len() - j >= 5 && s[j + 1] == 0x61 && s[j + 2] == 0x6c && s[j + 3] == 0x73 && s[j + 4]
            == 0x65 {
            Some((JsonValue::Bool(false), j + 5))
        } else {
            None
        }
    } else if b == 0x6e {
        if s.len() - j >= 4 && s[j + 1] == 0x75 && s[j + 2] == 0x6c && s[j + 3] == 0x6c {
            Some((JsonValue::Null, j + 4))
        } else {
            None
        }
    } else if b == 0x2d || is_digit_byte(b) {
        match parse_number(s, j) {
            Some((n, k)) => Some((JsonValue::Int(n), k)),
            None => None,
        }
    } else {
        None
    }
}

fn parse_obj_body(s: &Vec<u8>, i: usize, depth: usize) -> (r: Option<(JsonValue, usize)>)
    requires
        i <= s@.len(),
        depth >= 1,
    ensures
        match r {
            Some((v, k)) => spec_obj_body(s@, i as int, depth as nat) == Some((v@, k as int)) && i
                < k <= s@.len(),
            None => spec_obj_body(s@, i as int, depth as nat) is None,
        },
    decreases depth, s@.len() - i, 1int,
{
    let j = skip_ws(s, i);
    if !(j < s.len()) {
        return None;
    }
    if s[j] == 0x7d {
        let es: Vec<(Vec<u8>, JsonValue)> = Vec::new();
        proof {
            assert(jv_entries_view(es@) =~= Seq::<(Seq<u8>, JsonV)>::empty());
        }
        return Some((JsonValue::Obj(es), j + 1));
    }
    match parse_members_loop(s, j, depth) {
        Some((es, k)) => Some((JsonValue::Obj(es), k)),
        None => None,
    }
}

fn parse_members_loop(s: &Vec<u8>, i: usize, depth: usize) -> (r: Option<
    (Vec<(Vec<u8>, JsonValue)>, usize),
>)
    requires
        i <= s@.len(),
        depth >= 1,
    ensures
        match r {
            Some((es, k)) => spec_members(s@, i as int, depth as nat) == Some(
                (jv_entries_view(es@), k as int),
            ) && i < k <= s@.len(),
            None => spec_members(s@, i as int, depth as nat) is None,
        },
    decreases depth, s@.len() - i, 0int,
{
    let mut acc: Vec<(Vec<u8>, JsonValue)> = Vec::new();
    let mut k = i;
    proof {
        assert(jv_entries_view(acc@) =~= Seq::<(Seq<u8>, JsonV)>::empty());
        if spec_members(s@, i as int, depth as nat) is Some {
            let (rest, e) = spec_members(s@, i as int, depth as nat)->Some_0;
            assert(jv_entries_view(acc@) + rest =~= rest);
        }
    }
    loop
        invariant
            i <= k <= s@.len(),
            depth >= 1,
            i <= s@.len(),
            match spec_members(s@, k as int, depth as nat) {
                Some((rest, e)) => spec_members(s@, i as int, depth as nat) == Some(
                    (jv_entries_view(acc@) + rest, e),
                ),
                None => spec_members(s@, i as int, depth as nat) is None,
            },
        decreases s@.len() - k,
    {
        if !(k < s.len() && s[k] == 0x22) {
            return None;
        }
        match parse_str_body(s, k + 1) {
            None => {
                return None;
            },
            Some((key, jk)) => {
                let m = skip_ws(s, jk);
                if !(m < s.len() && s[m] == 0x3a) {
                    return None;
                }
                match parse_value(s, m + 1, depth - 1) {
                    None => {
                        return None;
                    },
                    Some((v, p)) => {
                        let q = skip_ws(s, p);
                        if !(q < s.len()) {
                            return None;
                        }
                        let ghost gkey = key@;
                        let ghost gv = v@;
                        let ghost gacc = acc@;
                        if s[q] == 0x2c {
                            let r2 = skip_ws(s, q + 1);
                            if !(r2 < s.len()) {
                                return None;
                            }
                            acc.push((key, v));
                            proof {
                                lemma_entries_view_push(gacc, (acc@[gacc.len() as int]));
                                assert(acc@[gacc.len() as int].0@ == gkey);
                                assert(jv_view(acc@[gacc.len() as int].1) == gv);
                                assert(jv_entries_view(acc@) =~= jv_entries_view(gacc) + seq![
                                    (gkey, gv),
                                ]);
                                if spec_members(s@, r2 as int, depth as nat) is Some {
                                    let (rest2, e2) = spec_members(
                                        s@,
                                        r2 as int,
                                        depth as nat,
                                    )->Some_0;
                                    assert(jv_entries_view(gacc) + (seq![(gkey, gv)] + rest2)
                                        =~= jv_entries_view(acc@) + rest2);
                                }
                            }
                            k = r2;
                        } else if s[q] == 0x7d {
                            acc.push((key, v));
                            proof {
                                lemma_entries_view_push(gacc, (acc@[gacc.len() as int]));
                                assert(acc@[gacc.len() as int].0@ == gkey);
                                assert(jv_view(acc@[gacc.len() as int].1) == gv);
                                assert(jv_entries_view(acc@) =~= jv_entries_view(gacc) + seq![
                                    (gkey, gv),
                                ]);
                            }
                            return Some((acc, q + 1));
                        } else {
                            return None;
                        }
                    },
                }
            },
        }
    }
}

fn parse_arr_body(s: &Vec<u8>, i: usize, depth: usize) -> (r: Option<(JsonValue, usize)>)
    requires
        i <= s@.len(),
        depth >= 1,
    ensures
        match r {
            Some((v, k)) => spec_arr_body(s@, i as int, depth as nat) == Some((v@, k as int)) && i
                < k <= s@.len(),
            None => spec_arr_body(s@, i as int, depth as nat) is None,
        },
    decreases depth, s@.len() - i, 1int,
{
    let j = skip_ws(s, i);
    if !(j < s.len()) {
        return None;
    }
    if s[j] == 0x5d {
        let es: Vec<JsonValue> = Vec::new();
        proof {
            assert(jv_seq_view(es@) =~= Seq::<JsonV>::empty());
        }
        return Some((JsonValue::Arr(es), j + 1));
    }
    match parse_elems_loop(s, i, depth) {
        Some((es, k)) => Some((JsonValue::Arr(es), k)),
        None => None,
    }
}

fn parse_elems_loop(s: &Vec<u8>, i: usize, depth: usize) -> (r: Option<(Vec<JsonValue>, usize)>)
    requires
        i <= s@.len(),
        depth >= 1,
    ensures
        match r {
            Some((es, k)) => spec_elems(s@, i as int, depth as nat) == Some(
                (jv_seq_view(es@), k as int),
            ) && i < k <= s@.len(),
            None => spec_elems(s@, i as int, depth as nat) is None,
        },
    decreases depth, s@.len() - i, 0int,
{
    let mut acc: Vec<JsonValue> = Vec::new();
    let mut k = i;
    proof {
        assert(jv_seq_view(acc@) =~= Seq::<JsonV>::empty());
        if spec_elems(s@, i as int, depth as nat) is Some {
            let (rest, e) = spec_elems(s@, i as int, depth as nat)->Some_0;
            assert(jv_seq_view(acc@) + rest =~= rest);
        }
    }
    loop
        invariant
            i <= k <= s@.len(),
            depth >= 1,
            match spec_elems(s@, k as int, depth as nat) {
                Some((rest, e)) => spec_elems(s@, i as int, depth as nat) == Some(
                    (jv_seq_view(acc@) + rest, e),
                ),
                None => spec_elems(s@, i as int, depth as nat) is None,
            },
        decreases s@.len() - k,
    {
        match parse_value(s, k, depth - 1) {
            None => {
                return None;
            },
            Some((v, p)) => {
                let q = skip_ws(s, p);
                if !(q < s.len()) {
                    return None;
                }
                let ghost gv = v@;
                let ghost gacc = acc@;
                if s[q] == 0x2c {
                    acc.push(v);
                    proof {
                        lemma_seq_view_push(gacc, acc@[gacc.len() as int]);
                        assert(jv_view(acc@[gacc.len() as int]) == gv);
                        assert(jv_seq_view(acc@) =~= jv_seq_view(gacc) + seq![gv]);
                        if spec_elems(s@, q + 1, depth as nat) is Some {
                            let (rest2, e2) = spec_elems(s@, q + 1, depth as nat)->Some_0;
                            assert(jv_seq_view(gacc) + (seq![gv] + rest2) =~= jv_seq_view(acc@)
                                + rest2);
                        }
                    }
                    k = q + 1;
                } else if s[q] == 0x5d {
                    acc.push(v);
                    proof {
                        lemma_seq_view_push(gacc, acc@[gacc.len() as int]);
                        assert(jv_view(acc@[gacc.len() as int]) == gv);
                        assert(jv_seq_view(acc@) =~= jv_seq_view(gacc) + seq![gv]);
                    }
                    return Some((acc, q + 1));
                } else {
                    return None;
                }
            },
        }
    }
}

/// Parse one JSON document held in `s`, with insignificant whitespace
/// allowed around it.
pub fn parse_json(s: &Vec<u8>) -> (r: Option<JsonValue>)
    ensures
        match r {
            Some(v) => spec_json(s@) == Some(v@),
            None => spec_json(s@) is None,
        },
{
    match parse_value(s, 0, MAX_JSON_DEPTH) {
        Some((v, j)) => {
            let e = skip_ws(s, j);
            if e == s.len() {
                Some(v)
            } else {
                None
            }
        },
        None => None,
    }
}

/// Length and elements of `jv_seq_view`.
pub proof fn lemma_seq_view_props(s: Seq<JsonValue>)
    ensures
        jv_seq_view(s).len() == s.len(),
        forall|i: int| 0 <= i < s.len() ==> jv_seq_view(s)[i] == jv_view(s[i]),
    decreases s,
{
    if s.len() > 0 {
        lemma_seq_view_props(s.drop_first());
    }
}

/// Length and elements of `jv_entries_view`.
pub proof fn lemma_entries_view_props(s: Seq<(Vec<u8>, JsonValue)>)
    ensures
        jv_entries_view(s).len() == s.len(),
        forall|i: int|
            0 <= i < s.len() ==> jv_entries_view(s)[i] == (s[i].0@, jv_view(s[i].1)),
    decreases s,
{
    if s.len() > 0 {
        lemma_entries_view_props(s.drop_first());
    }
}

/// The bytes of an ASCII string, one byte per character.
pub open spec fn ascii_view(s: &str) -> Seq<u8> {
    s@.map_values(|c: char| c as u8)
}

/// The bytes of an ASCII string literal as a vector.
pub fn ascii_bytes(s: &str) -> (r: Vec<u8>)
    requires
        vstd::string::is_ascii(s),
    ensures
        r@ == ascii_view(s),
{
    broadcast use vstd::string::is_ascii_spec_bytes;

    let v = s.as_bytes_vec();
    proof {
        assert(v@ =~= ascii_view(s));
    }
    v
}

pub(crate) fn bytes_eq_slice(a: &Vec<u8>, b: &[u8]) -> (r: bool)
    ensures
        r == (a@ == b@),
{
    if a.len() != b.len() {
        proof {
            assert(a@.len() != b@.len());
        }
        return false;
    }
    let mut i: usize = 0;
    while i < a.len()
        invariant
            0 <= i <= a@.len(),
            a@.len() == b@.len(),
            forall|k: int| 0 <= k < i ==> a@[k] == b@[k],
        decreases a@.len() - i,
    {
        if a[i] != b[i] {
            return false;
        }
        i = i + 1;
    }
    proof {
        assert(a@ =~= b@);
    }
    true
}

/// Value of the first entry with the given key, or none.
pub open spec fn spec_obj_get(entries: Seq<(Seq<u8>, JsonV)>, key: Seq<u8>) -> Option<JsonV>
    decreases entries,
{
    if entries.len() == 0 {
        None
    } else if entries[0].0 == key {
        Some(entries[0].1)
    } else {
        spec_obj_get(entries.drop_first(), key)
    }
}

/// Look an ASCII key up in a JSON object; on duplicate keys the first
/// occurrence wins.
pub fn obj_get<'a>(v: &'a JsonValue, key: &str) -> (r: Option<&'a JsonValue>)
    requires
        vstd::string::is_ascii(key),
    ensures
        match r {
            Some(x) => v@ is Obj && spec_obj_get(v@->Obj_0, ascii_view(key)) == Some(x@),
            None => match v@ {
                JsonV::Obj(entries) => spec_obj_get(entries, ascii_view(key)) is None,
                _ => true,
            },
        },
{
    broadcast use vstd::string::is_ascii_spec_bytes;

    match v {
        JsonValue::Obj(entries) => {
            let kb = key.as_bytes();
            proof {
                assert(kb@ =~= ascii_view(key));
            }
            let ghost ev = jv_entries_view(entries@);
            proof {
                lemma_entries_view_props(entries@);
                assert(ev.skip(0) =~= ev);
            }
            let mut i: usize = 0;
            while i < entries.len()
                invariant
                    0 <= i <= entries@.len(),
                    kb@ == ascii_view(key),
                    ev == jv_entries_view(entries@),
                    ev.len() == entries@.len(),
                    forall|k: int|
                        0 <= k < entries@.len() ==> ev[k] == (entries@[k].0@, jv_view(
                            entries@[k].1,
                        )),
                    v@ is Obj && v@->Obj_0 == ev,
                    spec_obj_get(ev, kb@) == spec_obj_get(ev.skip(i as int), kb@),
                decreases entries@.len() - i,
            {
                if bytes_eq_slice(&entries[i].0, kb) {
                    proof {
                        assert(ev.skip(i as int)[0] == ev[i as int]);
                    }
                    return Some(&entries[i].1);
                }
                proof {
                    assert(ev.skip(i as int)[0] == ev[i as int]);
                    assert(ev.skip(i as int).drop_first() =~= ev.skip(i + 1));
                }
                i = i + 1;
            }
            proof {
                assert(ev.skip(i as int) =~= Seq::<(Seq<u8>, JsonV)>::empty());
            }
            None
        },
        _ => None,
    }
}

/// Lowercase hexadecimal digit for a value below 16.
pub open spec fn spec_hex_digit(v: u8) -> u8 {
    if v < 10 {
        (0x30 + v) as u8
    } else {
        (0x61 + (v - 10)) as u8
    }
}

/// Escaping of one string byte: the two-character escapes JSON names,
/// `\u00..` for the other control bytes, everything else unchanged.
pub open spec fn spec_esc_byte(b: u8) -> Seq<u8> {
    if b == 0x22 {
        seq![0x5cu8, 0x22u8]
    } else if b == 0x5c {
        seq![0x5cu8, 0x5cu8]
    } else if b == 0x0a {
        seq![0x5cu8, 0x6eu8]
    } else if b == 0x0d {
        seq![0x5cu8, 0x72u8]
    } else if b == 0x09 {
        seq![0x5cu8, 0x74u8]
    } else if b == 0x08 {
        seq![0x5cu8, 0x62u8]
    } else if b == 0x0c {
        seq![0x5cu8, 0x66u8]
    } else if b < 0x20 {
        seq![0x5cu8, 0x75u8, 0x30u8, 0x30u8, spec_hex_digit(b / 16), spec_hex_digit(b % 16)]
    } else {
        seq![b]
    }
}

/// Escaping of a whole string body.
pub open spec fn spec_esc_bytes(s: Seq<u8>) -> Seq<u8>
    decreases s,
{
    if s.len() == 0 {
        Seq::empty()
    } else {
        spec_esc_byte(s[0]) + spec_esc_bytes(s.drop_first())
    }
}

pub proof fn lemma_esc_bytes_snoc(s: Seq<u8>, b: u8)
    ensures
        spec_esc_bytes(s.push(b)) =~= spec_esc_bytes(s) + spec_esc_byte(b),
    decreases s,
{
    if s.len() == 0 {
        assert(s.push(b)[0] == b);
        assert(s.push(b).drop_first() =~= Seq::<u8>::empty());
        assert(spec_esc_bytes(s.push(b).drop_first()) =~= Seq::<u8>::empty());
        assert(spec_esc_bytes(s.push(b)) =~= spec_esc_byte(b));
        assert(spec_esc_bytes(s) =~= Seq::<u8>::empty());
    } else {
        assert(s.push(b)[0] == s[0]);
        assert(s.push(b).drop_first() =~= s.drop_first().push(b));
        lemma_esc_bytes_snoc(s.drop_first(), b);
        assert(spec_esc_bytes(s.push(b)) =~= spec_esc_byte(s[0]) + spec_esc_bytes(
            s.drop_first().push(b)));
        assert(spec_esc_byte(s[0]) + (spec_esc_bytes(s.drop_first()) + spec_esc_byte(b))
            =~= spec_esc_byte(s[0]) + spec_esc_bytes(s.drop_first()) + spec_esc_byte(b));
    }
}

/// Decimal digits of a non-negative integer.
pub open spec fn spec_dec(n: int) -> Seq<u8>
    recommends
        n >= 0,
    decreases n,
{
    if n < 10 {
        seq![(0x30 + if n >= 0 { n } else { 0 }) as u8]
    } else {
        spec_dec(n / 10).push((0x30 + n % 10) as u8)
    }
}

/// Serialized form of an integer.
pub open spec fn spec_ser_int(n: int) -> Seq<u8> {
    if n < 0 {
        seq![0x2du8] + spec_dec(-n)
    } else {
        spec_dec(n)
    }
}

/// Serialized form of a JSON value: no insignificant whitespace, object
/// entries in their held order.
pub open spec fn spec_ser(v: JsonV) -> Seq<u8>
    decreases v, 0int,
{
    match v {
        JsonV::Null => seq![0x6eu8, 0x75u8, 0x6cu8, 0x6cu8],
        JsonV::Bool(b) => if b {
            seq![0x74u8, 0x72u8, 0x75u8, 0x65u8]
        } else {
            seq![0x66u8, 0x61u8, 0x6cu8, 0x73u8, 0x65u8]
        },
        JsonV::Int(n) => spec_ser_int(n),
        JsonV::Str(bs) => seq![0x22u8] + spec_esc_bytes(bs) + seq![0x22u8],
        JsonV::Arr(items) => seq![0x5bu8] + spec_ser_items(items) + seq![0x5du8],
        JsonV::Obj(entries) => seq![0x7bu8] + spec_ser_entries(entries) + seq![0x7du8],
    }
}

/// Comma-separated serialized array elements.
pub open spec fn spec_ser_items(items: Seq<JsonV>) -> Seq<u8>
    decreases items, 1int,
{
    if items.len() == 0 {
        Seq::empty()
    } else {
        spec_ser(items[0]) + spec_ser_items_rest(items.drop_first())
    }
}

pub open spec fn spec_ser_items_rest(items: Seq<JsonV>) -> Seq<u8>
    decreases items, 0int,
{
    if items.len() == 0 {
        Seq::empty()
    } else {
        seq![0x2cu8] + spec_ser(items[0]) + spec_ser_items_rest(items.drop_first())
    }
}

/// One serialized object entry: quoted key, colon, value.
pub open spec fn spec_ser_entry(e: (Seq<u8>, JsonV)) -> Seq<u8>
    decreases e, 0int,
{
    seq![0x22u8] + spec_esc_bytes(e.0) + seq![0x22u8, 0x3au8] + spec_ser(e.1)
}

/// Comma-separated serialized object entries.
pub open spec fn spec_ser_entries(entries: Seq<(Seq<u8>, JsonV)>) -> Seq<u8>
    decreases entries, 1int,
{
    if entries.len() == 0 {
        Seq::empty()
    } else {
        spec_ser_entry(entries[0]) + spec_ser_entries_rest(entries.drop_first())
    }
}

pub open spec fn spec_ser_entries_rest(entries: Seq<(Seq<u8>, JsonV)>) -> Seq<u8>
    decreases entries, 0int,
{
    if entries.len() == 0 {
        Seq::empty()
    } else {
        seq![0x2cu8] + spec_ser_entry(entries[0]) + spec_ser_entries_rest(entries.drop_first())
    }
}

pub proof fn lemma_ser_items_rest_snoc(s: Seq<JsonV>, x: JsonV)
    ensures
        spec_ser_items_rest(s.push(x)) =~= spec_ser_items_rest(s) + seq![0x2cu8] + spec_ser(x),
    decreases s,
{
    if s.len() == 0 {
        assert(s.push(x)[0] == x);
        assert(s.push(x).drop_first() =~= Seq::<JsonV>::empty());
        assert(spec_ser_items_rest(s.push(x).drop_first()) =~= Seq::<u8>::empty());
        assert(spec_ser_items_rest(s) =~= Seq::<u8>::empty());
    } else {
        assert(s.push(x)[0] == s[0]);
        assert(s.push(x).drop_first() =~= s.drop_first().push(x));
        lemma_ser_items_rest_snoc(s.drop_first(), x);
        assert(spec_ser_items_rest(s.push(x)) =~= seq![0x2cu8] + spec_ser(s[0])
            + spec_ser_items_rest(s.drop_first().push(x)));
        assert(seq![0x2cu8] + spec_ser(s[0]) + (spec_ser_items_rest(s.drop_first()) + seq![0x2cu8]
            + spec_ser(x)) =~= spec_ser_items_rest(s) + seq![0x2cu8] + spec_ser(x));
    }
}

pub proof fn lemma_ser_entries_rest_snoc(s: Seq<(Seq<u8>, JsonV)>, x: (Seq<u8>, JsonV))
    ensures
        spec_ser_entries_rest(s.push(x)) =~= spec_ser_entries_rest(s) + seq![0x2cu8]
            + spec_ser_entry(x),
    decreases s,
{
    if s.len() == 0 {
        assert(s.push(x)[0] == x);
        assert(s.push(x).drop_first() =~= Seq::<(Seq<u8>, JsonV)>::empty());
        assert(spec_ser_entries_rest(s.push(x).drop_first()) =~= Seq::<u8>::empty());
        assert(spec_ser_entries_rest(s) =~= Seq::<u8>::empty());
    } else {
        assert(s.push(x)[0] == s[0]);
        assert(s.push(x).drop_first() =~= s.drop_first().push(x));
        lemma_ser_entries_rest_snoc(s.drop_first(), x);
        assert(spec_ser_entries_rest(s.push(x)) =~= seq![0x2cu8] + spec_ser_entry(s[0])
            + spec_ser_entries_rest(s.drop_first().push(x)));
        assert(seq![0x2cu8] + spec_ser_entry(s[0]) + (spec_ser_entries_rest(s.drop_first())
            + seq![0x2cu8] + spec_ser_entry(x)) =~= spec_ser_entries_rest(s) + seq![0x2cu8]
            + spec_ser_entry(x));
    }
}

fn hex_digit(v: u8) -> (r: u8)
    requires
        v < 16,
    ensures
        r == spec_hex_digit(v),
{
    if v < 10 {
        0x30 + v
    } else {
        0x61 + (v - 10)
    }
}

fn write_escaped_byte(b: u8, out: &mut Vec<u8>)
    ensures
        final(out)@ == old(out)@ + spec_esc_byte(b),
{
    if b == 0x22 || b == 0x5c {
        out.push(0x5c);
        out.push(b);
    } else if b == 0x0a {
        out.push(0x5c);
        out.push(0x6e);
    } else if b == 0x0d {
        out.push(0x5c);
        out.push(0x72);
    } else if b == 0x09 {
        out.push(0x5c);
        out.push(0x74);
    } else if b == 0x08 {
        out.push(0x5c);
        out.push(0x62);
    } else if b == 0x0c {
        out.push(0x5c);
        out.push(0x66);
    } else if b < 0x20 {
        out.push(0x5c);
        out.push(0x75);
        out.push(0x30);
        out.push(0x30);
        out.push(hex_digit(b / 16));
        out.push(hex_digit(b % 16));
    } else {
        out.push(b);
    }
    proof {
        assert(out@ =~= old(out)@ + spec_esc_byte(b));
    }
}

fn write_json_string(bs: &Vec<u8>, out: &mut Vec<u8>)
    ensures
        final(out)@ == old(out)@ + seq![0x22u8] + spec_esc_bytes(bs@) + seq![0x22u8],
{
    out.push(0x22);
    let mut i: usize = 0;
    proof {
        assert(spec_esc_bytes(bs@.subrange(0, 0)) =~= Seq::<u8>::empty());
        assert(out@ =~= old(out)@ + seq![0x22u8] + spec_esc_bytes(bs@.subrange(0, 0)));
    }
    while i < bs.len()
        invariant
            0 <= i <= bs@.len(),
            out@ == old(out)@ + seq![0x22u8] + spec_esc_bytes(bs@.subrange(0, i as int)),
        decreases bs@.len() - i,
    {
        write_escaped_byte(bs[i], out);
        proof {
            lemma_esc_bytes_snoc(bs@.subrange(0, i as int), bs@[i as int]);
            assert(bs@.subrange(0, i as int).push(bs@[i as int]) =~= bs@.subrange(0, i + 1));
            assert(old(out)@ + seq![0x22u8] + spec_esc_bytes(bs@.subrange(0, i as int))
                + spec_esc_byte(bs@[i as int]) =~= old(out)@ + seq![0x22u8] + spec_esc_bytes(
                bs@.subrange(0, i + 1),
            ));
        }
        i = i + 1;
    }
    proof {
        assert(bs@.subrange(0, bs@.len() as int) =~= bs@);
    }
    out.push(0x22);
    proof {
        assert(out@ =~= old(out)@ + seq![0x22u8] + spec_esc_bytes(bs@) + seq![0x22u8]);
    }
}

pub(crate) fn write_dec(n: u64, out: &mut Vec<u8>)
    ensures
        final(out)@ == old(out)@ + spec_dec(n as int),
    decreases n,
{
    if n < 10 {
        out.push(0x30 + (n as u8));
        proof {
            assert(out@ =~= old(out)@ + spec_dec(n as int));
        }
    } else {
        write_dec(n / 10, out);
        out.push(0x30 + ((n % 10) as u8));
        proof {
            assert(out@ =~= old(out)@ + spec_dec(n as int));
        }
    }
}

fn write_int(n: i64, out: &mut Vec<u8>)
    ensures
        final(out)@ == old(out)@ + spec_ser_int(n as int),
{
    if n < 0 {
        out.push(0x2d);
        let m: u64 = if n == i64::MIN {
            9223372036854775808u64
        } else {
            (-n) as u64
        };
        write_dec(m, out);
        proof {
            assert(out@ =~= old(out)@ + seq![0x2du8] + spec_dec(m as int));
            assert(old(out)@ + seq![0x2du8] + spec_dec(m as int) =~= old(out)@ + (seq![0x2du8]
                + spec_dec(-(n as int))));
        }
    } else {
        write_dec(n as u64, out);
    }
}

fn write_value(v: &JsonValue, out: &mut Vec<u8>)
    ensures
        final(out)@ == old(out)@ + spec_ser(v@),
    decreases v,
{
    match v {
        JsonValue::Null => {
            out.push(0x6e);
            out.push(0x75);
            out.push(0x6c);
            out.push(0x6c);
            proof {
                assert(out@ =~= old(out)@ + spec_ser(v@));
            }
        },
        JsonValue::Bool(b) => {
            if *b {
                out.push(0x74);
                out.push(0x72);
                out.push(0x75);
                out.push(0x65);
            } else {
                out.push(0x66);
                out.push(0x61);
                out.push(0x6c);
                out.push(0x73);
                out.push(0x65);
            }
            proof {
                assert(out@ =~= old(out)@ + spec_ser(v@));
            }
        },
        JsonValue::Int(n) => {
            write_int(*n, out);
        },
        JsonValue::Str(bs) => {
            write_json_string(bs, out);
            proof {
                assert(out@ =~= old(out)@ + spec_ser(v@));
            }
        },
        JsonValue::Arr(items) => {
            let ghost iv = jv_seq_view(items@);
            proof {
                lemma_seq_view_props(items@);
            }
            out.push(0x5b);
            if items.len() > 0 {
                proof {
                    assert(decreases_to!(*v => items@[0]));
                }
                write_value(&items[0], out);
                let mut idx: usize = 1;
                proof {
                    assert(spec_ser_items_rest(iv.subrange(1, 1)) =~= Seq::<u8>::empty());
                    assert(out@ =~= old(out)@ + seq![0x5bu8] + spec_ser(iv[0])
                        + spec_ser_items_rest(iv.subrange(1, 1)));
                }
                while idx < items.len()
                    invariant
                        1 <= idx <= items@.len(),
                        iv == jv_seq_view(items@),
                        iv.len() == items@.len(),
                        forall|k: int| 0 <= k < items@.len() ==> iv[k] == jv_view(items@[k]),
                        v@ == JsonV::Arr(iv),
                        v == JsonValue::Arr(*items),
                        out@ == old(out)@ + seq![0x5bu8] + spec_ser(iv[0]) + spec_ser_items_rest(
                            iv.subrange(1, idx as int),
                        ),
                    decreases items@.len() - idx,
                {
                    out.push(0x2c);
                    proof {
                        assert(decreases_to!(*v => items@[idx as int]));
                    }
                    write_value(&items[idx], out);
                    proof {
                        lemma_ser_items_rest_snoc(iv.subrange(1, idx as int), iv[idx as int]);
                        assert(iv.subrange(1, idx as int).push(iv[idx as int]) =~= iv.subrange(
                            1,
                            idx + 1,
                        ));
                        assert(out@ =~= old(out)@ + seq![0x5bu8] + spec_ser(iv[0])
                            + spec_ser_items_rest(iv.subrange(1, idx + 1)));
                    }
                    idx = idx + 1;
                }
                out.push(0x5d);
                proof {
                    assert(iv.subrange(1, iv.len() as int) =~= iv.drop_first());
                    assert(spec_ser_items(iv) == spec_ser(iv[0]) + spec_ser_items_rest(
                        iv.drop_first(),
                    ));
                    assert(out@ =~= old(out)@ + spec_ser(v@));
                }
            } else {
                out.push(0x5d);
                proof {
                    assert(spec_ser_items(iv) =~= Seq::<u8>::empty());
                    assert(out@ =~= old(out)@ + spec_ser(v@));
                }
            }
        },
        JsonValue::Obj(entries) => {
            let ghost ev = jv_entries_view(entries@);
            proof {
                lemma_entries_view_props(entries@);
            }
            out.push(0x7b);
            if entries.len() > 0 {
                write_json_string(&entries[0].0, out);
                out.push(0x3a);
                proof {
                    assert(decreases_to!(*v => entries@[0].1));
                }
                write_value(&entries[0].1, out);
                proof {
                    assert(spec_ser_entries_rest(ev.subrange(1, 1)) =~= Seq::<u8>::empty());
                    assert(out@ =~= old(out)@ + seq![0x7bu8] + spec_ser_entry(ev[0])
                        + spec_ser_entries_rest(ev.subrange(1, 1)));
                }
                let mut idx: usize = 1;
                while idx < entries.len()
                    invariant
                        1 <= idx <= entries@.len(),
                        ev == jv_entries_view(entries@),
                        ev.len() == entries@.len(),
                        forall|k: int|
                            0 <= k < entries@.len() ==> ev[k] == (entries@[k].0@, jv_view(
                                entries@[k].1,
                            )),
                        v@ == JsonV::Obj(ev),
                        v == JsonValue::Obj(*entries),
                        out@ == old(out)@ + seq![0x7bu8] + spec_ser_entry(ev[0])
                            + spec_ser_entries_rest(ev.subrange(1, idx as int)),
                    decreases entries@.len() - idx,
                {
                    out.push(0x2c);
                    write_json_string(&entries[idx].0, out);
                    out.push(0x3a);
                    proof {
                        assert(decreases_to!(*v => entries@[idx as int].1));
                    }
                    write_value(&entries[idx].1, out);
                    proof {
                        lemma_ser_entries_rest_snoc(ev.subrange(1, idx as int), ev[idx as int]);
                        assert(ev.subrange(1, idx as int).push(ev[idx as int]) =~= ev.subrange(
                            1,
                            idx + 1,
                        ));
                        assert(out@ =~= old(out)@ + seq![0x7bu8] + spec_ser_entry(ev[0])
                            + spec_ser_entries_rest(ev.subrange(1, idx + 1)));
                    }
                    idx = idx + 1;
                }
                out.push(0x7d);
                proof {
                    assert(ev.subrange(1, ev.len() as int) =~= ev.drop_first());
                    assert(spec_ser_entries(ev) == spec_ser_entry(ev[0]) + spec_ser_entries_rest(
                        ev.drop_first(),
                    ));
                    assert(out@ =~= old(out)@ + spec_ser(v@));
                }
            } else {
                out.push(0x7d);
                proof {
                    assert(spec_ser_entries(ev) =~= Seq::<u8>::empty());
                    assert(out@ =~= old(out)@ + spec_ser(v@));
                }
            }
        },
    }
}

/// Serialize a JSON value: no insignificant whitespace, object entries in
/// their held order.
pub fn to_json_bytes(v: &JsonValue) -> (r: Vec<u8>)
    ensures
        r@ == spec_ser(v@),
{
    let mut out: Vec<u8> = Vec::new();
    write_value(v, &mut out);
    proof {
        assert(out@ =~= spec_ser(v@));
    }
    out
}

} // verus!
