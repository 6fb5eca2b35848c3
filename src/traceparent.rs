//! The `traceparent` header as a mathematical object: how a header value is
//! decoded into trace id, parent span id and sampled flag, and how those are
//! encoded back.
use vstd::prelude::*;
use vstd::string::StrSliceExecFns;

verus! {

/// `char::is_whitespace`: the Unicode `White_Space` property.
pub open spec fn is_white(c: char) -> bool {
    ('\u{9}' <= c && c <= '\u{d}') || c == ' ' || c == '\u{85}' || c == '\u{a0}'
        || c == '\u{1680}' || ('\u{2000}' <= c && c <= '\u{200a}') || c == '\u{2028}'
        || c == '\u{2029}' || c == '\u{202f}' || c == '\u{205f}' || c == '\u{3000}'
}

pub open spec fn trim_start(s: Seq<char>) -> Seq<char>
    decreases s.len(),
{
    if s.len() > 0 && is_white(s[0]) {
        trim_start(s.drop_first())
    } else {
        s
    }
}

pub open spec fn trim_end(s: Seq<char>) -> Seq<char>
    decreases s.len(),
{
    if s.len() > 0 && is_white(s.last()) {
        trim_end(s.drop_last())
    } else {
        s
    }
}

/// `str::trim`.
pub open spec fn trim(s: Seq<char>) -> Seq<char> {
    trim_end(trim_start(s))
}

/// `str::split(d)`: the pieces between occurrences of `d`; always at least one.
pub open spec fn split_on(s: Seq<char>, d: char) -> Seq<Seq<char>>
    decreases s.len(),
{
    if s.len() == 0 {
        seq![Seq::<char>::empty()]
    } else {
        let rest = split_on(s.drop_first(), d);
        if s[0] == d {
            seq![Seq::<char>::empty()] + rest
        } else {
            rest.update(0, seq![s[0]] + rest[0])
        }
    }
}

/// `str::split_terminator(d)`: as `split`, but a trailing empty piece is skipped.
pub open spec fn split_terminator(s: Seq<char>, d: char) -> Seq<Seq<char>> {
    let p = split_on(s, d);
    if p.last().len() == 0 {
        p.drop_last()
    } else {
        p
    }
}

/// The value of one hexadecimal digit, either case.
pub open spec fn hex_digit_value(c: char) -> Option<nat> {
    if '0' <= c && c <= '9' {
        Some((c as nat - '0' as nat) as nat)
    } else if 'a' <= c && c <= 'f' {
        Some((c as nat - 'a' as nat + 10) as nat)
    } else if 'A' <= c && c <= 'F' {
        Some((c as nat - 'A' as nat + 10) as nat)
    } else {
        None
    }
}

/// The value of a run of hexadecimal digits, most significant first.
pub open spec fn hex_digits_value(s: Seq<char>) -> Option<nat>
    decreases s.len(),
{
    if s.len() == 0 {
        Some(0)
    } else {
        match (hex_digits_value(s.drop_last()), hex_digit_value(s.last())) {
            (Some(high), Some(low)) => Some(high * 16 + low),
            _ => None,
        }
    }
}

/// `from_str_radix(s, 16)` for an unsigned type whose values lie below `bound`:
/// an optional `+`, then at least one hex digit, and a value that fits.
pub open spec fn parse_hex(s: Seq<char>, bound: nat) -> Option<nat> {
    let digits = if s.len() > 0 && s[0] == '+' {
        s.drop_first()
    } else {
        s
    };
    if digits.len() == 0 {
        None
    } else {
        match hex_digits_value(digits) {
            Some(v) => if v < bound {
                Some(v)
            } else {
                None
            },
            None => None,
        }
    }
}

pub open spec fn has_ascii_uppercase(s: Seq<char>) -> bool {
    exists|i: int| 0 <= i < s.len() && 'A' <= #[trigger] s[i] && s[i] <= 'Z'
}

pub open spec fn pow16(n: nat) -> nat
    decreases n,
{
    if n == 0 {
        1
    } else {
        16 * pow16((n - 1) as nat)
    }
}

/// The trace id, parent span id and sampled flag that a `traceparent` value
/// carries, or `None` where the propagator rejects the value. This is the
/// propagator's reading, more lenient in its syntax than the fixed shape (see
/// `fixed_shape`) and stricter in one point: under version `00` it rejects a
/// flags byte above `02`, which the shape itself admits.
pub open spec fn decode_traceparent(h: Seq<char>) -> Option<(u128, u64, bool)> {
    let parts = split_terminator(trim(h), '-');
    if parts.len() < 4 {
        None
    } else {
        match parse_hex(parts[0], 256) {
            None => None,
            Some(version) => if version > 254 || (version == 0 && parts.len() != 4) {
                None
            } else if has_ascii_uppercase(parts[1]) || has_ascii_uppercase(parts[2]) {
                None
            } else {
                match (
                    parse_hex(parts[1], pow16(32)),
                    parse_hex(parts[2], pow16(16)),
                    parse_hex(parts[3], 256),
                ) {
                    (Some(t), Some(p), Some(flags)) => if version == 0 && flags > 2 {
                        None
                    } else if t == 0 || p == 0 {
                        None
                    } else {
                        Some((t as u128, p as u64, flags % 2 == 1))
                    },
                    _ => None,
                }
            },
        }
    }
}

/// The lowercase hexadecimal digit of `d < 16`.
pub open spec fn hex_char(d: nat) -> char {
    if d < 10 {
        ('0' as nat + d) as char
    } else {
        ('a' as nat + d - 10) as char
    }
}

/// `v` in exactly `n` lowercase hex digits, zero padded (`{:0nx}` for `v < 16^n`).
pub open spec fn hex_fixed(v: nat, n: nat) -> Seq<char>
    decreases n,
{
    if n == 0 {
        Seq::empty()
    } else {
        hex_fixed(v / 16, (n - 1) as nat).push(hex_char(v % 16))
    }
}

/// The `traceparent` value written for a valid context: version `00`, the two
/// ids zero padded, and the flags byte holding the sampled bit alone.
pub open spec fn encode_traceparent(trace_id: u128, span_id: u64, sampled: bool) -> Seq<char> {
    seq!['0', '0', '-'] + hex_fixed(trace_id as nat, 32) + seq!['-'] + hex_fixed(
        span_id as nat,
        16,
    ) + seq!['-', '0', if sampled {
        '1'
    } else {
        '0'
    }]
}

pub open spec fn is_lower_hex_char(c: char) -> bool {
    ('0' <= c && c <= '9') || ('a' <= c && c <= 'f')
}

pub proof fn lemma_pow16_bounds()
    ensures
        pow16(32) == 0x1_0000_0000_0000_0000_0000_0000_0000_0000,
        pow16(16) == 0x1_0000_0000_0000_0000,
{
    reveal_with_fuel(pow16, 33);
}

proof fn lemma_hex_fixed(v: nat, n: nat)
    ensures
        hex_fixed(v, n).len() == n,
        forall|i: int| 0 <= i < n ==> is_lower_hex_char(#[trigger] hex_fixed(v, n)[i]),
        v < pow16(n) ==> hex_digits_value(hex_fixed(v, n)) == Some(v),
    decreases n,
{
    if n > 0 {
        let m = (n - 1) as nat;
        lemma_hex_fixed(v / 16, m);
        let s = hex_fixed(v, n);
        assert(s.drop_last() =~= hex_fixed(v / 16, m));
        if v < pow16(n) {
            assert(v / 16 < pow16(m)) by (nonlinear_arith)
                requires
                    v < 16 * pow16(m),
            ;
            assert(v == (v / 16) * 16 + v % 16) by (nonlinear_arith);
        }
    }
}

proof fn lemma_hex_digits_lower(s: Seq<char>)
    requires
        forall|i: int| 0 <= i < s.len() ==> is_lower_hex_char(#[trigger] s[i]),
    ensures
        hex_digits_value(s) is Some,
        !has_ascii_uppercase(s),
    decreases s.len(),
{
    if s.len() > 0 {
        lemma_hex_digits_lower(s.drop_last());
    }
}

proof fn lemma_split_without(a: Seq<char>, d: char)
    requires
        !a.contains(d),
    ensures
        split_on(a, d) == seq![a],
    decreases a.len(),
{
    if a.len() > 0 {
        lemma_split_without(a.drop_first(), d);
        assert(a.drop_first().contains(d) ==> a.contains(d));
        assert(seq![a[0]] + a.drop_first() =~= a);
        assert(split_on(a, d) =~= seq![a]);
    } else {
        assert(a =~= Seq::<char>::empty());
    }
}

proof fn lemma_split_prefix(a: Seq<char>, d: char, rest: Seq<char>)
    requires
        !a.contains(d),
    ensures
        split_on(a + seq![d] + rest, d) == seq![a] + split_on(rest, d),
    decreases a.len(),
{
    let s = a + seq![d] + rest;
    if a.len() == 0 {
        assert(a =~= Seq::<char>::empty());
        assert(s.drop_first() =~= rest);
        assert(s[0] == d);
    } else {
        let t = a.drop_first();
        assert(t.contains(d) ==> a.contains(d));
        lemma_split_prefix(t, d, rest);
        assert(s.drop_first() =~= t + seq![d] + rest);
        assert(s[0] == a[0]);
        assert(seq![a[0]] + t =~= a);
        assert(split_on(s, d) =~= seq![a] + split_on(rest, d));
    }
}

proof fn lemma_lower_hex_no_dash(s: Seq<char>)
    requires
        forall|i: int| 0 <= i < s.len() ==> is_lower_hex_char(#[trigger] s[i]),
    ensures
        !s.contains('-'),
{
    if s.contains('-') {
        let i = choose|i: int| 0 <= i < s.len() && s[i] == '-';
        assert(is_lower_hex_char(s[i]));
    }
}

/// Encoding a valid context as a `traceparent` value and decoding that value
/// gives back the same trace id, parent span id and sampled flag.
pub proof fn lemma_traceparent_round_trip(trace_id: u128, span_id: u64, sampled: bool)
    requires
        trace_id != 0,
        span_id != 0,
    ensures
        decode_traceparent(encode_traceparent(trace_id, span_id, sampled)) == Some(
            (trace_id, span_id, sampled),
        ),
{
    lemma_pow16_bounds();
    let t = hex_fixed(trace_id as nat, 32);
    let p = hex_fixed(span_id as nat, 16);
    let flag = if sampled {
        '1'
    } else {
        '0'
    };
    let ver = seq!['0', '0'];
    let fl = seq!['0', flag];
    lemma_hex_fixed(trace_id as nat, 32);
    lemma_hex_fixed(span_id as nat, 16);
    lemma_hex_digits_lower(t);
    lemma_hex_digits_lower(p);
    lemma_lower_hex_no_dash(t);
    lemma_lower_hex_no_dash(p);
    let h = encode_traceparent(trace_id, span_id, sampled);
    assert(h =~= ver + seq!['-'] + (t + seq!['-'] + (p + seq!['-'] + fl)));
    assert(!ver.contains('-')) by {
        if ver.contains('-') {
            let i = choose|i: int| 0 <= i < ver.len() && ver[i] == '-';
        }
    };
    assert(!fl.contains('-')) by {
        if fl.contains('-') {
            let i = choose|i: int| 0 <= i < fl.len() && fl[i] == '-';
        }
    };
    lemma_split_prefix(ver, '-', t + seq!['-'] + (p + seq!['-'] + fl));
    lemma_split_prefix(t, '-', p + seq!['-'] + fl);
    lemma_split_prefix(p, '-', fl);
    lemma_split_without(fl, '-');
    assert(h[0] == '0');
    assert(trim_start(h) == h);
    assert(h.last() == flag);
    assert(trim(h) == h);
    let parts = split_on(h, '-');
    assert(parts =~= seq![ver, t, p, fl]);
    assert(split_terminator(h, '-') == parts);
    reveal_with_fuel(hex_digits_value, 3);
    assert(ver.drop_last().drop_last() =~= Seq::<char>::empty());
    assert(fl.drop_last().drop_last() =~= Seq::<char>::empty());
    assert(parse_hex(ver, 256) == Some(0nat));
    assert(parse_hex(fl, 256) == Some(if sampled { 1nat } else { 0nat }));
    assert(parse_hex(t, pow16(32)) == Some(trace_id as nat));
    assert(parse_hex(p, pow16(16)) == Some(span_id as nat));
}

/// Positions of the three hyphens in `%02x-%032x-%016x-%02x`.
pub open spec fn is_dash_position(i: int) -> bool {
    i == 2 || i == 35 || i == 52
}

/// Position `i` of `h` holds what the fixed shape asks there: a hyphen at a
/// separator position, a lowercase hex digit everywhere else.
pub open spec fn shape_char_ok(h: Seq<char>, i: int) -> bool {
    if is_dash_position(i) {
        h[i] == '-'
    } else {
        is_lower_hex_char(h[i])
    }
}

/// The fixed shape `%02x-%032x-%016x-%02x` of a `traceparent` value: 55
/// characters, hyphens at positions 2, 35 and 52, lowercase hex digits in the
/// version, trace id, parent id and flags fields.
pub open spec fn fixed_shape(h: Seq<char>) -> bool {
    h.len() == 55 && forall|i: int| 0 <= i < 55 ==> #[trigger] shape_char_ok(h, i)
}

/// Tests a header value for the fixed `traceparent` shape.
pub fn has_fixed_shape(s: &str) -> (r: bool)
    ensures
        r == fixed_shape(s@),
{
    if s.unicode_len() != 55 {
        return false;
    }
    let mut i: usize = 0;
    while i < 55
        invariant
            s@.len() == 55,
            0 <= i <= 55,
            forall|j: int| 0 <= j < i ==> #[trigger] shape_char_ok(s@, j),
        decreases 55 - i,
    {
        let c = s.get_char(i);
        let ok = if i == 2 || i == 35 || i == 52 {
            c == '-'
        } else {
            ('0' <= c && c <= '9') || ('a' <= c && c <= 'f')
        };
        if !ok {
            assert(!shape_char_ok(s@, i as int));
            return false;
        }
        i = i + 1;
    }
    true
}

/// Every encoded `traceparent` value has the fixed shape.
pub proof fn lemma_encode_fixed_shape(trace_id: u128, span_id: u64, sampled: bool)
    ensures
        fixed_shape(encode_traceparent(trace_id, span_id, sampled)),
{
    let t = hex_fixed(trace_id as nat, 32);
    let p = hex_fixed(span_id as nat, 16);
    lemma_hex_fixed(trace_id as nat, 32);
    lemma_hex_fixed(span_id as nat, 16);
    let h = encode_traceparent(trace_id, span_id, sampled);
    assert(h.len() == 55);
    assert forall|i: int| 0 <= i < 55 implies #[trigger] shape_char_ok(h, i) by {
        if 3 <= i < 35 {
            assert(h[i] == t[i - 3]);
        } else if 36 <= i < 52 {
            assert(h[i] == p[i - 36]);
        }
    }
}

} // verus!
