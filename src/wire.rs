//! The tag-value wire format: base-128 varints, field tags, and the shapes of
//! the four kinds of field values.
use vstd::prelude::*;

verus! {

/// The longest varint that a 64-bit value needs.
pub const MAX_VARINT_LEN: usize = 10;

/// The largest field number that a tag can carry.
pub const MAX_FIELD_NUMBER: u32 = 0x1fff_ffff;

pub const WIRE_VARINT: u8 = 0;

pub const WIRE_FIXED64: u8 = 1;

pub const WIRE_LENGTH_DELIMITED: u8 = 2;

pub const WIRE_FIXED32: u8 = 5;

/// The base-128 varint of `n`: seven bits a byte, low bits first, the high
/// bit set on every byte but the last.
pub open spec fn varint(n: nat) -> Seq<u8>
    decreases n,
{
    if n < 128 {
        seq![n as u8]
    } else {
        seq![(n % 128 + 128) as u8] + varint(n / 128)
    }
}

/// The varint at the front of `b`: its value and its length in bytes.
pub open spec fn read_varint(b: Seq<u8>) -> Option<(nat, nat)>
    decreases b.len(),
{
    if b.len() == 0 {
        None
    } else if b[0] < 128 {
        Some((b[0] as nat, 1nat))
    } else {
        match read_varint(b.drop_first()) {
            Some((v, l)) => Some(((b[0] - 128) as nat + 128 * v, l + 1)),
            None => None,
        }
    }
}

/// The varint at the front of `b`, where it is at most `budget` bytes long
/// and its value fits in 64 bits.
pub open spec fn read_varint_within(b: Seq<u8>, budget: nat) -> Option<(u64, nat)> {
    match read_varint(b) {
        Some((v, l)) => if l <= budget && v <= u64::MAX {
            Some((v as u64, l))
        } else {
            None
        },
        None => None,
    }
}

/// A field as it stands on the wire. The payload of a varint or fixed-size
/// value is its bytes as written; that of a length-delimited value is what
/// follows the length.
pub struct WireField {
    pub number: nat,
    pub wire_type: nat,
    pub payload: Seq<u8>,
}

/// The field at the front of `b`, and how many bytes it takes.
pub open spec fn read_field(b: Seq<u8>) -> Option<(WireField, nat)> {
    match read_varint_within(b, MAX_VARINT_LEN as nat) {
        None => None,
        Some((tag, tl)) => {
            let rest = b.skip(tl as int);
            let number = tag as nat / 8;
            let wt = tag as nat % 8;
            if tag > u32::MAX || number == 0 {
                None
            } else if wt == WIRE_VARINT {
                match read_varint_within(rest, MAX_VARINT_LEN as nat) {
                    Some((_, l)) => Some(
                        (WireField { number, wire_type: wt, payload: rest.take(l as int) }, tl + l),
                    ),
                    None => None,
                }
            } else if wt == WIRE_FIXED64 {
                if rest.len() >= 8 {
                    Some((WireField { number, wire_type: wt, payload: rest.take(8) }, tl + 8))
                } else {
                    None
                }
            } else if wt == WIRE_LENGTH_DELIMITED {
                match read_varint_within(rest, MAX_VARINT_LEN as nat) {
                    Some((n, l)) => if l + n <= rest.len() {
                        Some(
                            (
                                WireField {
                                    number,
                                    wire_type: wt,
                                    payload: rest.subrange(l as int, l + n),
                                },
                                tl + l + n as nat,
                            ),
                        )
                    } else {
                        None
                    },
                    None => None,
                }
            } else if wt == WIRE_FIXED32 {
                if rest.len() >= 4 {
                    Some((WireField { number, wire_type: wt, payload: rest.take(4) }, tl + 4))
                } else {
                    None
                }
            } else {
                None
            }
        },
    }
}

/// The tag of a field.
pub open spec fn encode_tag(number: nat, wire_type: nat) -> Seq<u8> {
    varint(number * 8 + wire_type)
}

/// A length-delimited field.
pub open spec fn encode_delimited(number: nat, bytes: Seq<u8>) -> Seq<u8> {
    encode_tag(number, WIRE_LENGTH_DELIMITED as nat) + varint(bytes.len()) + bytes
}

/// A field of any wire type, from its payload as [`WireField`] holds it.
pub open spec fn encode_field(number: nat, wire_type: nat, payload: Seq<u8>) -> Seq<u8> {
    if wire_type == WIRE_LENGTH_DELIMITED {
        encode_delimited(number, payload)
    } else {
        encode_tag(number, wire_type) + payload
    }
}

/// A payload that reads back whole as a field of the given wire type.
pub open spec fn payload_fits(wire_type: nat, payload: Seq<u8>) -> bool {
    if wire_type == WIRE_VARINT {
        read_varint_within(payload, MAX_VARINT_LEN as nat) matches Some((_, l)) && l
            == payload.len()
    } else if wire_type == WIRE_FIXED64 {
        payload.len() == 8
    } else if wire_type == WIRE_LENGTH_DELIMITED {
        payload.len() <= u64::MAX
    } else if wire_type == WIRE_FIXED32 {
        payload.len() == 4
    } else {
        false
    }
}

pub proof fn lemma_varint_round_trip(n: nat, rest: Seq<u8>)
    ensures
        read_varint(varint(n) + rest) == Some((n, varint(n).len())),
    decreases n,
{
    let b = varint(n) + rest;
    if n < 128 {
        assert(b[0] == n as u8);
    } else {
        lemma_varint_round_trip(n / 128, rest);
        assert(b.drop_first() =~= varint(n / 128) + rest);
        assert(b[0] == (n % 128 + 128) as u8);
        assert(n == n % 128 + 128 * (n / 128)) by (nonlinear_arith);
    }
}

proof fn lemma_varint_len_below(n: nat, k: nat, bound: nat)
    requires
        k >= 1,
        n < bound,
        bound == pow128(k),
    ensures
        varint(n).len() <= k,
    decreases k,
{
    if n >= 128 {
        if k == 1 {
            assert(pow128(1) == 128 * pow128(0));
        } else {
            let b2 = pow128((k - 1) as nat);
            assert(bound == 128 * b2);
            assert(n / 128 < b2) by (nonlinear_arith)
                requires
                    n < 128 * b2,
            ;
            lemma_varint_len_below(n / 128, (k - 1) as nat, b2);
        }
    }
}

spec fn pow128(k: nat) -> nat
    decreases k,
{
    if k == 0 {
        1
    } else {
        128 * pow128((k - 1) as nat)
    }
}

/// A 64-bit value's varint is at most ten bytes long.
pub proof fn lemma_varint_len(n: nat)
    requires
        n <= u64::MAX,
    ensures
        varint(n).len() <= MAX_VARINT_LEN,
        varint(n).len() >= 1,
{
    reveal_with_fuel(pow128, 11);
    lemma_varint_len_below(n, 10, pow128(10));
}

/// A 64-bit value's varint reads back as that value, whatever follows it.
pub proof fn lemma_varint_within(n: nat, rest: Seq<u8>)
    requires
        n <= u64::MAX,
    ensures
        read_varint_within(varint(n) + rest, MAX_VARINT_LEN as nat) == Some(
            (n as u64, varint(n).len()),
        ),
{
    lemma_varint_round_trip(n, rest);
    lemma_varint_len(n);
}

/// Reading a varint does not look past its end.
pub proof fn lemma_read_varint_prefix(p: Seq<u8>, rest: Seq<u8>)
    requires
        read_varint(p) is Some,
    ensures
        read_varint(p + rest) == read_varint(p),
    decreases p.len(),
{
    if p[0] >= 128 {
        assert((p + rest).drop_first() =~= p.drop_first() + rest);
        lemma_read_varint_prefix(p.drop_first(), rest);
    }
}

/// A field reads back as it was written, whatever follows it.
pub proof fn lemma_field_round_trip(number: nat, wire_type: nat, payload: Seq<u8>, rest: Seq<u8>)
    requires
        1 <= number <= MAX_FIELD_NUMBER,
        payload_fits(wire_type, payload),
    ensures
        read_field(encode_field(number, wire_type, payload) + rest) == Some(
            (
                WireField { number, wire_type, payload },
                encode_field(number, wire_type, payload).len(),
            ),
        ),
{
    let tag = number * 8 + wire_type;
    assert(wire_type < 8);
    assert(tag <= u32::MAX);
    assert(tag / 8 == number && tag % 8 == wire_type) by (nonlinear_arith)
        requires
            tag == number * 8 + wire_type,
            wire_type < 8,
    ;
    let e = encode_field(number, wire_type, payload);
    let b = e + rest;
    let t = encode_tag(number, wire_type);
    if wire_type == WIRE_LENGTH_DELIMITED {
        let lv = varint(payload.len());
        assert(b =~= t + (lv + payload + rest));
        lemma_varint_within(tag, lv + payload + rest);
        let after = b.skip(t.len() as int);
        assert(after =~= lv + (payload + rest));
        lemma_varint_within(payload.len(), payload + rest);
        assert(after.subrange(lv.len() as int, (lv.len() + payload.len()) as int) =~= payload);
    } else {
        assert(b =~= t + (payload + rest));
        lemma_varint_within(tag, payload + rest);
        let after = b.skip(t.len() as int);
        assert(after =~= payload + rest);
        if wire_type == WIRE_VARINT {
            lemma_read_varint_prefix(payload, rest);
            assert(after.take(payload.len() as int) =~= payload);
        } else {
            assert(after.take(payload.len() as int) =~= payload);
        }
    }
}

/// A varint read takes at least one byte and no more than there are.
pub proof fn lemma_read_varint_len(p: Seq<u8>)
    requires
        read_varint(p) is Some,
    ensures
        1 <= read_varint(p)->Some_0.1 <= p.len(),
    decreases p.len(),
{
    if p[0] >= 128 {
        lemma_read_varint_len(p.drop_first());
    }
}

/// Reading a field does not look past its end.
pub proof fn lemma_read_field_prefix(a: Seq<u8>, b: Seq<u8>)
    requires
        read_field(a) is Some,
    ensures
        read_field(a + b) == read_field(a),
        1 <= read_field(a)->Some_0.1 <= a.len(),
{
    let (tag, tl) = read_varint_within(a, MAX_VARINT_LEN as nat)->Some_0;
    lemma_read_varint_prefix(a, b);
    lemma_read_varint_len(a);
    let rest = a.skip(tl as int);
    let rest2 = (a + b).skip(tl as int);
    assert(rest2 =~= rest + b);
    let wt = tag as nat % 8;
    if wt == WIRE_VARINT || wt == WIRE_LENGTH_DELIMITED {
        lemma_read_varint_prefix(rest, b);
        lemma_read_varint_len(rest);
        let l = read_varint(rest)->Some_0.1;
        assert(rest2.take(l as int) =~= rest.take(l as int));
        if wt == WIRE_LENGTH_DELIMITED {
            let n = read_varint(rest)->Some_0.0;
            if l + n <= rest.len() {
                assert(rest2.subrange(l as int, (l + n) as int) =~= rest.subrange(l as int, (l + n) as int));
            }
        }
    } else if wt == WIRE_FIXED64 {
        assert(rest2.take(8) =~= rest.take(8));
    } else if wt == WIRE_FIXED32 {
        assert(rest2.take(4) =~= rest.take(4));
    }
}

/// Appends the varint of `n`.
pub fn write_varint(out: &mut Vec<u8>, n: u64)
    ensures
        final(out)@ == old(out)@ + varint(n as nat),
{
    let mut v: u64 = n;
    while v >= 128
        invariant
            out@ + varint(v as nat) == old(out)@ + varint(n as nat),
        decreases v,
    {
        let ghost before = out@;
        out.push((v % 128 + 128) as u8);
        assert(varint(v as nat) == seq![(v % 128 + 128) as u8] + varint((v / 128) as nat));
        assert(out@ + varint((v / 128) as nat) =~= before + varint(v as nat));
        v = v / 128;
    }
    let ghost before = out@;
    out.push(v as u8);
    assert(out@ =~= before + varint(v as nat));
}

/// Reads the varint that starts at `pos`, where it is at most `budget` bytes
/// long and fits in 64 bits: its value and its length.
pub fn read_varint_at(b: &[u8], pos: usize, budget: usize) -> (r: Option<(u64, usize)>)
    requires
        pos <= b@.len(),
    ensures
        r is Some <==> read_varint_within(b@.skip(pos as int), budget as nat) is Some,
        r is Some ==> r->Some_0.0 == read_varint_within(b@.skip(pos as int), budget as nat)->Some_0.0,
        r is Some ==> r->Some_0.1 == read_varint_within(b@.skip(pos as int), budget as nat)->Some_0.1,
        r is Some ==> pos + r->Some_0.1 <= b@.len(),
    decreases budget,
{
    let ghost s = b@.skip(pos as int);
    if pos == b.len() || budget == 0 {
        proof {
            if pos < b@.len() && read_varint(s) is Some {
                lemma_read_varint_len(s);
            }
        }
        return None;
    }
    let byte = b[pos];
    if byte < 128 {
        return Some((byte as u64, 1));
    }
    assert(s.drop_first() =~= b@.skip(pos + 1));
    proof {
        if read_varint(s) is Some {
            lemma_read_varint_len(s);
        }
    }
    match read_varint_at(b, pos + 1, budget - 1) {
        Some((v, l)) => {
            if v > 0x01ff_ffff_ffff_ffff {
                None
            } else {
                Some(((byte - 128) as u64 + 128 * v, l + 1))
            }
        },
        None => None,
    }
}

/// Where a field stands in a buffer.
pub struct FieldAt {
    pub number: u32,
    pub wire_type: u8,
    /// The payload is `start..end`.
    pub start: usize,
    pub end: usize,
    /// The first byte after the field.
    pub next: usize,
}

/// Reads the field that starts at `pos`.
pub fn read_field_at(b: &[u8], pos: usize) -> (r: Option<FieldAt>)
    requires
        pos <= b@.len(),
    ensures
        r is Some <==> read_field(b@.skip(pos as int)) is Some,
        r is Some ==> ({
            let (f, n) = read_field(b@.skip(pos as int))->Some_0;
            let at = r->Some_0;
            &&& f.number == at.number as nat
            &&& f.wire_type == at.wire_type as nat
            &&& pos <= at.start <= at.end <= b@.len()
            &&& f.payload == b@.subrange(at.start as int, at.end as int)
            &&& at.next == pos + n
        }),
{
    let ghost s = b@.skip(pos as int);
    let blen = b.len();
    let tag_read = read_varint_at(b, pos, MAX_VARINT_LEN);
    if tag_read.is_none() {
        return None;
    }
    let (tag, tl) = tag_read.unwrap();
    assert(pos + tl <= b@.len());
    if tag > 0xffff_ffff || tag / 8 == 0 {
        return None;
    }
    let number = (tag / 8) as u32;
    let wire_type = (tag % 8) as u8;
    let p = pos + tl;
    assert(s.skip(tl as int) =~= b@.skip(p as int));
    if wire_type == WIRE_VARINT {
        match read_varint_at(b, p, MAX_VARINT_LEN) {
            Some((_, l)) => {
                assert(b@.skip(p as int).take(l as int) =~= b@.subrange(p as int, (p + l) as int));
                Some(FieldAt { number, wire_type, start: p, end: p + l, next: p + l })
            },
            None => None,
        }
    } else if wire_type == WIRE_FIXED64 {
        if b.len() - p >= 8 {
            assert(b@.skip(p as int).take(8) =~= b@.subrange(p as int, p + 8));
            Some(FieldAt { number, wire_type, start: p, end: p + 8, next: p + 8 })
        } else {
            None
        }
    } else if wire_type == WIRE_LENGTH_DELIMITED {
        match read_varint_at(b, p, MAX_VARINT_LEN) {
            Some((n, l)) => {
                if n <= (b.len() - p - l) as u64 {
                    let start = p + l;
                    let end = start + n as usize;
                    assert(b@.skip(p as int).subrange(l as int, l + n) =~= b@.subrange(
                        start as int,
                        end as int,
                    ));
                    Some(FieldAt { number, wire_type, start, end, next: end })
                } else {
                    None
                }
            },
            None => None,
        }
    } else if wire_type == WIRE_FIXED32 {
        if b.len() - p >= 4 {
            assert(b@.skip(p as int).take(4) =~= b@.subrange(p as int, p + 4));
            Some(FieldAt { number, wire_type, start: p, end: p + 4, next: p + 4 })
        } else {
            None
        }
    } else {
        None
    }
}

/// Appends a field of any wire type, as [`encode_field`] writes it.
pub fn write_field(out: &mut Vec<u8>, number: u32, wire_type: u8, payload: &[u8])
    ensures
        final(out)@ == old(out)@ + encode_field(number as nat, wire_type as nat, payload@),
{
    write_varint(out, number as u64 * 8 + wire_type as u64);
    if wire_type == WIRE_LENGTH_DELIMITED {
        write_varint(out, payload.len() as u64);
    }
    let ghost before = out@;
    let mut i: usize = 0;
    while i < payload.len()
        invariant
            i <= payload@.len(),
            out@ == before + payload@.take(i as int),
        decreases payload@.len() - i,
    {
        out.push(payload[i]);
        i = i + 1;
        assert(out@ =~= before + payload@.take(i as int));
    }
    assert(payload@.take(i as int) =~= payload@);
    assert(final(out)@ =~= old(out)@ + encode_field(number as nat, wire_type as nat, payload@));
}

/// A varint reads the same from the bytes it takes alone.
pub proof fn lemma_read_varint_take(p: Seq<u8>)
    requires
        read_varint(p) is Some,
    ensures
        read_varint(p.take(read_varint(p)->Some_0.1 as int)) == read_varint(p),
    decreases p.len(),
{
    let l = read_varint(p)->Some_0.1;
    lemma_read_varint_len(p);
    assert(p.take(l as int)[0] == p[0]);
    if p[0] >= 128 {
        lemma_read_varint_take(p.drop_first());
        assert(p.take(l as int).drop_first() =~= p.drop_first().take(l - 1));
    }
}

/// Every field read off the wire has a payload of its wire type's shape and
/// a number that a tag can carry.
pub proof fn lemma_read_field_fits(b: Seq<u8>)
    requires
        read_field(b) is Some,
    ensures
        payload_fits(read_field(b)->Some_0.0.wire_type, read_field(b)->Some_0.0.payload),
        1 <= read_field(b)->Some_0.0.number <= MAX_FIELD_NUMBER,
        read_field(b)->Some_0.0.wire_type < 8,
{
    let (tag, tl) = read_varint_within(b, MAX_VARINT_LEN as nat)->Some_0;
    let rest = b.skip(tl as int);
    let wt = tag as nat % 8;
    assert(tag as nat / 8 <= MAX_FIELD_NUMBER) by (nonlinear_arith)
        requires
            tag <= u32::MAX,
    ;
    if wt == WIRE_VARINT {
        lemma_read_varint_take(rest);
        lemma_read_varint_len(rest);
    }
}

} // verus!
