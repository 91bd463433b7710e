//! The DHT record: five optional fields (`key`, `value`, `author`,
//! `signature`, `timeReceived`, field numbers 1 to 5, each length-delimited),
//! and the fields of other numbers, kept as they were read so that they are
//! written out again.
#![allow(non_snake_case)]
use vstd::prelude::*;
use vstd::utf8::{decode_utf8, encode_utf8, valid_utf8};
use vstd::utf8::{decode_utf8_encode_utf8, encode_utf8_decode_utf8, encode_utf8_valid_utf8};
use crate::wire::{
    encode_delimited, encode_field, lemma_field_round_trip, lemma_read_field_prefix,
    lemma_read_field_fits, payload_fits, read_field, read_field_at, write_field, WireField,
    MAX_FIELD_NUMBER, WIRE_LENGTH_DELIMITED,
};

verus! {

/// A field of a number that the record does not know, as it was read.
#[derive(Clone, Debug, PartialEq, Eq)]
pub struct UnknownField {
    pub number: u32,
    pub wire_type: u8,
    /// For a length-delimited field, the bytes after the length; otherwise the
    /// value's bytes as written.
    pub payload: Vec<u8>,
}

pub struct UnknownFieldView {
    pub number: u32,
    pub wire_type: u8,
    pub payload: Seq<u8>,
}

impl DeepView for UnknownField {
    type V = UnknownFieldView;

    open spec fn deep_view(&self) -> UnknownFieldView {
        UnknownFieldView { number: self.number, wire_type: self.wire_type, payload: self.payload@ }
    }
}

/// A DHT record.
#[derive(Clone, Debug, PartialEq, Eq)]
pub struct Record {
    key: Option<String>,
    value: Option<Vec<u8>>,
    author: Option<String>,
    signature: Option<Vec<u8>>,
    time_received: Option<String>,
    unknown_fields: Vec<UnknownField>,
}

pub struct RecordView {
    pub key: Option<Seq<char>>,
    pub value: Option<Seq<u8>>,
    pub author: Option<Seq<char>>,
    pub signature: Option<Seq<u8>>,
    pub time_received: Option<Seq<char>>,
    pub unknown_fields: Seq<UnknownFieldView>,
}

pub open spec fn string_view(o: Option<String>) -> Option<Seq<char>> {
    match o {
        Some(s) => Some(s@),
        None => None,
    }
}

pub open spec fn bytes_view(o: Option<Vec<u8>>) -> Option<Seq<u8>> {
    match o {
        Some(v) => Some(v@),
        None => None,
    }
}

/// The record with no field set.
pub open spec fn empty_record() -> RecordView {
    RecordView {
        key: None,
        value: None,
        author: None,
        signature: None,
        time_received: None,
        unknown_fields: Seq::empty(),
    }
}

impl View for Record {
    type V = RecordView;

    closed spec fn view(&self) -> RecordView {
        RecordView {
            key: string_view(self.key),
            value: bytes_view(self.value),
            author: string_view(self.author),
            signature: bytes_view(self.signature),
            time_received: string_view(self.time_received),
            unknown_fields: self.unknown_fields.deep_view(),
        }
    }
}

/// The characters of a string field, or none where it is unset.
pub open spec fn chars_or_empty(o: Option<Seq<char>>) -> Seq<char> {
    match o {
        Some(s) => s,
        None => Seq::empty(),
    }
}

/// The bytes of a bytes field, or none where it is unset.
pub open spec fn bytes_or_empty(o: Option<Seq<u8>>) -> Seq<u8> {
    match o {
        Some(s) => s,
        None => Seq::empty(),
    }
}

impl Record {
    pub fn new() -> (r: Record)
        ensures
            r@ == empty_record(),
    {
        let r = Record {
            key: None,
            value: None,
            author: None,
            signature: None,
            time_received: None,
            unknown_fields: Vec::new(),
        };
        assert(r@.unknown_fields =~= Seq::<UnknownFieldView>::empty());
        r
    }

    pub fn clear_key(&mut self)
        ensures
            final(self)@ == (RecordView { key: None, ..old(self)@ }),
    {
        self.key = None;
    }

    pub fn has_key(&self) -> (r: bool)
        ensures
            r == self@.key is Some,
    {
        self.key.is_some()
    }

    pub fn set_key(&mut self, v: String)
        ensures
            final(self)@ == (RecordView { key: Some(v@), ..old(self)@ }),
    {
        self.key = Some(v);
    }

    /// The key, set to the empty string first where it is unset.
    pub fn mut_key(&mut self) -> (r: &mut String)
        ensures
            r@ == chars_or_empty(old(self)@.key),
            final(self)@ == (RecordView { key: Some(final(r)@), ..old(self)@ }),
    {
        if self.key.is_none() {
            self.key = Some(String::new());
        }
        match &mut self.key {
            Some(k) => k,
            None => vstd::pervasive::unreached(),
        }
    }

    /// Takes the key out, leaving it unset; the empty string where it was unset.
    pub fn take_key(&mut self) -> (r: String)
        ensures
            r@ == chars_or_empty(old(self)@.key),
            final(self)@ == (RecordView { key: None, ..old(self)@ }),
    {
        match self.key.take() {
            Some(k) => k,
            None => String::new(),
        }
    }

    /// The key; the empty string where it is unset.
    pub fn get_key(&self) -> (r: &str)
        ensures
            r@ == chars_or_empty(self@.key),
    {
        match &self.key {
            Some(k) => k.as_str(),
            None => {
                proof {
                    reveal_strlit("");
                }
                ""
            },
        }
    }

    pub fn clear_value(&mut self)
        ensures
            final(self)@ == (RecordView { value: None, ..old(self)@ }),
    {
        self.value = None;
    }

    pub fn has_value(&self) -> (r: bool)
        ensures
            r == self@.value is Some,
    {
        self.value.is_some()
    }

    pub fn set_value(&mut self, v: Vec<u8>)
        ensures
            final(self)@ == (RecordView { value: Some(v@), ..old(self)@ }),
    {
        self.value = Some(v);
    }

    /// The value, set to no bytes first where it is unset.
    pub fn mut_value(&mut self) -> (r: &mut Vec<u8>)
        ensures
            r@ == bytes_or_empty(old(self)@.value),
            final(self)@ == (RecordView { value: Some(final(r)@), ..old(self)@ }),
    {
        if self.value.is_none() {
            self.value = Some(Vec::new());
        }
        match &mut self.value {
            Some(k) => k,
            None => vstd::pervasive::unreached(),
        }
    }

    /// Takes the value out, leaving it unset; no bytes where it was unset.
    pub fn take_value(&mut self) -> (r: Vec<u8>)
        ensures
            r@ == bytes_or_empty(old(self)@.value),
            final(self)@ == (RecordView { value: None, ..old(self)@ }),
    {
        match self.value.take() {
            Some(k) => k,
            None => Vec::new(),
        }
    }

    /// The value; no bytes where it is unset.
    pub fn get_value(&self) -> (r: &[u8])
        ensures
            r@ == bytes_or_empty(self@.value),
    {
        match &self.value {
            Some(k) => k.as_slice(),
            None => &[],
        }
    }

    pub fn clear_author(&mut self)
        ensures
            final(self)@ == (RecordView { author: None, ..old(self)@ }),
    {
        self.author = None;
    }

    pub fn has_author(&self) -> (r: bool)
        ensures
            r == self@.author is Some,
    {
        self.author.is_some()
    }

    pub fn set_author(&mut self, v: String)
        ensures
            final(self)@ == (RecordView { author: Some(v@), ..old(self)@ }),
    {
        self.author = Some(v);
    }

    /// The author, set to the empty string first where it is unset.
    pub fn mut_author(&mut self) -> (r: &mut String)
        ensures
            r@ == chars_or_empty(old(self)@.author),
            final(self)@ == (RecordView { author: Some(final(r)@), ..old(self)@ }),
    {
        if self.author.is_none() {
            self.author = Some(String::new());
        }
        match &mut self.author {
            Some(k) => k,
            None => vstd::pervasive::unreached(),
        }
    }

    /// Takes the author out, leaving it unset; the empty string where it was unset.
    pub fn take_author(&mut self) -> (r: String)
        ensures
            r@ == chars_or_empty(old(self)@.author),
            final(self)@ == (RecordView { author: None, ..old(self)@ }),
    {
        match self.author.take() {
            Some(k) => k,
            None => String::new(),
        }
    }

    /// The author; the empty string where it is unset.
    pub fn get_author(&self) -> (r: &str)
        ensures
            r@ == chars_or_empty(self@.author),
    {
        match &self.author {
            Some(k) => k.as_str(),
            None => {
                proof {
                    reveal_strlit("");
                }
                ""
            },
        }
    }

    pub fn clear_signature(&mut self)
        ensures
            final(self)@ == (RecordView { signature: None, ..old(self)@ }),
    {
        self.signature = None;
    }

    pub fn has_signature(&self) -> (r: bool)
        ensures
            r == self@.signature is Some,
    {
        self.signature.is_some()
    }

    pub fn set_signature(&mut self, v: Vec<u8>)
        ensures
            final(self)@ == (RecordView { signature: Some(v@), ..old(self)@ }),
    {
        self.signature = Some(v);
    }

    /// The signature, set to no bytes first where it is unset.
    pub fn mut_signature(&mut self) -> (r: &mut Vec<u8>)
        ensures
            r@ == bytes_or_empty(old(self)@.signature),
            final(self)@ == (RecordView { signature: Some(final(r)@), ..old(self)@ }),
    {
        if self.signature.is_none() {
            self.signature = Some(Vec::new());
        }
        match &mut self.signature {
            Some(k) => k,
            None => vstd::pervasive::unreached(),
        }
    }

    /// Takes the signature out, leaving it unset; no bytes where it was unset.
    pub fn take_signature(&mut self) -> (r: Vec<u8>)
        ensures
            r@ == bytes_or_empty(old(self)@.signature),
            final(self)@ == (RecordView { signature: None, ..old(self)@ }),
    {
        match self.signature.take() {
            Some(k) => k,
            None => Vec::new(),
        }
    }

    /// The signature; no bytes where it is unset.
    pub fn get_signature(&self) -> (r: &[u8])
        ensures
            r@ == bytes_or_empty(self@.signature),
    {
        match &self.signature {
            Some(k) => k.as_slice(),
            None => &[],
        }
    }

    pub fn clear_timeReceived(&mut self)
        ensures
            final(self)@ == (RecordView { time_received: None, ..old(self)@ }),
    {
        self.time_received = None;
    }

    pub fn has_timeReceived(&self) -> (r: bool)
        ensures
            r == self@.time_received is Some,
    {
        self.time_received.is_some()
    }

    pub fn set_timeReceived(&mut self, v: String)
        ensures
            final(self)@ == (RecordView { time_received: Some(v@), ..old(self)@ }),
    {
        self.time_received = Some(v);
    }

    /// The time of receipt, set to the empty string first where it is unset.
    pub fn mut_timeReceived(&mut self) -> (r: &mut String)
        ensures
            r@ == chars_or_empty(old(self)@.time_received),
            final(self)@ == (RecordView { time_received: Some(final(r)@), ..old(self)@ }),
    {
        if self.time_received.is_none() {
            self.time_received = Some(String::new());
        }
        match &mut self.time_received {
            Some(k) => k,
            None => vstd::pervasive::unreached(),
        }
    }

    /// Takes the time of receipt out, leaving it unset; the empty string where it was unset.
    pub fn take_timeReceived(&mut self) -> (r: String)
        ensures
            r@ == chars_or_empty(old(self)@.time_received),
            final(self)@ == (RecordView { time_received: None, ..old(self)@ }),
    {
        match self.time_received.take() {
            Some(k) => k,
            None => String::new(),
        }
    }

    /// The time of receipt; the empty string where it is unset.
    pub fn get_timeReceived(&self) -> (r: &str)
        ensures
            r@ == chars_or_empty(self@.time_received),
    {
        match &self.time_received {
            Some(k) => k.as_str(),
            None => {
                proof {
                    reveal_strlit("");
                }
                ""
            },
        }
    }
}

/// What reading one field does to a record. A field numbered 1 to 5 must be
/// length-delimited, and the string ones valid UTF-8; it replaces what the
/// record held. A field of another number joins the unknown fields.
pub open spec fn apply_field(r: RecordView, f: WireField) -> Option<RecordView> {
    if 1 <= f.number <= 5 {
        if f.wire_type != WIRE_LENGTH_DELIMITED {
            None
        } else if f.number == 2 {
            Some(RecordView { value: Some(f.payload), ..r })
        } else if f.number == 4 {
            Some(RecordView { signature: Some(f.payload), ..r })
        } else if !valid_utf8(f.payload) {
            None
        } else if f.number == 1 {
            Some(RecordView { key: Some(decode_utf8(f.payload)), ..r })
        } else if f.number == 3 {
            Some(RecordView { author: Some(decode_utf8(f.payload)), ..r })
        } else {
            Some(RecordView { time_received: Some(decode_utf8(f.payload)), ..r })
        }
    } else {
        Some(
            RecordView {
                unknown_fields: r.unknown_fields.push(
                    UnknownFieldView {
                        number: f.number as u32,
                        wire_type: f.wire_type as u8,
                        payload: f.payload,
                    },
                ),
                ..r
            },
        )
    }
}

/// Reads the fields of `b` into `r`, one after the other; `None` where a
/// field cannot be read or applied.
pub open spec fn merge_bytes(r: RecordView, b: Seq<u8>) -> Option<RecordView>
    decreases b.len(),
{
    if b.len() == 0 {
        Some(r)
    } else {
        match read_field(b) {
            Some((f, n)) => if 0 < n <= b.len() {
                match apply_field(r, f) {
                    Some(r2) => merge_bytes(r2, b.skip(n as int)),
                    None => None,
                }
            } else {
                None
            },
            None => None,
        }
    }
}

pub open spec fn encode_string_field(number: nat, o: Option<Seq<char>>) -> Seq<u8> {
    match o {
        Some(s) => encode_delimited(number, encode_utf8(s)),
        None => Seq::empty(),
    }
}

pub open spec fn encode_bytes_field(number: nat, o: Option<Seq<u8>>) -> Seq<u8> {
    match o {
        Some(b) => encode_delimited(number, b),
        None => Seq::empty(),
    }
}

pub open spec fn encode_unknown_field(u: UnknownFieldView) -> Seq<u8> {
    encode_field(u.number as nat, u.wire_type as nat, u.payload)
}

/// The unknown fields, one after the other, in the order they were read.
pub open spec fn encode_unknown_fields(us: Seq<UnknownFieldView>) -> Seq<u8>
    decreases us.len(),
{
    if us.len() == 0 {
        Seq::empty()
    } else {
        encode_unknown_fields(us.drop_last()) + encode_unknown_field(us.last())
    }
}

/// A record on the wire: the set fields in ascending field number, then the
/// unknown fields.
pub open spec fn encode_record(r: RecordView) -> Seq<u8> {
    encode_string_field(1, r.key) + encode_bytes_field(2, r.value) + encode_string_field(
        3,
        r.author,
    ) + encode_bytes_field(4, r.signature) + encode_string_field(5, r.time_received)
        + encode_unknown_fields(r.unknown_fields)
}

/// An unknown field that can stand on the wire and reads back as unknown.
pub open spec fn unknown_field_ok(u: UnknownFieldView) -> bool {
    6 <= u.number <= MAX_FIELD_NUMBER && payload_fits(u.wire_type as nat, u.payload)
}

pub open spec fn string_fits(o: Option<Seq<char>>) -> bool {
    o matches Some(s) ==> encode_utf8(s).len() <= u64::MAX
}

pub open spec fn bytes_fit(o: Option<Seq<u8>>) -> bool {
    o matches Some(b) ==> b.len() <= u64::MAX
}

/// A record that the wire format can carry: its lengths fit in 64 bits, and
/// each unknown field has a number above 5 and a payload of its wire type's
/// shape.
pub open spec fn well_formed(r: RecordView) -> bool {
    &&& string_fits(r.key)
    &&& bytes_fit(r.value)
    &&& string_fits(r.author)
    &&& bytes_fit(r.signature)
    &&& string_fits(r.time_received)
    &&& forall|i: int|
        0 <= i < r.unknown_fields.len() ==> #[trigger] unknown_field_ok(r.unknown_fields[i])
}

/// Reading two runs of fields one after the other is reading the first, then
/// the second.
pub proof fn lemma_merge_concat(r: RecordView, a: Seq<u8>, b: Seq<u8>)
    requires
        merge_bytes(r, a) is Some,
    ensures
        merge_bytes(r, a + b) == merge_bytes(merge_bytes(r, a)->Some_0, b),
    decreases a.len(),
{
    if a.len() == 0 {
        assert(a + b =~= b);
    } else {
        let (f, n) = read_field(a)->Some_0;
        lemma_read_field_prefix(a, b);
        let r1 = apply_field(r, f)->Some_0;
        assert((a + b).skip(n as int) =~= a.skip(n as int) + b);
        lemma_merge_concat(r1, a.skip(n as int), b);
    }
}

proof fn lemma_merge_one_field(r: RecordView, number: nat, wire_type: nat, payload: Seq<u8>)
    requires
        1 <= number <= MAX_FIELD_NUMBER,
        payload_fits(wire_type, payload),
        apply_field(r, WireField { number, wire_type, payload }) is Some,
    ensures
        merge_bytes(r, encode_field(number, wire_type, payload)) == apply_field(
            r,
            WireField { number, wire_type, payload },
        ),
{
    let e = encode_field(number, wire_type, payload);
    lemma_field_round_trip(number, wire_type, payload, Seq::empty());
    assert(e + Seq::<u8>::empty() =~= e);
    lemma_read_field_prefix(e, Seq::empty());
    assert(e.len() > 0);
    let r2 = apply_field(r, WireField { number, wire_type, payload })->Some_0;
    assert(e.skip(e.len() as int) =~= Seq::<u8>::empty());
    assert(merge_bytes(r2, Seq::<u8>::empty()) == Some(r2));
}

proof fn lemma_merge_string_field(r: RecordView, number: nat, o: Option<Seq<char>>)
    requires
        number == 1 || number == 3 || number == 5,
        string_fits(o),
    ensures
        merge_bytes(r, encode_string_field(number, o)) == Some(
            if o is None {
                r
            } else if number == 1 {
                RecordView { key: o, ..r }
            } else if number == 3 {
                RecordView { author: o, ..r }
            } else {
                RecordView { time_received: o, ..r }
            },
        ),
{
    if let Some(s) = o {
        encode_utf8_decode_utf8(s);
        encode_utf8_valid_utf8(s);
        lemma_merge_one_field(r, number, WIRE_LENGTH_DELIMITED as nat, encode_utf8(s));
    }
}

proof fn lemma_merge_bytes_field(r: RecordView, number: nat, o: Option<Seq<u8>>)
    requires
        number == 2 || number == 4,
        bytes_fit(o),
    ensures
        merge_bytes(r, encode_bytes_field(number, o)) == Some(
            if o is None {
                r
            } else if number == 2 {
                RecordView { value: o, ..r }
            } else {
                RecordView { signature: o, ..r }
            },
        ),
{
    if let Some(b) = o {
        lemma_merge_one_field(r, number, WIRE_LENGTH_DELIMITED as nat, b);
    }
}

proof fn lemma_merge_unknown_fields(r: RecordView, us: Seq<UnknownFieldView>)
    requires
        forall|i: int| 0 <= i < us.len() ==> #[trigger] unknown_field_ok(us[i]),
    ensures
        merge_bytes(r, encode_unknown_fields(us)) == Some(
            RecordView { unknown_fields: r.unknown_fields + us, ..r },
        ),
    decreases us.len(),
{
    if us.len() == 0 {
        assert(r.unknown_fields + us =~= r.unknown_fields);
    } else {
        let init = us.drop_last();
        let u = us.last();
        assert(unknown_field_ok(us[us.len() - 1]));
        assert forall|i: int| 0 <= i < init.len() implies #[trigger] unknown_field_ok(init[i]) by {
            assert(init[i] == us[i]);
        }
        lemma_merge_unknown_fields(r, init);
        let r1 = RecordView { unknown_fields: r.unknown_fields + init, ..r };
        lemma_merge_concat(r, encode_unknown_fields(init), encode_unknown_field(u));
        lemma_merge_one_field(r1, u.number as nat, u.wire_type as nat, u.payload);
        assert(r1.unknown_fields.push(u) =~= r.unknown_fields + us);
    }
}

/// A record that the wire format can carry reads back from its encoding as
/// the same record, with every field set or unset as it was and its unknown
/// fields in their order.
pub proof fn lemma_record_round_trip(r: RecordView)
    requires
        well_formed(r),
    ensures
        merge_bytes(empty_record(), encode_record(r)) == Some(r),
{
    let e1 = encode_string_field(1, r.key);
    let e2 = encode_bytes_field(2, r.value);
    let e3 = encode_string_field(3, r.author);
    let e4 = encode_bytes_field(4, r.signature);
    let e5 = encode_string_field(5, r.time_received);
    let eu = encode_unknown_fields(r.unknown_fields);
    let r0 = empty_record();
    lemma_merge_string_field(r0, 1, r.key);
    let r1 = RecordView { key: r.key, ..r0 };
    lemma_merge_bytes_field(r1, 2, r.value);
    let r2 = RecordView { value: r.value, ..r1 };
    lemma_merge_string_field(r2, 3, r.author);
    let r3 = RecordView { author: r.author, ..r2 };
    lemma_merge_bytes_field(r3, 4, r.signature);
    let r4 = RecordView { signature: r.signature, ..r3 };
    lemma_merge_string_field(r4, 5, r.time_received);
    let r5 = RecordView { time_received: r.time_received, ..r4 };
    lemma_merge_unknown_fields(r5, r.unknown_fields);
    lemma_merge_concat(r0, e1, e2);
    lemma_merge_concat(r0, e1 + e2, e3);
    lemma_merge_concat(r0, e1 + e2 + e3, e4);
    lemma_merge_concat(r0, e1 + e2 + e3 + e4, e5);
    lemma_merge_concat(r0, e1 + e2 + e3 + e4 + e5, eu);
    assert(r5.unknown_fields + r.unknown_fields =~= r.unknown_fields);
}

/// The bytes could not be read as a record: a field is cut short, its tag or
/// wire type is invalid, or a string field is not UTF-8.
#[derive(Clone, Copy, Debug, PartialEq, Eq)]
pub struct DecodeError;

/// Relies on `String::from_utf8`: a string exactly where the bytes are valid
/// UTF-8, holding the characters they encode.
#[verifier::external_body]
fn string_from_utf8(bytes: Vec<u8>) -> (r: Option<String>)
    ensures
        r is Some <==> valid_utf8(bytes@),
        r is Some ==> r->Some_0@ == decode_utf8(bytes@),
{
    String::from_utf8(bytes).ok()
}

fn copy_range(b: &[u8], start: usize, end: usize) -> (r: Vec<u8>)
    requires
        start <= end <= b@.len(),
    ensures
        r@ == b@.subrange(start as int, end as int),
{
    let mut r: Vec<u8> = Vec::new();
    let mut i: usize = start;
    while i < end
        invariant
            start <= i <= end <= b@.len(),
            r@ == b@.subrange(start as int, i as int),
        decreases end - i,
    {
        r.push(b[i]);
        i = i + 1;
        assert(r@ =~= b@.subrange(start as int, i as int));
    }
    r
}

impl Record {
    /// Applies one field read off the wire, as [`apply_field`] says; `false`
    /// where it cannot be applied, and then the record is unchanged.
    fn apply_wire_field(&mut self, number: u32, wire_type: u8, payload: Vec<u8>) -> (r: bool)
        ensures
            r == apply_field(
                old(self)@,
                WireField { number: number as nat, wire_type: wire_type as nat, payload: payload@ },
            ) is Some,
            r ==> final(self)@ == apply_field(
                old(self)@,
                WireField { number: number as nat, wire_type: wire_type as nat, payload: payload@ },
            )->Some_0,
    {
        if 1 <= number && number <= 5 {
            if wire_type != WIRE_LENGTH_DELIMITED {
                return false;
            }
            if number == 2 {
                self.value = Some(payload);
                return true;
            }
            if number == 4 {
                self.signature = Some(payload);
                return true;
            }
            match string_from_utf8(payload) {
                Some(text) => {
                    if number == 1 {
                        self.key = Some(text);
                    } else if number == 3 {
                        self.author = Some(text);
                    } else {
                        self.time_received = Some(text);
                    }
                    true
                },
                None => false,
            }
        } else {
            let ghost before = self.unknown_fields;
            let u = UnknownField { number, wire_type, payload };
            self.unknown_fields.push(u);
            assert(self.unknown_fields.deep_view() =~= before.deep_view().push(u.deep_view()));
            true
        }
    }

    /// Reads the fields of `bytes` into the record, one after the other: a
    /// field numbered 1 to 5 replaces what the record held, one of another
    /// number joins the unknown fields. An error where [`merge_bytes`] finds
    /// none; the fields read before it stay applied.
    pub fn merge_from(&mut self, bytes: &[u8]) -> (r: Result<(), DecodeError>)
        ensures
            r is Ok <==> merge_bytes(old(self)@, bytes@) is Some,
            r is Ok ==> final(self)@ == merge_bytes(old(self)@, bytes@)->Some_0,
    {
        let n = bytes.len();
        let mut pos: usize = 0;
        assert(bytes@.skip(0) =~= bytes@);
        while pos < n
            invariant
                n == bytes@.len(),
                pos <= n,
                merge_bytes(old(self)@, bytes@) == merge_bytes(self@, bytes@.skip(pos as int)),
            decreases n - pos,
        {
            let ghost rest = bytes@.skip(pos as int);
            let field = read_field_at(bytes, pos);
            if field.is_none() {
                return Err(DecodeError);
            }
            let at = field.unwrap();
            proof {
                lemma_read_field_prefix(rest, Seq::empty());
                assert(rest + Seq::<u8>::empty() =~= rest);
            }
            let payload = copy_range(bytes, at.start, at.end);
            if !self.apply_wire_field(at.number, at.wire_type, payload) {
                return Err(DecodeError);
            }
            let ghost len = (at.next - pos) as int;
            assert(rest.skip(len) =~= bytes@.skip(at.next as int));
            pos = at.next;
        }
        assert(bytes@.skip(pos as int) =~= Seq::<u8>::empty());
        Ok(())
    }

    /// The record that `bytes` holds.
    pub fn parse_from_bytes(bytes: &[u8]) -> (r: Result<Record, DecodeError>)
        ensures
            r is Ok <==> merge_bytes(empty_record(), bytes@) is Some,
            r is Ok ==> r->Ok_0@ == merge_bytes(empty_record(), bytes@)->Some_0,
    {
        let mut record = Record::new();
        match record.merge_from(bytes) {
            Ok(()) => Ok(record),
            Err(e) => Err(e),
        }
    }

    /// The record on the wire, as [`encode_record`] says: the set fields in
    /// ascending field number, then the unknown fields as they were read.
    pub fn write_to_bytes(&self) -> (r: Vec<u8>)
        ensures
            r@ == encode_record(self@),
    {
        let mut out: Vec<u8> = Vec::new();
        if let Some(k) = &self.key {
            write_field(&mut out, 1, WIRE_LENGTH_DELIMITED, k.as_str().as_bytes());
        }
        if let Some(v) = &self.value {
            write_field(&mut out, 2, WIRE_LENGTH_DELIMITED, v.as_slice());
        }
        if let Some(a) = &self.author {
            write_field(&mut out, 3, WIRE_LENGTH_DELIMITED, a.as_str().as_bytes());
        }
        if let Some(sig) = &self.signature {
            write_field(&mut out, 4, WIRE_LENGTH_DELIMITED, sig.as_slice());
        }
        if let Some(t) = &self.time_received {
            write_field(&mut out, 5, WIRE_LENGTH_DELIMITED, t.as_str().as_bytes());
        }
        let ghost known = out@;
        let ghost us = self@.unknown_fields;
        assert(known == encode_string_field(1, self@.key) + encode_bytes_field(2, self@.value)
            + encode_string_field(3, self@.author) + encode_bytes_field(4, self@.signature)
            + encode_string_field(5, self@.time_received)) by {
            assert(known =~= encode_string_field(1, self@.key) + encode_bytes_field(2, self@.value)
                + encode_string_field(3, self@.author) + encode_bytes_field(4, self@.signature)
                + encode_string_field(5, self@.time_received));
        }
        let mut i: usize = 0;
        while i < self.unknown_fields.len()
            invariant
                i <= us.len(),
                us == self@.unknown_fields,
                us.len() == self.unknown_fields@.len(),
                out@ == known + encode_unknown_fields(us.take(i as int)),
            decreases us.len() - i,
        {
            let u = &self.unknown_fields[i];
            write_field(&mut out, u.number, u.wire_type, u.payload.as_slice());
            assert(us.take(i as int + 1).drop_last() =~= us.take(i as int));
            assert(us[i as int] == u.deep_view());
            i = i + 1;
            assert(out@ =~= known + encode_unknown_fields(us.take(i as int)));
        }
        assert(us.take(i as int) =~= us);
        out
    }

    /// The length of the record on the wire.
    pub fn compute_size(&self) -> (r: usize)
        ensures
            r == encode_record(self@).len(),
    {
        self.write_to_bytes().len()
    }

    /// Every record is complete: no field is required.
    pub fn is_initialized(&self) -> (r: bool)
        ensures
            r,
    {
        true
    }

    /// Unsets every field and drops the unknown fields.
    pub fn clear(&mut self)
        ensures
            final(self)@ == empty_record(),
    {
        self.clear_key();
        self.clear_value();
        self.clear_author();
        self.clear_signature();
        self.clear_timeReceived();
        self.unknown_fields = Vec::new();
        assert(self@.unknown_fields =~= Seq::<UnknownFieldView>::empty());
    }

    /// The unknown fields, in the order they were read.
    pub fn get_unknown_fields(&self) -> (r: &Vec<UnknownField>)
        ensures
            r.deep_view() == self@.unknown_fields,
    {
        &self.unknown_fields
    }

    /// The unknown fields, to change in place.
    pub fn mut_unknown_fields(&mut self) -> (r: &mut Vec<UnknownField>)
        ensures
            r.deep_view() == old(self)@.unknown_fields,
            final(self)@ == (RecordView { unknown_fields: final(r).deep_view(), ..old(self)@ }),
    {
        &mut self.unknown_fields
    }
}

proof fn lemma_merge_keeps_well_formed(r: RecordView, b: Seq<u8>)
    requires
        well_formed(r),
        merge_bytes(r, b) is Some,
    ensures
        well_formed(merge_bytes(r, b)->Some_0),
    decreases b.len(),
{
    if b.len() != 0 {
        let (f, n) = read_field(b)->Some_0;
        lemma_read_field_fits(b);
        let r1 = apply_field(r, f)->Some_0;
        if 1 <= f.number <= 5 && f.number != 2 && f.number != 4 {
            decode_utf8_encode_utf8(f.payload);
        }
        if !(1 <= f.number <= 5) {
            assert forall|i: int| 0 <= i < r1.unknown_fields.len() implies #[trigger] unknown_field_ok(
                r1.unknown_fields[i],
            ) by {
                if i < r.unknown_fields.len() {
                    assert(r1.unknown_fields[i] == r.unknown_fields[i]);
                }
            }
        }
        assert(well_formed(r1));
        lemma_merge_keeps_well_formed(r1, b.skip(n as int));
    }
}

/// Decoding and encoding again keeps every field, unknown ones included: the
/// record that any bytes decode to is one the wire format can carry, and its
/// encoding decodes to it again.
pub proof fn lemma_reencode_keeps_unknown_fields(b: Seq<u8>)
    requires
        merge_bytes(empty_record(), b) is Some,
    ensures
        well_formed(merge_bytes(empty_record(), b)->Some_0),
        merge_bytes(empty_record(), encode_record(merge_bytes(empty_record(), b)->Some_0))
            == merge_bytes(empty_record(), b),
{
    lemma_merge_keeps_well_formed(empty_record(), b);
    lemma_record_round_trip(merge_bytes(empty_record(), b)->Some_0);
}

} // verus!
