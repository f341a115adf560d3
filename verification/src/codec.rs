//! The binary encoding of instruction arguments and of returned values.
//!
//! Values stand one after another without padding. An integer takes its width
//! in bytes, least significant byte first; a boolean takes one byte, 0 or 1; a
//! byte string takes its length as four little-endian bytes, then its bytes.
use vstd::prelude::*;
use crate::endian::{
    le_bytes, le_value, lemma_le_bytes_len, lemma_le_bytes_of_value, lemma_le_value_bound,
    lemma_le_value_of_bytes, lemma_pow256_values, read_le, write_le,
};

verus! {

/// The kinds of value that an instruction can take or return.
#[derive(Clone, Copy, Debug, PartialEq, Eq, Structural)]
pub enum ArgKind {
    U8,
    U16,
    U32,
    U64,
    Bool,
    Bytes,
}

/// A decoded value.
#[derive(Debug, PartialEq, Eq)]
pub enum Value {
    U8(u8),
    U16(u16),
    U32(u32),
    U64(u64),
    Bool(bool),
    Bytes(Vec<u8>),
}

/// What a `Value` holds.
pub enum ValueView {
    U8(u8),
    U16(u16),
    U32(u32),
    U64(u64),
    Bool(bool),
    Bytes(Seq<u8>),
}

impl View for Value {
    type V = ValueView;

    open spec fn view(&self) -> ValueView {
        match self {
            Value::U8(x) => ValueView::U8(*x),
            Value::U16(x) => ValueView::U16(*x),
            Value::U32(x) => ValueView::U32(*x),
            Value::U64(x) => ValueView::U64(*x),
            Value::Bool(b) => ValueView::Bool(*b),
            Value::Bytes(s) => ValueView::Bytes(s@),
        }
    }
}

impl Clone for Value {
    fn clone(&self) -> (copy: Value)
        ensures
            copy@ == self@,
    {
        match self {
            Value::U8(x) => Value::U8(*x),
            Value::U16(x) => Value::U16(*x),
            Value::U32(x) => Value::U32(*x),
            Value::U64(x) => Value::U64(*x),
            Value::Bool(b) => Value::Bool(*b),
            Value::Bytes(s) => {
                let mut content: Vec<u8> = Vec::new();
                append_range(&mut content, s.as_slice(), 0, s.len());
                assert(content@ =~= s@);
                Value::Bytes(content)
            },
        }
    }
}

/// Where decoding stopped: the offset, from the start of the payload, of the
/// item that could not be read.
#[derive(Clone, Copy, Debug, PartialEq, Eq, Structural)]
pub struct DecodeError {
    pub offset: usize,
}

/// The views of a list of values.
pub open spec fn values_view(values: Seq<Value>) -> Seq<ValueView> {
    Seq::new(values.len(), |i: int| values[i]@)
}

/// The kind of a value.
pub open spec fn kind_of(v: ValueView) -> ArgKind {
    match v {
        ValueView::U8(_) => ArgKind::U8,
        ValueView::U16(_) => ArgKind::U16,
        ValueView::U32(_) => ArgKind::U32,
        ValueView::U64(_) => ArgKind::U64,
        ValueView::Bool(_) => ArgKind::Bool,
        ValueView::Bytes(_) => ArgKind::Bytes,
    }
}

/// The kinds of a list of values.
pub open spec fn kinds_of(values: Seq<ValueView>) -> Seq<ArgKind> {
    Seq::new(values.len(), |i: int| kind_of(values[i]))
}

/// Whether a value can be encoded: a byte string must have a length that four
/// bytes can hold.
pub open spec fn encodable(v: ValueView) -> bool {
    v matches ValueView::Bytes(s) ==> s.len() <= u32::MAX
}

/// Whether every value of a list can be encoded.
pub open spec fn all_encodable(values: Seq<ValueView>) -> bool {
    forall|i: int| 0 <= i < values.len() ==> encodable(#[trigger] values[i])
}

/// The bytes that stand for one value.
pub open spec fn encoded(v: ValueView) -> Seq<u8> {
    match v {
        ValueView::U8(x) => le_bytes(x as nat, 1),
        ValueView::U16(x) => le_bytes(x as nat, 2),
        ValueView::U32(x) => le_bytes(x as nat, 4),
        ValueView::U64(x) => le_bytes(x as nat, 8),
        ValueView::Bool(b) => seq![if b { 1u8 } else { 0u8 }],
        ValueView::Bytes(s) => le_bytes(s.len(), 4) + s,
    }
}

/// The bytes that stand for a list of values: those of each, in order.
pub open spec fn encoded_all(values: Seq<ValueView>) -> Seq<u8>
    decreases values.len(),
{
    if values.len() == 0 {
        Seq::empty()
    } else {
        encoded(values[0]) + encoded_all(values.skip(1))
    }
}

/// Reading one value of the given kind at `at`: the value and the offset
/// behind it, or the offset at which reading stops. A byte string with a
/// readable length and too few bytes behind it stops where its bytes begin.
pub open spec fn parse_item(kind: ArgKind, bytes: Seq<u8>, at: int) -> Result<
    (ValueView, int),
    int,
> {
    match kind {
        ArgKind::U8 => if 0 <= at && at + 1 <= bytes.len() {
            Ok((ValueView::U8(le_value(bytes.subrange(at, at + 1)) as u8), at + 1))
        } else {
            Err(at)
        },
        ArgKind::U16 => if 0 <= at && at + 2 <= bytes.len() {
            Ok((ValueView::U16(le_value(bytes.subrange(at, at + 2)) as u16), at + 2))
        } else {
            Err(at)
        },
        ArgKind::U32 => if 0 <= at && at + 4 <= bytes.len() {
            Ok((ValueView::U32(le_value(bytes.subrange(at, at + 4)) as u32), at + 4))
        } else {
            Err(at)
        },
        ArgKind::U64 => if 0 <= at && at + 8 <= bytes.len() {
            Ok((ValueView::U64(le_value(bytes.subrange(at, at + 8)) as u64), at + 8))
        } else {
            Err(at)
        },
        ArgKind::Bool => if 0 <= at && at + 1 <= bytes.len() && bytes[at] <= 1 {
            Ok((ValueView::Bool(bytes[at] == 1), at + 1))
        } else {
            Err(at)
        },
        ArgKind::Bytes => if 0 <= at && at + 4 <= bytes.len() {
            let n = le_value(bytes.subrange(at, at + 4));
            if at + 4 + n <= bytes.len() {
                Ok((ValueView::Bytes(bytes.subrange(at + 4, at + 4 + n)), at + 4 + n))
            } else {
                Err(at + 4)
            }
        } else {
            Err(at)
        },
    }
}

/// Reading a value of each kind, one after another from `at`, up to the end
/// of the bytes: the values, or the offset at which reading stops. Bytes left
/// over behind the last value stop the reading where they begin.
pub open spec fn parse_from(kinds: Seq<ArgKind>, bytes: Seq<u8>, at: int) -> Result<
    Seq<ValueView>,
    int,
>
    decreases kinds.len(),
{
    if kinds.len() == 0 {
        if at == bytes.len() {
            Ok(Seq::empty())
        } else {
            Err(at)
        }
    } else {
        match parse_item(kinds[0], bytes, at) {
            Err(offset) => Err(offset),
            Ok((value, next)) => match parse_from(kinds.skip(1), bytes, next) {
                Err(offset) => Err(offset),
                Ok(rest) => Ok(seq![value] + rest),
            },
        }
    }
}

/// What a decoding returned, over views.
pub open spec fn decoded_view(r: Result<Vec<Value>, DecodeError>) -> Result<Seq<ValueView>, int> {
    match r {
        Ok(values) => Ok(values_view(values@)),
        Err(e) => Err(e.offset as int),
    }
}

/// A decoding that went on behind values already read.
pub open spec fn behind(values: Seq<ValueView>, rest: Result<Seq<ValueView>, int>) -> Result<
    Seq<ValueView>,
    int,
> {
    match rest {
        Ok(more) => Ok(values + more),
        Err(offset) => Err(offset),
    }
}

/// Appends the bytes of `bytes` from `from` up to `to` to `out`.
pub fn append_range(out: &mut Vec<u8>, bytes: &[u8], from: usize, to: usize)
    requires
        from <= to <= bytes@.len(),
    ensures
        final(out)@ == old(out)@ + bytes@.subrange(from as int, to as int),
{
    let mut i: usize = from;
    assert(out@ =~= old(out)@ + bytes@.subrange(from as int, i as int));
    while i < to
        invariant
            from <= i <= to <= bytes@.len(),
            out@ == old(out)@ + bytes@.subrange(from as int, i as int),
        decreases to - i,
    {
        out.push(bytes[i]);
        assert(out@ =~= old(out)@ + bytes@.subrange(from as int, i + 1));
        i += 1;
    }
}

/// Reads one value of the given kind at `at`.
pub fn decode_item(kind: ArgKind, bytes: &[u8], at: usize) -> (r: Result<
    (Value, usize),
    DecodeError,
>)
    ensures
        match parse_item(kind, bytes@, at as int) {
            Ok((value, next)) => r matches Ok((v, n)) && v@ == value && n == next,
            Err(offset) => r matches Err(e) && e.offset == offset,
        },
{
    let len = bytes.len();
    if at > len {
        return Err(DecodeError { offset: at });
    }
    let left: usize = len - at;
    proof {
        lemma_pow256_values();
    }
    match kind {
        ArgKind::U8 => {
            if left < 1 {
                return Err(DecodeError { offset: at });
            }
            Ok((Value::U8(read_le(bytes, at, 1) as u8), at + 1))
        },
        ArgKind::U16 => {
            if left < 2 {
                return Err(DecodeError { offset: at });
            }
            Ok((Value::U16(read_le(bytes, at, 2) as u16), at + 2))
        },
        ArgKind::U32 => {
            if left < 4 {
                return Err(DecodeError { offset: at });
            }
            Ok((Value::U32(read_le(bytes, at, 4) as u32), at + 4))
        },
        ArgKind::U64 => {
            if left < 8 {
                return Err(DecodeError { offset: at });
            }
            Ok((Value::U64(read_le(bytes, at, 8)), at + 8))
        },
        ArgKind::Bool => {
            if left < 1 || bytes[at] > 1 {
                return Err(DecodeError { offset: at });
            }
            Ok((Value::Bool(bytes[at] == 1), at + 1))
        },
        ArgKind::Bytes => {
            if left < 4 {
                return Err(DecodeError { offset: at });
            }
            let n: u64 = read_le(bytes, at, 4);
            let start: usize = at + 4;
            if n > (len - start) as u64 {
                return Err(DecodeError { offset: start });
            }
            let end: usize = start + n as usize;
            let mut content: Vec<u8> = Vec::new();
            append_range(&mut content, bytes, start, end);
            assert(content@ =~= bytes@.subrange(start as int, end as int));
            Ok((Value::Bytes(content), end))
        },
    }
}

/// Decodes a value of each kind, one after another from `start`, up to the
/// end of `bytes`.
///
/// Returns the values where the bytes from `start` on are the encoding of
/// values of exactly these kinds; otherwise the offset at which reading
/// stopped: that of the first item that is cut short or malformed, or that of
/// the first byte left over.
pub fn decode_values(kinds: &Vec<ArgKind>, bytes: &[u8], start: usize) -> (r: Result<
    Vec<Value>,
    DecodeError,
>)
    ensures
        decoded_view(r) == parse_from(kinds@, bytes@, start as int),
{
    let mut values: Vec<Value> = Vec::new();
    let mut at: usize = start;
    let mut k: usize = 0;
    proof {
        assert(kinds@.skip(0) =~= kinds@);
        assert(values_view(values@) =~= Seq::empty());
        match parse_from(kinds@, bytes@, start as int) {
            Ok(all) => assert(Seq::<ValueView>::empty() + all =~= all),
            Err(_) => {},
        }
    }
    while k < kinds.len()
        invariant
            k <= kinds@.len(),
            parse_from(kinds@, bytes@, start as int) == behind(
                values_view(values@),
                parse_from(kinds@.skip(k as int), bytes@, at as int),
            ),
        decreases kinds@.len() - k,
    {
        let ghost left = kinds@.skip(k as int);
        let ghost read = values_view(values@);
        assert(left[0] == kinds@[k as int]);
        assert(left.skip(1) =~= kinds@.skip(k + 1));
        match decode_item(kinds[k], bytes, at) {
            Err(e) => {
                return Err(e);
            },
            Ok((value, next)) => {
                proof {
                    match parse_from(kinds@.skip(k + 1), bytes@, next as int) {
                        Ok(more) => {
                            assert(read + (seq![value@] + more) =~= read.push(value@) + more);
                        },
                        Err(_) => {},
                    }
                }
                values.push(value);
                assert(values_view(values@) =~= read.push(value@));
                at = next;
                k += 1;
            },
        }
    }
    assert(kinds@.skip(k as int).len() == 0);
    if at == bytes.len() {
        assert(values_view(values@) + Seq::<ValueView>::empty() =~= values_view(values@));
        Ok(values)
    } else {
        Err(DecodeError { offset: at })
    }
}

/// Appends the encoding of one value to `out`.
pub fn encode_value(out: &mut Vec<u8>, value: &Value)
    requires
        encodable(value@),
    ensures
        final(out)@ == old(out)@ + encoded(value@),
{
    match value {
        Value::U8(x) => write_le(out, *x as u64, 1),
        Value::U16(x) => write_le(out, *x as u64, 2),
        Value::U32(x) => write_le(out, *x as u64, 4),
        Value::U64(x) => write_le(out, *x, 8),
        Value::Bool(b) => {
            out.push(if *b { 1u8 } else { 0u8 });
            assert(out@ =~= old(out)@ + encoded(value@));
        },
        Value::Bytes(s) => {
            write_le(out, s.len() as u64, 4);
            append_range(out, s.as_slice(), 0, s.len());
            assert(s@.subrange(0, s@.len() as int) =~= s@);
            assert(out@ =~= old(out)@ + encoded(value@));
        },
    }
}

/// Whether a value can be encoded.
pub fn is_encodable(value: &Value) -> (r: bool)
    ensures
        r == encodable(value@),
{
    match value {
        Value::Bytes(s) => s.len() <= 0xffff_ffff,
        _ => true,
    }
}

/// Whether every value of a list can be encoded.
pub fn are_encodable(values: &Vec<Value>) -> (r: bool)
    ensures
        r == all_encodable(values_view(values@)),
{
    let ghost all = values_view(values@);
    let mut k: usize = 0;
    while k < values.len()
        invariant
            k <= values@.len(),
            all == values_view(values@),
            forall|i: int| 0 <= i < k ==> encodable(#[trigger] all[i]),
        decreases values@.len() - k,
    {
        if !is_encodable(&values[k]) {
            assert(!encodable(all[k as int]));
            return false;
        }
        k += 1;
    }
    true
}

/// The encoding of a list of values that can be encoded: the encoding of
/// each, in order.
pub fn encode_all(values: &Vec<Value>) -> (bytes: Vec<u8>)
    requires
        all_encodable(values_view(values@)),
    ensures
        bytes@ == encoded_all(values_view(values@)),
{
    let mut out: Vec<u8> = Vec::new();
    let mut k: usize = 0;
    let ghost all = values_view(values@);
    assert(all.subrange(0, 0) =~= Seq::empty());
    while k < values.len()
        invariant
            k <= values@.len(),
            all == values_view(values@),
            all_encodable(all),
            out@ == encoded_all(all.subrange(0, k as int)),
        decreases values@.len() - k,
    {
        assert(encodable(all[k as int]));
        encode_value(&mut out, &values[k]);
        proof {
            lemma_encoded_all_push(all.subrange(0, k as int), all[k as int]);
            assert(all.subrange(0, k as int).push(all[k as int]) =~= all.subrange(0, k + 1));
        }
        k += 1;
    }
    assert(all.subrange(0, k as int) =~= all);
    out
}

/// Encodes a list of values: the encoding of each, in order.
///
/// Returns `None` exactly where one of them is a byte string too long for
/// its length to stand in four bytes.
pub fn encode_values(values: &Vec<Value>) -> (r: Option<Vec<u8>>)
    ensures
        match r {
            Some(bytes) => all_encodable(values_view(values@)) && bytes@ == encoded_all(
                values_view(values@),
            ),
            None => !all_encodable(values_view(values@)),
        },
{
    if are_encodable(values) {
        Some(encode_all(values))
    } else {
        None
    }
}

/// The encoding of a list with one more value at its end is the encoding of
/// the list, then that of the value.
pub proof fn lemma_encoded_all_push(values: Seq<ValueView>, last: ValueView)
    ensures
        encoded_all(values.push(last)) == encoded_all(values) + encoded(last),
    decreases values.len(),
{
    let all = values.push(last);
    if values.len() == 0 {
        assert(all.skip(1) =~= Seq::empty());
        assert(all[0] == last);
        assert(encoded_all(all.skip(1)) =~= Seq::<u8>::empty());
        assert(encoded_all(all) =~= encoded(last));
        assert(encoded_all(values) + encoded(last) =~= encoded(last));
    } else {
        lemma_encoded_all_push(values.skip(1), last);
        assert(all.skip(1) =~= values.skip(1).push(last));
        assert(all[0] == values[0]);
        assert(encoded(values[0]) + (encoded_all(values.skip(1)) + encoded(last)) =~= (encoded(
            values[0],
        ) + encoded_all(values.skip(1))) + encoded(last));
    }
}

/// The encoding of a value, wherever it stands among other bytes, is read
/// back as that value, and reading ends right behind it.
pub proof fn lemma_item_read_back(value: ValueView, before: Seq<u8>, after: Seq<u8>)
    requires
        encodable(value),
    ensures
        parse_item(kind_of(value), before + encoded(value) + after, before.len() as int) == Ok::<
            (ValueView, int),
            int,
        >((value, (before.len() + encoded(value).len()) as int)),
{
    let bytes = before + encoded(value) + after;
    let at = before.len() as int;
    lemma_pow256_values();
    match value {
        ValueView::U8(x) => {
            lemma_le_bytes_len(x as nat, 1);
            lemma_le_value_of_bytes(x as nat, 1);
            assert(bytes.subrange(at, at + 1) =~= le_bytes(x as nat, 1));
        },
        ValueView::U16(x) => {
            lemma_le_bytes_len(x as nat, 2);
            lemma_le_value_of_bytes(x as nat, 2);
            assert(bytes.subrange(at, at + 2) =~= le_bytes(x as nat, 2));
        },
        ValueView::U32(x) => {
            lemma_le_bytes_len(x as nat, 4);
            lemma_le_value_of_bytes(x as nat, 4);
            assert(bytes.subrange(at, at + 4) =~= le_bytes(x as nat, 4));
        },
        ValueView::U64(x) => {
            lemma_le_bytes_len(x as nat, 8);
            lemma_le_value_of_bytes(x as nat, 8);
            assert(bytes.subrange(at, at + 8) =~= le_bytes(x as nat, 8));
        },
        ValueView::Bool(b) => {
            assert(bytes[at] == (if b { 1u8 } else { 0u8 }));
        },
        ValueView::Bytes(s) => {
            lemma_le_bytes_len(s.len(), 4);
            lemma_le_value_of_bytes(s.len(), 4);
            assert(bytes.subrange(at, at + 4) =~= le_bytes(s.len(), 4));
            assert(bytes.subrange(at + 4, at + 4 + s.len()) =~= s);
        },
    }
}

/// What is read as a value is the encoding of that value: the value is of
/// the kind asked for, can be encoded, and the bytes read are its encoding.
pub proof fn lemma_item_read_is_encoding(kind: ArgKind, bytes: Seq<u8>, at: int)
    requires
        parse_item(kind, bytes, at) is Ok,
    ensures
        ({
            let (value, next) = parse_item(kind, bytes, at)->Ok_0;
            &&& kind_of(value) == kind
            &&& encodable(value)
            &&& 0 <= at <= next <= bytes.len()
            &&& bytes.subrange(at, next) == encoded(value)
        }),
{
    let (value, next) = parse_item(kind, bytes, at)->Ok_0;
    lemma_pow256_values();
    match kind {
        ArgKind::U8 => {
            let read = bytes.subrange(at, at + 1);
            lemma_le_value_bound(read);
            lemma_le_bytes_of_value(read);
        },
        ArgKind::U16 => {
            let read = bytes.subrange(at, at + 2);
            lemma_le_value_bound(read);
            lemma_le_bytes_of_value(read);
        },
        ArgKind::U32 => {
            let read = bytes.subrange(at, at + 4);
            lemma_le_value_bound(read);
            lemma_le_bytes_of_value(read);
        },
        ArgKind::U64 => {
            let read = bytes.subrange(at, at + 8);
            lemma_le_value_bound(read);
            lemma_le_bytes_of_value(read);
        },
        ArgKind::Bool => {
            assert(bytes.subrange(at, at + 1) =~= encoded(value));
        },
        ArgKind::Bytes => {
            let read = bytes.subrange(at, at + 4);
            lemma_le_value_bound(read);
            lemma_le_bytes_of_value(read);
            assert(bytes.subrange(at, next) =~= encoded(value));
        },
    }
}

/// Decoding inverts encoding: the encoding of values that can be encoded,
/// standing behind any bytes, decodes from its first byte on to those values.
pub proof fn decode_inverts_encode(values: Seq<ValueView>, before: Seq<u8>)
    requires
        all_encodable(values),
    ensures
        parse_from(kinds_of(values), before + encoded_all(values), before.len() as int) == Ok::<
            Seq<ValueView>,
            int,
        >(values),
    decreases values.len(),
{
    let bytes = before + encoded_all(values);
    let kinds = kinds_of(values);
    if values.len() == 0 {
        assert(bytes =~= before);
        assert(values =~= Seq::empty());
    } else {
        let first = values[0];
        let rest = values.skip(1);
        let upto = before + encoded(first);
        assert(bytes =~= before + encoded(first) + encoded_all(rest));
        lemma_item_read_back(first, before, encoded_all(rest));
        assert(upto + encoded_all(rest) =~= bytes);
        decode_inverts_encode(rest, upto);
        assert(kinds.skip(1) =~= kinds_of(rest));
        assert(kinds[0] == kind_of(first));
        assert(seq![first] + rest =~= values);
    }
}

/// Encoding inverts decoding: where bytes decode from `at` on, the values are
/// of the kinds asked for, can be encoded, and their encoding is exactly the
/// bytes from `at` to the end.
pub proof fn encode_inverts_decode(kinds: Seq<ArgKind>, bytes: Seq<u8>, at: int)
    requires
        parse_from(kinds, bytes, at) is Ok,
    ensures
        ({
            let values = parse_from(kinds, bytes, at)->Ok_0;
            &&& kinds_of(values) == kinds
            &&& all_encodable(values)
            &&& 0 <= at <= bytes.len()
            &&& encoded_all(values) == bytes.subrange(at, bytes.len() as int)
        }),
    decreases kinds.len(),
{
    let values = parse_from(kinds, bytes, at)->Ok_0;
    if kinds.len() == 0 {
        assert(kinds_of(values) =~= kinds);
        assert(encoded_all(values) =~= bytes.subrange(at, bytes.len() as int));
    } else {
        lemma_item_read_is_encoding(kinds[0], bytes, at);
        let (first, next) = parse_item(kinds[0], bytes, at)->Ok_0;
        encode_inverts_decode(kinds.skip(1), bytes, next);
        let rest = parse_from(kinds.skip(1), bytes, next)->Ok_0;
        assert(values == seq![first] + rest);
        assert(values.skip(1) =~= rest);
        assert forall|i: int| 0 <= i < kinds.len() implies kinds_of(values)[i] == kinds[i] by {
            if i > 0 {
                assert(values[i] == rest[i - 1]);
                assert(kinds_of(rest)[i - 1] == kinds.skip(1)[i - 1]);
            }
        }
        assert(kinds_of(values) =~= kinds);
        assert(bytes.subrange(at, next) + bytes.subrange(next, bytes.len() as int)
            =~= bytes.subrange(at, bytes.len() as int));
    }
}

} // verus!
