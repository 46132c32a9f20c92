use crate::bytes::{copy_bytes, copy_range};
use crate::wire::{
    be, be_value, get_be, lemma_be_len, lemma_be_of_value, lemma_be_value, lemma_limits,
    lemma_value_bound, limit, put_be,
};
use vstd::utf8::{decode_utf8, encode_utf8, valid_utf8};
use vstd::prelude::*;

verus! {

/// One field of a record, as the codec writes it.
#[derive(Clone, Debug, PartialEq, Eq)]
pub enum Field {
    /// A field that holds nothing.
    Nil,
    Num(u64),
    Flag(bool),
    Text(String),
    /// Bytes that the cache stores and hands back without reading them.
    Blob(Vec<u8>),
    Ids(Vec<u64>),
}

/// What a field holds, as a value.
pub enum Datum {
    Nil,
    Num(u64),
    Flag(bool),
    Text(Seq<char>),
    Blob(Seq<u8>),
    Ids(Seq<u64>),
}

impl View for Field {
    type V = Datum;

    open spec fn view(&self) -> Datum {
        match *self {
            Field::Nil => Datum::Nil,
            Field::Num(v) => Datum::Num(v),
            Field::Flag(b) => Datum::Flag(b),
            Field::Text(t) => Datum::Text(t@),
            Field::Blob(b) => Datum::Blob(b@),
            Field::Ids(ids) => Datum::Ids(ids@),
        }
    }
}

/// The views of a list of fields, in order.
pub open spec fn data_of(fields: Seq<Field>) -> Seq<Datum> {
    fields.map_values(|f: Field| f@)
}

pub const TAG_NIL: u8 = 0;

pub const TAG_NUM: u8 = 1;

pub const TAG_FLAG: u8 = 2;

pub const TAG_TEXT: u8 = 3;

pub const TAG_BLOB: u8 = 4;

pub const TAG_IDS: u8 = 5;

/// The identifiers of a list, eight bytes each.
pub open spec fn ids_wire(ids: Seq<u64>) -> Seq<u8>
    decreases ids.len(),
{
    if ids.len() == 0 {
        Seq::empty()
    } else {
        ids_wire(ids.drop_last()) + be(ids.last() as nat, 8)
    }
}

/// The identifiers that `s` holds, eight bytes each; bytes left over at the end are not read.
pub open spec fn ids_parsed(s: Seq<u8>) -> Seq<u64>
    decreases s.len(),
{
    if s.len() < 8 {
        Seq::empty()
    } else {
        ids_parsed(s.subrange(0, s.len() - 8)).push(
            be_value(s.subrange(s.len() - 8, s.len() as int)) as u64,
        )
    }
}

/// The bytes of one field: a tag, then what the field holds. A number takes eight bytes; text,
/// bytes and identifiers come after their count, which takes eight bytes too.
pub open spec fn datum_wire(d: Datum) -> Seq<u8> {
    match d {
        Datum::Nil => seq![TAG_NIL],
        Datum::Num(v) => seq![TAG_NUM] + be(v as nat, 8),
        Datum::Flag(b) => seq![TAG_FLAG, if b { 1u8 } else { 0u8 }],
        Datum::Text(t) => seq![TAG_TEXT] + be(encode_utf8(t).len(), 8) + encode_utf8(t),
        Datum::Blob(b) => seq![TAG_BLOB] + be(b.len(), 8) + b,
        Datum::Ids(ids) => seq![TAG_IDS] + be(ids.len(), 8) + ids_wire(ids),
    }
}

/// Whether the counts of a field fit the eight bytes they are written in.
pub open spec fn datum_fits(d: Datum) -> bool {
    match d {
        Datum::Text(t) => encode_utf8(t).len() < limit(8),
        Datum::Blob(b) => b.len() < limit(8),
        Datum::Ids(ids) => ids.len() < limit(8),
        _ => true,
    }
}

/// The bytes of a list of fields: those of each field, one after the other.
pub open spec fn data_wire(data: Seq<Datum>) -> Seq<u8>
    decreases data.len(),
{
    if data.len() == 0 {
        Seq::empty()
    } else {
        datum_wire(data.first()) + data_wire(data.drop_first())
    }
}

/// The field at the start of `s` and the number of bytes it takes, where `s` starts with one.
pub open spec fn parse_datum(s: Seq<u8>) -> Option<(Datum, int)> {
    if s.len() == 0 {
        None
    } else if s[0] == TAG_NIL {
        Some((Datum::Nil, 1))
    } else if s[0] == TAG_NUM {
        if s.len() >= 9 {
            Some((Datum::Num(be_value(s.subrange(1, 9)) as u64), 9))
        } else {
            None
        }
    } else if s[0] == TAG_FLAG {
        if s.len() >= 2 && s[1] <= 1 {
            Some((Datum::Flag(s[1] == 1), 2))
        } else {
            None
        }
    } else if s[0] == TAG_TEXT || s[0] == TAG_BLOB || s[0] == TAG_IDS {
        if s.len() >= 9 {
            let count = be_value(s.subrange(1, 9)) as int;
            if s[0] == TAG_IDS {
                if count <= (s.len() - 9) / 8 {
                    Some((Datum::Ids(ids_parsed(s.subrange(9, 9 + 8 * count))), 9 + 8 * count))
                } else {
                    None
                }
            } else if count <= s.len() - 9 {
                let body = s.subrange(9, 9 + count);
                if s[0] == TAG_BLOB {
                    Some((Datum::Blob(body), 9 + count))
                } else if valid_utf8(body) {
                    Some((Datum::Text(decode_utf8(body)), 9 + count))
                } else {
                    None
                }
            } else {
                None
            }
        } else {
            None
        }
    } else {
        None
    }
}

/// The fields that `s` holds, where `s` is fields from its first byte to its last.
pub open spec fn parse_data(s: Seq<u8>) -> Option<Seq<Datum>>
    decreases s.len(),
{
    if s.len() == 0 {
        Some(Seq::empty())
    } else {
        match parse_datum(s) {
            Some((d, n)) => if 0 < n <= s.len() {
                match parse_data(s.subrange(n, s.len() as int)) {
                    Some(rest) => Some(seq![d] + rest),
                    None => None,
                }
            } else {
                None
            },
            None => None,
        }
    }
}

/// A list of identifiers takes eight bytes for each.
pub proof fn lemma_ids_len(ids: Seq<u64>)
    ensures
        ids_wire(ids).len() == 8 * ids.len(),
    decreases ids.len(),
{
    if ids.len() > 0 {
        lemma_ids_len(ids.drop_last());
        lemma_be_len(ids.last() as nat, 8);
    }
}

/// A list of identifiers is read back from its bytes.
pub proof fn lemma_ids_round_trip(ids: Seq<u64>)
    ensures
        ids_parsed(ids_wire(ids)) == ids,
    decreases ids.len(),
{
    if ids.len() > 0 {
        let w = ids_wire(ids);
        let head = ids_wire(ids.drop_last());
        let tail = be(ids.last() as nat, 8);
        lemma_ids_len(ids.drop_last());
        lemma_be_len(ids.last() as nat, 8);
        lemma_ids_round_trip(ids.drop_last());
        assert(w.subrange(0, w.len() - 8) =~= head);
        assert(w.subrange(w.len() - 8, w.len() as int) =~= tail);
        lemma_limits();
        lemma_be_value(ids.last() as nat, 8);
        assert(ids_parsed(w) =~= ids);
    } else {
        assert(ids_parsed(ids_wire(ids)) =~= ids);
    }
}

/// Eight bytes give one identifier.
pub proof fn lemma_ids_parsed_len(s: Seq<u8>)
    ensures
        ids_parsed(s).len() == s.len() / 8,
    decreases s.len(),
{
    if s.len() >= 8 {
        lemma_ids_parsed_len(s.subrange(0, s.len() - 8));
    }
}

/// A field that fits is read back from its bytes, whatever follows them.
pub proof fn lemma_parse_datum(d: Datum, rest: Seq<u8>)
    requires
        datum_fits(d),
    ensures
        parse_datum(datum_wire(d) + rest) == Some((d, datum_wire(d).len() as int)),
        datum_wire(d).len() > 0,
{
    let s = datum_wire(d) + rest;
    lemma_limits();
    match d {
        Datum::Nil => {},
        Datum::Num(v) => {
            lemma_be_len(v as nat, 8);
            lemma_be_value(v as nat, 8);
            assert(s.subrange(1, 9) =~= be(v as nat, 8));
        },
        Datum::Flag(b) => {},
        Datum::Text(t) => {
            let body = encode_utf8(t);
            lemma_be_len(body.len(), 8);
            lemma_be_value(body.len(), 8);
            assert(s.subrange(1, 9) =~= be(body.len(), 8));
            assert(s.subrange(9, 9 + body.len() as int) =~= body);
            vstd::utf8::encode_utf8_valid_utf8(t);
            vstd::utf8::encode_utf8_decode_utf8(t);
        },
        Datum::Blob(b) => {
            lemma_be_len(b.len(), 8);
            lemma_be_value(b.len(), 8);
            assert(s.subrange(1, 9) =~= be(b.len(), 8));
            assert(s.subrange(9, 9 + b.len() as int) =~= b);
        },
        Datum::Ids(ids) => {
            lemma_be_len(ids.len(), 8);
            lemma_be_value(ids.len(), 8);
            lemma_ids_len(ids);
            lemma_ids_round_trip(ids);
            assert(s.subrange(1, 9) =~= be(ids.len(), 8));
            assert(s.subrange(9, 9 + 8 * ids.len() as int) =~= ids_wire(ids));
        },
    }
}

/// Fields that fit are read back from their bytes.
pub proof fn lemma_round_trip(data: Seq<Datum>)
    requires
        forall|i: int| 0 <= i < data.len() ==> datum_fits(#[trigger] data[i]),
    ensures
        parse_data(data_wire(data)) == Some(data),
    decreases data.len(),
{
    if data.len() > 0 {
        let first = data.first();
        let rest = data.drop_first();
        let s = data_wire(data);
        assert forall|i: int| 0 <= i < rest.len() implies datum_fits(#[trigger] rest[i]) by {
            assert(rest[i] == data[i + 1]);
        }
        lemma_parse_datum(first, data_wire(rest));
        lemma_round_trip(rest);
        let n = datum_wire(first).len() as int;
        assert(s.subrange(n, s.len() as int) =~= data_wire(rest));
        assert(seq![first] + rest =~= data);
    }
}

/// The bytes of identifiers that were read are the bytes they were read from.
pub proof fn lemma_ids_exact(s: Seq<u8>)
    requires
        s.len() % 8 == 0,
    ensures
        ids_wire(ids_parsed(s)) == s,
    decreases s.len(),
{
    if s.len() >= 8 {
        let head = s.subrange(0, s.len() - 8);
        let tail = s.subrange(s.len() - 8, s.len() as int);
        lemma_ids_exact(head);
        lemma_value_bound(tail);
        lemma_limits();
        lemma_be_of_value(tail);
        let ids = ids_parsed(s);
        assert(ids.drop_last() =~= ids_parsed(head));
        assert(ids_wire(ids) =~= s);
    } else {
        assert(ids_wire(ids_parsed(s)) =~= s);
    }
}

/// The bytes of a field that was read are the bytes it was read from.
pub proof fn lemma_datum_exact(s: Seq<u8>)
    requires
        parse_datum(s) is Some,
    ensures
        0 < parse_datum(s).unwrap().1 <= s.len(),
        datum_wire(parse_datum(s).unwrap().0) == s.subrange(0, parse_datum(s).unwrap().1),
        datum_fits(parse_datum(s).unwrap().0),
{
    let (d, n) = parse_datum(s).unwrap();
    lemma_limits();
    if s.len() >= 9 {
        lemma_value_bound(s.subrange(1, 9));
        lemma_be_of_value(s.subrange(1, 9));
    }
    match d {
        Datum::Nil => {
            assert(datum_wire(d) =~= s.subrange(0, 1));
        },
        Datum::Num(v) => {
            assert(datum_wire(d) =~= s.subrange(0, 9));
        },
        Datum::Flag(b) => {
            assert(datum_wire(d) =~= s.subrange(0, 2));
        },
        Datum::Text(t) => {
            let count = be_value(s.subrange(1, 9)) as int;
            let body = s.subrange(9, 9 + count);
            vstd::utf8::decode_utf8_encode_utf8(body);
            assert(datum_wire(d) =~= s.subrange(0, 9 + count));
        },
        Datum::Blob(b) => {
            let count = be_value(s.subrange(1, 9)) as int;
            assert(datum_wire(d) =~= s.subrange(0, 9 + count));
        },
        Datum::Ids(ids) => {
            let count = be_value(s.subrange(1, 9)) as int;
            let body = s.subrange(9, 9 + 8 * count);
            lemma_ids_parsed_len(body);
            lemma_ids_exact(body);
            assert(datum_wire(d) =~= s.subrange(0, 9 + 8 * count));
        },
    }
}

/// Only the bytes of a list of fields are read as that list: the fields that were read, written
/// again, give the bytes they were read from.
pub proof fn lemma_parse_exact(s: Seq<u8>)
    requires
        parse_data(s) is Some,
    ensures
        data_wire(parse_data(s).unwrap()) == s,
        forall|i: int|
            0 <= i < parse_data(s).unwrap().len() ==> datum_fits(
                #[trigger] parse_data(s).unwrap()[i],
            ),
    decreases s.len(),
{
    if s.len() > 0 {
        let (d, n) = parse_datum(s).unwrap();
        let rest = s.subrange(n, s.len() as int);
        lemma_datum_exact(s);
        lemma_parse_exact(rest);
        let tail = parse_data(rest).unwrap();
        let all = parse_data(s).unwrap();
        assert(all =~= seq![d] + tail);
        assert(all.first() == d);
        assert(all.drop_first() =~= tail);
        assert(s =~= s.subrange(0, n) + rest);
        assert forall|i: int| 0 <= i < all.len() implies datum_fits(#[trigger] all[i]) by {
            if i > 0 {
                assert(all[i] == tail[i - 1]);
            }
        }
    } else {
        assert(data_wire(parse_data(s).unwrap()) =~= s);
    }
}

/// `String::from_utf8`: gives a string just where the bytes are valid UTF-8, and the string
/// then holds those bytes.
#[verifier::external_body]
fn text_from_utf8(bytes: Vec<u8>) -> (r: Option<String>)
    ensures
        r is Some <==> valid_utf8(bytes@),
        r matches Some(text) ==> encode_utf8(text@) == bytes@,
{
    match String::from_utf8(bytes) {
        Ok(text) => Some(text),
        Err(_) => None,
    }
}

fn put_ids(out: &mut Vec<u8>, ids: &Vec<u64>)
    ensures
        final(out)@ == old(out)@ + ids_wire(ids@),
{
    let mut i: usize = 0;
    assert(out@ =~= old(out)@ + ids_wire(ids@.subrange(0, 0)));
    while i < ids.len()
        invariant
            i <= ids.len(),
            out@ == old(out)@ + ids_wire(ids@.subrange(0, i as int)),
        decreases ids.len() - i,
    {
        put_be(out, ids[i], 8);
        proof {
            let upto = ids@.subrange(0, i + 1);
            assert(upto.drop_last() =~= ids@.subrange(0, i as int));
            assert(upto.last() == ids@[i as int]);
            assert(out@ =~= old(out)@ + ids_wire(upto));
        }
        i = i + 1;
    }
    assert(ids@.subrange(0, i as int) =~= ids@);
}

fn put_field(out: &mut Vec<u8>, field: &Field)
    ensures
        final(out)@ == old(out)@ + datum_wire(field@),
        datum_fits(field@),
{
    proof {
        lemma_limits();
    }
    match field {
        Field::Nil => {
            out.push(TAG_NIL);
            assert(out@ =~= old(out)@ + datum_wire(field@));
        },
        Field::Num(v) => {
            out.push(TAG_NUM);
            put_be(out, *v, 8);
            assert(out@ =~= old(out)@ + datum_wire(field@));
        },
        Field::Flag(b) => {
            out.push(TAG_FLAG);
            out.push(if *b { 1u8 } else { 0u8 });
            assert(out@ =~= old(out)@ + datum_wire(field@));
        },
        Field::Text(t) => {
            let body = t.as_str().as_bytes();
            out.push(TAG_TEXT);
            put_be(out, body.len() as u64, 8);
            let mut copy = copy_bytes(body);
            out.append(&mut copy);
            assert(out@ =~= old(out)@ + datum_wire(field@));
        },
        Field::Blob(b) => {
            out.push(TAG_BLOB);
            put_be(out, b.len() as u64, 8);
            let mut copy = copy_bytes(b.as_slice());
            out.append(&mut copy);
            assert(out@ =~= old(out)@ + datum_wire(field@));
        },
        Field::Ids(ids) => {
            out.push(TAG_IDS);
            put_be(out, ids.len() as u64, 8);
            put_ids(out, ids);
            assert(out@ =~= old(out)@ + datum_wire(field@));
        },
    }
}

/// The bytes of a list of fields.
pub fn encode_fields(fields: &Vec<Field>) -> (r: Vec<u8>)
    ensures
        r@ == data_wire(data_of(fields@)),
        parse_data(r@) == Some(data_of(fields@)),
{
    let mut out: Vec<u8> = Vec::new();
    let ghost data = data_of(fields@);
    let mut i: usize = 0;
    assert(data.subrange(0, data.len() as int) =~= data);
    assert(out@ + data_wire(data) =~= data_wire(data));
    while i < fields.len()
        invariant
            i <= fields.len(),
            data == data_of(fields@),
            out@ + data_wire(data.subrange(i as int, data.len() as int)) == data_wire(data),
            forall|k: int| 0 <= k < i ==> datum_fits(#[trigger] data[k]),
        decreases fields.len() - i,
    {
        let ghost before = out@;
        put_field(&mut out, &fields[i]);
        proof {
            let tail = data.subrange(i as int, data.len() as int);
            assert(tail.first() == data[i as int]);
            assert(tail.drop_first() =~= data.subrange(i + 1, data.len() as int));
            assert(out@ + data_wire(data.subrange(i + 1, data.len() as int)) =~= before
                + data_wire(tail));
        }
        i = i + 1;
    }
    proof {
        assert(data.subrange(i as int, data.len() as int) =~= Seq::<Datum>::empty());
        assert(out@ =~= data_wire(data));
        lemma_round_trip(data);
    }
    out
}

fn take_ids(bytes: &[u8], at: usize, count: usize) -> (r: Vec<u64>)
    requires
        at <= bytes.len(),
        count <= (bytes.len() - at) / 8,
    ensures
        r@ == ids_parsed(bytes@.subrange(at as int, at + 8 * count)),
{
    let mut out: Vec<u64> = Vec::new();
    let mut j: usize = 0;
    assert(ids_parsed(bytes@.subrange(at as int, at + 0)) =~= Seq::<u64>::empty());
    while j < count
        invariant
            j <= count,
            at <= bytes.len(),
            count <= (bytes.len() - at) / 8,
            out@ == ids_parsed(bytes@.subrange(at as int, at + 8 * j)),
        decreases count - j,
    {
        let id = get_be(bytes, at + 8 * j, 8);
        proof {
            let upto = bytes@.subrange(at as int, at + 8 * (j + 1));
            assert(upto.subrange(0, upto.len() - 8) =~= bytes@.subrange(at as int, at + 8 * j));
            assert(upto.subrange(upto.len() - 8, upto.len() as int) =~= bytes@.subrange(
                at + 8 * j,
                at + 8 * j + 8,
            ));
            lemma_value_bound(bytes@.subrange(at + 8 * j, at + 8 * j + 8));
            lemma_limits();
        }
        out.push(id);
        j = j + 1;
    }
    out
}

/// Reads the field that starts at `at`, and says where the next one starts.
fn take_field(bytes: &[u8], at: usize) -> (r: Option<(Field, usize)>)
    requires
        at <= bytes.len(),
    ensures
        match r {
            Some((field, next)) => at < next <= bytes.len() && parse_datum(
                bytes@.subrange(at as int, bytes.len() as int),
            ) == Some((field@, next - at)),
            None => parse_datum(bytes@.subrange(at as int, bytes.len() as int)).is_none(),
        },
{
    let ghost s = bytes@.subrange(at as int, bytes.len() as int);
    if at == bytes.len() {
        return None;
    }
    let left: usize = bytes.len() - at;
    let tag = bytes[at];
    assert(s[0] == tag);
    if tag == TAG_NIL {
        return Some((Field::Nil, at + 1));
    }
    if tag == TAG_FLAG {
        if left >= 2 && bytes[at + 1] <= 1 {
            assert(s[1] == bytes[at + 1]);
            return Some((Field::Flag(bytes[at + 1] == 1), at + 2));
        }
        assert(left >= 2 ==> s[1] == bytes[at + 1]);
        return None;
    }
    if tag != TAG_NUM && tag != TAG_TEXT && tag != TAG_BLOB && tag != TAG_IDS {
        return None;
    }
    if left < 9 {
        return None;
    }
    let head = get_be(bytes, at + 1, 8);
    proof {
        assert(s.subrange(1, 9) =~= bytes@.subrange(at + 1, at + 9));
        lemma_value_bound(s.subrange(1, 9));
        lemma_limits();
    }
    if tag == TAG_NUM {
        return Some((Field::Num(head), at + 9));
    }
    let room: usize = left - 9;
    if tag == TAG_IDS {
        if head > (room / 8) as u64 {
            return None;
        }
        let count: usize = head as usize;
        let ids = take_ids(bytes, at + 9, count);
        assert(s.subrange(9, 9 + 8 * count) =~= bytes@.subrange(at + 9, at + 9 + 8 * count));
        return Some((Field::Ids(ids), at + 9 + 8 * count));
    }
    if head > room as u64 {
        return None;
    }
    let count: usize = head as usize;
    let body = copy_range(bytes, at + 9, at + 9 + count);
    assert(s.subrange(9, 9 + count) =~= bytes@.subrange(at + 9, at + 9 + count));
    if tag == TAG_BLOB {
        return Some((Field::Blob(body), at + 9 + count));
    }
    match text_from_utf8(body) {
        Some(text) => {
            proof {
                vstd::utf8::encode_utf8_decode_utf8(text@);
            }
            Some((Field::Text(text), at + 9 + count))
        },
        None => None,
    }
}

/// What reading the rest gives, behind the fields that were read already.
pub open spec fn behind(done: Seq<Datum>, rest: Option<Seq<Datum>>) -> Option<Seq<Datum>> {
    match rest {
        Some(rest) => Some(done + rest),
        None => None,
    }
}

/// The fields that `bytes` holds, or `None` where `bytes` is not a list of fields.
pub fn decode_fields(bytes: &[u8]) -> (r: Option<Vec<Field>>)
    ensures
        match r {
            Some(fields) => parse_data(bytes@) == Some(data_of(fields@)) && bytes@ == data_wire(
                data_of(fields@),
            ),
            None => parse_data(bytes@).is_none(),
        },
{
    proof {
        if parse_data(bytes@) is Some {
            lemma_parse_exact(bytes@);
        }
    }
    let mut out: Vec<Field> = Vec::new();
    let mut at: usize = 0;
    proof {
        assert(bytes@.subrange(0, bytes.len() as int) =~= bytes@);
        assert(data_of(out@) =~= Seq::<Datum>::empty());
        match parse_data(bytes@) {
            Some(rest) => {
                assert(Seq::<Datum>::empty() + rest =~= rest);
            },
            None => {},
        }
    }
    while at < bytes.len()
        invariant
            at <= bytes.len(),
            parse_data(bytes@) == behind(
                data_of(out@),
                parse_data(bytes@.subrange(at as int, bytes.len() as int)),
            ),
        decreases bytes.len() - at,
    {
        let ghost s = bytes@.subrange(at as int, bytes.len() as int);
        let ghost done = data_of(out@);
        match take_field(bytes, at) {
            Some((field, next)) => {
                proof {
                    let n = next - at;
                    assert(s.subrange(n, s.len() as int) =~= bytes@.subrange(
                        next as int,
                        bytes.len() as int,
                    ));
                    let after = data_of(out@.push(field));
                    assert(after =~= done.push(field@));
                    match parse_data(bytes@.subrange(next as int, bytes.len() as int)) {
                        Some(rest) => {
                            assert(done + (seq![field@] + rest) =~= after + rest);
                        },
                        None => {},
                    }
                }
                out.push(field);
                at = next;
            },
            None => {
                return None;
            },
        }
    }
    proof {
        assert(bytes@.subrange(at as int, bytes.len() as int) =~= Seq::<u8>::empty());
        assert(data_of(out@) + Seq::<Datum>::empty() =~= data_of(out@));
    }
    Some(out)
}

} // verus!
