use crate::codec::{
    data_of, data_wire, Datum, datum_fits, decode_fields, encode_fields, Field, lemma_round_trip,
    parse_data,
};
use crate::error::CacheError;
use vstd::prelude::*;

verus! {

/// A value that the record store can hold: it is written as a list of fields and read back
/// from one.
pub trait Record: Sized {
    /// The fields of this record, in the order in which they are written.
    spec fn data(&self) -> Seq<Datum>;

    /// Whether a list of fields is that of a record of this type.
    spec fn shaped(data: Seq<Datum>) -> bool;

    /// The fields of a record have the shape of its type.
    proof fn lemma_shaped(&self)
        ensures
            Self::shaped(self.data()),
    ;

    fn fields(&self) -> (r: Vec<Field>)
        ensures
            data_of(r@) == self.data(),
    ;

    fn from_fields(fields: Vec<Field>) -> (r: Option<Self>)
        ensures
            r is Some <==> Self::shaped(data_of(fields@)),
            r matches Some(record) ==> record.data() == data_of(fields@),
    ;
}

/// A record that carries the identifier under which it is kept.
pub trait Identified: Record {
    spec fn ident(&self) -> u64;

    fn id(&self) -> (r: u64)
        ensures
            r == self.ident(),
    ;
}

/// The bytes under which a record is stored.
pub open spec fn record_wire<R: Record>(record: &R) -> Seq<u8> {
    data_wire(record.data())
}

/// The bytes under which a record is stored together with the guild that it belongs to: the
/// guild's identifier is written in front of the record's own fields.
pub open spec fn scoped_wire(guild_id: u64, data: Seq<Datum>) -> Seq<u8> {
    data_wire(seq![Datum::Num(guild_id)] + data)
}

/// The fields of the record of type `R` that `bytes` holds, where `bytes` holds one.
pub open spec fn decoded<R: Record>(bytes: Seq<u8>) -> Option<Seq<Datum>> {
    match parse_data(bytes) {
        Some(data) => if R::shaped(data) {
            Some(data)
        } else {
            None
        },
        None => None,
    }
}

/// Whether every count in a list of fields fits the bytes it is written in.
pub open spec fn all_fit(data: Seq<Datum>) -> bool {
    forall|i: int| 0 <= i < data.len() ==> datum_fits(#[trigger] data[i])
}

/// Serialises a record.
pub fn encode<R: Record>(record: &R) -> (r: Vec<u8>)
    ensures
        r@ == record_wire(record),
        decoded::<R>(r@) == Some(record.data()),
{
    let fields = record.fields();
    proof {
        record.lemma_shaped();
    }
    encode_fields(&fields)
}

/// Serialises a record together with the guild that it belongs to.
pub fn encode_scoped<R: Record>(guild_id: u64, record: &R) -> (r: Vec<u8>)
    ensures
        r@ == scoped_wire(guild_id, record.data()),
{
    let mut fields: Vec<Field> = Vec::new();
    fields.push(Field::Num(guild_id));
    let mut rest = record.fields();
    let ghost tail = rest@;
    fields.append(&mut rest);
    assert(data_of(fields@) =~= seq![Datum::Num(guild_id)] + data_of(tail));
    encode_fields(&fields)
}

/// Reads a record from bytes. Bytes that are not a list of fields, or whose fields are not
/// those of an `R`, are corrupt; the bytes of a record, and no others, give that record.
pub fn decode<R: Record>(bytes: &[u8]) -> (r: Result<R, CacheError>)
    ensures
        match r {
            Ok(record) => decoded::<R>(bytes@) == Some(record.data()) && bytes@ == record_wire(
                &record,
            ),
            Err(error) => error == CacheError::CorruptRecord && decoded::<R>(bytes@).is_none(),
        },
{
    match decode_fields(bytes) {
        Some(fields) => match R::from_fields(fields) {
            Some(record) => Ok(record),
            None => Err(CacheError::CorruptRecord),
        },
        None => Err(CacheError::CorruptRecord),
    }
}

/// Round trip: the bytes of a record decode to that record's fields.
pub proof fn law_round_trip<R: Record>(record: R)
    requires
        all_fit(record.data()),
    ensures
        decoded::<R>(record_wire(&record)) == Some(record.data()),
{
    record.lemma_shaped();
    lemma_round_trip(record.data());
}

/// The number that a field holds, if it holds one.
pub open spec fn as_num(d: Datum) -> Option<u64> {
    match d {
        Datum::Num(v) => Some(v),
        _ => None,
    }
}

/// The optional number that a field holds, if it holds one or nothing.
pub open spec fn as_opt_num(d: Datum) -> Option<Option<u64>> {
    match d {
        Datum::Num(v) => Some(Some(v)),
        Datum::Nil => Some(None),
        _ => None,
    }
}

/// The flag that a field holds, if it holds one.
pub open spec fn as_flag(d: Datum) -> Option<bool> {
    match d {
        Datum::Flag(b) => Some(b),
        _ => None,
    }
}

/// The optional flag that a field holds, if it holds one or nothing.
pub open spec fn as_opt_flag(d: Datum) -> Option<Option<bool>> {
    match d {
        Datum::Flag(b) => Some(Some(b)),
        Datum::Nil => Some(None),
        _ => None,
    }
}

/// Whether a field holds text.
pub open spec fn is_text(d: Datum) -> bool {
    d is Text
}

/// Whether a field holds text or nothing.
pub open spec fn is_opt_text(d: Datum) -> bool {
    d is Text || d is Nil
}

/// Whether a field holds bytes.
pub open spec fn is_blob(d: Datum) -> bool {
    d is Blob
}

/// Whether a field holds a list of identifiers.
pub open spec fn is_ids(d: Datum) -> bool {
    d is Ids
}

/// The field for an optional number.
pub open spec fn opt_num(v: Option<u64>) -> Datum {
    match v {
        Some(v) => Datum::Num(v),
        None => Datum::Nil,
    }
}

/// The field for an optional flag.
pub open spec fn opt_flag(v: Option<bool>) -> Datum {
    match v {
        Some(b) => Datum::Flag(b),
        None => Datum::Nil,
    }
}

/// The field for an optional text.
pub open spec fn opt_text(v: Option<String>) -> Datum {
    match v {
        Some(t) => Datum::Text(t@),
        None => Datum::Nil,
    }
}

/// A copy of a list of identifiers.
pub(crate) fn copy_ids(ids: &Vec<u64>) -> (r: Vec<u64>)
    ensures
        r@ == ids@,
{
    let mut out: Vec<u64> = Vec::new();
    let mut i: usize = 0;
    while i < ids.len()
        invariant
            i <= ids.len(),
            out@ == ids@.subrange(0, i as int),
        decreases ids.len() - i,
    {
        out.push(ids[i]);
        i = i + 1;
        assert(out@ =~= ids@.subrange(0, i as int));
    }
    assert(ids@.subrange(0, i as int) =~= ids@);
    out
}

pub(crate) fn field_opt_num(v: Option<u64>) -> (r: Field)
    ensures
        r@ == opt_num(v),
{
    match v {
        Some(v) => Field::Num(v),
        None => Field::Nil,
    }
}

pub(crate) fn field_opt_flag(v: Option<bool>) -> (r: Field)
    ensures
        r@ == opt_flag(v),
{
    match v {
        Some(b) => Field::Flag(b),
        None => Field::Nil,
    }
}

pub(crate) fn field_text(v: &String) -> (r: Field)
    ensures
        r@ == Datum::Text(v@),
{
    Field::Text(v.clone())
}

pub(crate) fn field_opt_text(v: &Option<String>) -> (r: Field)
    ensures
        r@ == opt_text(*v),
{
    match v {
        Some(t) => Field::Text(t.clone()),
        None => Field::Nil,
    }
}

pub(crate) fn field_blob(v: &Vec<u8>) -> (r: Field)
    ensures
        r@ == Datum::Blob(v@),
{
    Field::Blob(crate::bytes::copy_bytes(v.as_slice()))
}

pub(crate) fn field_ids(v: &Vec<u64>) -> (r: Field)
    ensures
        r@ == Datum::Ids(v@),
{
    Field::Ids(copy_ids(v))
}

/// Takes the last field off the list; it is a number, or there is no result.
pub(crate) fn take_num(fields: &mut Vec<Field>) -> (r: Option<u64>)
    requires
        old(fields).len() > 0,
    ensures
        final(fields)@ == old(fields)@.drop_last(),
        r == as_num(old(fields)@.last()@),
{
    match fields.pop() {
        Some(Field::Num(v)) => Some(v),
        _ => None,
    }
}

pub(crate) fn take_opt_num(fields: &mut Vec<Field>) -> (r: Option<Option<u64>>)
    requires
        old(fields).len() > 0,
    ensures
        final(fields)@ == old(fields)@.drop_last(),
        r == as_opt_num(old(fields)@.last()@),
{
    match fields.pop() {
        Some(Field::Num(v)) => Some(Some(v)),
        Some(Field::Nil) => Some(None),
        _ => None,
    }
}

pub(crate) fn take_flag(fields: &mut Vec<Field>) -> (r: Option<bool>)
    requires
        old(fields).len() > 0,
    ensures
        final(fields)@ == old(fields)@.drop_last(),
        r == as_flag(old(fields)@.last()@),
{
    match fields.pop() {
        Some(Field::Flag(b)) => Some(b),
        _ => None,
    }
}

pub(crate) fn take_opt_flag(fields: &mut Vec<Field>) -> (r: Option<Option<bool>>)
    requires
        old(fields).len() > 0,
    ensures
        final(fields)@ == old(fields)@.drop_last(),
        r == as_opt_flag(old(fields)@.last()@),
{
    match fields.pop() {
        Some(Field::Flag(b)) => Some(Some(b)),
        Some(Field::Nil) => Some(None),
        _ => None,
    }
}

pub(crate) fn take_text(fields: &mut Vec<Field>) -> (r: Option<String>)
    requires
        old(fields).len() > 0,
    ensures
        final(fields)@ == old(fields)@.drop_last(),
        r is Some <==> is_text(old(fields)@.last()@),
        r matches Some(t) ==> Datum::Text(t@) == old(fields)@.last()@,
{
    match fields.pop() {
        Some(Field::Text(t)) => Some(t),
        _ => None,
    }
}

pub(crate) fn take_opt_text(fields: &mut Vec<Field>) -> (r: Option<Option<String>>)
    requires
        old(fields).len() > 0,
    ensures
        final(fields)@ == old(fields)@.drop_last(),
        r is Some <==> is_opt_text(old(fields)@.last()@),
        r matches Some(t) ==> opt_text(t) == old(fields)@.last()@,
{
    match fields.pop() {
        Some(Field::Text(t)) => Some(Some(t)),
        Some(Field::Nil) => Some(None),
        _ => None,
    }
}

pub(crate) fn take_blob(fields: &mut Vec<Field>) -> (r: Option<Vec<u8>>)
    requires
        old(fields).len() > 0,
    ensures
        final(fields)@ == old(fields)@.drop_last(),
        r is Some <==> is_blob(old(fields)@.last()@),
        r matches Some(b) ==> Datum::Blob(b@) == old(fields)@.last()@,
{
    match fields.pop() {
        Some(Field::Blob(b)) => Some(b),
        _ => None,
    }
}

pub(crate) fn take_ids(fields: &mut Vec<Field>) -> (r: Option<Vec<u64>>)
    requires
        old(fields).len() > 0,
    ensures
        final(fields)@ == old(fields)@.drop_last(),
        r is Some <==> is_ids(old(fields)@.last()@),
        r matches Some(ids) ==> Datum::Ids(ids@) == old(fields)@.last()@,
{
    match fields.pop() {
        Some(Field::Ids(ids)) => Some(ids),
        _ => None,
    }
}

} // verus!
