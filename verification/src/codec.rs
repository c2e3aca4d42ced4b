//! The record codec: a record's three text fields are joined with the fixed
//! three-byte delimiter (space, colon, space); parsing splits on that
//! delimiter and requires exactly three segments.  The format cannot escape
//! a delimiter inside a field, so a record whose serialization contains the
//! delimiter anywhere but at the two join points does not round-trip; the
//! literal text `OK` is reserved as the verification sentinel and never
//! parses as a record, having only one segment.

use vstd::prelude::*;
use vstd::slice::{slice_subrange, slice_to_vec};
use vstd::string::StrSliceExecFns;
use vstd::utf8::{decode_utf8, encode_utf8, encode_utf8_decode_utf8, encode_utf8_valid_utf8,
    valid_utf8};

use crate::errors::StoreError;
use crate::outside::bytes_to_string;

verus! {

/// One credential record: a product, a user name and a secret, all free
/// text.
#[derive(Debug)]
pub struct Record {
    pub product: String,
    pub name: String,
    pub secret: String,
}

/// The mathematical value of a record: its three fields as character
/// sequences.
#[verifier::ext_equal]
pub struct RecordView {
    pub product: Seq<char>,
    pub name: Seq<char>,
    pub secret: Seq<char>,
}

impl View for Record {
    type V = RecordView;

    open spec fn view(&self) -> RecordView {
        RecordView { product: self.product@, name: self.name@, secret: self.secret@ }
    }
}

impl Clone for Record {
    fn clone(&self) -> (r: Record)
        ensures
            r@ == self@,
    {
        Record {
            product: self.product.clone(),
            name: self.name.clone(),
            secret: self.secret.clone(),
        }
    }
}

/// The field delimiter: space, colon, space.
pub open spec fn delim() -> Seq<u8> {
    seq![32u8, 58u8, 32u8]
}

/// The delimiter occurs in `b` starting at position `i`.
pub open spec fn is_delim_at(b: Seq<u8>, i: int) -> bool {
    &&& 0 <= i
    &&& i + 3 <= b.len()
    &&& b[i] == 32u8
    &&& b[i + 1] == 58u8
    &&& b[i + 2] == 32u8
}

/// The greedy left-to-right split of `b` on the delimiter, scanning from
/// position `i` with the current segment open since `cur`.
pub open spec fn split_acc(b: Seq<u8>, i: int, cur: int) -> Seq<Seq<u8>>
    recommends
        0 <= cur <= i <= b.len(),
    decreases b.len() + 3 - i,
        when 0 <= i <= b.len() + 3
{
    if i + 3 > b.len() {
        seq![b.subrange(cur, b.len() as int)]
    } else if is_delim_at(b, i) {
        seq![b.subrange(cur, i)] + split_acc(b, i + 3, i + 3)
    } else {
        split_acc(b, i + 1, cur)
    }
}

/// The segments of `b` between delimiter occurrences, leftmost first.
pub open spec fn split_fields(b: Seq<u8>) -> Seq<Seq<u8>> {
    split_acc(b, 0, 0)
}

/// The serialized form of a record: the text encodings of its fields,
/// joined by the delimiter.
pub open spec fn serialize_spec(rv: RecordView) -> Seq<u8> {
    encode_utf8(rv.product) + delim() + encode_utf8(rv.name) + delim() + encode_utf8(rv.secret)
}

/// What parsing a byte payload yields: exactly three segments, each valid
/// text, or the exact error.
pub open spec fn parse_bytes_spec(b: Seq<u8>) -> Result<RecordView, StoreError> {
    let parts = split_fields(b);
    if parts.len() != 3 {
        Err(StoreError::RecordFormatError)
    } else if !(valid_utf8(parts[0]) && valid_utf8(parts[1]) && valid_utf8(parts[2])) {
        Err(StoreError::TextDecodingError)
    } else {
        Ok(
            RecordView {
                product: decode_utf8(parts[0]),
                name: decode_utf8(parts[1]),
                secret: decode_utf8(parts[2]),
            },
        )
    }
}

/// The record a result of `parse_record` stands for.
pub open spec fn record_result_view(r: Result<Record, StoreError>) -> Result<
    RecordView,
    StoreError,
> {
    match r {
        Ok(rec) => Ok(rec@),
        Err(e) => Err(e),
    }
}

/// A record round-trips through the codec: its serialization contains the
/// delimiter exactly at the two join points.  Fields holding the delimiter,
/// or forming one across a join, break round-trip parsing and are not
/// well-formed.
pub open spec fn wf_record(rv: RecordView) -> bool {
    forall|i: int|
        #[trigger] is_delim_at(serialize_spec(rv), i) ==> i == encode_utf8(rv.product).len() || i
            == encode_utf8(rv.product).len() + 3 + encode_utf8(rv.name).len()
}

/// The delimiter bytes are valid text: they encode the three one-byte
/// characters space, colon, space.
pub proof fn lemma_delim_valid()
    ensures
        valid_utf8(delim()),
        delim() == encode_utf8(seq![' ', ':', ' ']),
{
    let d = seq![' ', ':', ' '];
    assert((32u32 & 0x7F) as u8 == 32u8) by (bit_vector);
    assert((58u32 & 0x7F) as u8 == 58u8) by (bit_vector);
    assert(vstd::utf8::encode_scalar(' ' as u32) =~= seq![32u8]);
    assert(vstd::utf8::encode_scalar(':' as u32) =~= seq![58u8]);
    assert(d.drop_first() =~= seq![':', ' ']);
    assert(seq![':', ' '].drop_first() =~= seq![' ']);
    assert(seq![' '].drop_first() =~= Seq::<char>::empty());
    assert(encode_utf8(Seq::<char>::empty()) =~= Seq::<u8>::empty());
    assert(encode_utf8(seq![' ']) =~= seq![32u8]);
    assert(encode_utf8(seq![':', ' ']) =~= seq![58u8, 32u8]);
    assert(encode_utf8(d) =~= delim());
    vstd::utf8::encode_utf8_valid_utf8(d);
}

/// A record's serialization is valid text: each field's encoding is, the
/// delimiter is, and validity is closed under concatenation.
pub proof fn lemma_serialize_valid(rv: RecordView)
    ensures
        valid_utf8(serialize_spec(rv)),
{
    broadcast use encode_utf8_valid_utf8;

    lemma_delim_valid();
    vstd::utf8::valid_utf8_concat(encode_utf8(rv.product), delim());
    vstd::utf8::valid_utf8_concat(encode_utf8(rv.product) + delim(), encode_utf8(rv.name));
    vstd::utf8::valid_utf8_concat(encode_utf8(rv.product) + delim() + encode_utf8(rv.name), delim());
    vstd::utf8::valid_utf8_concat(
        encode_utf8(rv.product) + delim() + encode_utf8(rv.name) + delim(),
        encode_utf8(rv.secret),
    );
}

/// Scanning a region with no delimiter occurrence closes the last segment.
proof fn lemma_split_acc_no_delim(b: Seq<u8>, i: int, cur: int)
    requires
        0 <= cur <= i <= b.len(),
        forall|j: int| i <= j ==> !is_delim_at(b, j),
    ensures
        split_acc(b, i, cur) == seq![b.subrange(cur, b.len() as int)],
    decreases b.len() - i,
{
    if i + 3 > b.len() {
    } else {
        assert(!is_delim_at(b, i));
        lemma_split_acc_no_delim(b, i + 1, cur);
    }
}

/// Scanning up to the next delimiter occurrence `d` closes the current
/// segment at `d` and continues after it.
proof fn lemma_split_acc_to_delim(b: Seq<u8>, i: int, cur: int, d: int)
    requires
        0 <= cur <= i <= d,
        is_delim_at(b, d),
        forall|j: int| i <= j < d ==> !is_delim_at(b, j),
    ensures
        split_acc(b, i, cur) == seq![b.subrange(cur, d)] + split_acc(b, d + 3, d + 3),
    decreases d - i,
{
    if i == d {
    } else {
        assert(!is_delim_at(b, i));
        lemma_split_acc_to_delim(b, i + 1, cur, d);
    }
}

/// Codec round trip: parsing the serialization of a well-formed record
/// yields the record again.
pub proof fn lemma_parse_serialize(rv: RecordView)
    requires
        wf_record(rv),
    ensures
        parse_bytes_spec(serialize_spec(rv)) == Ok::<RecordView, StoreError>(rv),
{
    broadcast use encode_utf8_valid_utf8, encode_utf8_decode_utf8;

    let b = serialize_spec(rv);
    let d1 = encode_utf8(rv.product).len() as int;
    let d2 = d1 + 3 + encode_utf8(rv.name).len() as int;
    assert(b.len() == d2 + 3 + encode_utf8(rv.secret).len());
    assert(is_delim_at(b, d1));
    assert(is_delim_at(b, d2));
    lemma_split_acc_to_delim(b, 0, 0, d1);
    lemma_split_acc_to_delim(b, d1 + 3, d1 + 3, d2);
    lemma_split_acc_no_delim(b, d2 + 3, d2 + 3);
    let parts = split_fields(b);
    assert(b.subrange(0, d1) =~= encode_utf8(rv.product));
    assert(b.subrange(d1 + 3, d2) =~= encode_utf8(rv.name));
    assert(b.subrange(d2 + 3, b.len() as int) =~= encode_utf8(rv.secret));
    assert(parts =~= seq![
        encode_utf8(rv.product),
        encode_utf8(rv.name),
        encode_utf8(rv.secret),
    ]);
    assert(parse_bytes_spec(b) == Ok::<RecordView, StoreError>(
        RecordView {
            product: decode_utf8(encode_utf8(rv.product)),
            name: decode_utf8(encode_utf8(rv.name)),
            secret: decode_utf8(encode_utf8(rv.secret)),
        },
    ));
    assert(parse_bytes_spec(b)->Ok_0 =~= rv);
}

/// A field's byte encoding is safe to join: it holds no delimiter
/// occurrence of its own, does not end with space-colon, does not start
/// with colon-space, and is not a single colon — the four shapes that
/// would complete a delimiter across a join point.
pub open spec fn field_safe(f: Seq<u8>) -> bool {
    &&& forall|i: int| !is_delim_at(f, i)
    &&& !(f.len() >= 2 && f[f.len() - 2] == 32u8 && f[f.len() - 1] == 58u8)
    &&& !(f.len() >= 2 && f[0] == 58u8 && f[1] == 32u8)
    &&& !(f.len() == 1 && f[0] == 58u8)
}

/// Safe fields make a well-formed record: the serialization of a record
/// whose three field encodings are safe holds the delimiter exactly at the
/// two join points.
pub proof fn lemma_safe_fields_wf(rv: RecordView)
    requires
        field_safe(encode_utf8(rv.product)),
        field_safe(encode_utf8(rv.name)),
        field_safe(encode_utf8(rv.secret)),
    ensures
        wf_record(rv),
{
    let p = encode_utf8(rv.product);
    let n = encode_utf8(rv.name);
    let s = encode_utf8(rv.secret);
    let b = serialize_spec(rv);
    let lp = p.len() as int;
    let ln = n.len() as int;
    let ls = s.len() as int;
    assert(b.len() == lp + 3 + ln + 3 + ls);
    assert forall|i: int| #[trigger] is_delim_at(b, i) implies i == lp || i == lp + 3 + ln by {
        assert(forall|j: int| 0 <= j < lp ==> b[j] == p[j]);
        assert(b[lp] == 32u8 && b[lp + 1] == 58u8 && b[lp + 2] == 32u8);
        assert(forall|j: int| 0 <= j < ln ==> b[lp + 3 + j] == n[j]);
        assert(b[lp + 3 + ln] == 32u8 && b[lp + 3 + ln + 1] == 58u8 && b[lp + 3 + ln + 2]
            == 32u8);
        assert(forall|j: int| 0 <= j < ls ==> b[lp + 3 + ln + 3 + j] == s[j]);
        if i + 3 <= lp {
            assert(is_delim_at(p, i));
        } else if i == lp - 2 {
            assert(p[lp - 2] == 32u8 && p[lp - 1] == 58u8);
        } else if i == lp - 1 {
            assert(b[i + 1] == 32u8);
        } else if i == lp || i == lp + 3 + ln {
        } else if i == lp + 1 {
            assert(b[i] == 58u8);
        } else if i == lp + 2 {
            if ln == 0 {
                assert(b[i + 1] == 32u8);
            } else if ln == 1 {
                assert(n[0] == 58u8);
            } else {
                assert(n[0] == 58u8 && n[1] == 32u8);
            }
        } else if lp + 3 <= i && i + 3 <= lp + 3 + ln {
            assert(is_delim_at(n, i - lp - 3));
        } else if i == lp + 3 + ln - 2 {
            assert(n[ln - 2] == 32u8 && n[ln - 1] == 58u8);
        } else if i == lp + 3 + ln - 1 {
            assert(b[i + 1] == 32u8);
        } else if i == lp + 3 + ln + 1 {
            assert(b[i] == 58u8);
        } else if i == lp + 3 + ln + 2 {
            assert(s[0] == 58u8 && s[1] == 32u8);
        } else {
            assert(i >= lp + 3 + ln + 3);
            assert(is_delim_at(s, i - (lp + 3 + ln + 3)));
        }
    }
}

/// The reserved sentinel text never parses as a record: its payload holds
/// no delimiter, so it splits into a single segment, not three.
pub proof fn lemma_sentinel_not_a_record()
    ensures
        parse_bytes_spec(encode_utf8("OK"@)) == Err::<RecordView, StoreError>(
            StoreError::RecordFormatError,
        ),
{
    reveal_strlit("OK");
    assert("OK"@ =~= seq!['O', 'K']);
    assert((79u32 & 0x7F) as u8 == 79u8) by (bit_vector);
    assert((75u32 & 0x7F) as u8 == 75u8) by (bit_vector);
    assert(vstd::utf8::encode_scalar('O' as u32) =~= seq![79u8]);
    assert(vstd::utf8::encode_scalar('K' as u32) =~= seq![75u8]);
    assert(seq!['O', 'K'].drop_first() =~= seq!['K']);
    assert(seq!['K'].drop_first() =~= Seq::<char>::empty());
    assert(encode_utf8(Seq::<char>::empty()) =~= Seq::<u8>::empty());
    assert(encode_utf8(seq!['K']) =~= seq![75u8]);
    assert(encode_utf8(seq!['O', 'K']) =~= seq![79u8, 75u8]);
    let b = encode_utf8("OK"@);
    assert(split_fields(b) =~= seq![b.subrange(0, 2)]);
    assert(split_fields(b).len() == 1);
}

/// Copy the bytes of `b` between `from` and `to` into a fresh vector.
fn sub_vec(b: &Vec<u8>, from: usize, to: usize) -> (r: Vec<u8>)
    requires
        from <= to <= b@.len(),
    ensures
        r@ == b@.subrange(from as int, to as int),
{
    slice_to_vec(slice_subrange(b.as_slice(), from, to))
}

/// Split a byte payload on the delimiter, greedy and left to right.
fn split_bytes(b: &Vec<u8>) -> (parts: Vec<Vec<u8>>)
    ensures
        parts.deep_view() == split_fields(b@),
{
    let mut parts: Vec<Vec<u8>> = Vec::new();
    let mut i: usize = 0;
    let mut cur: usize = 0;
    while b.len() >= 3 && i <= b.len() - 3
        invariant
            0 <= cur <= i <= b@.len(),
            parts.deep_view() + split_acc(b@, i as int, cur as int) == split_fields(b@),
        decreases b@.len() - i,
    {
        if b[i] == 32u8 && b[i + 1] == 58u8 && b[i + 2] == 32u8 {
            let ghost prev = parts.deep_view();
            let field = sub_vec(b, cur, i);
            parts.push(field);
            proof {
                assert(parts.deep_view() =~~= prev.push(field@));
                assert(split_acc(b@, i as int, cur as int) == seq![b@.subrange(cur as int, i as int)]
                    + split_acc(b@, i + 3, i + 3));
                assert(parts.deep_view() + split_acc(b@, i + 3, i + 3) =~~= split_fields(b@));
            }
            i = i + 3;
            cur = i;
        } else {
            i = i + 1;
        }
    }
    let ghost prev = parts.deep_view();
    let tail = sub_vec(b, cur, b.len());
    parts.push(tail);
    proof {
        assert(split_acc(b@, i as int, cur as int) == seq![
            b@.subrange(cur as int, b@.len() as int),
        ]);
        assert(parts.deep_view() =~~= prev.push(tail@));
        assert(parts.deep_view() =~~= split_fields(b@));
    }
    parts
}

/// Serialize a record: join the byte encodings of its three fields with the
/// delimiter.
pub fn serialize_record(r: &Record) -> (b: Vec<u8>)
    ensures
        b@ == serialize_spec(r@),
{
    let mut out = r.product.as_str().as_bytes_vec();
    out.push(32u8);
    out.push(58u8);
    out.push(32u8);
    let mut nb = r.name.as_str().as_bytes_vec();
    out.append(&mut nb);
    out.push(32u8);
    out.push(58u8);
    out.push(32u8);
    let mut sb = r.secret.as_str().as_bytes_vec();
    out.append(&mut sb);
    proof {
        assert(out@ =~= serialize_spec(r@));
    }
    out
}

/// Parse a byte payload into a record: split on the delimiter, require
/// exactly three segments, and decode each segment as text.
pub fn parse_record(b: &Vec<u8>) -> (r: Result<Record, StoreError>)
    ensures
        record_result_view(r) == parse_bytes_spec(b@),
{
    let parts = split_bytes(b);
    if parts.len() != 3 {
        return Err(StoreError::RecordFormatError);
    }
    proof {
        assert(parts@[0]@ =~= split_fields(b@)[0]);
        assert(parts@[1]@ =~= split_fields(b@)[1]);
        assert(parts@[2]@ =~= split_fields(b@)[2]);
    }
    let product = match bytes_to_string(parts[0].as_slice()) {
        Some(s) => s,
        None => {
            return Err(StoreError::TextDecodingError);
        },
    };
    let name = match bytes_to_string(parts[1].as_slice()) {
        Some(s) => s,
        None => {
            return Err(StoreError::TextDecodingError);
        },
    };
    let secret = match bytes_to_string(parts[2].as_slice()) {
        Some(s) => s,
        None => {
            return Err(StoreError::TextDecodingError);
        },
    };
    let rec = Record { product, name, secret };
    proof {
        assert(rec@ =~= parse_bytes_spec(b@)->Ok_0);
    }
    Ok(rec)
}

} // verus!
