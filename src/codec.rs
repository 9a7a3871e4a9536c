//! Conversion between the dynamic JSON value model and SQL values.
use vstd::prelude::*;

use crate::error::Error;

verus! {

/// A JSON number as the JSON layer holds it: a non-negative integer, a
/// negative integer, or a finite binary64 float given by its IEEE-754 bits.
#[derive(Debug, Clone, Copy, PartialEq, Eq, Structural)]
pub enum JsonNumber {
    PosInt(u64),
    NegInt(i64),
    Float(u64),
}

/// A dynamic JSON value. Objects keep their members in order.
#[derive(Debug, PartialEq)]
pub enum JsonValue {
    Null,
    Bool(bool),
    Number(JsonNumber),
    String(String),
    Array(Vec<JsonValue>),
    Object(Vec<(String, JsonValue)>),
}

/// A value of the SQL engine. `Real` holds the IEEE-754 bits of a binary64 float.
#[derive(Debug, Clone, PartialEq)]
pub enum SqlValue {
    Null,
    Integer(i64),
    Real(u64),
    Text(String),
    Blob(Vec<u8>),
}

pub const I64_MAX_AS_U64: u64 = 0x7fff_ffff_ffff_ffff;

/// The binary64 bits of the nearest float (ties to even) to `n`, for `n >= 2^63`.
pub open spec fn large_u64_float_bits(n: u64) -> u64 {
    let q = n >> 11u64;
    let r = n & 0x7ffu64;
    let rounded = if r > 0x400u64 || (r == 0x400u64 && q & 1u64 == 1u64) {
        (q + 1) as u64
    } else {
        q
    };
    if rounded == 0x20_0000_0000_0000u64 {
        0x43f0_0000_0000_0000u64
    } else {
        0x43e0_0000_0000_0000u64 | (rounded & 0x000f_ffff_ffff_ffffu64)
    }
}

/// The SQL value bound for a JSON number: an integer when it fits in `i64`,
/// otherwise a float.
pub open spec fn number_to_sql(n: JsonNumber) -> SqlValue {
    match n {
        JsonNumber::PosInt(u) => if u <= I64_MAX_AS_U64 {
            SqlValue::Integer(u as i64)
        } else {
            SqlValue::Real(large_u64_float_bits(u))
        },
        JsonNumber::NegInt(i) => SqlValue::Integer(i),
        JsonNumber::Float(b) => SqlValue::Real(b),
    }
}

pub open spec fn is_number(v: JsonValue) -> bool {
    v is Number
}

pub open spec fn all_numbers(a: Seq<JsonValue>) -> bool {
    forall|i: int| 0 <= i < a.len() ==> is_number(#[trigger] a[i])
}

/// The low eight bits of the integer part of a binary64 float (truncated
/// toward zero), in two's complement for a negative value; 0 for a value
/// whose integer part is a multiple of 256, and for a NaN or an infinity.
pub open spec fn float_low_byte(b: u64) -> u8 {
    let e = (b >> 52u64) & 0x7ffu64;
    let sig = (b & 0x000f_ffff_ffff_ffffu64) | 0x0010_0000_0000_0000u64;
    let mag: u64 = if e < 1023u64 {
        0u64
    } else if e < 1075u64 {
        sig >> ((1075u64 - e) as u64)
    } else if e < 1083u64 {
        sig << ((e - 1075u64) as u64)
    } else {
        0u64
    };
    let low = mag & 0xffu64;
    if b >> 63u64 == 1u64 {
        ((256 - low) % 256) as u8
    } else {
        low as u8
    }
}

/// The byte that a number of an all-numeric array becomes: its integer
/// value, or a float's integer part, wrapped to its low eight bits.
pub open spec fn element_byte(v: JsonValue) -> u8 {
    match v {
        JsonValue::Number(JsonNumber::PosInt(u)) => u as u8,
        JsonValue::Number(JsonNumber::NegInt(i)) => i as u8,
        JsonValue::Number(JsonNumber::Float(b)) => float_low_byte(b),
        _ => 0u8,
    }
}

/// The bytes of an all-numeric array: one for each element, in order.
pub open spec fn blob_of(a: Seq<JsonValue>) -> Seq<u8> {
    a.map_values(|v: JsonValue| element_byte(v))
}

fn float_to_low_byte(b: u64) -> (r: u8)
    ensures
        r == float_low_byte(b),
{
    let e: u64 = (b >> 52u64) & 0x7ffu64;
    let sig: u64 = (b & 0x000f_ffff_ffff_ffffu64) | 0x0010_0000_0000_0000u64;
    let mag: u64 = if e < 1023u64 {
        0u64
    } else if e < 1075u64 {
        sig >> (1075u64 - e)
    } else if e < 1083u64 {
        sig << (e - 1075u64)
    } else {
        0u64
    };
    let low: u64 = mag & 0xffu64;
    assert(low <= 0xffu64) by (bit_vector)
        requires
            low == mag & 0xffu64,
    ;
    if b >> 63u64 == 1u64 {
        ((256u64 - low) % 256u64) as u8
    } else {
        low as u8
    }
}

fn number_byte(n: &JsonNumber) -> (r: u8)
    ensures
        r == element_byte(JsonValue::Number(*n)),
{
    match n {
        JsonNumber::PosInt(u) => *u as u8,
        JsonNumber::NegInt(i) => *i as u8,
        JsonNumber::Float(b) => float_to_low_byte(*b),
    }
}

/// `r` is the SQL value bound for the JSON value `v`; `text` is the canonical
/// JSON text of `v`, used for objects and for arrays that are not all numbers.
pub open spec fn encodes(v: JsonValue, text: Seq<char>, r: SqlValue) -> bool {
    match v {
        JsonValue::Null => r is Null,
        JsonValue::Bool(b) => r == SqlValue::Integer(if b { 1 } else { 0 }),
        JsonValue::Number(n) => r == number_to_sql(n),
        JsonValue::String(s) => r == SqlValue::Text(s),
        JsonValue::Array(a) => if all_numbers(a@) {
            r matches SqlValue::Blob(b) && b@ == blob_of(a@)
        } else {
            r matches SqlValue::Text(t) && t@ == text
        },
        JsonValue::Object(_) => r matches SqlValue::Text(t) && t@ == text,
    }
}

fn large_u64_to_float_bits(n: u64) -> (r: u64)
    requires
        n > I64_MAX_AS_U64,
    ensures
        r == large_u64_float_bits(n),
{
    let q: u64 = n >> 11u64;
    let rem: u64 = n & 0x7ffu64;
    assert(q < 0x20_0000_0000_0000u64) by (bit_vector)
        requires
            q == n >> 11u64,
    ;
    let rounded: u64 = if rem > 0x400u64 || (rem == 0x400u64 && q & 1u64 == 1u64) {
        q + 1
    } else {
        q
    };
    if rounded == 0x20_0000_0000_0000u64 {
        0x43f0_0000_0000_0000u64
    } else {
        0x43e0_0000_0000_0000u64 | (rounded & 0x000f_ffff_ffff_ffffu64)
    }
}

fn number_to_sql_value(n: JsonNumber) -> (r: SqlValue)
    ensures
        r == number_to_sql(n),
{
    match n {
        JsonNumber::PosInt(u) => if u <= I64_MAX_AS_U64 {
            SqlValue::Integer(u as i64)
        } else {
            SqlValue::Real(large_u64_to_float_bits(u))
        },
        JsonNumber::NegInt(i) => SqlValue::Integer(i),
        JsonNumber::Float(b) => SqlValue::Real(b),
    }
}

fn array_to_sql(a: &Vec<JsonValue>, text: String) -> (r: SqlValue)
    ensures
        all_numbers(a@) ==> (r matches SqlValue::Blob(b) && b@ == blob_of(a@)),
        !all_numbers(a@) ==> (r matches SqlValue::Text(t) && t@ == text@),
{
    let mut i: usize = 0;
    while i < a.len()
        invariant
            i <= a.len(),
            forall|j: int| 0 <= j < i ==> is_number(#[trigger] a@[j]),
        decreases a.len() - i,
    {
        if !matches!(a[i], JsonValue::Number(_)) {
            return SqlValue::Text(text);
        }
        i = i + 1;
    }
    let mut bytes: Vec<u8> = Vec::new();
    let mut k: usize = 0;
    while k < a.len()
        invariant
            k <= a.len(),
            all_numbers(a@),
            bytes@ == blob_of(a@.subrange(0, k as int)),
        decreases a.len() - k,
    {
        assert(is_number(a@[k as int]));
        match &a[k] {
            JsonValue::Number(n) => bytes.push(number_byte(n)),
            _ => {},
        }
        assert(bytes@ =~= blob_of(a@.subrange(0, k + 1)));
        k = k + 1;
    }
    assert(a@.subrange(0, a.len() as int) =~= a@);
    SqlValue::Blob(bytes)
}

/// Converts one JSON value into the SQL value bound in its place. `text` is the
/// canonical JSON text of `v`; it is stored for objects and for arrays that are
/// not made of numbers alone.
pub fn json_to_sql(v: JsonValue, text: String) -> (r: SqlValue)
    ensures
        encodes(v, text@, r),
{
    match v {
        JsonValue::Null => SqlValue::Null,
        JsonValue::Bool(b) => SqlValue::Integer(if b { 1 } else { 0 }),
        JsonValue::Number(n) => number_to_sql_value(n),
        JsonValue::String(s) => SqlValue::Text(s),
        JsonValue::Array(a) => array_to_sql(&a, text),
        JsonValue::Object(_) => SqlValue::Text(text),
    }
}

/// Converts positional JSON parameters into SQL values; `texts[i]` is the
/// canonical JSON text of `values[i]`.
pub fn json_to_params(values: Vec<JsonValue>, texts: Vec<String>) -> (r: Vec<SqlValue>)
    requires
        texts.len() == values.len(),
    ensures
        r.len() == values.len(),
        forall|i: int| 0 <= i < r.len() ==> encodes(#[trigger] values@[i], texts@[i]@, r@[i]),
{
    let ghost vs = values@;
    let ghost ts = texts@;
    let mut values = values;
    let mut texts = texts;
    let mut out: Vec<SqlValue> = Vec::new();
    while values.len() > 0
        invariant
            texts.len() == values.len(),
            out.len() + values.len() == vs.len(),
            values@ == vs.subrange(out.len() as int, vs.len() as int),
            texts@ == ts.subrange(out.len() as int, ts.len() as int),
            ts.len() == vs.len(),
            forall|i: int| 0 <= i < out.len() ==> encodes(#[trigger] vs[i], ts[i]@, out@[i]),
        decreases values.len(),
    {
        let v = values.remove(0);
        let t = texts.remove(0);
        let e = json_to_sql(v, t);
        out.push(e);
    }
    out
}

/// The bits of a finite binary64 float: the exponent field is not all ones.
pub open spec fn is_finite_bits(b: u64) -> bool {
    (b >> 52u64) & 0x7ffu64 != 0x7ffu64
}

/// The JSON number for an SQL integer.
pub open spec fn integer_to_json(i: i64) -> JsonNumber {
    if i < 0 {
        JsonNumber::NegInt(i)
    } else {
        JsonNumber::PosInt(i as u64)
    }
}

/// `a` is the JSON array of the byte values of `b`, in order.
pub open spec fn byte_array(b: Seq<u8>, a: Seq<JsonValue>) -> bool {
    &&& a.len() == b.len()
    &&& forall|i: int| 0 <= i < a.len() ==> #[trigger] a[i] == JsonValue::Number(
        JsonNumber::PosInt(b[i] as u64),
    )
}

/// An SQL value that has a JSON form: anything but a NaN or infinite float.
pub open spec fn decodable(v: SqlValue) -> bool {
    !(v matches SqlValue::Real(b) && !is_finite_bits(b))
}

/// `r` is the JSON form of the SQL value `v`, or the error for one without.
pub open spec fn decodes(v: SqlValue, r: Result<JsonValue, Error>) -> bool {
    if !decodable(v) {
        r matches Err(Error::UnsupportedDatatype(_))
    } else {
        match v {
            SqlValue::Null => r matches Ok(JsonValue::Null),
            SqlValue::Integer(i) => r == Ok::<JsonValue, Error>(
                JsonValue::Number(integer_to_json(i)),
            ),
            SqlValue::Real(b) => r == Ok::<JsonValue, Error>(
                JsonValue::Number(JsonNumber::Float(b)),
            ),
            SqlValue::Text(s) => r matches Ok(JsonValue::String(t)) && t == s,
            SqlValue::Blob(b) => r matches Ok(JsonValue::Array(a)) && byte_array(b@, a@),
        }
    }
}

fn float_to_json(b: u64) -> (r: Result<JsonValue, Error>)
    ensures
        decodes(SqlValue::Real(b), r),
{
    if (b >> 52u64) & 0x7ffu64 != 0x7ffu64 {
        Ok(JsonValue::Number(JsonNumber::Float(b)))
    } else if b & 0x000f_ffff_ffff_ffffu64 != 0 {
        Err(Error::UnsupportedDatatype("Invalid float value: NaN".to_string()))
    } else if b >> 63u64 == 1 {
        Err(Error::UnsupportedDatatype("Invalid float value: -inf".to_string()))
    } else {
        Err(Error::UnsupportedDatatype("Invalid float value: inf".to_string()))
    }
}

/// Converts one SQL value into its JSON form: a blob becomes the array of its
/// byte values, and a NaN or infinite float is refused.
pub fn value_to_json(v: SqlValue) -> (r: Result<JsonValue, Error>)
    ensures
        decodes(v, r),
{
    match v {
        SqlValue::Null => Ok(JsonValue::Null),
        SqlValue::Integer(i) => if i < 0 {
            Ok(JsonValue::Number(JsonNumber::NegInt(i)))
        } else {
            Ok(JsonValue::Number(JsonNumber::PosInt(i as u64)))
        },
        SqlValue::Real(b) => float_to_json(b),
        SqlValue::Text(s) => Ok(JsonValue::String(s)),
        SqlValue::Blob(bytes) => {
            let mut arr: Vec<JsonValue> = Vec::new();
            let mut i: usize = 0;
            while i < bytes.len()
                invariant
                    i <= bytes.len(),
                    arr.len() == i,
                    forall|j: int| 0 <= j < i ==> #[trigger] arr@[j] == JsonValue::Number(
                        JsonNumber::PosInt(bytes@[j] as u64),
                    ),
                decreases bytes.len() - i,
            {
                arr.push(JsonValue::Number(JsonNumber::PosInt(bytes[i] as u64)));
                i = i + 1;
            }
            Ok(JsonValue::Array(arr))
        },
    }
}

/// The positions of the columns that have a name, in order.
pub open spec fn named_columns(names: Seq<Option<String>>) -> Seq<int>
    decreases names.len(),
{
    if names.len() == 0 {
        Seq::empty()
    } else {
        let prev = named_columns(names.drop_last());
        if names.last() is Some {
            prev.push(names.len() - 1)
        } else {
            prev
        }
    }
}

proof fn lemma_named_columns_bounds(names: Seq<Option<String>>)
    ensures
        forall|j: int|
            0 <= j < named_columns(names).len() ==> 0 <= #[trigger] named_columns(names)[j]
                < names.len() && names[named_columns(names)[j]] is Some,
    decreases names.len(),
{
    if names.len() > 0 {
        lemma_named_columns_bounds(names.drop_last());
    }
}

/// Every named column holds a value that has a JSON form.
pub open spec fn row_decodable(names: Seq<Option<String>>, values: Seq<SqlValue>) -> bool {
    forall|i: int| 0 <= i < names.len() && #[trigger] names[i] is Some ==> decodable(values[i])
}

/// `row` is the decoded row for the column `names` and `values`: one entry for
/// each named column, in column order, duplicate names kept.
pub open spec fn decoded_row(
    names: Seq<Option<String>>,
    values: Seq<SqlValue>,
    row: Seq<(String, JsonValue)>,
) -> bool {
    let idx = named_columns(names);
    &&& row.len() == idx.len()
    &&& forall|j: int|
        0 <= j < row.len() ==> {
            &&& Some(#[trigger] row[j].0) == names[idx[j]]
            &&& decodes(values[idx[j]], Ok(row[j].1))
        }
}

/// Decodes one result row: each column that has a name gives an entry of its
/// name and its JSON value, in column order. Fails when the value of a named
/// column has no JSON form.
pub fn decode_row(names: Vec<Option<String>>, values: Vec<SqlValue>) -> (r: Result<
    Vec<(String, JsonValue)>,
    Error,
>)
    requires
        names.len() == values.len(),
    ensures
        r is Ok <==> row_decodable(names@, values@),
        r matches Ok(row) ==> decoded_row(names@, values@, row@),
        r matches Err(e) ==> e is UnsupportedDatatype,
{
    let ghost ns = names@;
    let ghost vs = values@;
    let n = names.len();
    let mut rest_names = names;
    let mut rest_values = values;
    let mut out: Vec<(String, JsonValue)> = Vec::new();
    let mut i: usize = 0;
    #[verifier::loop_isolation(false)]
    while i < n
        invariant
            n == ns.len(),
            ns.len() == vs.len(),
            i <= n,
            rest_names@ == ns.subrange(i as int, n as int),
            rest_values@ == vs.subrange(i as int, n as int),
            forall|k: int| 0 <= k < i && #[trigger] ns[k] is Some ==> decodable(vs[k]),
            decoded_row(ns.subrange(0, i as int), vs, out@),
        decreases n - i,
    {
        let ghost prefix = ns.subrange(0, i as int);
        let ghost next = ns.subrange(0, i + 1);
        proof {
            assert(next.drop_last() =~= prefix);
            lemma_named_columns_bounds(prefix);
        }
        let name = rest_names.remove(0);
        let value = rest_values.remove(0);
        assert(name == ns[i as int] && value == vs[i as int]);
        match name {
            Some(col) => {
                let decoded = value_to_json(value);
                match decoded {
                    Ok(j) => {
                        out.push((col, j));
                    },
                    Err(e) => {
                        assert(ns[i as int] is Some && !decodable(vs[i as int]));
                        assert(!row_decodable(ns, vs));
                        return Err(e);
                    },
                }
            },
            None => {},
        }
        proof {
            let idx = named_columns(next);
            assert(next.last() == ns[i as int]);
            assert(idx == if ns[i as int] is Some {
                named_columns(prefix).push(i as int)
            } else {
                named_columns(prefix)
            });
            assert forall|j: int| 0 <= j < out@.len() implies {
                &&& Some(#[trigger] out@[j].0) == next[idx[j]]
                &&& decodes(vs[idx[j]], Ok(out@[j].1))
            } by {
                if j < named_columns(prefix).len() {
                    assert(idx[j] == named_columns(prefix)[j]);
                    assert(prefix[idx[j]] == next[idx[j]]);
                }
            }
            assert(out@.len() == idx.len());
            assert(decoded_row(next, vs, out@));
        }
        i = i + 1;
    }
    assert(ns.subrange(0, n as int) =~= ns);
    Ok(out)
}

proof fn lemma_blob_of_byte_array(b: Seq<u8>, a: Seq<JsonValue>)
    requires
        byte_array(b, a),
    ensures
        all_numbers(a),
        blob_of(a) == b,
{
    assert forall|i: int| 0 <= i < a.len() implies is_number(#[trigger] a[i]) by {
        assert(a[i] == JsonValue::Number(JsonNumber::PosInt(b[i] as u64)));
    }
    assert forall|i: int| 0 <= i < a.len() implies #[trigger] blob_of(a)[i] == b[i] by {
        assert(a[i] == JsonValue::Number(JsonNumber::PosInt(b[i] as u64)));
    }
    assert(blob_of(a) =~= b);
}

/// An array of byte values binds as the blob of those bytes, and that blob
/// reads back as an array equal to the one bound.
pub proof fn lemma_byte_array_round_trip(
    b: Seq<u8>,
    v: JsonValue,
    text: Seq<char>,
    stored: SqlValue,
    back: Result<JsonValue, Error>,
)
    requires
        v matches JsonValue::Array(a) && byte_array(b, a@),
        encodes(v, text, stored),
        decodes(stored, back),
    ensures
        stored matches SqlValue::Blob(s) && s@ == b,
        back matches Ok(JsonValue::Array(r)) && v matches JsonValue::Array(a) && r@ == a@,
{
    if let JsonValue::Array(a) = v {
        lemma_blob_of_byte_array(b, a@);
        if let Ok(JsonValue::Array(r)) = back {
            assert(r@ =~= a@);
        }
    }
}

/// An array that holds anything but numbers binds as its JSON text, and reads
/// back as that text in a JSON string, not as an array.
pub proof fn lemma_mixed_array_reads_back_as_text(
    v: JsonValue,
    text: Seq<char>,
    stored: SqlValue,
    back: Result<JsonValue, Error>,
)
    requires
        v matches JsonValue::Array(a) && !all_numbers(a@),
        encodes(v, text, stored),
        decodes(stored, back),
    ensures
        back matches Ok(JsonValue::String(s)) && s@ == text,
{
}

} // verus!
