//! Settings commands for the phone. The UI queues a command as a query
//! string (`key=value&key=value`); before it goes out over the control
//! WebSocket it becomes a JSON object of typed fields. This module reads the
//! query string into those fields; rendering them as JSON is left to the
//! caller, which holds a JSON library.

use vstd::prelude::*;
use vstd::string::StringSliceAdditionalSpecFns;
use crate::bytes::copy_range;
use crate::text::{bytes_equal, find_byte, first_match, parse_i64_at, parse_i64_spec, split_by};

verus! {

/// The typed value of a command field.
pub enum FieldValue {
    /// A text setting.
    Text(Seq<u8>),
    /// An on/off setting.
    Flag(bool),
    /// An integer setting.
    Int(int),
    /// A decimal setting, in the text it was given as; the caller reads it
    /// as a floating-point number and drops the field when that fails or
    /// gives no finite number.
    Decimal(Seq<u8>),
}

/// The typed value of a command field.
#[derive(Clone, Debug, PartialEq, Eq)]
pub enum UpdateValue {
    Text(Vec<u8>),
    Flag(bool),
    Int(i64),
    Decimal(Vec<u8>),
}

/// A command field: its key and typed value.
#[derive(Clone, Debug, PartialEq, Eq)]
pub struct UpdateField {
    pub key: Vec<u8>,
    pub value: UpdateValue,
}

impl View for UpdateField {
    type V = (Seq<u8>, FieldValue);

    open spec fn view(&self) -> (Seq<u8>, FieldValue) {
        (self.key@, match self.value {
            UpdateValue::Text(t) => FieldValue::Text(t@),
            UpdateValue::Flag(b) => FieldValue::Flag(b),
            UpdateValue::Int(i) => FieldValue::Int(i as int),
            UpdateValue::Decimal(t) => FieldValue::Decimal(t@),
        })
    }
}

/// Keys whose value is taken as text.
pub open spec fn is_text_key(key: Seq<u8>) -> bool {
    key == "camera".spec_bytes() || key == "resolution_str".spec_bytes() || key
        == "stream_protocol".spec_bytes() || key == "rotation".spec_bytes()
}

/// Keys whose value is read as an integer.
pub open spec fn is_int_key(key: Seq<u8>) -> bool {
    key == "exposure_index".spec_bytes() || key == "focus_mode".spec_bytes() || key
        == "stream_quality".spec_bytes()
}

/// Keys whose value is read as a decimal number.
pub open spec fn is_decimal_key(key: Seq<u8>) -> bool {
    key == "zoom".spec_bytes() || key == "focus_distance".spec_bytes()
}

/// The field one `key=value` piece gives: split at its first `=`; text
/// keys take the value as is, `flash` takes `true` or `false`, integer keys
/// a value that reads as an `i64`, decimal keys their value text. A piece
/// without `=`, with an unknown key, or whose value does not read, gives
/// none.
pub open spec fn query_field(part: Seq<u8>) -> Option<(Seq<u8>, FieldValue)> {
    match first_match(part, seq![61u8]) {
        None => None,
        Some(k) => {
            let key = part.take(k);
            let v = part.skip(k + 1);
            if is_text_key(key) {
                Some((key, FieldValue::Text(v)))
            } else if key == "flash".spec_bytes() {
                if v == "true".spec_bytes() {
                    Some((key, FieldValue::Flag(true)))
                } else if v == "false".spec_bytes() {
                    Some((key, FieldValue::Flag(false)))
                } else {
                    None
                }
            } else if is_decimal_key(key) {
                Some((key, FieldValue::Decimal(v)))
            } else if is_int_key(key) {
                match parse_i64_spec(v) {
                    Some(i) => Some((key, FieldValue::Int(i))),
                    None => None,
                }
            } else {
                None
            }
        },
    }
}

/// The fields of the pieces `parts`, in order.
pub open spec fn query_fields_of(parts: Seq<Seq<u8>>) -> Seq<(Seq<u8>, FieldValue)>
    decreases parts.len(),
{
    if parts.len() == 0 {
        Seq::empty()
    } else {
        (match query_field(parts[0]) {
            Some(f) => seq![f],
            None => Seq::empty(),
        }) + query_fields_of(parts.skip(1))
    }
}

/// The fields of a query string: those of its `&`-separated pieces.
pub open spec fn query_fields(cmd: Seq<u8>) -> Seq<(Seq<u8>, FieldValue)> {
    query_fields_of(split_by(cmd, 38))
}

/// Whether `s[a..b]` equals `lit`.
fn range_is(s: &[u8], a: usize, b: usize, lit: &str) -> (r: bool)
    requires
        a <= b <= s@.len(),
    ensures
        r == (s@.subrange(a as int, b as int) == lit.spec_bytes()),
{
    bytes_equal(&s[a..b], lit.as_bytes())
}

/// The field of the piece `s[a..b]`.
fn field_of_piece(s: &[u8], a: usize, b: usize) -> (r: Option<UpdateField>)
    requires
        a <= b <= s@.len(),
    ensures
        match r {
            Some(f) => query_field(s@.subrange(a as int, b as int)) == Some(f@),
            None => query_field(s@.subrange(a as int, b as int)) is None,
        },
{
    let ghost part = s@.subrange(a as int, b as int);
    let eq = match find_byte(s, a, b, 61) {
        Some(i) => i,
        None => {
            return None;
        },
    };
    assert(part.take(eq - a) =~= s@.subrange(a as int, eq as int));
    assert(part.skip(eq - a + 1) =~= s@.subrange(eq + 1, b as int));
    let v0 = eq + 1;
    if range_is(s, a, eq, "camera") || range_is(s, a, eq, "resolution_str") || range_is(
        s,
        a,
        eq,
        "stream_protocol",
    ) || range_is(s, a, eq, "rotation") {
        return Some(
            UpdateField { key: copy_range(s, a, eq), value: UpdateValue::Text(copy_range(s, v0, b)) },
        );
    }
    if range_is(s, a, eq, "flash") {
        if range_is(s, v0, b, "true") {
            return Some(UpdateField { key: copy_range(s, a, eq), value: UpdateValue::Flag(true) });
        } else if range_is(s, v0, b, "false") {
            return Some(UpdateField { key: copy_range(s, a, eq), value: UpdateValue::Flag(false) });
        } else {
            return None;
        }
    }
    if range_is(s, a, eq, "zoom") || range_is(s, a, eq, "focus_distance") {
        return Some(
            UpdateField {
                key: copy_range(s, a, eq),
                value: UpdateValue::Decimal(copy_range(s, v0, b)),
            },
        );
    }
    if range_is(s, a, eq, "exposure_index") || range_is(s, a, eq, "focus_mode") || range_is(
        s,
        a,
        eq,
        "stream_quality",
    ) {
        return match parse_i64_at(s, v0, b) {
            Some(i) => Some(UpdateField { key: copy_range(s, a, eq), value: UpdateValue::Int(i) }),
            None => None,
        };
    }
    None
}

/// Reads a queued command query string into its typed fields.
pub fn query_to_update_fields(cmd: &[u8]) -> (r: Vec<UpdateField>)
    ensures
        r@.map_values(|f: UpdateField| f@) == query_fields(cmd@),
{
    let mut out: Vec<UpdateField> = Vec::new();
    let ghost all = query_fields(cmd@);
    let mut ps: usize = 0;
    assert(cmd@.subrange(0, cmd@.len() as int) =~= cmd@);
    assert(out@.map_values(|f: UpdateField| f@) + query_fields_of(
        split_by(cmd@.subrange(0, cmd@.len() as int), 38),
    ) =~= all);
    loop
        invariant_except_break
            out@.map_values(|f: UpdateField| f@) + query_fields_of(
                split_by(cmd@.subrange(ps as int, cmd@.len() as int), 38),
            ) == all,
        invariant
            ps <= cmd@.len(),
            all == query_fields(cmd@),
        ensures
            out@.map_values(|f: UpdateField| f@) == all,
        decreases cmd@.len() - ps,
    {
        let ghost rest = cmd@.subrange(ps as int, cmd@.len() as int);
        let found = find_byte(cmd, ps, cmd.len(), 38);
        let pe = match found {
            Some(i) => i,
            None => cmd.len(),
        };
        let ghost piece = cmd@.subrange(ps as int, pe as int);
        let ghost before = out@.map_values(|f: UpdateField| f@);
        let ghost parts = split_by(rest, 38);
        let ghost tail: Seq<Seq<u8>> = match found {
            Some(i) => split_by(cmd@.subrange(i + 1, cmd@.len() as int), 38),
            None => Seq::empty(),
        };
        proof {
            match found {
                Some(i) => {
                    assert(rest.take(i - ps) =~= piece);
                    assert(rest.skip(i - ps + 1) =~= cmd@.subrange(i + 1, cmd@.len() as int));
                },
                None => {
                    assert(piece =~= rest);
                },
            }
            assert(parts =~= seq![piece] + tail);
            assert(parts[0] == piece);
            assert(parts.skip(1) =~= tail);
        }
        match field_of_piece(cmd, ps, pe) {
            Some(f) => {
                out.push(f);
                assert(out@.map_values(|f: UpdateField| f@) =~= before.push(query_field(piece)->0));
            },
            None => {},
        }
        proof {
            assert(query_fields_of(tail) =~= match found {
                Some(i) => query_fields_of(split_by(cmd@.subrange(i + 1, cmd@.len() as int), 38)),
                None => Seq::empty(),
            });
            assert(before + query_fields_of(parts) =~= out@.map_values(|f: UpdateField| f@)
                + query_fields_of(tail));
        }
        match found {
            Some(i) => {
                ps = i + 1;
            },
            None => {
                assert(out@.map_values(|f: UpdateField| f@) + Seq::empty() =~= out@.map_values(
                    |f: UpdateField| f@,
                ));
                break;
            },
        }
    }
    out
}

} // verus!
