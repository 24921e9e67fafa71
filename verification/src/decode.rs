use vstd::prelude::*;

use crate::float_text::{float_token, is_float_token};
use crate::num::{parse_u32, parse_u32_spec, parse_u8, parse_u8_spec};
use crate::record::{DecodeErrorView, LogReadError, ReadConfidence, SensedData};
use crate::text::{split, split_char, trim, trim_spec};

verus! {

// One log line is a sequence of tab-separated tokens, consumed strictly in
// this order:
//
//   0 index        1 uptime      2 micros (ignored)
//   3 temperature  4 pressure
//   5 6 7 acceleration            8 acceleration confidence (byte 0-3)
//   9 10 11 gyroscope (ignored)  12 gyroscope confidence (ignored, 0-3)
//  13 gps time    14 15 gps position (lat, lon)  16 gps altitude
//
// Ignored tokens are still validated; extra and missing tokens are errors.

/// How many tokens the schema requires.
pub const SCHEMA_FIELDS: usize = 17;

/// The slots parsed as unsigned 32-bit integers.
pub open spec fn u32_slot(i: int) -> bool {
    i == 0 || i == 1 || i == 2 || i == 13
}

/// The slots parsed as confidence bytes.
pub open spec fn conf_slot(i: int) -> bool {
    i == 8 || i == 12
}

/// The slots parsed as floating-point tokens.
pub open spec fn float_slot(i: int) -> bool {
    0 <= i < SCHEMA_FIELDS && !u32_slot(i) && !conf_slot(i)
}

/// The token texts of a line: the trimmed line split on tabs.
pub open spec fn line_tokens(line: Seq<char>) -> Seq<Seq<char>> {
    split_char(trim_spec(line), '\t')
}

/// Slot `i` of the schema is present and holds a valid token.
pub open spec fn slot_ok(toks: Seq<Seq<char>>, i: int) -> bool {
    0 <= i < toks.len() && {
        if u32_slot(i) {
            parse_u32_spec(toks[i]) is Some
        } else if conf_slot(i) {
            parse_u8_spec(toks[i]) matches Some(v) && v <= 3
        } else {
            is_float_token(toks[i])
        }
    }
}

/// The error slot `i` yields when it is not ok: a missing token, a token
/// that does not parse, or a confidence byte outside the four levels.
pub open spec fn slot_err(toks: Seq<Seq<char>>, i: int) -> DecodeErrorView {
    if i >= toks.len() {
        DecodeErrorView::MissingField
    } else if conf_slot(i) && parse_u8_spec(toks[i]) is Some {
        DecodeErrorView::InvalidConfidence
    } else {
        DecodeErrorView::InvalidNumber(toks[i])
    }
}

/// The first schema slot that fails on these tokens, scanning from slot `i`;
/// `SCHEMA_FIELDS` when every slot is ok.
pub open spec fn first_bad_from(toks: Seq<Seq<char>>, i: int) -> int
    decreases SCHEMA_FIELDS - i,
{
    if i < 0 || i >= SCHEMA_FIELDS {
        SCHEMA_FIELDS as int
    } else if !slot_ok(toks, i) {
        i
    } else {
        first_bad_from(toks, i + 1)
    }
}

/// `first_bad_from` is determined by its characterization.
proof fn lemma_first_bad_is(toks: Seq<Seq<char>>, i: int)
    requires
        0 <= i <= SCHEMA_FIELDS,
        forall|j: int| 0 <= j < i ==> slot_ok(toks, j),
        i < SCHEMA_FIELDS ==> !slot_ok(toks, i),
    ensures
        first_bad_from(toks, 0) == i,
{
    lemma_first_bad_skip(toks, 0, i);
}

proof fn lemma_first_bad_skip(toks: Seq<Seq<char>>, k: int, i: int)
    requires
        0 <= k <= i <= SCHEMA_FIELDS,
        forall|j: int| k <= j < i ==> slot_ok(toks, j),
        i < SCHEMA_FIELDS ==> !slot_ok(toks, i),
    ensures
        first_bad_from(toks, k) == i,
    decreases i - k,
{
    if k < i {
        lemma_first_bad_skip(toks, k + 1, i);
    }
}

/// Where every slot is valid, the scan finds no bad slot.
pub proof fn lemma_all_slots_ok(toks: Seq<Seq<char>>)
    requires
        forall|j: int| 0 <= j < SCHEMA_FIELDS ==> slot_ok(toks, j),
    ensures
        first_bad_from(toks, 0) == SCHEMA_FIELDS,
{
    lemma_first_bad_is(toks, SCHEMA_FIELDS as int);
}

/// The line decodes: every schema slot is present and valid, and no tokens
/// follow the last slot.
pub open spec fn decodes(line: Seq<char>) -> bool {
    first_bad_from(line_tokens(line), 0) == SCHEMA_FIELDS && line_tokens(line).len()
        == SCHEMA_FIELDS
}

/// The error the line decodes to, where it does not decode: the first failing
/// slot's error, or the extra tokens where every slot was valid.
pub open spec fn decode_err(line: Seq<char>) -> DecodeErrorView {
    let toks = line_tokens(line);
    let i = first_bad_from(toks, 0);
    if i == SCHEMA_FIELDS {
        DecodeErrorView::ExtraField
    } else {
        slot_err(toks, i)
    }
}

/// The record these tokens decode to, field by field.
pub open spec fn record_of(toks: Seq<Seq<char>>, rec: SensedData) -> bool {
    &&& parse_u32_spec(toks[0]) == Some(rec.index)
    &&& parse_u32_spec(toks[1]) == Some(rec.uptime)
    &&& rec.temperature@ == toks[3]
    &&& rec.pressure@ == toks[4]
    &&& rec.acceleration[0]@ == toks[5]
    &&& rec.acceleration[1]@ == toks[6]
    &&& rec.acceleration[2]@ == toks[7]
    &&& (parse_u8_spec(toks[8]) matches Some(v) && ReadConfidence::spec_try_from(v) == Ok::<
        ReadConfidence,
        (),
    >(rec.acceleration_confidence))
    &&& parse_u32_spec(toks[13]) == Some(rec.gps_time)
    &&& rec.gps_position[0]@ == toks[14]
    &&& rec.gps_position[1]@ == toks[15]
    &&& rec.gps_altitude@ == toks[16]
}

/// Decoding has no hidden state: any two records decoded from the same
/// tokens agree on every field. Together with the contract of
/// [`parse_log_line`], whose result is a function of the line text alone,
/// decoding the same line twice yields identical results.
pub proof fn lemma_decode_deterministic(toks: Seq<Seq<char>>, a: SensedData, b: SensedData)
    requires
        record_of(toks, a),
        record_of(toks, b),
    ensures
        a.index == b.index,
        a.uptime == b.uptime,
        a.temperature@ == b.temperature@,
        a.pressure@ == b.pressure@,
        a.acceleration[0]@ == b.acceleration[0]@,
        a.acceleration[1]@ == b.acceleration[1]@,
        a.acceleration[2]@ == b.acceleration[2]@,
        a.acceleration_confidence == b.acceleration_confidence,
        a.gps_time == b.gps_time,
        a.gps_position[0]@ == b.gps_position[0]@,
        a.gps_position[1]@ == b.gps_position[1]@,
        a.gps_altitude@ == b.gps_altitude@,
{
}

/// The token views of the split line.
pub open spec fn token_views(toks: Seq<String>) -> Seq<Seq<char>> {
    Seq::new(toks.len(), |i: int| toks[i]@)
}

/// Fetch and parse the unsigned 32-bit token in slot `i`.
fn take_u32(toks: &Vec<String>, i: usize) -> (r: Result<u32, LogReadError>)
    requires
        u32_slot(i as int),
    ensures
        match r {
            Ok(v) => slot_ok(token_views(toks@), i as int) && parse_u32_spec(toks@[i as int]@)
                == Some(v),
            Err(e) => !slot_ok(token_views(toks@), i as int) && e@ == slot_err(
                token_views(toks@),
                i as int,
            ),
        },
{
    if i < toks.len() {
        match parse_u32(toks[i].as_str()) {
            Some(v) => Ok(v),
            None => Err(LogReadError::InvalidNumber { field_text: toks[i].clone() }),
        }
    } else {
        Err(LogReadError::MissingField)
    }
}

/// Fetch and validate the floating-point token in slot `i`.
fn take_float(toks: &Vec<String>, i: usize) -> (r: Result<String, LogReadError>)
    requires
        float_slot(i as int),
    ensures
        match r {
            Ok(t) => slot_ok(token_views(toks@), i as int) && t@ == toks@[i as int]@
                && is_float_token(t@),
            Err(e) => !slot_ok(token_views(toks@), i as int) && e@ == slot_err(
                token_views(toks@),
                i as int,
            ),
        },
{
    if i < toks.len() {
        let t = toks[i].clone();
        if float_token(t.as_str()) {
            Ok(t)
        } else {
            Err(LogReadError::InvalidNumber { field_text: t })
        }
    } else {
        Err(LogReadError::MissingField)
    }
}

/// Fetch and validate the confidence byte in slot `i`.
fn take_confidence(toks: &Vec<String>, i: usize) -> (r: Result<ReadConfidence, LogReadError>)
    requires
        conf_slot(i as int),
    ensures
        match r {
            Ok(c) => slot_ok(token_views(toks@), i as int) && (parse_u8_spec(toks@[i as int]@)
                matches Some(v) && ReadConfidence::spec_try_from(v) == Ok::<ReadConfidence, ()>(c)),
            Err(e) => !slot_ok(token_views(toks@), i as int) && e@ == slot_err(
                token_views(toks@),
                i as int,
            ),
        },
{
    if i < toks.len() {
        match parse_u8(toks[i].as_str()) {
            Some(v) => match ReadConfidence::try_from(v) {
                Ok(c) => Ok(c),
                Err(_) => Err(LogReadError::InvalidConfidence),
            },
            None => Err(LogReadError::InvalidNumber { field_text: toks[i].clone() }),
        }
    } else {
        Err(LogReadError::MissingField)
    }
}

/// Decode one line of log text into a sensor record.
///
/// The line is trimmed, split on tabs, and its tokens are consumed strictly
/// in schema order; the result is exactly determined by the text. A decode
/// error reports the first slot that fails.
pub fn parse_log_line(text: &str) -> (r: Result<SensedData, LogReadError>)
    ensures
        match r {
            Ok(rec) => decodes(text@) && record_of(line_tokens(text@), rec) && rec.wf(),
            Err(e) => !decodes(text@) && e@ == decode_err(text@),
        },
{
    let trimmed = trim(text);
    let toks = split(trimmed, '\t');
    let ghost gt = line_tokens(text@);
    proof {
        assert(token_views(toks@) =~~= gt);
    }
    decode_tokens(&toks, Ghost(gt))
}

/// The slot-by-slot body of [`parse_log_line`], over the split tokens.
fn decode_tokens(toks: &Vec<String>, Ghost(gt): Ghost<Seq<Seq<char>>>) -> (r: Result<
    SensedData,
    LogReadError,
>)
    requires
        token_views(toks@) == gt,
    ensures
        match r {
            Ok(rec) => first_bad_from(gt, 0) == SCHEMA_FIELDS && gt.len() == SCHEMA_FIELDS
                && record_of(gt, rec) && rec.wf(),
            Err(e) => (first_bad_from(gt, 0) != SCHEMA_FIELDS || gt.len() != SCHEMA_FIELDS) && e@
                == (if first_bad_from(gt, 0) == SCHEMA_FIELDS {
                DecodeErrorView::ExtraField
            } else {
                slot_err(gt, first_bad_from(gt, 0))
            }),
        },
{
    let index = match take_u32(toks, 0) {
        Ok(v) => v,
        Err(e) => {
            proof {
                lemma_first_bad_is(gt, 0);
            }
            return Err(e);
        },
    };
    let uptime = match take_u32(toks, 1) {
        Ok(v) => v,
        Err(e) => {
            proof {
                lemma_first_bad_is(gt, 1);
            }
            return Err(e);
        },
    };
    let _micros = match take_u32(toks, 2) {
        Ok(v) => v,
        Err(e) => {
            proof {
                lemma_first_bad_is(gt, 2);
            }
            return Err(e);
        },
    };
    let temperature = match take_float(toks, 3) {
        Ok(t) => t,
        Err(e) => {
            proof {
                lemma_first_bad_is(gt, 3);
            }
            return Err(e);
        },
    };
    let pressure = match take_float(toks, 4) {
        Ok(t) => t,
        Err(e) => {
            proof {
                lemma_first_bad_is(gt, 4);
            }
            return Err(e);
        },
    };
    let accel_x = match take_float(toks, 5) {
        Ok(t) => t,
        Err(e) => {
            proof {
                lemma_first_bad_is(gt, 5);
            }
            return Err(e);
        },
    };
    let accel_y = match take_float(toks, 6) {
        Ok(t) => t,
        Err(e) => {
            proof {
                lemma_first_bad_is(gt, 6);
            }
            return Err(e);
        },
    };
    let accel_z = match take_float(toks, 7) {
        Ok(t) => t,
        Err(e) => {
            proof {
                lemma_first_bad_is(gt, 7);
            }
            return Err(e);
        },
    };
    let acceleration_confidence = match take_confidence(toks, 8) {
        Ok(c) => c,
        Err(e) => {
            proof {
                lemma_first_bad_is(gt, 8);
            }
            return Err(e);
        },
    };
    let _gyro_x = match take_float(toks, 9) {
        Ok(t) => t,
        Err(e) => {
            proof {
                lemma_first_bad_is(gt, 9);
            }
            return Err(e);
        },
    };
    let _gyro_y = match take_float(toks, 10) {
        Ok(t) => t,
        Err(e) => {
            proof {
                lemma_first_bad_is(gt, 10);
            }
            return Err(e);
        },
    };
    let _gyro_z = match take_float(toks, 11) {
        Ok(t) => t,
        Err(e) => {
            proof {
                lemma_first_bad_is(gt, 11);
            }
            return Err(e);
        },
    };
    let _gyro_confidence = match take_confidence(toks, 12) {
        Ok(c) => c,
        Err(e) => {
            proof {
                lemma_first_bad_is(gt, 12);
            }
            return Err(e);
        },
    };
    let gps_time = match take_u32(toks, 13) {
        Ok(v) => v,
        Err(e) => {
            proof {
                lemma_first_bad_is(gt, 13);
            }
            return Err(e);
        },
    };
    let gps_lat = match take_float(toks, 14) {
        Ok(t) => t,
        Err(e) => {
            proof {
                lemma_first_bad_is(gt, 14);
            }
            return Err(e);
        },
    };
    let gps_lon = match take_float(toks, 15) {
        Ok(t) => t,
        Err(e) => {
            proof {
                lemma_first_bad_is(gt, 15);
            }
            return Err(e);
        },
    };
    let gps_altitude = match take_float(toks, 16) {
        Ok(t) => t,
        Err(e) => {
            proof {
                lemma_first_bad_is(gt, 16);
            }
            return Err(e);
        },
    };
    proof {
        lemma_first_bad_is(gt, SCHEMA_FIELDS as int);
    }
    if toks.len() > SCHEMA_FIELDS {
        return Err(LogReadError::ExtraField);
    }
    Ok(
        SensedData {
            index,
            uptime,
            temperature,
            pressure,
            acceleration: [accel_x, accel_y, accel_z],
            acceleration_confidence,
            gps_time,
            gps_position: [gps_lat, gps_lon],
            gps_altitude,
        },
    )
}

} // verus!
