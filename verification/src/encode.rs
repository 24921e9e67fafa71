use vstd::prelude::*;

use crate::decode::{
    conf_slot, decodes, line_tokens, record_of, slot_ok, u32_slot, SCHEMA_FIELDS,
};
use crate::float_text::{is_float_token, lemma_digits_float_token, lemma_float_token_plain};
use crate::num::{dec_digits, format_u32, lemma_dec_digits, lemma_digits_plain,
    lemma_parse_dec_digits};
use crate::record::SensedData;
use crate::text::{is_whitespace_char, join_char, lemma_join_ends, lemma_join_push,
    lemma_split_join, lemma_trim_id};

verus! {

// The encoder writes a record back as one log line in schema order. The
// ignored slots — the microsecond counter, the gyroscope triple and the
// gyroscope confidence — carry no data in a record, so they are written as
// zero.

/// The tokens a record encodes to, in schema order.
pub open spec fn spec_tokens(rec: SensedData) -> Seq<Seq<char>> {
    seq![
        dec_digits(rec.index as int),
        dec_digits(rec.uptime as int),
        dec_digits(0),
        rec.temperature@,
        rec.pressure@,
        rec.acceleration[0]@,
        rec.acceleration[1]@,
        rec.acceleration[2]@,
        dec_digits(rec.acceleration_confidence.spec_byte() as int),
        dec_digits(0),
        dec_digits(0),
        dec_digits(0),
        dec_digits(0),
        dec_digits(rec.gps_time as int),
        rec.gps_position[0]@,
        rec.gps_position[1]@,
        rec.gps_altitude@,
    ]
}

/// The line a record encodes to: its tokens joined with tabs.
pub open spec fn spec_encode(rec: SensedData) -> Seq<char> {
    join_char(spec_tokens(rec), '\t')
}

/// Join tokens into one line with a tab between neighbours.
fn join_with_tabs(toks: &Vec<String>) -> (r: String)
    ensures
        r@ == join_char(crate::decode::token_views(toks@), '\t'),
{
    let ghost views = crate::decode::token_views(toks@);
    let mut r = String::new();
    let mut i: usize = 0;
    proof {
        assert(views.subrange(0, 0) =~= Seq::<Seq<char>>::empty());
    }
    while i < toks.len()
        invariant
            0 <= i <= toks.len(),
            views == crate::decode::token_views(toks@),
            views.len() == toks@.len(),
            forall|k: int| 0 <= k < toks@.len() ==> views[k] == toks@[k]@,
            r@ == join_char(views.subrange(0, i as int), '\t'),
        decreases toks.len() - i,
    {
        if i > 0 {
            proof {
                reveal_strlit("\t");
            }
            r.append("\t");
            proof {
                assert(r@ =~= join_char(views.subrange(0, i as int), '\t') + seq!['\t']);
            }
        }
        r.append(toks[i].as_str());
        proof {
            let pre = views.subrange(0, i as int);
            lemma_join_push(pre, '\t', views[i as int]);
            assert(pre.push(views[i as int]) =~= views.subrange(0, i as int + 1));
            if i == 0 {
                assert(r@ =~= views[0]);
            } else {
                assert(r@ =~= join_char(pre, '\t') + seq!['\t'] + views[i as int]);
            }
        }
        i = i + 1;
    }
    proof {
        assert(views.subrange(0, views.len() as int) =~= views);
    }
    r
}

/// Write a record as one log line in schema order, tokens separated by tabs.
/// Decoding the result gives the record back; see [`lemma_round_trip`].
pub fn encode_log_line(rec: &SensedData) -> (r: String)
    ensures
        r@ == spec_encode(*rec),
{
    let mut toks: Vec<String> = Vec::new();
    toks.push(format_u32(rec.index));
    toks.push(format_u32(rec.uptime));
    toks.push(format_u32(0));
    toks.push(rec.temperature.clone());
    toks.push(rec.pressure.clone());
    toks.push(rec.acceleration[0].clone());
    toks.push(rec.acceleration[1].clone());
    toks.push(rec.acceleration[2].clone());
    toks.push(format_u32(rec.acceleration_confidence.as_byte() as u32));
    toks.push(format_u32(0));
    toks.push(format_u32(0));
    toks.push(format_u32(0));
    toks.push(format_u32(0));
    toks.push(format_u32(rec.gps_time));
    toks.push(rec.gps_position[0].clone());
    toks.push(rec.gps_position[1].clone());
    toks.push(rec.gps_altitude.clone());
    proof {
        assert(crate::decode::token_views(toks@) =~~= spec_tokens(*rec));
    }
    join_with_tabs(&toks)
}

/// No encoded token holds a tab or other whitespace, and each is non-empty.
proof fn lemma_tokens_plain(rec: SensedData)
    requires
        rec.wf(),
    ensures
        forall|k: int| 0 <= k < SCHEMA_FIELDS ==> (#[trigger] spec_tokens(rec)[k]).len() > 0,
        forall|k: int, j: int|
            0 <= k < SCHEMA_FIELDS && 0 <= j < spec_tokens(rec)[k].len()
                ==> !is_whitespace_char(#[trigger] spec_tokens(rec)[k][j]),
{
    let toks = spec_tokens(rec);
    assert forall|k: int| 0 <= k < SCHEMA_FIELDS implies (#[trigger] toks[k]).len() > 0 by {
        lemma_slot_token(rec, k);
    }
    assert forall|k: int, j: int|
        0 <= k < SCHEMA_FIELDS && 0 <= j < toks[k].len() implies !is_whitespace_char(
        #[trigger] toks[k][j],
    ) by {
        lemma_slot_token(rec, k);
    }
}

/// Slot by slot: each encoded token is non-empty, free of whitespace, and
/// valid for its slot.
proof fn lemma_slot_token(rec: SensedData, k: int)
    requires
        rec.wf(),
        0 <= k < SCHEMA_FIELDS,
    ensures
        spec_tokens(rec)[k].len() > 0,
        forall|j: int|
            0 <= j < spec_tokens(rec)[k].len() ==> !is_whitespace_char(
                #[trigger] spec_tokens(rec)[k][j],
            ),
        slot_ok(spec_tokens(rec), k),
{
    let toks = spec_tokens(rec);
    let t = toks[k];
    if u32_slot(k) || conf_slot(k) || k == 9 || k == 10 || k == 11 {
        let n: int = if k == 0 {
            rec.index as int
        } else if k == 1 {
            rec.uptime as int
        } else if k == 8 {
            rec.acceleration_confidence.spec_byte() as int
        } else if k == 13 {
            rec.gps_time as int
        } else {
            0
        };
        assert(t == dec_digits(n));
        lemma_dec_digits(n);
        lemma_digits_plain(t);
        lemma_parse_dec_digits(n);
        if k == 9 || k == 10 || k == 11 {
            lemma_digits_float_token(t);
        }
        if k == 8 {
            crate::record::lemma_confidence_byte_round_trip(
                rec.acceleration_confidence,
                0,
            );
        }
    } else {
        assert(is_float_token(t));
        lemma_float_token_plain(t);
    }
}

/// An encoded line decodes, and it decodes to the record it was written
/// from: the integer fields and the confidence come back equal, and each
/// floating-point field comes back as exactly the token text it held.
pub proof fn lemma_round_trip(rec: SensedData)
    requires
        rec.wf(),
    ensures
        line_tokens(spec_encode(rec)) == spec_tokens(rec),
        decodes(spec_encode(rec)),
        record_of(spec_tokens(rec), rec),
        forall|other: SensedData|
            record_of(spec_tokens(rec), other) ==> other.index == rec.index && other.uptime
                == rec.uptime && other.temperature@ == rec.temperature@ && other.pressure@
                == rec.pressure@ && other.acceleration[0]@ == rec.acceleration[0]@
                && other.acceleration[1]@ == rec.acceleration[1]@ && other.acceleration[2]@
                == rec.acceleration[2]@ && other.acceleration_confidence
                == rec.acceleration_confidence && other.gps_time == rec.gps_time
                && other.gps_position[0]@ == rec.gps_position[0]@ && other.gps_position[1]@
                == rec.gps_position[1]@ && other.gps_altitude@ == rec.gps_altitude@,
{
    let toks = spec_tokens(rec);
    let line = spec_encode(rec);
    lemma_tokens_plain(rec);
    // The line trims to itself: it starts and ends inside a token.
    lemma_join_ends(toks, '\t');
    assert(toks[0].len() > 0 && toks.last().len() > 0);
    assert(!is_whitespace_char(line[0]));
    assert(toks.last() == toks[SCHEMA_FIELDS - 1]);
    assert(!is_whitespace_char(line.last()));
    lemma_trim_id(line);
    // Splitting the line on tabs gives the tokens back: a tab is whitespace,
    // so no token holds one.
    assert forall|k: int, j: int|
        0 <= k < toks.len() && 0 <= j < toks[k].len() implies #[trigger] toks[k][j] != '\t' by {
        assert(!is_whitespace_char(toks[k][j]));
    }
    lemma_split_join(toks, '\t');
    assert(line_tokens(line) == toks);
    // Every slot is valid, so the line decodes.
    assert forall|k: int| 0 <= k < SCHEMA_FIELDS implies slot_ok(toks, k) by {
        lemma_slot_token(rec, k);
    }
    crate::decode::lemma_all_slots_ok(toks);
    // The decoded fields are the encoded ones.
    lemma_parse_dec_digits(rec.index as int);
    lemma_parse_dec_digits(rec.uptime as int);
    lemma_parse_dec_digits(rec.gps_time as int);
    lemma_parse_dec_digits(rec.acceleration_confidence.spec_byte() as int);
    crate::record::lemma_confidence_byte_round_trip(rec.acceleration_confidence, 0);
}

} // verus!
