//! Laws relating the parser and the serializer: every record a successful
//! parse yields is well-formed, a well-formed record's wire line parses back
//! to the record itself, and absent optional fields travel both ways as
//! empty fields.

use crate::numeric::{
    dec_rep, i64_dec, lemma_dec_rep_digits, lemma_digits_not_special, lemma_i64_dec_no_tab,
    lemma_i64_dec_round_trip, lemma_u32_dec_round_trip, parse_u32_spec,
};
use crate::parse::{
    first_tab, lemma_first_tab, lemma_first_tab_is, lemma_take_fields_step, parse_spec,
    split_off_field, take_fields,
};
use crate::record::{has_no_tab, wf_record, ParseErrorModel, Rating, RecordModel};
use crate::serialize::{id_field, pos_field, rating_code, serialize_spec, tab};
use vstd::prelude::*;

verus! {

/// A field split off a line holds no tab.
proof fn lemma_split_field_no_tab(s: Seq<char>)
    ensures
        split_off_field(s) matches Some(p) ==> has_no_tab(p.0),
{
    lemma_first_tab(s);
    if split_off_field(s) is Some {
        let i = first_tab(s) as int;
        assert forall|j: int| 0 <= j < s.take(i).len() implies s.take(i)[j] != '\t' by {
            assert(s.take(i)[j] == s[j]);
        }
    }
}

/// `take_fields` yields exactly `n` fields, each tab-free.
proof fn lemma_take_fields_props(s: Seq<char>, n: nat)
    ensures
        take_fields(s, n) matches Some(p) ==> {
            &&& p.0.len() == n
            &&& forall|k: int| 0 <= k < n ==> has_no_tab(#[trigger] p.0[k])
        },
    decreases n,
{
    if n > 0 && split_off_field(s) is Some {
        let p = split_off_field(s)->Some_0;
        lemma_split_field_no_tab(s);
        lemma_take_fields_props(p.1, (n - 1) as nat);
        if take_fields(p.1, (n - 1) as nat) is Some {
            let q = take_fields(p.1, (n - 1) as nat)->Some_0;
            assert forall|k: int| 0 <= k < n implies has_no_tab(#[trigger] (seq![p.0] + q.0)[k]) by {
                if k == 0 {
                    assert((seq![p.0] + q.0)[0] == p.0);
                } else {
                    assert((seq![p.0] + q.0)[k] == q.0[k - 1]);
                }
            }
        }
    }
}

/// Every record a successful parse yields is well-formed: its tab-delimited
/// text fields hold no tab, and an absent track id is `None`.
pub proof fn lemma_parse_wf(s: Seq<char>, r: RecordModel)
    requires
        parse_spec(s) == Ok::<RecordModel, ParseErrorModel>(r),
    ensures
        wf_record(r),
{
    lemma_take_fields_props(s, 6);
}

/// Splitting a line that starts with a tab-free field and a tab gives back
/// the field and the rest.
proof fn lemma_split_prefix(f: Seq<char>, rest: Seq<char>)
    requires
        has_no_tab(f),
    ensures
        split_off_field(f + tab() + rest) == Some((f, rest)),
{
    let s = f + tab() + rest;
    assert(s[f.len() as int] == '\t');
    assert forall|j: int| 0 <= j < f.len() implies s[j] != '\t' by {
        assert(s[j] == f[j]);
    }
    lemma_first_tab_is(s, f.len() as int);
    assert(s.take(f.len() as int) =~= f);
    assert(s.skip(f.len() as int + 1) =~= rest);
}

/// The wire line's suffix from the timestamp field on.
spec fn tail_ts(r: RecordModel) -> Seq<char> {
    i64_dec(r.timestamp) + tab() + id_field(r.track_id)
}

/// The suffix from the rating field on.
spec fn tail_rating(r: RecordModel) -> Seq<char> {
    rating_code(r.rating) + tab() + tail_ts(r)
}

/// The suffix from the duration field on.
spec fn tail_duration(r: RecordModel) -> Seq<char> {
    dec_rep(r.duration_seconds as nat) + tab() + tail_rating(r)
}

/// The suffix from the track-position field on.
spec fn tail_position(r: RecordModel) -> Seq<char> {
    pos_field(r.track_position) + tab() + tail_duration(r)
}

/// The suffix from the track field on.
spec fn tail_track(r: RecordModel) -> Seq<char> {
    r.track + tab() + tail_position(r)
}

/// The suffix from the album field on.
spec fn tail_album(r: RecordModel) -> Seq<char> {
    r.album + tab() + tail_track(r)
}

/// The whole wire line, grouped so each field prefixes its suffix.
spec fn line_of(r: RecordModel) -> Seq<char> {
    r.artist + tab() + tail_album(r)
}

/// Each rendered field of a record's wire line is tab-free.
proof fn lemma_rendered_fields_no_tab(r: RecordModel)
    ensures
        has_no_tab(pos_field(r.track_position)),
        has_no_tab(dec_rep(r.duration_seconds as nat)),
        has_no_tab(rating_code(r.rating)),
        has_no_tab(i64_dec(r.timestamp)),
{
    lemma_dec_rep_digits(r.duration_seconds as nat);
    lemma_digits_not_special(dec_rep(r.duration_seconds as nat));
    match r.track_position {
        None => {},
        Some(v) => {
            lemma_dec_rep_digits(v as nat);
            lemma_digits_not_special(dec_rep(v as nat));
        },
    }
    assert(has_no_tab(rating_code(r.rating))) by {
        match r.rating {
            Rating::Listened => {
                assert(forall|j: int| 0 <= j < 1 ==> seq!['L'][j] == 'L');
            },
            Rating::Skipped => {
                assert(forall|j: int| 0 <= j < 1 ==> seq!['S'][j] == 'S');
            },
        }
    }
    lemma_i64_dec_no_tab(r.timestamp);
}

/// The wire line regrouped so that each field prefixes the rest of the line.
#[verifier::rlimit(100)]
proof fn lemma_serialize_right_assoc(r: RecordModel)
    ensures
        serialize_spec(r) == line_of(r),
{
    assert(serialize_spec(r) =~= line_of(r));
}

/// The lower half of the line splits into position, duration, rating fields
/// and the timestamp suffix.
proof fn lemma_decomposition_low(r: RecordModel)
    ensures
        split_off_field(tail_ts(r)) == Some((i64_dec(r.timestamp), id_field(r.track_id))),
        take_fields(tail_position(r), 3) == Some(
            (
                seq![
                    pos_field(r.track_position),
                    dec_rep(r.duration_seconds as nat),
                    rating_code(r.rating),
                ],
                tail_ts(r),
            ),
        ),
{
    lemma_rendered_fields_no_tab(r);
    lemma_split_prefix(i64_dec(r.timestamp), id_field(r.track_id));
    lemma_split_prefix(rating_code(r.rating), tail_ts(r));
    lemma_split_prefix(dec_rep(r.duration_seconds as nat), tail_rating(r));
    lemma_split_prefix(pos_field(r.track_position), tail_duration(r));
    assert(take_fields(tail_ts(r), 0) == Some((Seq::<Seq<char>>::empty(), tail_ts(r))));
    lemma_take_fields_step(tail_rating(r), rating_code(r.rating), tail_ts(r), 1);
    assert(seq![rating_code(r.rating)] + Seq::<Seq<char>>::empty() =~= seq![
        rating_code(r.rating),
    ]);
    assert(take_fields(tail_rating(r), 1) == Some((seq![rating_code(r.rating)], tail_ts(r))));
    lemma_take_fields_step(tail_duration(r), dec_rep(r.duration_seconds as nat), tail_rating(r), 2);
    assert(seq![dec_rep(r.duration_seconds as nat)] + seq![rating_code(r.rating)] =~= seq![
        dec_rep(r.duration_seconds as nat),
        rating_code(r.rating),
    ]);
    assert(take_fields(tail_duration(r), 2) == Some(
        (seq![dec_rep(r.duration_seconds as nat), rating_code(r.rating)], tail_ts(r)),
    ));
    lemma_take_fields_step(tail_position(r), pos_field(r.track_position), tail_duration(r), 3);
    assert(seq![pos_field(r.track_position)] + seq![
        dec_rep(r.duration_seconds as nat),
        rating_code(r.rating),
    ] =~= seq![
        pos_field(r.track_position),
        dec_rep(r.duration_seconds as nat),
        rating_code(r.rating),
    ]);
}

/// The wire line of a well-formed record splits back into its six leading
/// fields, the timestamp field, and the verbatim track-id remainder.
proof fn lemma_serialize_decomposition(r: RecordModel)
    requires
        wf_record(r),
    ensures
        take_fields(serialize_spec(r), 6) == Some(
            (
                seq![
                    r.artist,
                    r.album,
                    r.track,
                    pos_field(r.track_position),
                    dec_rep(r.duration_seconds as nat),
                    rating_code(r.rating),
                ],
                tail_ts(r),
            ),
        ),
        split_off_field(tail_ts(r)) == Some((i64_dec(r.timestamp), id_field(r.track_id))),
{
    lemma_decomposition_low(r);
    lemma_split_prefix(r.track, tail_position(r));
    lemma_split_prefix(r.album, tail_track(r));
    lemma_split_prefix(r.artist, tail_album(r));
    lemma_take_fields_step(tail_track(r), r.track, tail_position(r), 4);
    assert(seq![r.track] + seq![
        pos_field(r.track_position),
        dec_rep(r.duration_seconds as nat),
        rating_code(r.rating),
    ] =~= seq![
        r.track,
        pos_field(r.track_position),
        dec_rep(r.duration_seconds as nat),
        rating_code(r.rating),
    ]);
    assert(take_fields(tail_track(r), 4) == Some(
        (
            seq![
                r.track,
                pos_field(r.track_position),
                dec_rep(r.duration_seconds as nat),
                rating_code(r.rating),
            ],
            tail_ts(r),
        ),
    ));
    lemma_take_fields_step(tail_album(r), r.album, tail_track(r), 5);
    assert(seq![r.album] + seq![
        r.track,
        pos_field(r.track_position),
        dec_rep(r.duration_seconds as nat),
        rating_code(r.rating),
    ] =~= seq![
        r.album,
        r.track,
        pos_field(r.track_position),
        dec_rep(r.duration_seconds as nat),
        rating_code(r.rating),
    ]);
    assert(take_fields(tail_album(r), 5) == Some(
        (
            seq![
                r.album,
                r.track,
                pos_field(r.track_position),
                dec_rep(r.duration_seconds as nat),
                rating_code(r.rating),
            ],
            tail_ts(r),
        ),
    ));
    lemma_take_fields_step(line_of(r), r.artist, tail_album(r), 6);
    assert(seq![r.artist] + seq![
        r.album,
        r.track,
        pos_field(r.track_position),
        dec_rep(r.duration_seconds as nat),
        rating_code(r.rating),
    ] =~= seq![
        r.artist,
        r.album,
        r.track,
        pos_field(r.track_position),
        dec_rep(r.duration_seconds as nat),
        rating_code(r.rating),
    ]);
    lemma_serialize_right_assoc(r);
}

/// A well-formed record's wire line parses back to the record itself.
pub proof fn lemma_serialize_parse(r: RecordModel)
    requires
        wf_record(r),
    ensures
        parse_spec(serialize_spec(r)) == Ok::<RecordModel, ParseErrorModel>(r),
{
    lemma_serialize_decomposition(r);
    let l = serialize_spec(r);
    let fs = take_fields(l, 6)->Some_0.0;
    match r.track_position {
        None => {
            assert(fs[3].len() == 0);
        },
        Some(v) => {
            lemma_u32_dec_round_trip(v);
            assert(parse_u32_spec(fs[3]) == Some(v));
            assert(fs[3].len() > 0) by {
                lemma_dec_rep_digits(v as nat);
            }
        },
    }
    lemma_u32_dec_round_trip(r.duration_seconds);
    assert(rating_code(r.rating) == seq!['L'] ==> r.rating == Rating::Listened) by {
        if r.rating is Skipped && rating_code(r.rating) == seq!['L'] {
            assert(seq!['S'][0] == 'S');
            assert(seq!['L'][0] == 'L');
        }
    }
    lemma_i64_dec_round_trip(r.timestamp);
    match r.track_id {
        None => {
            assert(id_field(r.track_id).len() == 0);
        },
        Some(id) => {
            assert(id.len() > 0);
        },
    }
    assert(parse_spec(l) is Ok);
    assert(parse_spec(l)->Ok_0 =~= r);
}

/// Round trip: any record obtained from a successful parse serializes back
/// to a line that parses to the very same record.
pub proof fn lemma_round_trip(s: Seq<char>, r: RecordModel)
    requires
        parse_spec(s) == Ok::<RecordModel, ParseErrorModel>(r),
    ensures
        parse_spec(serialize_spec(r)) == Ok::<RecordModel, ParseErrorModel>(r),
{
    lemma_parse_wf(s, r);
    lemma_serialize_parse(r);
}

/// Optional-field symmetry: an empty position field parses as an absent
/// track position, an empty or missing trailing field parses as an absent
/// track id, and an absent field serializes back to an empty field.
pub proof fn lemma_optional_field_symmetry(s: Seq<char>, r: RecordModel)
    requires
        parse_spec(s) == Ok::<RecordModel, ParseErrorModel>(r),
    ensures
        take_fields(s, 6) matches Some(p) ==> {
            &&& (p.0[3].len() == 0 <==> r.track_position is None)
            &&& (split_off_field(p.1) matches Some(q) ==> (q.1.len() == 0 <==> r.track_id
                is None))
            &&& (split_off_field(p.1) is None ==> r.track_id is None)
        },
        take_fields(serialize_spec(r), 6) matches Some(p) ==> {
            &&& (r.track_position is None <==> p.0[3].len() == 0)
            &&& (split_off_field(p.1) matches Some(q) ==> (r.track_id is None <==> q.1.len()
                == 0))
        },
{
    lemma_parse_wf(s, r);
    lemma_serialize_decomposition(r);
    match r.track_position {
        None => {},
        Some(v) => {
            lemma_dec_rep_digits(v as nat);
        },
    }
    match r.track_id {
        None => {},
        Some(id) => {
            assert(id.len() > 0);
        },
    }
}

} // verus!
