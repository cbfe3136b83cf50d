//! The serializer: a record back to its wire line, all eight field values
//! joined by single tabs with no trailing tab and no newline.

use crate::numeric::{dec_rep, i64_dec, push_dec_u64};
use crate::record::{Rating, Record, RecordModel};
use vstd::prelude::*;
use vstd::string::StringExecFns;

verus! {

/// A single tab, the field separator.
pub open spec fn tab() -> Seq<char> {
    seq!['\t']
}

/// The wire text of an optional track position: empty when absent.
pub open spec fn pos_field(p: Option<u32>) -> Seq<char> {
    match p {
        None => Seq::<char>::empty(),
        Some(v) => dec_rep(v as nat),
    }
}

/// The one-character wire code of a rating.
pub open spec fn rating_code(r: Rating) -> Seq<char> {
    match r {
        Rating::Listened => seq!['L'],
        Rating::Skipped => seq!['S'],
    }
}

/// The wire text of an optional track id: empty when absent.
pub open spec fn id_field(id: Option<Seq<char>>) -> Seq<char> {
    match id {
        None => Seq::<char>::empty(),
        Some(s) => s,
    }
}

/// The wire line of a record.
pub open spec fn serialize_spec(r: RecordModel) -> Seq<char> {
    r.artist + tab() + r.album + tab() + r.track + tab() + pos_field(r.track_position) + tab()
        + dec_rep(r.duration_seconds as nat) + tab() + rating_code(r.rating) + tab() + i64_dec(
        r.timestamp,
    ) + tab() + id_field(r.track_id)
}

/// Serialize a record to its wire line.
pub fn serialize(r: &Record) -> (out: String)
    ensures
        out@ == serialize_spec(r@),
{
    proof {
        reveal_strlit("\t");
        reveal_strlit("-");
        reveal_strlit("L");
        reveal_strlit("S");
        assert("\t"@ =~= tab());
        assert("-"@ =~= seq!['-']);
        assert("L"@ =~= seq!['L']);
        assert("S"@ =~= seq!['S']);
    }
    let mut out = String::new();
    out.append(r.artist.as_str());
    out.append("\t");
    out.append(r.album.as_str());
    out.append("\t");
    out.append(r.track.as_str());
    out.append("\t");
    match r.track_position {
        None => {},
        Some(v) => {
            push_dec_u64(v as u64, &mut out);
        },
    }
    out.append("\t");
    push_dec_u64(r.duration_seconds as u64, &mut out);
    out.append("\t");
    match r.rating {
        Rating::Listened => {
            out.append("L");
        },
        Rating::Skipped => {
            out.append("S");
        },
    }
    out.append("\t");
    if r.timestamp >= 0 {
        push_dec_u64(r.timestamp as u64, &mut out);
    } else {
        out.append("-");
        let mag: u64 = if r.timestamp == i64::MIN {
            9223372036854775808
        } else {
            (-r.timestamp) as u64
        };
        proof {
            assert(mag as nat == (-(r.timestamp as int)) as nat);
        }
        push_dec_u64(mag, &mut out);
    }
    out.append("\t");
    match &r.track_id {
        None => {},
        Some(id) => {
            out.append(id.as_str());
        },
    }
    proof {
        assert(out@ =~= serialize_spec(r@));
    }
    out
}

} // verus!
