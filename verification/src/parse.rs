//! The record parser: the tab-delimited line grammar as a spec-level model,
//! and the executable parser proved to match it.
//!
//! A line holds seven mandatory fields, each terminated by a tab or by the
//! end of the line, followed by an optional trailing track-id field: the
//! verbatim remainder after the seventh tab.  A field is the maximal run of
//! characters up to the next tab.

use crate::numeric::{parse_i64_field, parse_i64_spec, parse_u32_field, parse_u32_spec};
use crate::record::{ParseError, ParseErrorModel, Rating, Record, RecordModel};
use vstd::prelude::*;
use vstd::string::StrSliceExecFns;
use vstd::string::StringExecFns;

verus! {

/// The index of the first tab in `s`, or `s.len()` when there is none.
pub open spec fn first_tab(s: Seq<char>) -> nat
    decreases s.len(),
{
    if s.len() == 0 {
        0
    } else if s[0] == '\t' {
        0
    } else {
        1 + first_tab(s.drop_first())
    }
}

/// `first_tab` points at a tab (when in range) and nothing before it is one.
pub proof fn lemma_first_tab(s: Seq<char>)
    ensures
        first_tab(s) <= s.len(),
        first_tab(s) < s.len() ==> s[first_tab(s) as int] == '\t',
        forall|j: int| 0 <= j < first_tab(s) ==> s[j] != '\t',
    decreases s.len(),
{
    if s.len() > 0 && s[0] != '\t' {
        lemma_first_tab(s.drop_first());
        assert forall|j: int| 0 <= j < first_tab(s) implies s[j] != '\t' by {
            if j > 0 {
                assert(s.drop_first()[j - 1] == s[j]);
            }
        }
    }
}

/// The converse: a position with a tab and no tab before it is `first_tab`.
pub proof fn lemma_first_tab_is(s: Seq<char>, i: int)
    requires
        0 <= i <= s.len(),
        forall|j: int| 0 <= j < i ==> s[j] != '\t',
        i < s.len() ==> s[i] == '\t',
    ensures
        first_tab(s) == i,
    decreases s.len(),
{
    if s.len() == 0 {
    } else if s[0] == '\t' {
        assert(i == 0);
    } else {
        assert(i > 0);
        assert forall|j: int| 0 <= j < i - 1 implies s.drop_first()[j] != '\t' by {
            assert(s.drop_first()[j] == s[j + 1]);
        }
        lemma_first_tab_is(s.drop_first(), i - 1);
    }
}

/// Split the first tab-terminated field off `s`: the field and the rest
/// after the tab, or `None` when `s` holds no tab.
pub open spec fn split_off_field(s: Seq<char>) -> Option<(Seq<char>, Seq<char>)> {
    let i = first_tab(s);
    if i < s.len() {
        Some((s.take(i as int), s.skip(i as int + 1)))
    } else {
        None
    }
}

/// Split the first `n` tab-terminated fields off `s`, or `None` when fewer
/// than `n` tabs are present.
pub open spec fn take_fields(s: Seq<char>, n: nat) -> Option<(Seq<Seq<char>>, Seq<char>)>
    decreases n,
{
    if n == 0 {
        Some((Seq::empty(), s))
    } else {
        match split_off_field(s) {
            None => None,
            Some(p) => match take_fields(p.1, (n - 1) as nat) {
                None => None,
                Some(q) => Some((seq![p.0] + q.0, q.1)),
            },
        }
    }
}

/// One unfolding of `take_fields`, for chaining split results upward.
pub proof fn lemma_take_fields_step(s: Seq<char>, f: Seq<char>, rest: Seq<char>, n: nat)
    requires
        n > 0,
        split_off_field(s) == Some((f, rest)),
    ensures
        take_fields(s, n) == match take_fields(rest, (n - 1) as nat) {
            None => None::<(Seq<Seq<char>>, Seq<char>)>,
            Some(q) => Some((seq![f] + q.0, q.1)),
        },
{
}

/// The suffix of `s` after its last tab: the whole of `s` when it has none.
pub open spec fn after_last_tab(s: Seq<char>) -> Seq<char>
    decreases s.len(),
{
    match split_off_field(s) {
        None => s,
        Some(p) => after_last_tab(p.1),
    }
}

/// What parsing a line yields, applied to the line's character sequence.
///
/// A line with fewer than six tabs is truncated; otherwise the first six
/// fields are artist, album, track, track position, duration and rating, the
/// seventh field (terminated by a tab or the end of the line) is the
/// timestamp, and the verbatim remainder after the seventh tab, if any, is
/// the track id.  Field decoding failures surface in wire order.
pub open spec fn parse_spec(s: Seq<char>) -> Result<RecordModel, ParseErrorModel> {
    match take_fields(s, 6) {
        None => Err(ParseErrorModel::TruncatedRecord(after_last_tab(s))),
        Some(p) => {
            let fs = p.0;
            let rest = p.1;
            let ts_field = match split_off_field(rest) {
                None => rest,
                Some(q) => q.0,
            };
            let id_field = match split_off_field(rest) {
                None => Seq::<char>::empty(),
                Some(q) => q.1,
            };
            if fs[3].len() > 0 && parse_u32_spec(fs[3]) is None {
                Err(ParseErrorModel::InvalidTrackPosition(fs[3]))
            } else if parse_u32_spec(fs[4]) is None {
                Err(ParseErrorModel::InvalidDuration(fs[4]))
            } else if !(fs[5] == seq!['L'] || fs[5] == seq!['S']) {
                Err(ParseErrorModel::InvalidRating(fs[5]))
            } else if parse_i64_spec(ts_field) is None {
                Err(ParseErrorModel::InvalidTimestamp(ts_field))
            } else {
                Ok(RecordModel {
                    artist: fs[0],
                    album: fs[1],
                    track: fs[2],
                    track_position: if fs[3].len() == 0 {
                        None
                    } else {
                        Some(parse_u32_spec(fs[3])->Some_0)
                    },
                    duration_seconds: parse_u32_spec(fs[4])->Some_0,
                    rating: if fs[5] == seq!['L'] {
                        Rating::Listened
                    } else {
                        Rating::Skipped
                    },
                    timestamp: parse_i64_spec(ts_field)->Some_0,
                    track_id: if id_field.len() == 0 {
                        None
                    } else {
                        Some(id_field)
                    },
                })
            }
        },
    }
}

/// The index of the first tab of `s`, or its length when there is none.
fn find_first_tab(s: &str) -> (r: usize)
    ensures
        r == first_tab(s@),
{
    let n = s.unicode_len();
    let mut i: usize = 0;
    while i < n
        invariant
            i <= n,
            n == s@.len(),
            forall|j: int| 0 <= j < i ==> s@[j] != '\t',
        decreases n - i,
    {
        if s.get_char(i) == '\t' {
            proof {
                lemma_first_tab_is(s@, i as int);
            }
            return i;
        }
        i = i + 1;
    }
    proof {
        lemma_first_tab_is(s@, n as int);
    }
    n
}

/// Split the first tab-terminated field off `s`.
fn split_one<'a>(s: &'a str) -> (r: Option<(&'a str, &'a str)>)
    ensures
        match r {
            Some(p) => split_off_field(s@) == Some((p.0@, p.1@)),
            None => split_off_field(s@) is None,
        },
{
    let n = s.unicode_len();
    let i = find_first_tab(s);
    if i < n {
        let f = s.substring_char(0, i);
        let rest = s.substring_char(i + 1, n);
        proof {
            assert(f@ == s@.take(i as int));
            assert(rest@ == s@.skip(i as int + 1));
        }
        Some((f, rest))
    } else {
        None
    }
}

/// The suffix of `s` after its last tab.
fn tail_after_tabs<'a>(s: &'a str) -> (r: &'a str)
    ensures
        r@ == after_last_tab(s@),
{
    let mut cur: &'a str = s;
    loop
        invariant
            after_last_tab(cur@) == after_last_tab(s@),
        decreases cur@.len(),
    {
        match split_one(cur) {
            Some(p) => {
                cur = p.1;
            },
            None => {
                return cur;
            },
        }
    }
}

/// The truncation error for `line`, carrying its unconsumed remainder.
fn truncated(line: &str) -> (e: ParseError)
    ensures
        e@ == ParseErrorModel::TruncatedRecord(after_last_tab(line@)),
{
    ParseError::TruncatedRecord(String::from_str(tail_after_tabs(line)))
}

/// Parse one line of the log into a record, or a typed failure.
///
/// The result is exactly what `parse_spec` says for the line's characters:
/// success if and only if the line has at least six tabs and every numeric
/// and rating field decodes, and otherwise the first failure in wire order.
pub fn parse(line: &str) -> (r: Result<Record, ParseError>)
    ensures
        match r {
            Ok(rec) => parse_spec(line@) == Ok::<RecordModel, ParseErrorModel>(rec@),
            Err(e) => parse_spec(line@) == Err::<RecordModel, ParseErrorModel>(e@),
        },
{
    let (f0, r1) = match split_one(line) {
        Some(p) => p,
        None => {
            proof {
                lemma_take_fields_none(line@, 6);
            }
            return Err(truncated(line));
        },
    };
    let (f1, r2) = match split_one(r1) {
        Some(p) => p,
        None => {
            proof {
                lemma_take_fields_none(r1@, 5);
                lemma_take_fields_step(line@, f0@, r1@, 6);
            }
            return Err(truncated(line));
        },
    };
    let (f2, r3) = match split_one(r2) {
        Some(p) => p,
        None => {
            proof {
                lemma_take_fields_none(r2@, 4);
                lemma_take_fields_step(r1@, f1@, r2@, 5);
                lemma_take_fields_step(line@, f0@, r1@, 6);
            }
            return Err(truncated(line));
        },
    };
    let (f3, r4) = match split_one(r3) {
        Some(p) => p,
        None => {
            proof {
                lemma_take_fields_none(r3@, 3);
                lemma_take_fields_step(r2@, f2@, r3@, 4);
                lemma_take_fields_step(r1@, f1@, r2@, 5);
                lemma_take_fields_step(line@, f0@, r1@, 6);
            }
            return Err(truncated(line));
        },
    };
    let (f4, r5) = match split_one(r4) {
        Some(p) => p,
        None => {
            proof {
                lemma_take_fields_none(r4@, 2);
                lemma_take_fields_step(r3@, f3@, r4@, 3);
                lemma_take_fields_step(r2@, f2@, r3@, 4);
                lemma_take_fields_step(r1@, f1@, r2@, 5);
                lemma_take_fields_step(line@, f0@, r1@, 6);
            }
            return Err(truncated(line));
        },
    };
    let (f5, r6) = match split_one(r5) {
        Some(p) => p,
        None => {
            proof {
                lemma_take_fields_none(r5@, 1);
                lemma_take_fields_step(r4@, f4@, r5@, 2);
                lemma_take_fields_step(r3@, f3@, r4@, 3);
                lemma_take_fields_step(r2@, f2@, r3@, 4);
                lemma_take_fields_step(r1@, f1@, r2@, 5);
                lemma_take_fields_step(line@, f0@, r1@, 6);
            }
            return Err(truncated(line));
        },
    };
    proof {
        assert(take_fields(r6@, 0) == Some((Seq::<Seq<char>>::empty(), r6@)));
        lemma_take_fields_step(r5@, f5@, r6@, 1);
        assert(seq![f5@] + Seq::<Seq<char>>::empty() =~= seq![f5@]);
        assert(take_fields(r5@, 1) == Some((seq![f5@], r6@)));
        lemma_take_fields_step(r4@, f4@, r5@, 2);
        assert(seq![f4@] + seq![f5@] =~= seq![f4@, f5@]);
        assert(take_fields(r4@, 2) == Some((seq![f4@, f5@], r6@)));
        lemma_take_fields_step(r3@, f3@, r4@, 3);
        assert(seq![f3@] + seq![f4@, f5@] =~= seq![f3@, f4@, f5@]);
        assert(take_fields(r3@, 3) == Some((seq![f3@, f4@, f5@], r6@)));
        lemma_take_fields_step(r2@, f2@, r3@, 4);
        assert(seq![f2@] + seq![f3@, f4@, f5@] =~= seq![f2@, f3@, f4@, f5@]);
        assert(take_fields(r2@, 4) == Some((seq![f2@, f3@, f4@, f5@], r6@)));
        lemma_take_fields_step(r1@, f1@, r2@, 5);
        assert(seq![f1@] + seq![f2@, f3@, f4@, f5@] =~= seq![f1@, f2@, f3@, f4@, f5@]);
        assert(take_fields(r1@, 5) == Some((seq![f1@, f2@, f3@, f4@, f5@], r6@)));
        lemma_take_fields_step(line@, f0@, r1@, 6);
        assert(seq![f0@] + seq![f1@, f2@, f3@, f4@, f5@] =~= seq![f0@, f1@, f2@, f3@, f4@, f5@]);
        assert(take_fields(line@, 6) == Some((seq![f0@, f1@, f2@, f3@, f4@, f5@], r6@)));
    }
    let (ts_f, id_opt): (&str, Option<&str>) = match split_one(r6) {
        Some(p) => (p.0, Some(p.1)),
        None => (r6, None),
    };
    let track_position: Option<u32>;
    if f3.unicode_len() == 0 {
        track_position = None;
    } else {
        match parse_u32_field(f3) {
            Some(v) => {
                track_position = Some(v);
            },
            None => {
                return Err(ParseError::InvalidTrackPosition(String::from_str(f3)));
            },
        }
    }
    let duration_seconds: u32 = match parse_u32_field(f4) {
        Some(v) => v,
        None => {
            return Err(ParseError::InvalidDuration(String::from_str(f4)));
        },
    };
    let rating: Rating;
    if f5.unicode_len() == 1 && f5.get_char(0) == 'L' {
        proof {
            assert(f5@ =~= seq!['L']);
        }
        rating = Rating::Listened;
    } else if f5.unicode_len() == 1 && f5.get_char(0) == 'S' {
        proof {
            assert(f5@ =~= seq!['S']);
        }
        rating = Rating::Skipped;
    } else {
        proof {
            assert(f5@ != seq!['L']) by {
                if f5@ == seq!['L'] {
                    assert(f5@.len() == 1);
                    assert(f5@[0] == 'L');
                }
            }
            assert(f5@ != seq!['S']) by {
                if f5@ == seq!['S'] {
                    assert(f5@.len() == 1);
                    assert(f5@[0] == 'S');
                }
            }
        }
        return Err(ParseError::InvalidRating(String::from_str(f5)));
    }
    let timestamp: i64 = match parse_i64_field(ts_f) {
        Some(v) => v,
        None => {
            return Err(ParseError::InvalidTimestamp(String::from_str(ts_f)));
        },
    };
    let track_id: Option<String> = match id_opt {
        None => None,
        Some(id) => if id.unicode_len() == 0 {
            None
        } else {
            Some(String::from_str(id))
        },
    };
    let rec = Record {
        artist: String::from_str(f0),
        album: String::from_str(f1),
        track: String::from_str(f2),
        track_position,
        duration_seconds,
        rating,
        timestamp,
        track_id,
    };
    proof {
        assert(parse_spec(line@) is Ok);
        assert(parse_spec(line@)->Ok_0 =~= rec@);
    }
    Ok(rec)
}

/// `take_fields` finds no fields in a tab-free text.
pub proof fn lemma_take_fields_none(s: Seq<char>, n: nat)
    requires
        n > 0,
        split_off_field(s) is None,
    ensures
        take_fields(s, n) is None,
{
}

} // verus!
