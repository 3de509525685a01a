//! Tracking records: which version of another document a document follows.

use vstd::prelude::*;

use crate::textutil::{chars_to_string, dec_digits, push_chars, push_seq, to_decimal};

verus! {

/// One tracking record: the followed file, its version, and optionally
/// the version of the tracking document itself.
#[derive(Debug, Clone)]
pub struct TrackingInfo {
    pub filename: String,
    pub version: i32,
    pub self_version: Option<i32>,
}

impl TrackingInfo {
    /// A tracking record for one file.
    pub fn new(filename: &str, version: i32, self_version: Option<i32>) -> (r: TrackingInfo)
        ensures
            r.filename@ == filename@,
            r.version == version,
            r.self_version == self_version,
    {
        TrackingInfo { filename: String::from_str(filename), version, self_version }
    }
}

/// The document text of one tracking record.
pub open spec fn tracking_record_text(t: TrackingInfo) -> Seq<char> {
    "\n\n-- fastn.tracks: "@ + t.filename@ + "\nversion: "@ + dec_digits(t.version as int) + (
    match t.self_version {
        Some(sv) => "\nself-version: "@ + dec_digits(sv as int),
        None => Seq::<char>::empty(),
    })
}

/// The whole tracking document: the import line, then one record per
/// tracked file, and a final newline.
pub open spec fn tracking_content_text(infos: Seq<TrackingInfo>) -> Seq<char> {
    "-- import: fastn"@ + tracking_records_text(infos) + "\n"@
}

/// The records of a tracking document, in order.
pub open spec fn tracking_records_text(infos: Seq<TrackingInfo>) -> Seq<char>
    decreases infos.len(),
{
    if infos.len() == 0 {
        Seq::empty()
    } else {
        tracking_records_text(infos.drop_last()) + tracking_record_text(infos.last())
    }
}

/// Writes the tracking document for a set of tracking records.
pub fn generate_tracking_info_content(tracking_infos: &Vec<TrackingInfo>) -> (r: String)
    requires
        forall|i: int|
            0 <= i < tracking_infos@.len() ==> (#[trigger] tracking_infos@[i]).version >= 0
                && match tracking_infos@[i].self_version {
                Some(sv) => sv >= 0,
                None => true,
            },
    ensures
        r@ == tracking_content_text(tracking_infos@),
{
    let mut out: Vec<char> = Vec::new();
    push_chars(&mut out, "-- import: fastn");
    let n = tracking_infos.len();
    proof {
        assert(tracking_infos@.take(0) =~= Seq::<TrackingInfo>::empty());
        assert(out@ =~= "-- import: fastn"@ + tracking_records_text(tracking_infos@.take(0)));
    }
    for i in 0..n
        invariant
            n == tracking_infos@.len(),
            forall|j: int|
                0 <= j < tracking_infos@.len() ==> (#[trigger] tracking_infos@[j]).version >= 0
                    && match tracking_infos@[j].self_version {
                    Some(sv) => sv >= 0,
                    None => true,
                },
            out@ == "-- import: fastn"@ + tracking_records_text(tracking_infos@.take(i as int)),
    {
        let t = &tracking_infos[i];
        let ghost mid = out@;
        push_chars(&mut out, "\n\n-- fastn.tracks: ");
        push_chars(&mut out, t.filename.as_str());
        push_chars(&mut out, "\nversion: ");
        let digits = to_decimal(t.version);
        push_seq(&mut out, &digits);
        match t.self_version {
            Some(sv) => {
                push_chars(&mut out, "\nself-version: ");
                let sv_digits = to_decimal(sv);
                push_seq(&mut out, &sv_digits);
            },
            None => {},
        }
        proof {
            assert(out@ =~= mid + tracking_record_text(tracking_infos@[i as int]));
            assert(tracking_infos@.take(i + 1).drop_last() =~= tracking_infos@.take(i as int));
            assert(tracking_infos@.take(i + 1).last() == tracking_infos@[i as int]);
        }
    }
    push_chars(&mut out, "\n");
    proof {
        assert(tracking_infos@.take(n as int) =~= tracking_infos@);
        assert(out@ =~= tracking_content_text(tracking_infos@));
    }
    chars_to_string(&out)
}

} // verus!
