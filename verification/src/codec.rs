//! The encoding codec: decodes the wire representation of a template into
//! the structured model.
//!
//! The wire format is two delimiter-separated strings. Records are separated
//! by `;`; within a record, fields are separated by `|`. A path record is
//! `kind|path` with `kind` one of the literals `file` or `dir`; a content
//! record is `path|payload` with the payload in standard base64 (padding
//! optional). Empty input
//! strings decode to empty sequences. Order is preserved; nothing is sorted
//! or deduplicated.

use vstd::prelude::*;

use crate::model::{ContentEntry, DecodeError, PathEntry, PathKind};
use crate::scan::{split_bytes, split_on, views_of};
use base64::Engine;
use vstd::string::StrSliceExecFns;
use vstd::string::StringSliceAdditionalSpecFns;

verus! {

/// The bytes of the kind literal `file`.
pub open spec fn file_lit() -> Seq<u8> {
    seq![102u8, 105u8, 108u8, 101u8]
}

/// The bytes of the kind literal `dir`.
pub open spec fn dir_lit() -> Seq<u8> {
    seq![100u8, 105u8, 114u8]
}

/// The path kind a kind field denotes, if any.
pub open spec fn kind_of(field: Seq<u8>) -> Option<PathKind> {
    if field == file_lit() {
        Some(PathKind::File)
    } else if field == dir_lit() {
        Some(PathKind::Dir)
    } else {
        None
    }
}

/// What standard base64 decoding returns on `s`: the decoded bytes, or
/// nothing when `s` is not valid base64. The result is a function of the
/// input alone.
pub uninterp spec fn b64_decode(s: Seq<u8>) -> Option<Seq<u8>>;

/// Relies on base64's `Engine::decode` with the `STANDARD_PAD_INDIFFERENT`
/// engine (RFC 4648 standard alphabet, padding accepted but not required):
/// it decodes the input bytes, or reports an error for input that is not
/// valid base64, as a function of the input bytes alone.
#[verifier::external_body]
fn base64_decode(input: &Vec<u8>) -> (r: Option<Vec<u8>>)
    ensures
        r is Some <==> b64_decode(input@) is Some,
        r matches Some(v) ==> v@ == b64_decode(input@).unwrap(),
{
    match base64::engine::general_purpose::STANDARD_PAD_INDIFFERENT.decode(input.as_slice()) {
        Ok(v) => Some(v),
        Err(_) => None,
    }
}

/// The decoding of one path record: its kind and path fields, or nothing if
/// the record does not have exactly two fields or its kind literal is not
/// recognized.
pub open spec fn path_record_spec(rec: Seq<u8>) -> Option<(PathKind, Seq<u8>)> {
    let fields = split_on(rec, 124u8);
    if fields.len() != 2 {
        None
    } else {
        match kind_of(fields[0]) {
            None => None,
            Some(k) => Some((k, fields[1])),
        }
    }
}

/// The decoding of a sequence of path records; any bad record spoils the
/// whole sequence.
pub open spec fn path_records_spec(recs: Seq<Seq<u8>>) -> Option<Seq<(PathKind, Seq<u8>)>>
    decreases recs.len(),
{
    if recs.len() == 0 {
        Some(Seq::empty())
    } else {
        match path_record_spec(recs[0]) {
            None => None,
            Some(e) => match path_records_spec(recs.skip(1)) {
                None => None,
                Some(t) => Some(seq![e] + t),
            },
        }
    }
}

/// The decoding of a raw path string: the empty string is an empty sequence;
/// anything else is split into records on `;`.
pub open spec fn decode_paths_spec(raw: Seq<u8>) -> Option<Seq<(PathKind, Seq<u8>)>> {
    if raw.len() == 0 {
        Some(Seq::empty())
    } else {
        path_records_spec(split_on(raw, 59u8))
    }
}

/// The decoding of one content record: its path field and decoded payload,
/// or the error it fails with.
pub open spec fn content_record_spec(rec: Seq<u8>) -> Result<(Seq<u8>, Seq<u8>), DecodeError> {
    let fields = split_on(rec, 124u8);
    if fields.len() != 2 {
        Err(DecodeError::MalformedContent)
    } else {
        match b64_decode(fields[1]) {
            None => Err(DecodeError::InvalidPayload),
            Some(p) => Ok((fields[0], p)),
        }
    }
}

/// The decoding of a sequence of content records; the first bad record's
/// error is the result.
pub open spec fn content_records_spec(recs: Seq<Seq<u8>>) -> Result<
    Seq<(Seq<u8>, Seq<u8>)>,
    DecodeError,
>
    decreases recs.len(),
{
    if recs.len() == 0 {
        Ok(Seq::empty())
    } else {
        match content_record_spec(recs[0]) {
            Err(e) => Err(e),
            Ok(c) => match content_records_spec(recs.skip(1)) {
                Err(e) => Err(e),
                Ok(t) => Ok(seq![c] + t),
            },
        }
    }
}

/// The decoding of a raw content string.
pub open spec fn decode_contents_spec(raw: Seq<u8>) -> Result<Seq<(Seq<u8>, Seq<u8>)>, DecodeError> {
    if raw.len() == 0 {
        Ok(Seq::empty())
    } else {
        content_records_spec(split_on(raw, 59u8))
    }
}

/// The element-wise view of decoded path entries.
pub open spec fn path_views(v: Seq<PathEntry>) -> Seq<(PathKind, Seq<u8>)> {
    v.map_values(|e: PathEntry| (e.kind, e.path@))
}

/// The element-wise view of decoded content entries.
pub open spec fn content_views(v: Seq<ContentEntry>) -> Seq<(Seq<u8>, Seq<u8>)> {
    v.map_values(|e: ContentEntry| (e.file_path@, e.payload@))
}

/// The path kind a kind field denotes, if any.
fn kind_of_field(field: &Vec<u8>) -> (r: Option<PathKind>)
    ensures
        r == kind_of(field@),
{
    if field.len() == 4 && field[0] == 102u8 && field[1] == 105u8 && field[2] == 108u8 && field[3]
        == 101u8 {
        proof {
            assert(field@ =~= file_lit());
        }
        Some(PathKind::File)
    } else if field.len() == 3 && field[0] == 100u8 && field[1] == 105u8 && field[2] == 114u8 {
        proof {
            assert(field@ =~= dir_lit());
        }
        Some(PathKind::Dir)
    } else {
        proof {
            assert(field@ != file_lit());
            assert(field@ != dir_lit());
        }
        None
    }
}

/// Decode a raw path string into path entries, in record order.
pub fn decode_paths(raw: &str) -> (r: Result<Vec<PathEntry>, DecodeError>)
    ensures
        r is Ok <==> decode_paths_spec(raw.spec_bytes()) is Some,
        r matches Ok(v) ==> path_views(v@) == decode_paths_spec(raw.spec_bytes()).unwrap(),
        r is Err ==> r == Err::<Vec<PathEntry>, DecodeError>(DecodeError::MalformedPath),
{
    let bytes = raw.as_bytes_vec();
    let mut out: Vec<PathEntry> = Vec::new();
    if bytes.len() == 0 {
        proof {
            assert(path_views(out@) =~= Seq::<(PathKind, Seq<u8>)>::empty());
        }
        return Ok(out);
    }
    let records = split_bytes(&bytes, 59u8);
    let ghost recs = split_on(bytes@, 59u8);
    let mut i: usize = 0;
    proof {
        assert(recs.skip(0) =~= recs);
    }
    while i < records.len()
        invariant
            i <= records@.len(),
            views_of(records@) == recs,
            decode_paths_spec(raw.spec_bytes()) == (match path_records_spec(
                recs.skip(i as int),
            ) {
                None => None::<Seq<(PathKind, Seq<u8>)>>,
                Some(t) => Some(path_views(out@) + t),
            }),
        decreases records@.len() - i,
    {
        let ghost rest = recs.skip(i as int);
        proof {
            assert(rest[0] == recs[i as int]);
            assert(rest.skip(1) =~= recs.skip(i + 1));
        }
        let fields = split_bytes(&records[i], 124u8);
        if fields.len() != 2 {
            return Err(DecodeError::MalformedPath);
        }
        let kind = match kind_of_field(&fields[0]) {
            None => {
                return Err(DecodeError::MalformedPath);
            },
            Some(k) => k,
        };
        let path = fields[1].clone();
        proof {
            assert(path@ == fields@[1]@);
        }
        let entry = PathEntry { kind, path };
        proof {
            let e = path_record_spec(recs[i as int]).unwrap();
            assert(path_views(out@.push(entry)) =~= path_views(out@).push((e.0, e.1)));
            let tail_spec = path_records_spec(recs.skip(i + 1));
            if tail_spec is Some {
                let t = tail_spec.unwrap();
                assert(path_views(out@).push((e.0, e.1)) + t =~= path_views(out@) + (seq![e] + t));
            }
        }
        out.push(entry);
        i = i + 1;
    }
    proof {
        assert(recs.skip(i as int) =~= Seq::<Seq<u8>>::empty());
        assert(path_records_spec(Seq::<Seq<u8>>::empty()) == Some(Seq::<(PathKind, Seq<u8>)>::empty()));
        assert(path_views(out@) + Seq::<(PathKind, Seq<u8>)>::empty() =~= path_views(out@));
    }
    Ok(out)
}

/// Decode a raw content string into content entries, in record order, with
/// each payload base64-decoded.
pub fn decode_contents(raw: &str) -> (r: Result<Vec<ContentEntry>, DecodeError>)
    ensures
        r is Ok <==> decode_contents_spec(raw.spec_bytes()) is Ok,
        r matches Ok(v) ==> content_views(v@) == decode_contents_spec(raw.spec_bytes()).unwrap(),
        r matches Err(e) ==> Err::<Seq<(Seq<u8>, Seq<u8>)>, DecodeError>(e) == decode_contents_spec(
            raw.spec_bytes(),
        ),
{
    let bytes = raw.as_bytes_vec();
    let mut out: Vec<ContentEntry> = Vec::new();
    if bytes.len() == 0 {
        proof {
            assert(content_views(out@) =~= Seq::<(Seq<u8>, Seq<u8>)>::empty());
        }
        return Ok(out);
    }
    let records = split_bytes(&bytes, 59u8);
    let ghost recs = split_on(bytes@, 59u8);
    let mut i: usize = 0;
    proof {
        assert(recs.skip(0) =~= recs);
    }
    while i < records.len()
        invariant
            i <= records@.len(),
            views_of(records@) == recs,
            decode_contents_spec(raw.spec_bytes()) == (match content_records_spec(
                recs.skip(i as int),
            ) {
                Err(e) => Err::<Seq<(Seq<u8>, Seq<u8>)>, DecodeError>(e),
                Ok(t) => Ok(content_views(out@) + t),
            }),
        decreases records@.len() - i,
    {
        let ghost rest = recs.skip(i as int);
        proof {
            assert(rest[0] == recs[i as int]);
            assert(rest.skip(1) =~= recs.skip(i + 1));
        }
        let fields = split_bytes(&records[i], 124u8);
        if fields.len() != 2 {
            return Err(DecodeError::MalformedContent);
        }
        let payload = match base64_decode(&fields[1]) {
            None => {
                return Err(DecodeError::InvalidPayload);
            },
            Some(p) => p,
        };
        let file_path = fields[0].clone();
        proof {
            assert(file_path@ == fields@[0]@);
        }
        let entry = ContentEntry { file_path, payload };
        proof {
            let c = content_record_spec(recs[i as int]).unwrap();
            assert(content_views(out@.push(entry)) =~= content_views(out@).push((c.0, c.1)));
            let tail_spec = content_records_spec(recs.skip(i + 1));
            if tail_spec is Ok {
                let t = tail_spec.unwrap();
                assert(content_views(out@).push((c.0, c.1)) + t =~= content_views(out@) + (
                seq![c] + t));
            }
        }
        out.push(entry);
        i = i + 1;
    }
    proof {
        assert(recs.skip(i as int) =~= Seq::<Seq<u8>>::empty());
        assert(content_views(out@) + Seq::<(Seq<u8>, Seq<u8>)>::empty() =~= content_views(out@));
    }
    Ok(out)
}

/// Decode the two raw template strings into the structured model. A path
/// decoding error takes precedence over a content decoding error.
pub fn decode(raw_paths: &str, raw_contents: &str) -> (r: Result<
    (Vec<PathEntry>, Vec<ContentEntry>),
    DecodeError,
>)
    ensures
        r is Ok <==> (decode_paths_spec(raw_paths.spec_bytes()) is Some && decode_contents_spec(
            raw_contents.spec_bytes(),
        ) is Ok),
        r matches Ok(v) ==> path_views(v.0@) == decode_paths_spec(raw_paths.spec_bytes()).unwrap()
            && content_views(v.1@) == decode_contents_spec(raw_contents.spec_bytes()).unwrap(),
        decode_paths_spec(raw_paths.spec_bytes()) is None ==> r == Err::<
            (Vec<PathEntry>, Vec<ContentEntry>),
            DecodeError,
        >(DecodeError::MalformedPath),
        decode_contents_spec(raw_contents.spec_bytes()) matches Err(e) ==> (decode_paths_spec(
            raw_paths.spec_bytes(),
        ) is Some ==> r == Err::<(Vec<PathEntry>, Vec<ContentEntry>), DecodeError>(e)),
{
    let paths = match decode_paths(raw_paths) {
        Err(e) => {
            return Err(e);
        },
        Ok(p) => p,
    };
    let contents = match decode_contents(raw_contents) {
        Err(e) => {
            return Err(e);
        },
        Ok(c) => c,
    };
    Ok((paths, contents))
}

} // verus!
