use vstd::prelude::*;

use crate::bytes::copy_bytes;

verus! {

/// The kind of object hash a repository uses.
#[derive(Debug, Clone, Copy, PartialEq, Eq, Structural)]
pub enum ObjectHash {
    Sha1,
}

impl ObjectHash {
    /// The length of an object id in hexadecimal digits.
    pub fn len_in_hex(&self) -> (r: usize)
        ensures
            r == 40,
    {
        match self {
            ObjectHash::Sha1 => 40,
        }
    }
}

/// When reference updates are logged.
#[derive(Debug, Clone, Copy, PartialEq, Eq, Structural)]
pub enum WriteReflog {
    Always,
    Normal,
    Disable,
}

/// Why a repository's configuration was refused.
#[derive(Debug)]
pub enum Error {
    UnsupportedObjectFormat { name: Vec<u8> },
    EmptyValue { key: &'static str },
    CoreAbbrev { value: Vec<u8>, max: u8 },
}

/// `b` in lower case, where it is an ASCII letter.
pub open spec fn ascii_lower(b: u8) -> u8 {
    if 0x41 <= b <= 0x5a {
        (b + 0x20) as u8
    } else {
        b
    }
}

/// Whether `a` and `b` are equal when ASCII letters are compared without case.
pub open spec fn eq_ignore_case(a: Seq<u8>, b: Seq<u8>) -> bool {
    a.len() == b.len() && forall|i: int| 0 <= i < a.len() ==> ascii_lower(#[trigger] a[i]) == ascii_lower(b[i])
}

pub open spec fn word_sha1() -> Seq<u8> {
    seq![0x73u8, 0x68u8, 0x61u8, 0x31u8]
}

pub open spec fn word_always() -> Seq<u8> {
    seq![0x61u8, 0x6cu8, 0x77u8, 0x61u8, 0x79u8, 0x73u8]
}

pub open spec fn word_auto() -> Seq<u8> {
    seq![0x61u8, 0x75u8, 0x74u8, 0x6fu8]
}

/// Whether `a` and `b` are equal when ASCII letters are compared without case.
pub fn eq_ignore_ascii_case(a: &[u8], b: &[u8]) -> (r: bool)
    ensures
        r == eq_ignore_case(a@, b@),
{
    if a.len() != b.len() {
        return false;
    }
    let mut i: usize = 0;
    while i < a.len()
        invariant
            a@.len() == b@.len(),
            i <= a@.len(),
            forall|k: int| 0 <= k < i ==> ascii_lower(#[trigger] a@[k]) == ascii_lower(b@[k]),
        decreases a@.len() - i,
    {
        let x = if 0x41 <= a[i] && a[i] <= 0x5a { a[i] + 0x20 } else { a[i] };
        let y = if 0x41 <= b[i] && b[i] <= 0x5a { b[i] + 0x20 } else { b[i] };
        if x != y {
            return false;
        }
        i += 1;
    }
    true
}

/// The object hash of a repository: SHA-1, unless the repository format
/// version is 1 and `extensions.objectFormat` names another.
pub fn object_hash(repo_format_version: i64, object_format: Option<&[u8]>) -> (r: Result<ObjectHash, Error>)
    ensures
        repo_format_version != 1 || object_format.is_none() ==> r matches Ok(ObjectHash::Sha1),
        repo_format_version == 1 && object_format.is_some() ==> if eq_ignore_case(
            object_format.unwrap()@,
            word_sha1(),
        ) {
            r matches Ok(ObjectHash::Sha1)
        } else {
            r matches Err(Error::UnsupportedObjectFormat { name }) && name@ == object_format.unwrap()@
        },
{
    if repo_format_version != 1 {
        return Ok(ObjectHash::Sha1);
    }
    match object_format {
        None => Ok(ObjectHash::Sha1),
        Some(format) => {
            let sha1: [u8; 4] = [0x73, 0x68, 0x61, 0x31];
            assert(sha1@ =~= word_sha1());
            if eq_ignore_ascii_case(format, &sha1) {
                Ok(ObjectHash::Sha1)
            } else {
                Err(Error::UnsupportedObjectFormat { name: copy_bytes(format) })
            }
        },
    }
}

/// The reflog mode that `core.logAllRefUpdates` asks for: `always`, or a
/// true boolean, or else none. `as_boolean` is the value read as a boolean,
/// if it is one.
pub fn reflog_mode(value: Option<&[u8]>, as_boolean: Option<bool>) -> (r: Option<WriteReflog>)
    ensures
        value.is_none() ==> r.is_none(),
        value.is_some() ==> r == Some(
            if eq_ignore_case(value.unwrap()@, word_always()) {
                WriteReflog::Always
            } else if as_boolean == Some(true) {
                WriteReflog::Normal
            } else {
                WriteReflog::Disable
            },
        ),
{
    match value {
        None => None,
        Some(v) => {
            let always: [u8; 6] = [0x61, 0x6c, 0x77, 0x61, 0x79, 0x73];
            assert(always@ =~= word_always());
            if eq_ignore_ascii_case(v, &always) {
                Some(WriteReflog::Always)
            } else if as_boolean == Some(true) {
                Some(WriteReflog::Normal)
            } else {
                Some(WriteReflog::Disable)
            }
        },
    }
}

/// What remains of `s` without its leading and trailing whitespace.
pub uninterp spec fn trimmed(s: Seq<u8>) -> Seq<u8>;

/// Relies on bstr's `ByteSlice::trim`: `s` without leading and trailing
/// Unicode whitespace, which depends on the bytes alone.
#[verifier::external_body]
fn trim(s: &[u8]) -> (r: &[u8])
    ensures
        r@ == trimmed(s@),
{
    bstr::ByteSlice::trim(s)
}

/// The abbreviation length that `core.abbrev` asks for, as
/// `abbrev_hex_len_of` gives it, where the value is blank when nothing but
/// whitespace is left after trimming it.
pub fn abbrev_hex_len(
    value: Option<&[u8]>,
    as_boolean: Option<bool>,
    as_integer: Option<i64>,
    hash: ObjectHash,
) -> (r: Result<Option<usize>, Error>)
    ensures
        value.is_none() ==> r matches Ok(None),
        value.is_some() && trimmed(value.unwrap()@).len() == 0 ==> r matches Err(Error::EmptyValue { .. }),
        value.is_some() && trimmed(value.unwrap()@).len() != 0 && eq_ignore_case(value.unwrap()@, word_auto())
            ==> r matches Ok(None),
        value.is_some() && trimmed(value.unwrap()@).len() != 0 && !eq_ignore_case(value.unwrap()@, word_auto())
            ==> {
            if as_boolean == Some(false) {
                r == Ok::<Option<usize>, Error>(Some(40usize))
            } else if as_integer matches Some(n) && 4 <= n <= 40 {
                r == Ok::<Option<usize>, Error>(Some(as_integer.unwrap() as usize))
            } else {
                r matches Err(Error::CoreAbbrev { value: v, max }) && v@ == value.unwrap()@ && max == 40
            }
        },
{
    let is_blank = match value {
        Some(v) => trim(v).len() == 0,
        None => false,
    };
    abbrev_hex_len_of(value, is_blank, as_boolean, as_integer, hash)
}

/// The abbreviation length that `core.abbrev` asks for. `is_blank` tells
/// whether the value is all whitespace, `as_boolean` and `as_integer` what it
/// reads as. `auto` leaves the length open, false asks for full ids, and an
/// integer must lie between 4 and the hash's length.
pub fn abbrev_hex_len_of(
    value: Option<&[u8]>,
    is_blank: bool,
    as_boolean: Option<bool>,
    as_integer: Option<i64>,
    hash: ObjectHash,
) -> (r: Result<Option<usize>, Error>)
    ensures
        value.is_none() ==> r matches Ok(None),
        value.is_some() && is_blank ==> r matches Err(Error::EmptyValue { .. }),
        value.is_some() && !is_blank && eq_ignore_case(value.unwrap()@, word_auto()) ==> r matches Ok(None),
        value.is_some() && !is_blank && !eq_ignore_case(value.unwrap()@, word_auto()) ==> {
            if as_boolean == Some(false) {
                r == Ok::<Option<usize>, Error>(Some(40usize))
            } else if as_integer matches Some(n) && 4 <= n <= 40 {
                r == Ok::<Option<usize>, Error>(Some(as_integer.unwrap() as usize))
            } else {
                r matches Err(Error::CoreAbbrev { value: v, max }) && v@ == value.unwrap()@ && max == 40
            }
        },
{
    let text = match value {
        None => {
            return Ok(None);
        },
        Some(v) => v,
    };
    if is_blank {
        return Err(Error::EmptyValue { key: "core.abbrev" });
    }
    let auto: [u8; 4] = [0x61, 0x75, 0x74, 0x6f];
    assert(auto@ =~= word_auto());
    if eq_ignore_ascii_case(text, &auto) {
        return Ok(None);
    }
    let max = hash.len_in_hex();
    if as_boolean == Some(false) {
        return Ok(Some(max));
    }
    match as_integer {
        Some(n) => {
            if 4 <= n && n <= 40 {
                Ok(Some(n as usize))
            } else {
                Err(Error::CoreAbbrev { value: copy_bytes(text), max: 40 })
            }
        },
        None => Err(Error::CoreAbbrev { value: copy_bytes(text), max: 40 }),
    }
}

} // verus!
