//! The cache of remote JSON documents: one file per request key, named by
//! the key's fingerprint, written once and never replaced.

use vstd::prelude::*;
use vstd::string::StringExecFns;
use vstd::string::StringSliceAdditionalSpecFns;
use vstd::utf8::encode_utf8;
use crate::failure::Failure;
use crate::json::{document_of, parse, Json, JsonValue};
use crate::text::digit;

verus! {

/// The MD5 digest of `data`, as the `md5` crate computes it. What it is
/// for given data is not stated here.
pub uninterp spec fn md5_of(data: Seq<u8>) -> Seq<u8>;

/// `md5::compute` on `data`: the bytes of the digest, in order. Believed
/// without proof: the same data always give the same digest, which
/// `md5_of(data)` names.
#[verifier::external_body]
fn md5_digest(data: &[u8]) -> (out: Vec<u8>)
    ensures
        out@ == md5_of(data@),
{
    md5::compute(data).0.to_vec()
}

/// The character for one hexadecimal digit, in lower case.
pub open spec fn hex_digit(d: int) -> char {
    if d < 10 {
        digit(d)
    } else {
        (d + 87) as u8 as char
    }
}

/// `bytes` in hexadecimal: two lower-case digits for each byte.
pub open spec fn hex(bytes: Seq<u8>) -> Seq<char>
    decreases bytes.len(),
{
    if bytes.len() == 0 {
        Seq::empty()
    } else {
        hex(bytes.drop_last()).push(hex_digit(bytes.last() as int / 16)).push(
            hex_digit(bytes.last() as int % 16),
        )
    }
}

/// The fingerprint of a request key: the MD5 digest of its UTF-8 bytes, in
/// hexadecimal.
pub open spec fn fingerprint(key: Seq<char>) -> Seq<char> {
    hex(md5_of(encode_utf8(key)))
}

/// The name of the cache file for a request key.
pub open spec fn entry_file(key: Seq<char>) -> Seq<char> {
    fingerprint(key) + ".json"@
}

fn hex_char(d: u8) -> (c: char)
    requires
        d < 16,
    ensures
        c == hex_digit(d as int),
{
    if d < 10 {
        (d + 48) as char
    } else {
        (d + 87) as char
    }
}

/// `bytes` in hexadecimal: two lower-case digits for each byte.
pub fn to_hex(bytes: &Vec<u8>) -> (out: String)
    ensures
        out@ == hex(bytes@),
{
    let mut out = String::new();
    let mut i: usize = 0;
    assert(bytes@.take(0) =~= Seq::empty());
    while i < bytes.len()
        invariant
            i <= bytes.len(),
            out@ == hex(bytes@.take(i as int)),
        decreases bytes.len() - i,
    {
        let byte = bytes[i];
        assert(bytes@.take(i + 1).drop_last() =~= bytes@.take(i as int));
        out.push(hex_char(byte / 16));
        out.push(hex_char(byte % 16));
        i += 1;
    }
    assert(bytes@.take(bytes.len() as int) =~= bytes@);
    out
}

/// The name of the cache file for the request key `key`.
pub fn entry_name(key: &str) -> (name: String)
    ensures
        name@ == entry_file(key@),
{
    let digest = md5_digest(key.as_bytes());
    let mut name = to_hex(&digest);
    name.append(".json");
    name
}

/// What a look into the cache finds.
#[derive(Debug, PartialEq, Eq)]
pub enum Lookup {
    /// The entry is there; this is its document. Nothing is fetched.
    Hit(Json),
    /// The entry is there, but is no JSON: the run fails.
    Corrupt,
    /// There is no entry: the document has to be fetched.
    Miss,
}

/// The mathematical value of a `Lookup`.
pub enum Found {
    Hit(JsonValue),
    Corrupt,
    Miss,
}

impl View for Lookup {
    type V = Found;

    open spec fn view(&self) -> Found {
        match self {
            Lookup::Hit(doc) => Found::Hit(doc@),
            Lookup::Corrupt => Found::Corrupt,
            Lookup::Miss => Found::Miss,
        }
    }
}

/// What a look into the cache finds, given the bytes of the entry's file
/// where the file is there.
pub open spec fn looked_up(stored: Option<Seq<u8>>) -> Found {
    match stored {
        None => Found::Miss,
        Some(bytes) => match document_of(bytes) {
            Some(doc) => Found::Hit(doc),
            None => Found::Corrupt,
        },
    }
}

/// What a fetched body yields: its document, or a transport failure where
/// it cannot be decoded.
pub open spec fn taken_in(body: Seq<u8>) -> Result<JsonValue, Failure> {
    match document_of(body) {
        Some(doc) => Ok(doc),
        None => Err(Failure::Transport),
    }
}

/// Decides a lookup from what was read of the entry's file: `None` where
/// the file is not there.
pub fn look_up(stored: Option<&Vec<u8>>) -> (r: Lookup)
    ensures
        r@ == looked_up(
            match stored {
                Some(bytes) => Some(bytes@),
                None => None,
            },
        ),
{
    match stored {
        None => Lookup::Miss,
        Some(bytes) => match parse(bytes.as_slice()) {
            Some(doc) => Lookup::Hit(doc),
            None => Lookup::Corrupt,
        },
    }
}

/// Takes in the body that was fetched after a miss. Where this returns a
/// document, the body is what the entry's file is to hold.
pub fn take_in(body: &Vec<u8>) -> (r: Result<Json, Failure>)
    ensures
        match r {
            Ok(doc) => taken_in(body@) == Ok::<JsonValue, Failure>(doc@),
            Err(e) => taken_in(body@) == Err::<JsonValue, Failure>(e),
        },
{
    match parse(body.as_slice()) {
        Some(doc) => Ok(doc),
        None => Err(Failure::Transport),
    }
}

/// The outcome of one `get`: the store afterwards, what the caller
/// receives, and how many fetches were made.
pub struct Got {
    pub store: Map<Seq<char>, Seq<u8>>,
    pub outcome: Result<JsonValue, Failure>,
    pub fetches: nat,
}

/// One `get` of `key` against the files of `store`, where a fetch of the
/// key would be answered with `remote` (`None`: the fetch fails). A hit
/// returns the stored document; a corrupt entry fails; a miss fetches once,
/// and stores the body where it decodes.
pub open spec fn get(
    store: Map<Seq<char>, Seq<u8>>,
    key: Seq<char>,
    remote: Option<Seq<u8>>,
) -> Got {
    let name = entry_file(key);
    let stored = if store.dom().contains(name) {
        Some(store[name])
    } else {
        None
    };
    match looked_up(stored) {
        Found::Hit(doc) => Got { store, outcome: Ok(doc), fetches: 0 },
        Found::Corrupt => Got { store, outcome: Err(Failure::CacheCorruption), fetches: 0 },
        Found::Miss => match remote {
            None => Got { store, outcome: Err(Failure::Transport), fetches: 1 },
            Some(body) => match taken_in(body) {
                Ok(doc) => Got { store: store.insert(name, body), outcome: Ok(doc), fetches: 1 },
                Err(e) => Got { store, outcome: Err(e), fetches: 1 },
            },
        },
    }
}

/// A second `get` of a key, on the store that a first, successful `get`
/// left, fetches nothing and returns the same document, whatever the remote
/// side would now answer. Two such calls on a store without the entry make
/// one fetch between them.
pub proof fn second_get_is_served_from_the_store(
    store: Map<Seq<char>, Seq<u8>>,
    key: Seq<char>,
    remote: Option<Seq<u8>>,
    later: Option<Seq<u8>>,
)
    requires
        get(store, key, remote).outcome is Ok,
    ensures
        get(get(store, key, remote).store, key, later).fetches == 0,
        get(get(store, key, remote).store, key, later).outcome == get(store, key, remote).outcome,
        get(get(store, key, remote).store, key, later).store == get(store, key, remote).store,
        !store.dom().contains(entry_file(key)) ==> get(store, key, remote).fetches + get(
            get(store, key, remote).store,
            key,
            later,
        ).fetches == 1,
{
}

/// A `get` changes no entry but that of its own key, and replaces none
/// that is there.
pub proof fn entries_are_written_once(
    store: Map<Seq<char>, Seq<u8>>,
    key: Seq<char>,
    remote: Option<Seq<u8>>,
    name: Seq<char>,
)
    requires
        store.dom().contains(name),
    ensures
        get(store, key, remote).store.dom().contains(name),
        get(store, key, remote).store[name] == store[name],
{
}

} // verus!
