//! The indexes of the map and camera schema files: what lies on disk, what
//! the remote catalog offers, and which entry a request picks.
pub mod cam_schema;

use vstd::prelude::*;

use std::path::PathBuf;

use crate::api::cam_schema::{
    schema_valid, spec_schema_error_message, validate_outcome, widths_fit, CamConfig, SchemaError,
};
use crate::text::{decimal_text, spec_decimal, str_eq};

verus! {

broadcast use vstd::string::group_string_axioms;

/// `std::path::PathBuf`: a file path, carried through as it is.
#[verifier::external_type_specification]
#[verifier::external_body]
pub struct ExPathBuf(PathBuf);

/// The folder under the config cache that holds camera schema files.
pub const SCHEMA_FOLDER: &'static str = "cameras";

/// A map file that the remote index offers.
#[derive(Debug, Clone)]
pub struct NetworkAvailableMap {
    pub author: String,
    pub name: String,
    pub version: u32,
    pub url: String,
}

/// A map file on disk.
#[derive(Debug)]
pub struct LocalAvailableMap {
    pub author: String,
    pub name: String,
    pub version: u32,
    pub path: PathBuf,
}

/// One camera schema file on disk. The identity of an entry is the id and
/// the version.
#[derive(Debug)]
pub struct LocalAvailableSchema {
    pub id: String,
    pub version: u32,
    pub path: PathBuf,
}

impl LocalAvailableSchema {
    /// Two entries name the same schema: the same id and version, whatever
    /// their paths.
    pub fn same_schema(&self, other: &LocalAvailableSchema) -> (res: bool)
        ensures
            res == (self.id@ == other.id@ && self.version == other.version),
    {
        self.version == other.version && self.id == other.id
    }
}

/// Why a map or a schema could not be had.
#[derive(Debug, Clone)]
pub enum ApiRetrievalError {
    UnableToRetrieve(String),
    BadResponseFromServer(String),
    MapNotFound(String),
}

/// The local map with this author, name and version comes first in the
/// index at `i`.
pub open spec fn is_first_local(maps: Seq<LocalAvailableMap>, author: Seq<char>, name: Seq<char>, version: u32, i: int) -> bool {
    &&& 0 <= i < maps.len()
    &&& maps[i].author@ == author && maps[i].name@ == name && maps[i].version == version
    &&& forall|k: int|
        0 <= k < i ==> !(#[trigger] maps[k].author@ == author && maps[k].name@ == name && maps[k].version == version)
}

/// Finds the local copy of a map: the first entry with this author, name and
/// version.
pub fn find_local_map(maps: &[LocalAvailableMap], author: &str, name: &str, version: u32) -> (res: Option<usize>)
    ensures
        match res {
            Some(i) => is_first_local(maps@, author@, name@, version, i as int),
            None => forall|k: int|
                0 <= k < maps@.len() ==> !(#[trigger] maps@[k].author@ == author@ && maps@[k].name@ == name@
                    && maps@[k].version == version),
        },
{
    let mut i: usize = 0;
    while i < maps.len()
        invariant
            i <= maps@.len(),
            forall|k: int|
                0 <= k < i ==> !(#[trigger] maps@[k].author@ == author@ && maps@[k].name@ == name@ && maps@[k].version
                    == version),
        decreases maps@.len() - i,
    {
        let m = &maps[i];
        if str_eq(name, m.name.as_str()) && str_eq(author, m.author.as_str()) && m.version == version {
            return Some(i);
        }
        i += 1;
    }
    None
}

/// Finds a map in the remote index: the first entry with this author and
/// name, whatever its version.
pub fn find_remote_map(maps: &[NetworkAvailableMap], author: &str, name: &str) -> (res: Option<usize>)
    ensures
        match res {
            Some(i) => 0 <= i < maps@.len() && maps@[i as int].author@ == author@ && maps@[i as int].name@ == name@
                && forall|k: int|
                0 <= k < i ==> !(#[trigger] maps@[k].author@ == author@ && maps@[k].name@ == name@),
            None => forall|k: int|
                0 <= k < maps@.len() ==> !(#[trigger] maps@[k].author@ == author@ && maps@[k].name@ == name@),
        },
{
    let mut i: usize = 0;
    while i < maps.len()
        invariant
            i <= maps@.len(),
            forall|k: int| 0 <= k < i ==> !(#[trigger] maps@[k].author@ == author@ && maps@[k].name@ == name@),
        decreases maps@.len() - i,
    {
        let m = &maps[i];
        if str_eq(name, m.name.as_str()) && str_eq(author, m.author.as_str()) {
            return Some(i);
        }
        i += 1;
    }
    None
}

/// The order in which a schema request tries the files: the entries with
/// this id, highest version first. Entries of one version keep their index
/// order.
pub fn schema_candidates(entries: &[LocalAvailableSchema], id: &str) -> (res: Vec<usize>)
    ensures
        forall|k: int| 0 <= k < res@.len() ==> #[trigger] res@[k] < entries@.len() && entries@[res@[k] as int].id@ == id@,
        forall|i: int| 0 <= i < entries@.len() && entries@[i].id@ == id@ ==> #[trigger] res@.contains(i as usize),
        forall|a: int, b: int| 0 <= a < b < res@.len() ==> #[trigger] res@[a] != #[trigger] res@[b],
        forall|a: int, b: int|
            0 <= a < b < res@.len() ==> entries@[#[trigger] res@[a] as int].version >= entries@[#[trigger] res@[b] as int].version,
        forall|a: int, b: int|
            0 <= a < b < res@.len() && entries@[#[trigger] res@[a] as int].version == entries@[#[trigger] res@[b] as int].version
                ==> res@[a] < res@[b],
{
    let mut out: Vec<usize> = Vec::new();
    let mut i: usize = 0;
    while i < entries.len()
        invariant
            i <= entries@.len(),
            forall|k: int| 0 <= k < out@.len() ==> #[trigger] out@[k] < i && entries@[out@[k] as int].id@ == id@,
            forall|j: int| 0 <= j < i && entries@[j].id@ == id@ ==> #[trigger] out@.contains(j as usize),
            forall|a: int, b: int| 0 <= a < b < out@.len() ==> #[trigger] out@[a] != #[trigger] out@[b],
            forall|a: int, b: int|
                0 <= a < b < out@.len() ==> entries@[#[trigger] out@[a] as int].version >= entries@[#[trigger] out@[b] as int].version,
            forall|a: int, b: int|
                0 <= a < b < out@.len() && entries@[#[trigger] out@[a] as int].version == entries@[#[trigger] out@[b] as int].version
                    ==> out@[a] < out@[b],
        decreases entries@.len() - i,
    {
        if str_eq(entries[i].id.as_str(), id) {
            // Insert after every entry of a higher or equal version.
            let v = entries[i].version;
            let mut pos: usize = 0;
            while pos < out.len() && entries[out[pos]].version >= v
                invariant
                    pos <= out@.len(),
                    i < entries@.len(),
                    forall|k: int| 0 <= k < out@.len() ==> #[trigger] out@[k] < i,
                    forall|k: int| 0 <= k < pos ==> entries@[#[trigger] out@[k] as int].version >= v,
                decreases out@.len() - pos,
            {
                pos += 1;
            }
            let ghost before = out@;
            assert(forall|j: int| 0 <= j < i && entries@[j].id@ == id@ ==> #[trigger] before.contains(j as usize));
            out.insert(pos, i);
            assert forall|a: int, b: int| 0 <= a < b < out@.len() implies entries@[#[trigger] out@[a] as int].version
                >= entries@[#[trigger] out@[b] as int].version by {
                if a < pos && b == pos {
                    assert(out@[a] == before[a]);
                } else if a == pos && b > pos {
                    assert(out@[b] == before[b - 1]);
                    if b - 1 > pos {
                        assert(entries@[before[pos as int] as int].version >= entries@[before[b - 1] as int].version);
                    }
                } else if a < pos && b > pos {
                    assert(out@[a] == before[a]);
                    assert(out@[b] == before[b - 1]);
                } else if b < pos {
                    assert(out@[a] == before[a] && out@[b] == before[b]);
                } else {
                    assert(out@[a] == before[a - 1] && out@[b] == before[b - 1]);
                }
            }
            assert forall|a: int, b: int|
                0 <= a < b < out@.len() && entries@[#[trigger] out@[a] as int].version == entries@[#[trigger] out@[b] as int].version
                implies out@[a] < out@[b] by {
                if a < pos && b == pos {
                    assert(out@[a] == before[a]);
                } else if a == pos && b > pos {
                    assert(out@[b] == before[b - 1]);
                    assert(entries@[before[pos as int] as int].version >= entries@[before[b - 1] as int].version);
                } else if a < pos && b > pos {
                    assert(out@[a] == before[a]);
                    assert(out@[b] == before[b - 1]);
                } else if b < pos {
                    assert(out@[a] == before[a] && out@[b] == before[b]);
                } else {
                    assert(out@[a] == before[a - 1] && out@[b] == before[b - 1]);
                }
            }
            assert forall|j: int| 0 <= j < i + 1 && entries@[j].id@ == id@ implies #[trigger] out@.contains(j as usize) by {
                if j == i {
                    assert(out@[pos as int] == i);
                } else {
                    assert(before.contains(j as usize));
                    let k = choose|k: int| 0 <= k < before.len() && before[k] == j as usize;
                    if k < pos {
                        assert(out@[k] == before[k]);
                    } else {
                        assert(out@[k + 1] == before[k]);
                    }
                }
            }
            assert forall|a: int, b: int| 0 <= a < b < out@.len() implies #[trigger] out@[a] != #[trigger] out@[b] by {
                if a == pos as int {
                    assert(out@[b] == before[b - 1]);
                } else if b == pos as int {
                    assert(out@[a] == before[a]);
                }
            }
        } else {
            assert forall|j: int| 0 <= j < i + 1 && entries@[j].id@ == id@ implies #[trigger] out@.contains(j as usize) by {
            }
        }
        i += 1;
    }
    out
}

/// The first remote map with this author and name is at `i`.
pub open spec fn is_first_remote(maps: Seq<NetworkAvailableMap>, author: Seq<char>, name: Seq<char>, i: int) -> bool {
    &&& 0 <= i < maps.len()
    &&& maps[i].author@ == author && maps[i].name@ == name
    &&& forall|k: int| 0 <= k < i ==> !(#[trigger] maps[k].author@ == author && maps[k].name@ == name)
}

/// Where a map request is served from.
#[derive(Debug, Clone, Copy, PartialEq, Eq, Structural)]
pub enum MapSource {
    /// The local file at this index of the local index.
    Local(usize),
    /// The remote map at this index of the remote index.
    Remote(usize),
    /// Neither index has it.
    NotFound,
}

/// Picks where a map comes from: the local copy of exactly this version
/// first; else the first remote map of this author and name, whatever its
/// version; else nowhere. A remote index that was never fetched offers
/// nothing.
pub fn choose_map_source(
    local: &[LocalAvailableMap],
    remote: &Option<Vec<NetworkAvailableMap>>,
    author: &str,
    name: &str,
    version: u32,
) -> (res: MapSource)
    ensures
        match res {
            MapSource::Local(i) => is_first_local(local@, author@, name@, version, i as int),
            MapSource::Remote(i) => {
                &&& forall|k: int|
                    0 <= k < local@.len() ==> !(#[trigger] local@[k].author@ == author@ && local@[k].name@ == name@
                        && local@[k].version == version)
                &&& remote matches Some(r) && is_first_remote(r@, author@, name@, i as int)
            },
            MapSource::NotFound => {
                &&& forall|k: int|
                    0 <= k < local@.len() ==> !(#[trigger] local@[k].author@ == author@ && local@[k].name@ == name@
                        && local@[k].version == version)
                &&& remote matches Some(r) ==> forall|k: int|
                    0 <= k < r@.len() ==> !(#[trigger] r@[k].author@ == author@ && r@[k].name@ == name@)
            },
        },
{
    match find_local_map(local, author, name, version) {
        Some(i) => MapSource::Local(i),
        None => match remote {
            Some(r) => match find_remote_map(r.as_slice(), author, name) {
                Some(i) => MapSource::Remote(i),
                None => MapSource::NotFound,
            },
            None => MapSource::NotFound,
        },
    }
}

/// The file name under which a fetched map is cached:
/// `<author>_<name>_<version>.json`.
pub fn cache_file_name(author: &str, name: &str, version: u32) -> (res: String)
    ensures
        res@ == author@ + "_"@ + name@ + "_"@ + spec_decimal(version as nat) + ".json"@,
{
    let mut s = String::from_str(author);
    s.append("_");
    s.append(name);
    s.append("_");
    let v = decimal_text(version);
    s.append(v.as_str());
    s.append(".json");
    s
}

/// The address of a remote map: the base address and the map's path.
pub fn remote_map_url(base_url: &str, map: &NetworkAvailableMap) -> (res: String)
    ensures
        res@ == base_url@ + map.url@,
{
    let mut s = String::from_str(base_url);
    s.append(map.url.as_str());
    s
}

/// The local index entry of a fetched map once it is cached at `path`: the
/// author, name and version that the server listed.
pub fn cached_map_entry(remote: &NetworkAvailableMap, path: PathBuf) -> (res: LocalAvailableMap)
    ensures
        res.author@ == remote.author@,
        res.name@ == remote.name@,
        res.version == remote.version,
        res.path == path,
{
    LocalAvailableMap { author: remote.author.clone(), name: remote.name.clone(), version: remote.version, path }
}

impl ApiRetrievalError {
    /// No index holds the map.
    pub fn map_not_found(author: &str, name: &str, version: u32) -> (res: Self)
        ensures
            res matches ApiRetrievalError::MapNotFound(m) && m@ == "No Map found for:  Author:"@ + author@
                + ", name:"@ + name@ + ", version:"@ + spec_decimal(version as nat),
    {
        let mut s = String::from_str("No Map found for:  Author:");
        s.append(author);
        s.append(", name:");
        s.append(name);
        s.append(", version:");
        let v = decimal_text(version);
        s.append(v.as_str());
        ApiRetrievalError::MapNotFound(s)
    }

    /// The server sent something that is not a map.
    pub fn bad_remote_map(map: &NetworkAvailableMap) -> (res: Self)
        ensures
            res matches ApiRetrievalError::BadResponseFromServer(m) && m@ == "Bad map received from server. Author:"@
                + map.author@ + ", name:"@ + map.name@ + ", version:"@ + spec_decimal(map.version as nat),
    {
        let mut s = String::from_str("Bad map received from server. Author:");
        s.append(map.author.as_str());
        s.append(", name:");
        s.append(map.name.as_str());
        s.append(", version:");
        let v = decimal_text(map.version);
        s.append(v.as_str());
        ApiRetrievalError::BadResponseFromServer(s)
    }

    /// The fetch of an address failed.
    pub fn unreachable(url: &str) -> (res: Self)
        ensures
            res matches ApiRetrievalError::UnableToRetrieve(m) && m@ == "Error Retrieving: "@ + url@,
    {
        let mut s = String::from_str("Error Retrieving: ");
        s.append(url);
        ApiRetrievalError::UnableToRetrieve(s)
    }

    /// No schema file has this id.
    pub fn no_schema(id: &str) -> (res: Self)
        ensures
            res matches ApiRetrievalError::MapNotFound(m) && m@ == "No camera schema found for id: "@ + id@,
    {
        let mut s = String::from_str("No camera schema found for id: ");
        s.append(id);
        ApiRetrievalError::MapNotFound(s)
    }

    /// Every schema file with this id failed; `last_error` tells why the last
    /// one did.
    pub fn no_usable_schema(id: &str, last_error: &str) -> (res: Self)
        ensures
            res matches ApiRetrievalError::BadResponseFromServer(m) && m@ == "No usable camera schema for id "@ + id@
                + ". Last error: "@ + last_error@,
    {
        let mut s = String::from_str("No usable camera schema for id ");
        s.append(id);
        s.append(". Last error: ");
        s.append(last_error);
        ApiRetrievalError::BadResponseFromServer(s)
    }
}

/// A schema file read for a request can be used: it reads, its widths add
/// up within a `u32`, and it passes `validate`.
pub open spec fn usable_schema(a: (String, Result<CamConfig, String>)) -> bool {
    a.1 matches Ok(c) && widths_fit(c) && schema_valid(c)
}

/// `msg` says why a schema file read for a request cannot be used: the text
/// that names the file, then what went wrong.
pub open spec fn schema_failure(a: (String, Result<CamConfig, String>), msg: Seq<char>) -> bool {
    match a.1 {
        Ok(c) => if !widths_fit(c) {
            msg == a.0@ + ": field widths overflow"@
        } else {
            exists|e: SchemaError| validate_outcome(c, Err(e)) && msg == a.0@ + ": "@ + spec_schema_error_message(e)
        },
        Err(why) => msg == a.0@ + ": "@ + why@,
    }
}

/// `answers` holds, for the first `n` candidates in order, an answer of
/// `read` to that candidate.
pub open spec fn schema_answers<F: Fn(usize) -> (String, Result<CamConfig, String>)>(
    read: F,
    candidates: Seq<usize>,
    answers: Seq<(String, Result<CamConfig, String>)>,
    n: int,
) -> bool {
    &&& answers.len() == n
    &&& forall|k: int| 0 <= k < n ==> call_ensures(read, (candidates[k],), #[trigger] answers[k])
}

/// Every answer of `read` for candidate `c` can be used.
pub open spec fn always_usable<F: Fn(usize) -> (String, Result<CamConfig, String>)>(read: F, c: usize) -> bool {
    forall|a: (String, Result<CamConfig, String>)| #[trigger] call_ensures(read, (c,), a) ==> usable_schema(a)
}

fn join_error(name: String, why: &str) -> (res: String)
    ensures
        res@ == name@ + ": "@ + why@,
{
    let mut s = name;
    s.append(": ");
    s.append(why);
    s
}

/// Picks the camera schema of a request among the candidate files, in
/// candidate order: the first one that reads and validates. `read` reads a
/// candidate: the text that names its file, and its schema or why it does
/// not read. With no candidate, the request has no schema; when none can be
/// used, the error tells why the last one could not.
pub fn pick_schema<F: Fn(usize) -> (String, Result<CamConfig, String>)>(
    id: &str,
    candidates: &[usize],
    read: F,
) -> (res: Result<CamConfig, ApiRetrievalError>)
    requires
        forall|c: usize| call_requires(read, (c,)),
    ensures
        candidates@.len() == 0 <==> (res matches Err(ApiRetrievalError::MapNotFound(m)) && m@
            == "No camera schema found for id: "@ + id@),
        res matches Ok(c) ==> exists|answers: Seq<(String, Result<CamConfig, String>)>|
            #[trigger] schema_answers(read, candidates@, answers, answers.len() as int) && answers.len() > 0
                && (forall|k: int| 0 <= k < answers.len() - 1 ==> !usable_schema(#[trigger] answers[k]))
                && answers.last().1 == Ok::<CamConfig, String>(c) && usable_schema(answers.last()),
        res matches Err(ApiRetrievalError::BadResponseFromServer(m)) ==> candidates@.len() > 0 && exists|
            answers: Seq<(String, Result<CamConfig, String>)>,
            last: Seq<char>,
        |
            #[trigger] schema_answers(read, candidates@, answers, candidates@.len() as int) && (forall|k: int|
                0 <= k < answers.len() ==> !usable_schema(#[trigger] answers[k])) && #[trigger] schema_failure(
                answers.last(),
                last,
            ) && m@ == "No usable camera schema for id "@ + id@ + ". Last error: "@ + last,
        (exists|j: int| 0 <= j < candidates@.len() && #[trigger] always_usable(read, candidates@[j])) ==> res is Ok,
        res is Ok || res matches Err(ApiRetrievalError::MapNotFound(_)) || res matches Err(
            ApiRetrievalError::BadResponseFromServer(_),
        ),
{
    if candidates.len() == 0 {
        return Err(ApiRetrievalError::no_schema(id));
    }
    let mut last = String::new();
    let ghost mut answers: Seq<(String, Result<CamConfig, String>)> = Seq::empty();
    let mut k: usize = 0;
    while k < candidates.len()
        invariant
            k <= candidates@.len(),
            candidates@.len() > 0,
            forall|c: usize| call_requires(read, (c,)),
            schema_answers(read, candidates@, answers, k as int),
            forall|j: int| 0 <= j < k ==> !usable_schema(#[trigger] answers[j]),
            k > 0 ==> schema_failure(answers.last(), last@),
        decreases candidates@.len() - k,
    {
        let a = read(candidates[k]);
        let ghost ga = a;
        proof {
            answers = answers.push(ga);
            assert forall|j: int| 0 <= j < k + 1 implies call_ensures(read, (candidates@[j],), #[trigger] answers[j]) by {
                if j < k {
                    assert(answers[j] == answers.drop_last()[j]);
                }
            }
        }
        let (name, r) = a;
        match r {
            Ok(c) => {
                if !c.fits_u32() {
                    last = join_error(name, "field widths overflow");
                    proof {
                        reveal_strlit("field widths overflow");
                        reveal_strlit(": ");
                        assert(": "@ + "field widths overflow"@ =~= ": field widths overflow"@) by {
                            reveal_strlit(": field widths overflow");
                        }
                        assert(last@ =~= ga.0@ + ": field widths overflow"@) by {
                            reveal_strlit(": field widths overflow");
                        }
                    }
                } else {
                    match c.validate() {
                        Ok(()) => {
                            proof {
                                assert(schema_answers(read, candidates@, answers, answers.len() as int));
                                assert forall|j: int| 0 <= j < answers.len() - 1 implies !usable_schema(
                                    #[trigger] answers[j],
                                ) by {}
                            }
                            return Ok(c);
                        },
                        Err(e) => {
                            let msg = e.message();
                            last = join_error(name, msg.as_str());
                            proof {
                                assert(validate_outcome(ga.1->Ok_0, Err(e)));
                            }
                        },
                    }
                }
            },
            Err(why) => {
                last = join_error(name, why.as_str());
            },
        }
        k += 1;
    }
    proof {
        assert(schema_answers(read, candidates@, answers, candidates@.len() as int));
        assert forall|j: int|
            0 <= j < candidates@.len() && #[trigger] always_usable(read, candidates@[j]) implies false by {
            assert(call_ensures(read, (candidates@[j],), answers[j]));
        }
    }
    Err(ApiRetrievalError::no_usable_schema(id, last.as_str()))
}

} // verus!
