//! CHARX packages: a ZIP archive (optionally behind a JPEG preview) holding
//! `card.json` and the card's assets. The zip crate reads the archive; the
//! checks on its entries, the limits and the summary kept for the package
//! are this module's.

use vstd::prelude::*;

use crate::character_compat::{
    copy_prefix, ensure_size, is_complete_jpeg, size_message, valid_jpeg_prefix,
    CharacterCompatError, MAX_CHARX_BYTES, MAX_CHARX_ENTRIES, MAX_CHARX_ENTRY_BYTES,
    MAX_CHARX_EXPANDED_BYTES, MAX_JSON_BYTES,
};
use crate::checksum::{sha256_hex, sha256_hex_of};
use crate::json::{as_text, json_field, member, parse_json, parsed_json, JsonValue};
use crate::text::{
    all_ascii, contains_char, debug_quoted, debug_quoted_text, decimal_text, ends_with,
    format_decimal, is_ascii_text, is_prefix_of, is_suffix_of, push_str, starts_with, str_eq,
    strip_prefix,
};

verus! {

#[verifier::external_type_specification]
#[verifier::external_body]
#[verifier::reject_recursive_types(R)]
pub struct ExZipArchive<R>(zip::ZipArchive<R>);

#[verifier::external_type_specification]
#[verifier::external_body]
#[verifier::reject_recursive_types(T)]
pub struct ExCursor<T>(std::io::Cursor<T>);

/// What the zip crate reports of one entry.
#[derive(Debug, Clone)]
pub struct ZipEntryInfo {
    pub name: String,
    /// `enclosed_name()` found a safe relative path.
    pub enclosed: bool,
    pub encrypted: bool,
    pub symbolic_link: bool,
    pub directory: bool,
    pub regular_file: bool,
    /// Declared uncompressed size.
    pub size: u64,
}

/// The facts the zip crate reports of an entry, as plain values: its name,
/// whether `enclosed_name()` finds a safe relative path, whether it is
/// encrypted, a symbolic link, a directory, a regular file, and its declared
/// uncompressed size.
pub open spec fn entry_facts(info: ZipEntryInfo) -> (Seq<char>, bool, bool, bool, bool, bool, u64) {
    (info.name@, info.enclosed, info.encrypted, info.symbolic_link, info.directory, info.regular_file, info.size)
}

/// The message of the error `zip::ZipArchive::new` gives for the bytes, or
/// `None` where it reads the central directory.
pub uninterp spec fn zip_open_error(bytes: Seq<u8>) -> Option<Seq<char>>;

/// `ZipArchive::len` of the archive read from the bytes.
pub uninterp spec fn zip_entry_total(bytes: Seq<u8>) -> nat;

/// `ZipArchive::offset` of the archive read from the bytes.
pub uninterp spec fn zip_archive_offset(bytes: Seq<u8>) -> u64;

/// What `ZipArchive::by_index(index)` reports of the entry of the archive
/// read from the bytes (see `entry_facts`), or the message of its error.
pub uninterp spec fn zip_entry_facts(bytes: Seq<u8>, index: nat) -> Result<
    (Seq<char>, bool, bool, bool, bool, bool, u64),
    Seq<char>,
>;

/// The data `by_index(index)` gives through `take(limit)` and
/// `read_to_end`, or the error: `(false, message)` from the zip crate,
/// `(true, message)` from reading.
pub uninterp spec fn zip_entry_content(bytes: Seq<u8>, index: nat, limit: u64) -> Result<
    Seq<u8>,
    (bool, Seq<char>),
>;

/// An archive opened over some bytes, with those bytes kept for the
/// contracts. Only `open_zip` makes one.
struct ZipReader<'a> {
    archive: zip::ZipArchive<std::io::Cursor<&'a [u8]>>,
    source: Ghost<Seq<u8>>,
}

impl<'a> ZipReader<'a> {
    closed spec fn source(&self) -> Seq<u8> {
        self.source@
    }
}

/// `zip::ZipArchive::new` over the bytes. Claimed: it fails exactly where
/// the named `zip_open_error` gives a message, with that message, and the
/// archive it opens is the one of these bytes.
#[verifier::external_body]
fn open_zip<'a>(bytes: &'a [u8]) -> (reader: Result<ZipReader<'a>, String>)
    ensures
        match reader {
            Ok(r) => zip_open_error(bytes@) is None && r.source() == bytes@,
            Err(message) => zip_open_error(bytes@) == Some(message@),
        },
{
    match zip::ZipArchive::new(std::io::Cursor::new(bytes)) {
        Ok(archive) => Ok(ZipReader { archive, source: Ghost(bytes@) }),
        Err(error) => Err(error.to_string()),
    }
}

/// `ZipArchive::len`: the named `zip_entry_total` of the archive's bytes.
#[verifier::external_body]
fn zip_entry_count<'a>(reader: &ZipReader<'a>) -> (count: usize)
    ensures
        count == zip_entry_total(reader.source()),
{
    reader.archive.len()
}

/// `ZipArchive::offset`: the named `zip_archive_offset` of the archive's
/// bytes.
#[verifier::external_body]
fn zip_offset<'a>(reader: &ZipReader<'a>) -> (offset: u64)
    ensures
        offset == zip_archive_offset(reader.source()),
{
    reader.archive.offset()
}

/// `ZipArchive::by_index` and the entry's `name`, `enclosed_name`,
/// `encrypted`, `is_symlink`, `is_dir`, `is_file` and `size`; a zip error's
/// message otherwise. Claimed: the named `zip_entry_facts` of the archive's
/// bytes and the index; the archive stays the one of those bytes.
#[verifier::external_body]
fn zip_entry_info<'a>(reader: &mut ZipReader<'a>, index: usize) -> (info: Result<ZipEntryInfo, String>)
    ensures
        final(reader).source() == old(reader).source(),
        match info {
            Ok(i) => zip_entry_facts(old(reader).source(), index as nat) == Ok::<
                (Seq<char>, bool, bool, bool, bool, bool, u64),
                Seq<char>,
            >(entry_facts(i)),
            Err(message) => zip_entry_facts(old(reader).source(), index as nat) == Err::<
                (Seq<char>, bool, bool, bool, bool, bool, u64),
                Seq<char>,
            >(message@),
        },
{
    let entry = reader.archive.by_index(index).map_err(|error| error.to_string())?;
    let name = entry.name().map_err(|error| error.to_string())?.into_owned();
    Ok(ZipEntryInfo {
        enclosed: entry.enclosed_name().is_some(),
        encrypted: entry.encrypted(),
        symbolic_link: entry.is_symlink(),
        directory: entry.is_dir(),
        regular_file: entry.is_file(),
        size: entry.size(),
        name,
    })
}

/// `ZipArchive::by_index`, then `read_to_end` through `take(read_limit)`.
/// Claimed: the named `zip_entry_content`, a zip error as `Zip` and a read
/// error as `Io`; at most `read_limit` bytes come back (`Take` stops there).
#[verifier::external_body]
fn zip_entry_data<'a>(reader: &mut ZipReader<'a>, index: usize, read_limit: u64) -> (data: Result<
    Vec<u8>,
    CharacterCompatError,
>)
    ensures
        final(reader).source() == old(reader).source(),
        match data {
            Ok(bytes) => zip_entry_content(old(reader).source(), index as nat, read_limit) == Ok::<
                Seq<u8>,
                (bool, Seq<char>),
            >(bytes@) && bytes@.len() <= read_limit,
            Err(CharacterCompatError::Zip(message)) => zip_entry_content(
                old(reader).source(),
                index as nat,
                read_limit,
            ) == Err::<Seq<u8>, (bool, Seq<char>)>((false, message@)),
            Err(CharacterCompatError::Io(message)) => zip_entry_content(
                old(reader).source(),
                index as nat,
                read_limit,
            ) == Err::<Seq<u8>, (bool, Seq<char>)>((true, message@)),
            Err(_) => false,
        },
{
    let entry = match reader.archive.by_index(index) {
        Ok(entry) => entry,
        Err(error) => return Err(CharacterCompatError::Zip(error.to_string())),
    };
    let mut output = Vec::new();
    match std::io::Read::read_to_end(&mut std::io::Read::take(entry, read_limit), &mut output) {
        Ok(_) => Ok(output),
        Err(error) => Err(CharacterCompatError::Io(error.to_string())),
    }
}

pub open spec fn texts(v: Seq<String>) -> Seq<Seq<char>> {
    v.map_values(|s: String| s@)
}

/// The entries seen so far while walking an archive.
#[derive(Debug)]
pub struct CharxScan {
    /// Every entry name, directories included.
    pub names: Vec<String>,
    /// The regular files read.
    pub entry_paths: Vec<String>,
    pub card_json: Option<Vec<u8>>,
    pub asset_count: usize,
    pub has_x_meta: bool,
    pub has_module_risum: bool,
    pub expanded_bytes: u64,
    pub non_ascii_path: bool,
}

impl CharxScan {
    pub fn new() -> (scan: CharxScan)
        ensures
            scan.names@.len() == 0,
            scan.entry_paths@.len() == 0,
            scan.card_json is None,
            scan.asset_count == 0,
            !scan.has_x_meta,
            !scan.has_module_risum,
            scan.expanded_bytes == 0,
            !scan.non_ascii_path,
    {
        CharxScan {
            names: Vec::new(),
            entry_paths: Vec::new(),
            card_json: None,
            asset_count: 0,
            has_x_meta: false,
            has_module_risum: false,
            expanded_bytes: 0,
            non_ascii_path: false,
        }
    }
}

/// The expanded size allowed for an entry.
pub open spec fn entry_limit(name: Seq<char>) -> u64 {
    if name == "card.json"@ {
        MAX_JSON_BYTES
    } else {
        MAX_CHARX_ENTRY_BYTES
    }
}

/// Why an entry is refused, checked in this order: a repeated name, an
/// unsafe path, encryption, a symbolic link, a directory with data,
/// something other than a regular file, a declared size out of range.
pub open spec fn entry_problem(
    seen: Seq<Seq<char>>,
    facts: (Seq<char>, bool, bool, bool, bool, bool, u64),
) -> Option<Seq<char>> {
    let (name, enclosed, encrypted, symbolic_link, directory, regular_file, size) = facts;
    let quoted = debug_quoted_text(name);
    if seen.contains(name) {
        Some("CHARX contains duplicate entry "@ + quoted)
    } else if !enclosed || name.contains('\\') {
        Some("CHARX contains unsafe entry path "@ + quoted)
    } else if encrypted {
        Some("CHARX entry "@ + quoted + " is encrypted"@)
    } else if symbolic_link {
        Some("CHARX entry "@ + quoted + " is a symbolic link"@)
    } else if directory {
        if size != 0 {
            Some("CHARX directory entry "@ + quoted + " contains data"@)
        } else {
            None
        }
    } else if !regular_file {
        Some("CHARX entry "@ + quoted + " is not a regular file"@)
    } else if size > entry_limit(name) || (name == "card.json"@ && size == 0) {
        Some("CHARX entry "@ + quoted + " has an invalid expanded size"@)
    } else {
        None
    }
}

fn entry_error(prefix: &str, name: &str, suffix: &str) -> (error: CharacterCompatError)
    ensures
        error matches CharacterCompatError::Invalid(m) && m@ == prefix@ + debug_quoted_text(name@) + suffix@,
{
    let mut message = String::from_str(prefix);
    push_str(&mut message, debug_quoted(name).as_str());
    push_str(&mut message, suffix);
    CharacterCompatError::Invalid(message)
}

fn contains_text(list: &Vec<String>, text: &str) -> (found: bool)
    ensures
        found == texts(list@).contains(text@),
{
    let mut i: usize = 0;
    while i < list.len()
        invariant
            i <= list@.len(),
            forall|k: int| 0 <= k < i ==> list@[k]@ != text@,
        decreases list@.len() - i,
    {
        if str_eq(list[i].as_str(), text) {
            assert(texts(list@)[i as int] == text@);
            return true;
        }
        i += 1;
    }
    assert forall|k: int| 0 <= k < texts(list@).len() implies texts(list@)[k] != text@ by {}
    false
}

/// Admits the next entry: records its name and whether it is ASCII, and
/// says what to read of it: nothing for a directory, else up to its limit.
pub fn screen_entry(scan: &mut CharxScan, info: &ZipEntryInfo) -> (result: Result<Option<u64>, CharacterCompatError>)
    ensures
        match entry_problem(texts(old(scan).names@), entry_facts(*info)) {
            Some(message) => result matches Err(CharacterCompatError::Invalid(m)) && m@ == message,
            None => {
                &&& result matches Ok(read)
                &&& read == (if info.directory {
                    None
                } else {
                    Some(entry_limit(info.name@))
                })
                &&& texts(final(scan).names@) == texts(old(scan).names@).push(info.name@)
                &&& final(scan).non_ascii_path == (old(scan).non_ascii_path || !all_ascii(info.name@))
                &&& final(scan).entry_paths@ == old(scan).entry_paths@
                &&& final(scan).card_json == old(scan).card_json
                &&& final(scan).asset_count == old(scan).asset_count
                &&& final(scan).has_x_meta == old(scan).has_x_meta
                &&& final(scan).has_module_risum == old(scan).has_module_risum
                &&& final(scan).expanded_bytes == old(scan).expanded_bytes
            },
        },
{
    proof {
        reveal_strlit("");
    }
    let name = info.name.as_str();
    if contains_text(&scan.names, name) {
        return Err(entry_error("CHARX contains duplicate entry ", name, ""));
    }
    let ghost before = texts(scan.names@);
    scan.names.push(info.name.clone());
    assert(texts(scan.names@) =~= before.push(info.name@));
    if !info.enclosed || contains_char(name, '\\') {
        return Err(entry_error("CHARX contains unsafe entry path ", name, ""));
    }
    if info.encrypted {
        return Err(entry_error("CHARX entry ", name, " is encrypted"));
    }
    if info.symbolic_link {
        return Err(entry_error("CHARX entry ", name, " is a symbolic link"));
    }
    if !is_ascii_text(name) {
        scan.non_ascii_path = true;
    }
    if info.directory {
        if info.size != 0 {
            return Err(entry_error("CHARX directory entry ", name, " contains data"));
        }
        return Ok(None);
    }
    if !info.regular_file {
        return Err(entry_error("CHARX entry ", name, " is not a regular file"));
    }
    let is_card = str_eq(name, "card.json");
    let limit = if is_card {
        MAX_JSON_BYTES
    } else {
        MAX_CHARX_ENTRY_BYTES
    };
    if info.size > limit || (is_card && info.size == 0) {
        return Err(entry_error("CHARX entry ", name, " has an invalid expanded size"));
    }
    Ok(Some(limit))
}

/// Why read data is refused: more than the entry's limit, or more than the
/// whole package may expand to.
pub open spec fn data_problem(expanded: u64, name: Seq<char>, length: nat, limit: u64) -> Option<Seq<char>> {
    if length > limit {
        Some(
            "CHARX entry "@ + debug_quoted_text(name) + " exceeds "@ + decimal_text(limit as nat)
                + " expanded bytes"@,
        )
    } else if expanded + length > MAX_CHARX_EXPANDED_BYTES {
        Some("CHARX expands beyond 209715200 bytes"@)
    } else {
        None
    }
}

pub open spec fn is_asset_path(name: Seq<char>) -> bool {
    is_prefix_of("assets/"@, name)
}

pub open spec fn is_x_meta_path(name: Seq<char>) -> bool {
    is_prefix_of("x_meta/"@, name) && is_suffix_of(".json"@, name)
}

/// Records the data read for an accepted file entry: its size against the
/// limits, its path, and what it is: the card, the RisuAI module, an asset
/// or `x_meta` JSON.
pub fn record_entry(scan: &mut CharxScan, name: String, data: Vec<u8>, limit: u64) -> (result: Result<
    (),
    CharacterCompatError,
>)
    requires
        old(scan).asset_count < usize::MAX,
        old(scan).expanded_bytes <= MAX_CHARX_EXPANDED_BYTES,
    ensures
        match data_problem(old(scan).expanded_bytes, name@, data@.len(), limit) {
            Some(message) => result matches Err(CharacterCompatError::Invalid(m)) && m@ == message,
            None => {
                &&& result is Ok
                &&& final(scan).expanded_bytes == old(scan).expanded_bytes + data@.len()
                &&& texts(final(scan).entry_paths@) == texts(old(scan).entry_paths@).push(name@)
                &&& final(scan).names@ == old(scan).names@
                &&& final(scan).non_ascii_path == old(scan).non_ascii_path
                &&& if name@ == "card.json"@ {
                    &&& final(scan).card_json matches Some(card) && card@ == data@
                    &&& final(scan).asset_count == old(scan).asset_count
                    &&& final(scan).has_x_meta == old(scan).has_x_meta
                    &&& final(scan).has_module_risum == old(scan).has_module_risum
                } else if name@ == "module.risum"@ {
                    &&& final(scan).card_json == old(scan).card_json
                    &&& final(scan).asset_count == old(scan).asset_count
                    &&& final(scan).has_x_meta == old(scan).has_x_meta
                    &&& final(scan).has_module_risum
                } else {
                    &&& final(scan).card_json == old(scan).card_json
                    &&& final(scan).asset_count == old(scan).asset_count + (if is_asset_path(name@) {
                        1int
                    } else {
                        0int
                    })
                    &&& final(scan).has_x_meta == (old(scan).has_x_meta || is_x_meta_path(name@))
                    &&& final(scan).has_module_risum == old(scan).has_module_risum
                }
            },
        },
{
    if data.len() as u64 > limit {
        let mut message = String::from_str("CHARX entry ");
        push_str(&mut message, debug_quoted(name.as_str()).as_str());
        push_str(&mut message, " exceeds ");
        push_str(&mut message, format_decimal(limit).as_str());
        push_str(&mut message, " expanded bytes");
        return Err(CharacterCompatError::Invalid(message));
    }
    if data.len() as u64 > MAX_CHARX_EXPANDED_BYTES - scan.expanded_bytes {
        return Err(CharacterCompatError::Invalid(String::from_str("CHARX expands beyond 209715200 bytes")));
    }
    scan.expanded_bytes = scan.expanded_bytes + data.len() as u64;
    let ghost paths = texts(scan.entry_paths@);
    scan.entry_paths.push(name.clone());
    assert(texts(scan.entry_paths@) =~= paths.push(name@));
    if str_eq(name.as_str(), "card.json") {
        scan.card_json = Some(data);
    } else if str_eq(name.as_str(), "module.risum") {
        scan.has_module_risum = true;
    } else {
        if starts_with(name.as_str(), "assets/") {
            scan.asset_count = scan.asset_count + 1;
        }
        if starts_with(name.as_str(), "x_meta/") && ends_with(name.as_str(), ".json") {
            scan.has_x_meta = true;
        }
    }
    Ok(())
}

/// The entry path an `embeded://` (or the misspelt `embedded://`) URI
/// names.
pub open spec fn embedded_path(uri: Seq<char>) -> Option<Seq<char>> {
    if is_prefix_of("embeded://"@, uri) {
        Some(uri.subrange(10, uri.len() as int))
    } else if is_prefix_of("embedded://"@, uri) {
        Some(uri.subrange(11, uri.len() as int))
    } else {
        None
    }
}

pub open spec fn asset_uri(asset: JsonValue) -> Option<Seq<char>> {
    as_text(json_field(asset, "uri"@))
}

/// The asset descriptors of a card: its `data.assets` array.
pub open spec fn card_assets(card: JsonValue) -> Option<Seq<JsonValue>> {
    match json_field(card, "data"@) {
        Some(data) => match json_field(data, "assets"@) {
            Some(JsonValue::Array(assets)) => Some(assets@),
            _ => None,
        },
        None => None,
    }
}

/// The warnings one asset descriptor raises: the misspelt scheme, and an
/// entry the package does not hold.
pub open spec fn asset_warnings_at(index: nat, asset: JsonValue, paths: Seq<Seq<char>>) -> Seq<Seq<char>> {
    match asset_uri(asset) {
        None => Seq::empty(),
        Some(uri) => (if is_prefix_of("embedded://"@, uri) {
            seq![
                "asset "@ + decimal_text(index)
                    + " uses the non-standard embedded:// spelling; CHARX specifies embeded://"@,
            ]
        } else {
            Seq::empty()
        }) + match embedded_path(uri) {
            Some(path) => if paths.contains(path) {
                Seq::empty()
            } else {
                seq![
                    "asset "@ + decimal_text(index) + " references missing CHARX entry "@
                        + debug_quoted_text(path) + "; the descriptor was preserved"@,
                ]
            },
            None => Seq::empty(),
        },
    }
}

/// The warnings of the first `n` descriptors, in order.
pub open spec fn asset_warnings(assets: Seq<JsonValue>, paths: Seq<Seq<char>>, n: nat) -> Seq<Seq<char>>
    decreases n,
{
    if n == 0 {
        Seq::empty()
    } else {
        asset_warnings(assets, paths, (n - 1) as nat) + asset_warnings_at(
            (n - 1) as nat,
            assets[n - 1],
            paths,
        )
    }
}

pub open spec fn card_asset_warnings(card: JsonValue, paths: Seq<Seq<char>>) -> Seq<Seq<char>> {
    match card_assets(card) {
        Some(assets) => asset_warnings(assets, paths, assets.len()),
        None => Seq::empty(),
    }
}

fn assets_of(card: &JsonValue) -> (assets: Option<&Vec<JsonValue>>)
    ensures
        match assets {
            Some(a) => card_assets(*card) == Some(a@),
            None => card_assets(*card) is None,
        },
{
    match card {
        JsonValue::Object(root) => match member(root, "data") {
            Some(JsonValue::Object(data)) => match member(data, "assets") {
                Some(JsonValue::Array(assets)) => Some(assets),
                _ => None,
            },
            _ => None,
        },
        _ => None,
    }
}

fn uri_of(asset: &JsonValue) -> (uri: Option<&String>)
    ensures
        match uri {
            Some(u) => asset_uri(*asset) == Some(u@),
            None => asset_uri(*asset) is None,
        },
{
    match asset {
        JsonValue::Object(members) => match member(members, "uri") {
            Some(JsonValue::String(u)) => Some(u),
            _ => None,
        },
        _ => None,
    }
}

fn embedded_path_of(uri: &str) -> (path: Option<String>)
    ensures
        match path {
            Some(p) => embedded_path(uri@) == Some(p@),
            None => embedded_path(uri@) is None,
        },
{
    proof {
        reveal_strlit("embeded://");
        reveal_strlit("embedded://");
    }
    match strip_prefix(uri, "embeded://") {
        Some(rest) => Some(rest),
        None => strip_prefix(uri, "embedded://"),
    }
}

/// Warnings for the card's asset descriptors that point into the package:
/// the misspelt `embedded://` scheme, and entries the package lacks.
pub fn embedded_asset_warnings(card_json: &[u8], entry_paths: &Vec<String>) -> (result: Result<
    Vec<String>,
    CharacterCompatError,
>)
    ensures
        match parsed_json(card_json@) {
            None => result matches Err(CharacterCompatError::Json(_)),
            Some(card) => result matches Ok(w) && texts(w@) == card_asset_warnings(card, texts(entry_paths@)),
        },
{
    let card = match parse_json(card_json) {
        Ok(card) => card,
        Err(error) => {
            return Err(CharacterCompatError::Json(error));
        },
    };
    let mut warnings: Vec<String> = Vec::new();
    let assets = match assets_of(&card) {
        Some(assets) => assets,
        None => {
            assert(texts(warnings@) =~= Seq::<Seq<char>>::empty());
            return Ok(warnings);
        },
    };
    let ghost paths = texts(entry_paths@);
    let mut index: usize = 0;
    while index < assets.len()
        invariant
            index <= assets@.len(),
            paths == texts(entry_paths@),
            texts(warnings@) == asset_warnings(assets@, paths, index as nat),
        decreases assets@.len() - index,
    {
        let ghost before = texts(warnings@);
        match uri_of(&assets[index]) {
            None => {
                assert(asset_warnings_at(index as nat, assets@[index as int], paths) =~= Seq::empty());
            },
            Some(uri) => {
                let path = embedded_path_of(uri.as_str());
                let misspelt = starts_with(uri.as_str(), "embedded://");
                if misspelt {
                    let mut message = String::from_str("asset ");
                    push_str(&mut message, format_decimal(index as u64).as_str());
                    push_str(
                        &mut message,
                        " uses the non-standard embedded:// spelling; CHARX specifies embeded://",
                    );
                    warnings.push(message);
                }
                let ghost middle = texts(warnings@);
                assert(middle =~= before + (if is_prefix_of("embedded://"@, uri@) {
                    seq![
                        "asset "@ + decimal_text(index as nat)
                            + " uses the non-standard embedded:// spelling; CHARX specifies embeded://"@,
                    ]
                } else {
                    Seq::<Seq<char>>::empty()
                }));
                match path {
                    Some(p) => {
                        if !contains_text(entry_paths, p.as_str()) {
                            let mut message = String::from_str("asset ");
                            push_str(&mut message, format_decimal(index as u64).as_str());
                            push_str(&mut message, " references missing CHARX entry ");
                            push_str(&mut message, debug_quoted(p.as_str()).as_str());
                            push_str(&mut message, "; the descriptor was preserved");
                            warnings.push(message);
                        }
                    },
                    None => {},
                }
                assert(texts(warnings@) =~= middle + match embedded_path(uri@) {
                    Some(p) => if paths.contains(p) {
                        Seq::<Seq<char>>::empty()
                    } else {
                        seq![
                            "asset "@ + decimal_text(index as nat) + " references missing CHARX entry "@
                                + debug_quoted_text(p) + "; the descriptor was preserved"@,
                        ]
                    },
                    None => Seq::<Seq<char>>::empty(),
                });
                assert(texts(warnings@) =~= before + asset_warnings_at(index as nat, assets@[index as int], paths));
            },
        }
        assert(texts(warnings@) =~= asset_warnings(assets@, paths, (index + 1) as nat));
        index += 1;
    }
    Ok(warnings)
}

/// Whether a descriptor points into a package (`embeded://` or
/// `embedded://`).
pub open spec fn references_package(asset: JsonValue) -> bool {
    match asset_uri(asset) {
        Some(uri) => embedded_path(uri) is Some,
        None => false,
    }
}

/// Whether the card has an asset descriptor that points into a package,
/// which an export without the source archive could not honour.
pub fn has_embedded_asset_references(card: &JsonValue) -> (found: bool)
    ensures
        found == match card_assets(*card) {
            Some(assets) => exists|i: int| 0 <= i < assets.len() && #[trigger] references_package(assets[i]),
            None => false,
        },
{
    let assets = match assets_of(card) {
        Some(assets) => assets,
        None => {
            return false;
        },
    };
    let mut index: usize = 0;
    while index < assets.len()
        invariant
            index <= assets@.len(),
            card_assets(*card) == Some(assets@),
            forall|k: int| 0 <= k < index ==> !#[trigger] references_package(assets@[k]),
        decreases assets@.len() - index,
    {
        match uri_of(&assets[index]) {
            Some(uri) => {
                if embedded_path_of(uri.as_str()).is_some() {
                    let ghost all = card_assets(*card).unwrap();
                    assert(all == assets@);
                    assert(references_package(all[index as int]));
                    return true;
                }
            },
            None => {},
        }
        index += 1;
    }
    let ghost all = card_assets(*card).unwrap();
    assert(all == assets@);
    assert forall|i: int| 0 <= i < all.len() implies !#[trigger] references_package(all[i]) by {
        assert(all[i] == assets@[i]);
    }
    false
}

/// An entry of a preserved source archive, as an export copies it.
#[derive(Debug, Clone)]
pub struct CharxSourceEntry {
    pub name: String,
    pub directory: bool,
    /// The Unix mode recorded in the archive, if any.
    pub unix_mode: Option<u32>,
}

/// An entry to copy into an exported CHARX: its index in the source
/// archive, its name, whether it is a directory, and the mode it gets.
#[derive(Debug, Clone, PartialEq, Eq)]
pub struct CharxCopyEntry {
    pub index: usize,
    pub name: String,
    pub directory: bool,
    pub unix_mode: u32,
}

/// The mode an entry keeps: its own, else 0o755 for a directory and 0o644
/// for a file.
pub open spec fn copied_mode(entry: CharxSourceEntry) -> u32 {
    match entry.unix_mode {
        Some(mode) => mode,
        None => if entry.directory { 0o755 } else { 0o644 },
    }
}

pub open spec fn copy_view(entry: CharxCopyEntry) -> (int, Seq<char>, bool, u32) {
    (entry.index as int, entry.name@, entry.directory, entry.unix_mode)
}

/// Every entry but `card.json` (the export writes its own), in archive
/// order.
pub open spec fn copied_entries(entries: Seq<CharxSourceEntry>) -> Seq<(int, Seq<char>, bool, u32)>
    decreases entries.len(),
{
    if entries.len() == 0 {
        Seq::empty()
    } else {
        let last = (entries.len() - 1) as int;
        let before = copied_entries(entries.take(last));
        if entries[last].name@ == "card.json"@ {
            before
        } else {
            before.push((last, entries[last].name@, entries[last].directory, copied_mode(entries[last])))
        }
    }
}

pub open spec fn missing_archive_message() -> Seq<char> {
    "cannot export CHARX because the card references embedded assets but no preserved source archive is available"@
}

/// What a CHARX export writes besides `card.json`: nothing where there is
/// no source archive (refused where the card points into one), else the
/// source's other entries with their modes.
pub fn charx_export_entries(card: &JsonValue, source: Option<&Vec<CharxSourceEntry>>) -> (result: Result<
    Vec<CharxCopyEntry>,
    CharacterCompatError,
>)
    ensures
        match source {
            None => match card_assets(*card) {
                Some(assets) if exists|i: int| 0 <= i < assets.len() && #[trigger] references_package(assets[i]) =>
                    result matches Err(CharacterCompatError::Invalid(m)) && m@ == missing_archive_message(),
                _ => result matches Ok(v) && v@.len() == 0,
            },
            Some(entries) => result matches Ok(v) && v@.map_values(|e: CharxCopyEntry| copy_view(e))
                == copied_entries(entries@),
        },
{
    let entries = match source {
        None => {
            if has_embedded_asset_references(card) {
                return Err(CharacterCompatError::Invalid(String::from_str(
                    "cannot export CHARX because the card references embedded assets but no preserved source archive is available",
                )));
            }
            return Ok(Vec::new());
        },
        Some(entries) => entries,
    };
    let mut out: Vec<CharxCopyEntry> = Vec::new();
    let mut index: usize = 0;
    while index < entries.len()
        invariant
            index <= entries@.len(),
            out@.map_values(|e: CharxCopyEntry| copy_view(e)) == copied_entries(entries@.take(index as int)),
        decreases entries@.len() - index,
    {
        let entry = &entries[index];
        let ghost prefix = entries@.take(index + 1);
        assert(prefix.take(index as int) =~= entries@.take(index as int));
        assert(prefix[index as int] == entries@[index as int]);
        if !str_eq(entry.name.as_str(), "card.json") {
            let mode: u32 = match entry.unix_mode {
                Some(mode) => mode,
                None => if entry.directory { 0o755 } else { 0o644 },
            };
            let ghost before = out@;
            let item = CharxCopyEntry { index, name: entry.name.clone(), directory: entry.directory, unix_mode: mode };
            let ghost view = copy_view(item);
            out.push(item);
            assert(out@.map_values(|e: CharxCopyEntry| copy_view(e)) =~= before.map_values(
                |e: CharxCopyEntry| copy_view(e),
            ).push(view));
        }
        index += 1;
    }
    assert(entries@.take(entries@.len() as int) =~= entries@);
    Ok(out)
}

/// What is kept of a CHARX package next to the imported character.
#[derive(Debug, Clone, PartialEq, Eq)]
pub struct StoredCharxPackage {
    pub schema_version: u8,
    pub archive_sha256: String,
    pub entry_count: usize,
    pub asset_count: usize,
    pub has_x_meta: bool,
    pub has_module_risum: bool,
    pub jpeg_zip_hybrid: bool,
}

#[derive(Debug)]
pub struct ParsedCharxPackage {
    pub bytes: Vec<u8>,
    pub card_json: Vec<u8>,
    pub info: StoredCharxPackage,
    pub warnings: Vec<String>,
}

pub open spec fn non_ascii_warning() -> Seq<char> {
    "CHARX contains non-ASCII entry paths; they were preserved, but the CCv3 profile recommends ASCII paths"@
}

/// Closes a walk over all entries: the card must be there; its asset
/// warnings and the path warning are collected; the summary is built.
pub fn finish_charx(scan: CharxScan, bytes: Vec<u8>, entry_count: usize, jpeg_zip_hybrid: bool) -> (result: Result<
    ParsedCharxPackage,
    CharacterCompatError,
>)
    ensures
        match scan.card_json {
            None => result matches Err(CharacterCompatError::Invalid(m)) && m@
                == "CHARX must contain exactly one card.json file at the ZIP root"@,
            Some(card) => match parsed_json(card@) {
                None => result matches Err(CharacterCompatError::Json(_)),
                Some(value) => result matches Ok(p) && {
                    &&& p.bytes@ == bytes@
                    &&& p.card_json@ == card@
                    &&& p.info.schema_version == 1
                    &&& p.info.archive_sha256@ == sha256_hex_of(bytes@)
                    &&& p.info.entry_count == entry_count
                    &&& p.info.asset_count == scan.asset_count
                    &&& p.info.has_x_meta == scan.has_x_meta
                    &&& p.info.has_module_risum == scan.has_module_risum
                    &&& p.info.jpeg_zip_hybrid == jpeg_zip_hybrid
                    &&& texts(p.warnings@) == card_asset_warnings(value, texts(scan.entry_paths@)) + (
                    if scan.non_ascii_path {
                        seq![non_ascii_warning()]
                    } else {
                        Seq::empty()
                    })
                },
            },
        },
{
    let card_json = match scan.card_json {
        Some(card) => card,
        None => {
            return Err(
                CharacterCompatError::Invalid(
                    String::from_str("CHARX must contain exactly one card.json file at the ZIP root"),
                ),
            );
        },
    };
    let mut warnings = match embedded_asset_warnings(card_json.as_slice(), &scan.entry_paths) {
        Ok(warnings) => warnings,
        Err(error) => {
            return Err(error);
        },
    };
    let ghost first = texts(warnings@);
    if scan.non_ascii_path {
        warnings.push(
            String::from_str(
                "CHARX contains non-ASCII entry paths; they were preserved, but the CCv3 profile recommends ASCII paths",
            ),
        );
    }
    proof {
        if scan.non_ascii_path {
            assert(texts(warnings@) =~= first + seq![non_ascii_warning()]);
        } else {
            assert(texts(warnings@) =~= first + Seq::<Seq<char>>::empty());
        }
    }
    let archive_sha256 = sha256_hex(bytes.as_slice());
    Ok(ParsedCharxPackage {
        bytes,
        card_json,
        info: StoredCharxPackage {
            schema_version: 1,
            archive_sha256,
            entry_count,
            asset_count: scan.asset_count,
            has_x_meta: scan.has_x_meta,
            has_module_risum: scan.has_module_risum,
            jpeg_zip_hybrid,
        },
        warnings,
    })
}

/// A walk over the entries as the contracts see it.
pub struct ScanView {
    pub names: Seq<Seq<char>>,
    pub entry_paths: Seq<Seq<char>>,
    pub card_json: Option<Seq<u8>>,
    pub asset_count: nat,
    pub has_x_meta: bool,
    pub has_module_risum: bool,
    pub expanded: u64,
    pub non_ascii: bool,
}

pub open spec fn scan_view(scan: CharxScan) -> ScanView {
    ScanView {
        names: texts(scan.names@),
        entry_paths: texts(scan.entry_paths@),
        card_json: match scan.card_json {
            Some(card) => Some(card@),
            None => None,
        },
        asset_count: scan.asset_count as nat,
        has_x_meta: scan.has_x_meta,
        has_module_risum: scan.has_module_risum,
        expanded: scan.expanded_bytes,
        non_ascii: scan.non_ascii_path,
    }
}

pub open spec fn empty_scan() -> ScanView {
    ScanView {
        names: Seq::empty(),
        entry_paths: Seq::empty(),
        card_json: None,
        asset_count: 0,
        has_x_meta: false,
        has_module_risum: false,
        expanded: 0,
        non_ascii: false,
    }
}

/// Why a package is refused, as the contracts see it.
pub enum CharxFailure {
    Zip(Seq<char>),
    Io(Seq<char>),
    Invalid(Seq<char>),
    Json,
}

/// The scan once an entry passed the checks on its facts.
pub open spec fn screened(s: ScanView, name: Seq<char>) -> ScanView {
    ScanView { names: s.names.push(name), non_ascii: s.non_ascii || !all_ascii(name), ..s }
}

/// The scan once a file entry's data was read and accepted.
pub open spec fn recorded(s: ScanView, name: Seq<char>, data: Seq<u8>) -> ScanView {
    let base = ScanView {
        expanded: (s.expanded + data.len()) as u64,
        entry_paths: s.entry_paths.push(name),
        ..s
    };
    if name == "card.json"@ {
        ScanView { card_json: Some(data), ..base }
    } else if name == "module.risum"@ {
        ScanView { has_module_risum: true, ..base }
    } else {
        ScanView {
            asset_count: base.asset_count + (if is_asset_path(name) { 1nat } else { 0nat }),
            has_x_meta: base.has_x_meta || is_x_meta_path(name),
            ..base
        }
    }
}

/// One entry of the archive the bytes hold: its facts are checked, and the
/// data of a file is read up to one byte past its limit and checked.
pub open spec fn entry_step(bytes: Seq<u8>, index: nat, s: ScanView) -> Result<ScanView, CharxFailure> {
    match zip_entry_facts(bytes, index) {
        Err(message) => Err(CharxFailure::Zip(message)),
        Ok(facts) => match entry_problem(s.names, facts) {
            Some(message) => Err(CharxFailure::Invalid(message)),
            None => {
                let next = screened(s, facts.0);
                if facts.4 {
                    Ok(next)
                } else {
                    let limit = entry_limit(facts.0);
                    match zip_entry_content(bytes, index, (limit + 1) as u64) {
                        Err((read_error, message)) => Err(
                            if read_error {
                                CharxFailure::Io(message)
                            } else {
                                CharxFailure::Zip(message)
                            },
                        ),
                        Ok(data) => match data_problem(next.expanded, facts.0, data.len(), limit) {
                            Some(message) => Err(CharxFailure::Invalid(message)),
                            None => Ok(recorded(next, facts.0, data)),
                        },
                    }
                }
            },
        },
    }
}

/// The first `n` entries, in archive order, stopping at the first refusal.
pub open spec fn charx_walk(bytes: Seq<u8>, n: nat) -> Result<ScanView, CharxFailure>
    decreases n,
{
    if n == 0 {
        Ok(empty_scan())
    } else {
        match charx_walk(bytes, (n - 1) as nat) {
            Err(failure) => Err(failure),
            Ok(s) => entry_step(bytes, (n - 1) as nat, s),
        }
    }
}

proof fn lemma_walk_failure_stays(bytes: Seq<u8>, k: nat, n: nat)
    requires
        k <= n,
        charx_walk(bytes, k) is Err,
    ensures
        charx_walk(bytes, n) == charx_walk(bytes, k),
    decreases n,
{
    if n > k {
        lemma_walk_failure_stays(bytes, k, (n - 1) as nat);
    }
}

/// The checks made before the entries are walked: the size, the central
/// directory, the entry count, and a JPEG preview before the archive.
pub open spec fn charx_prelude_failure(bytes: Seq<u8>) -> Option<CharxFailure> {
    if !(1 <= bytes.len() <= MAX_CHARX_BYTES) {
        Some(CharxFailure::Invalid(size_message("CHARX"@, MAX_CHARX_BYTES)))
    } else {
        match zip_open_error(bytes) {
            Some(message) => Some(CharxFailure::Zip(message)),
            None => if zip_entry_total(bytes) > MAX_CHARX_ENTRIES {
                Some(CharxFailure::Invalid("CHARX contains more than 10000 entries"@))
            } else if zip_archive_offset(bytes) > bytes.len() {
                Some(CharxFailure::Invalid("CHARX archive offset is not representable"@))
            } else if zip_archive_offset(bytes) > 0 && !is_complete_jpeg(
                bytes.subrange(0, zip_archive_offset(bytes) as int),
            ) {
                Some(CharxFailure::Invalid("bytes before the CHARX ZIP are not a complete JPEG preview"@))
            } else {
                None
            },
        }
    }
}

/// Whether a package holds and what its walk found: the prelude checks, every
/// entry, then a `card.json` that is JSON.
pub open spec fn charx_verdict(bytes: Seq<u8>) -> Result<ScanView, CharxFailure> {
    match charx_prelude_failure(bytes) {
        Some(failure) => Err(failure),
        None => match charx_walk(bytes, zip_entry_total(bytes)) {
            Err(failure) => Err(failure),
            Ok(s) => match s.card_json {
                None => Err(CharxFailure::Invalid("CHARX must contain exactly one card.json file at the ZIP root"@)),
                Some(card) => if parsed_json(card) is Some {
                    Ok(s)
                } else {
                    Err(CharxFailure::Json)
                },
            },
        },
    }
}

pub open spec fn failure_matches<T>(result: Result<T, CharacterCompatError>, failure: CharxFailure) -> bool {
    match failure {
        CharxFailure::Zip(m) => result matches Err(CharacterCompatError::Zip(x)) && x@ == m,
        CharxFailure::Io(m) => result matches Err(CharacterCompatError::Io(x)) && x@ == m,
        CharxFailure::Invalid(m) => result matches Err(CharacterCompatError::Invalid(x)) && x@ == m,
        CharxFailure::Json => result matches Err(CharacterCompatError::Json(_)),
    }
}

/// Reads a CHARX package: size, archive, entry count, the optional JPEG
/// preview in front, then every entry through `screen_entry` and
/// `record_entry`, and `finish_charx`. Where the zip crate fails, its
/// message is returned.
pub fn parse_charx_package(bytes: Vec<u8>) -> (result: Result<ParsedCharxPackage, CharacterCompatError>)
    ensures
        match charx_verdict(bytes@) {
            Err(failure) => failure_matches(result, failure),
            Ok(s) => result matches Ok(p) && {
                &&& p.bytes@ == bytes@
                &&& p.card_json@ == s.card_json->Some_0
                &&& p.info.schema_version == 1
                &&& p.info.archive_sha256@ == sha256_hex_of(bytes@)
                &&& p.info.entry_count == zip_entry_total(bytes@)
                &&& p.info.asset_count == s.asset_count
                &&& p.info.has_x_meta == s.has_x_meta
                &&& p.info.has_module_risum == s.has_module_risum
                &&& p.info.jpeg_zip_hybrid == (zip_archive_offset(bytes@) > 0)
                &&& texts(p.warnings@) == card_asset_warnings(
                    parsed_json(s.card_json->Some_0)->Some_0,
                    s.entry_paths,
                ) + (if s.non_ascii {
                    seq![non_ascii_warning()]
                } else {
                    Seq::empty()
                })
            },
        },
        result matches Ok(p) ==> {
            &&& p.card_json@.len() <= MAX_JSON_BYTES
            &&& parsed_json(p.card_json@) is Some
            &&& p.info.entry_count <= MAX_CHARX_ENTRIES
            &&& p.info.asset_count <= p.info.entry_count
        },
{
    match ensure_size(bytes.len() as u64, MAX_CHARX_BYTES, "CHARX") {
        Err(error) => {
            return Err(error);
        },
        Ok(()) => {},
    }
    let (scan, entry_count, jpeg_zip_hybrid) = {
        let mut archive = match open_zip(bytes.as_slice()) {
            Ok(archive) => archive,
            Err(message) => {
                return Err(CharacterCompatError::Zip(message));
            },
        };
        let entry_count = zip_entry_count(&archive);
        if entry_count > MAX_CHARX_ENTRIES {
            return Err(CharacterCompatError::Invalid(String::from_str("CHARX contains more than 10000 entries")));
        }
        let offset = zip_offset(&archive);
        if offset > bytes.len() as u64 {
            return Err(CharacterCompatError::Invalid(String::from_str("CHARX archive offset is not representable")));
        }
        let offset = offset as usize;
        let jpeg_zip_hybrid = offset > 0;
        if jpeg_zip_hybrid && !valid_jpeg_prefix(copy_prefix(bytes.as_slice(), offset).as_slice()) {
            return Err(
                CharacterCompatError::Invalid(
                    String::from_str("bytes before the CHARX ZIP are not a complete JPEG preview"),
                ),
            );
        }
        let mut scan = CharxScan::new();
        proof {
            assert(texts(scan.names@) =~= Seq::<Seq<char>>::empty());
            assert(texts(scan.entry_paths@) =~= Seq::<Seq<char>>::empty());
            assert(scan_view(scan) == empty_scan());
        }
        let mut index: usize = 0;
        while index < entry_count
            invariant
                index <= entry_count <= MAX_CHARX_ENTRIES,
                entry_count == zip_entry_total(bytes@),
                archive.source() == bytes@,
                1 <= bytes@.len() <= MAX_CHARX_BYTES,
                charx_prelude_failure(bytes@) is None,
                charx_walk(bytes@, index as nat) == Ok::<ScanView, CharxFailure>(scan_view(scan)),
                scan.asset_count <= index,
                scan.expanded_bytes <= MAX_CHARX_EXPANDED_BYTES,
                scan.card_json matches Some(card) ==> card@.len() <= MAX_JSON_BYTES,
            decreases entry_count - index,
        {
            let ghost before = scan_view(scan);
            let ghost next_walk = charx_walk(bytes@, (index + 1) as nat);
            assert(next_walk == entry_step(bytes@, index as nat, before));
            let info = match zip_entry_info(&mut archive, index) {
                Ok(info) => info,
                Err(message) => {
                    proof {
                        lemma_walk_failure_stays(bytes@, (index + 1) as nat, entry_count as nat);
                    }
                    return Err(CharacterCompatError::Zip(message));
                },
            };
            let ghost facts = entry_facts(info);
            match screen_entry(&mut scan, &info) {
                Err(error) => {
                    proof {
                        lemma_walk_failure_stays(bytes@, (index + 1) as nat, entry_count as nat);
                    }
                    return Err(error);
                },
                Ok(None) => {
                    assert(scan_view(scan) == screened(before, facts.0));
                },
                Ok(Some(limit)) => {
                    let ghost mid = scan_view(scan);
                    assert(mid == screened(before, facts.0));
                    let data = match zip_entry_data(&mut archive, index, limit + 1) {
                        Ok(data) => data,
                        Err(error) => {
                            proof {
                                lemma_walk_failure_stays(bytes@, (index + 1) as nat, entry_count as nat);
                            }
                            return Err(error);
                        },
                    };
                    let ghost data_view = data@;
                    match record_entry(&mut scan, info.name, data, limit) {
                        Err(error) => {
                            proof {
                                lemma_walk_failure_stays(bytes@, (index + 1) as nat, entry_count as nat);
                            }
                            return Err(error);
                        },
                        Ok(()) => {
                            assert(scan_view(scan) == recorded(mid, facts.0, data_view));
                        },
                    }
                },
            }
            index += 1;
        }
        (scan, entry_count, jpeg_zip_hybrid)
    };
    finish_charx(scan, bytes, entry_count, jpeg_zip_hybrid)
}


// ---------------------------------------------------------------------------
// Preserved sources
// ---------------------------------------------------------------------------

/// The size and hash recorded for a preserved source file.
#[derive(Debug, Clone, PartialEq, Eq)]
pub struct StoredSourceFile {
    pub sha256: String,
    pub size: u64,
}

/// Two package summaries that agree field by field.
pub open spec fn same_package(a: StoredCharxPackage, b: StoredCharxPackage) -> bool {
    &&& a.schema_version == b.schema_version
    &&& a.archive_sha256@ == b.archive_sha256@
    &&& a.entry_count == b.entry_count
    &&& a.asset_count == b.asset_count
    &&& a.has_x_meta == b.has_x_meta
    &&& a.has_module_risum == b.has_module_risum
    &&& a.jpeg_zip_hybrid == b.jpeg_zip_hybrid
}

pub fn packages_match(a: &StoredCharxPackage, b: &StoredCharxPackage) -> (same: bool)
    ensures
        same == same_package(*a, *b),
{
    a.schema_version == b.schema_version && str_eq(a.archive_sha256.as_str(), b.archive_sha256.as_str())
        && a.entry_count == b.entry_count && a.asset_count == b.asset_count && a.has_x_meta == b.has_x_meta
        && a.has_module_risum == b.has_module_risum && a.jpeg_zip_hybrid == b.jpeg_zip_hybrid
}

/// Where a preserved source is checked: in local storage, or inside a MOC
/// container being imported. The two name their failures differently.
#[derive(Debug, Clone, Copy, PartialEq, Eq, Structural)]
pub enum PreservedSourceSite {
    Local,
    MocImport,
}

pub open spec fn site_facts_message(site: PreservedSourceSite) -> Seq<char> {
    match site {
        PreservedSourceSite::Local => "preserved source type or size does not match its metadata"@,
        PreservedSourceSite::MocImport => "MOC preserved source type or size does not match metadata"@,
    }
}

pub open spec fn site_label(site: PreservedSourceSite) -> Seq<char> {
    match site {
        PreservedSourceSite::Local => "preserved source"@,
        PreservedSourceSite::MocImport => "MOC preserved source"@,
    }
}

pub open spec fn site_hash_message(site: PreservedSourceSite) -> Seq<char> {
    match site {
        PreservedSourceSite::Local => "preserved source hash does not match its metadata"@,
        PreservedSourceSite::MocImport => "MOC preserved source does not match its declared hash"@,
    }
}

/// Before a preserved source is read: it must be a regular file (not a
/// link) of the recorded size, within the CHARX limit.
pub fn check_preserved_file(
    site: PreservedSourceSite,
    expected: &StoredSourceFile,
    regular_file: bool,
    symbolic_link: bool,
    length: u64,
) -> (result: Result<(), CharacterCompatError>)
    ensures
        (!regular_file || symbolic_link || length != expected.size) ==> (result matches Err(
            CharacterCompatError::Invalid(m),
        ) && m@ == site_facts_message(site)),
        (regular_file && !symbolic_link && length == expected.size && !(1 <= length <= MAX_CHARX_BYTES))
            ==> (result matches Err(CharacterCompatError::Invalid(m)) && m@ == size_message(
            site_label(site),
            MAX_CHARX_BYTES,
        )),
        (regular_file && !symbolic_link && length == expected.size && 1 <= length <= MAX_CHARX_BYTES)
            ==> result is Ok,
{
    if !regular_file || symbolic_link || length != expected.size {
        let message = match site {
            PreservedSourceSite::Local => "preserved source type or size does not match its metadata",
            PreservedSourceSite::MocImport => "MOC preserved source type or size does not match metadata",
        };
        return Err(CharacterCompatError::Invalid(String::from_str(message)));
    }
    let label = match site {
        PreservedSourceSite::Local => "preserved source",
        PreservedSourceSite::MocImport => "MOC preserved source",
    };
    ensure_size(length, MAX_CHARX_BYTES, label)
}

/// After a preserved source is read: its hash must be the recorded one,
/// and a CHARX source must still have the recorded structure.
pub fn check_preserved_bytes(
    site: PreservedSourceSite,
    expected: &StoredSourceFile,
    bytes: Vec<u8>,
    charx: Option<&StoredCharxPackage>,
) -> (result: Result<Vec<u8>, CharacterCompatError>)
    ensures
        sha256_hex_of(bytes@) != expected.sha256@ ==> (result matches Err(CharacterCompatError::Invalid(m))
            && m@ == site_hash_message(site)),
        sha256_hex_of(bytes@) == expected.sha256@ && charx is None ==> (result matches Ok(b) && b@ == bytes@),
        result matches Ok(b) ==> b@ == bytes@ && sha256_hex_of(bytes@) == expected.sha256@,
{
    let digest = sha256_hex(bytes.as_slice());
    if !str_eq(digest.as_str(), expected.sha256.as_str()) {
        let message = match site {
            PreservedSourceSite::Local => "preserved source hash does not match its metadata",
            PreservedSourceSite::MocImport => "MOC preserved source does not match its declared hash",
        };
        return Err(CharacterCompatError::Invalid(String::from_str(message)));
    }
    match charx {
        None => Ok(bytes),
        Some(recorded) => {
            let parsed = match parse_charx_package(bytes) {
                Ok(parsed) => parsed,
                Err(error) => {
                    return Err(error);
                },
            };
            if !packages_match(&parsed.info, recorded) {
                let message = match site {
                    PreservedSourceSite::Local => "preserved CHARX source structure does not match its metadata",
                    PreservedSourceSite::MocImport => "MOC CHARX source does not match its declared structure",
                };
                return Err(CharacterCompatError::Invalid(String::from_str(message)));
            }
            Ok(parsed.bytes)
        },
    }
}

} // verus!
