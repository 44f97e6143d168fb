//! Checks on character data before it is stored: lengths, versions, author
//! URLs, Markdown without frontmatter, and the metadata of characters that
//! arrive in a MOC container.

use vstd::prelude::*;

use crate::api::{RuntimeApiError, RuntimeApiErrorKind};
use crate::character_compat::{parse_semver, semver_error};
use crate::portable::{safe_asset_path, validate_asset_path, PortableError};
use crate::text::{
    all_ws, char_count, chars_of, is_blank, push_str, str_eq, string_of, trim, trimmed, utf8_len,
    utf8_len_exceeds,
};

verus! {

/// The message of the error `url::Url::parse` reports for the text;
/// nothing where it reads a URL.
pub uninterp spec fn url_error(text: Seq<char>) -> Option<Seq<char>>;

/// `url::Url::parse`. Claimed: success, or the error's message, depends on
/// the text alone.
#[verifier::external_body]
fn parse_url(text: &str) -> (result: Result<(), String>)
    ensures
        match result {
            Ok(()) => url_error(text@) is None,
            Err(message) => url_error(text@) == Some(message@),
        },
{
    match url::Url::parse(text) {
        Ok(_) => Ok(()),
        Err(error) => Err(error.to_string()),
    }
}

/// The lines of a text, split at `\n`.
pub open spec fn split_lines(s: Seq<char>) -> Seq<Seq<char>>
    decreases s.len(),
{
    if s.len() == 0 {
        seq![Seq::<char>::empty()]
    } else {
        let rest = split_lines(s.drop_last());
        if s.last() == '\n' {
            rest.push(Seq::<char>::empty())
        } else {
            rest.update(rest.len() - 1, rest.last().push(s.last()))
        }
    }
}

/// A text opens with a `---` or `+++` line and a later line closes it.
pub open spec fn has_frontmatter(text: Seq<char>) -> bool {
    let lines = split_lines(text);
    let first = trim(lines[0]);
    &&& (first == "---"@ || first == "+++"@)
    &&& exists|i: int| 1 <= i < lines.len() && trim(#[trigger] lines[i]) == first
}

pub open spec fn char_seqs(v: Seq<Vec<char>>) -> Seq<Seq<char>> {
    v.map_values(|t: Vec<char>| t@)
}

proof fn lemma_lines_nonempty(s: Seq<char>)
    ensures
        split_lines(s).len() >= 1,
    decreases s.len(),
{
    if s.len() > 0 {
        lemma_lines_nonempty(s.drop_last());
    }
}

fn lines_of(text: &str) -> (lines: Vec<Vec<char>>)
    ensures
        char_seqs(lines@) == split_lines(text@),
{
    let chars = chars_of(text);
    let mut lines: Vec<Vec<char>> = Vec::new();
    let mut current: Vec<char> = Vec::new();
    let mut i: usize = 0;
    proof {
        assert(text@.take(0) =~= Seq::<char>::empty());
        assert(char_seqs(lines@).push(current@) =~= split_lines(text@.take(0)));
    }
    while i < chars.len()
        invariant
            i <= chars@.len(),
            chars@ == text@,
            char_seqs(lines@).push(current@) == split_lines(text@.take(i as int)),
        decreases chars@.len() - i,
    {
        let c = chars[i];
        let ghost before = split_lines(text@.take(i as int));
        proof {
            assert(text@.take(i + 1).drop_last() =~= text@.take(i as int));
            assert(text@.take(i + 1).last() == c);
            lemma_lines_nonempty(text@.take(i as int));
        }
        if c == '\n' {
            let ghost done = char_seqs(lines@);
            lines.push(current);
            current = Vec::new();
            assert(char_seqs(lines@) =~= done.push(before.last()));
            assert(char_seqs(lines@).push(current@) =~= before.push(Seq::<char>::empty()));
        } else {
            current.push(c);
            assert(char_seqs(lines@).push(current@) =~= before.update(before.len() - 1, before.last().push(c)));
        }
        i += 1;
    }
    assert(text@.take(chars@.len() as int) =~= text@);
    let ghost done = char_seqs(lines@);
    lines.push(current);
    assert(char_seqs(lines@) =~= done.push(current@));
    lines
}

fn trimmed_line(line: &Vec<char>) -> (t: String)
    ensures
        t@ == trim(line@),
{
    let s = string_of(line, 0, line.len());
    assert(line@.subrange(0, line@.len() as int) =~= line@);
    trimmed(s.as_str())
}

/// Whether Markdown opens with a frontmatter block (`---` or `+++` on the
/// first line, the same marker on a later one).
pub fn contains_frontmatter(text: &str) -> (found: bool)
    ensures
        found == has_frontmatter(text@),
{
    let lines = lines_of(text);
    proof {
        lemma_lines_nonempty(text@);
    }
    let first = trimmed_line(&lines[0]);
    assert(char_seqs(lines@)[0] == lines@[0]@);
    proof {
        reveal_strlit("---");
        reveal_strlit("+++");
    }
    if !(str_eq(first.as_str(), "---") || str_eq(first.as_str(), "+++")) {
        return false;
    }
    let mut i: usize = 1;
    while i < lines.len()
        invariant
            1 <= i <= lines@.len(),
            char_seqs(lines@) == split_lines(text@),
            first@ == trim(split_lines(text@)[0]),
            first@ == "---"@ || first@ == "+++"@,
            forall|k: int| 1 <= k < i ==> trim(#[trigger] split_lines(text@)[k]) != first@,
        decreases lines@.len() - i,
    {
        let line = trimmed_line(&lines[i]);
        assert(char_seqs(lines@)[i as int] == lines@[i as int]@);
        if str_eq(line.as_str(), first.as_str()) {
            assert(trim(split_lines(text@)[i as int]) == first@);
            return true;
        }
        i += 1;
    }
    false
}

/// The character fields that are checked before a character is stored.
#[derive(Debug, Clone)]
pub struct CharacterFields {
    pub name: String,
    pub version: String,
    pub author_name: String,
    pub author_url: Option<String>,
    pub character_markdown: String,
    pub user_markdown: String,
    pub opening_markdown: Option<String>,
}

pub open spec fn markdown_problem(label: Seq<char>, markdown: Seq<char>) -> Option<Seq<char>> {
    if utf8_len(markdown) > 200000 {
        Some(label + " exceeds 200000 bytes"@)
    } else if has_frontmatter(markdown) {
        Some(label + " must not contain frontmatter"@)
    } else {
        None
    }
}

/// Why a character may not be stored, checked in this order: name, version,
/// author name, author URL, then each Markdown text.
pub open spec fn character_problem(card: CharacterFields) -> Option<Seq<char>> {
    if all_ws(card.name@) || card.name@.len() > 120 {
        Some("character name must contain between 1 and 120 characters"@)
    } else if semver_error(card.version@) is Some {
        Some("character version is not SemVer: "@ + semver_error(card.version@).unwrap())
    } else if all_ws(card.author_name@) || card.author_name@.len() > 200 {
        Some("character author name must contain between 1 and 200 characters"@)
    } else if card.author_url is Some && url_error(card.author_url.unwrap()@) is Some {
        Some("character author URL is invalid: "@ + url_error(card.author_url.unwrap()@).unwrap())
    } else if markdown_problem("character_markdown"@, card.character_markdown@) is Some {
        markdown_problem("character_markdown"@, card.character_markdown@)
    } else if markdown_problem("user_markdown"@, card.user_markdown@) is Some {
        markdown_problem("user_markdown"@, card.user_markdown@)
    } else if card.opening_markdown is Some {
        markdown_problem("opening_markdown"@, card.opening_markdown.unwrap()@)
    } else {
        None
    }
}

fn check_markdown(label: &str, markdown: &str) -> (result: Result<(), RuntimeApiError>)
    ensures
        match markdown_problem(label@, markdown@) {
            None => result is Ok,
            Some(message) => result matches Err(e) && e.kind == RuntimeApiErrorKind::InvalidRequest
                && e.message@ == message,
        },
{
    if utf8_len_exceeds(markdown, 200000) {
        let mut message = String::from_str(label);
        push_str(&mut message, " exceeds 200000 bytes");
        return Err(RuntimeApiError::invalid(message.as_str()));
    }
    if contains_frontmatter(markdown) {
        let mut message = String::from_str(label);
        push_str(&mut message, " must not contain frontmatter");
        return Err(RuntimeApiError::invalid(message.as_str()));
    }
    Ok(())
}

/// Checks a character before it is stored.
pub fn validate_runtime_character(card: &CharacterFields) -> (result: Result<(), RuntimeApiError>)
    ensures
        match character_problem(*card) {
            None => result is Ok,
            Some(message) => result matches Err(e) && e.kind == RuntimeApiErrorKind::InvalidRequest
                && e.message@ == message,
        },
{
    if is_blank(card.name.as_str()) || char_count(card.name.as_str()) > 120 {
        return Err(RuntimeApiError::invalid("character name must contain between 1 and 120 characters"));
    }
    match parse_semver(card.version.as_str()) {
        Ok(()) => {},
        Err(error) => {
            let mut message = String::from_str("character version is not SemVer: ");
            push_str(&mut message, error.as_str());
            return Err(RuntimeApiError::invalid(message.as_str()));
        },
    }
    if is_blank(card.author_name.as_str()) || char_count(card.author_name.as_str()) > 200 {
        return Err(
            RuntimeApiError::invalid("character author name must contain between 1 and 200 characters"),
        );
    }
    match &card.author_url {
        Some(url) => match parse_url(url.as_str()) {
            Ok(()) => {},
            Err(error) => {
                let mut message = String::from_str("character author URL is invalid: ");
                push_str(&mut message, error.as_str());
                return Err(RuntimeApiError::invalid(message.as_str()));
            },
        },
        None => {},
    }
    match check_markdown("character_markdown", card.character_markdown.as_str()) {
        Ok(()) => {},
        Err(error) => {
            return Err(error);
        },
    }
    match check_markdown("user_markdown", card.user_markdown.as_str()) {
        Ok(()) => {},
        Err(error) => {
            return Err(error);
        },
    }
    match &card.opening_markdown {
        Some(opening) => check_markdown("opening_markdown", opening.as_str()),
        None => Ok(()),
    }
}

/// The metadata a MOC container declares for a character.
#[derive(Debug, Clone)]
pub struct CharacterMetadata {
    pub id: String,
    pub name: String,
    pub version: String,
    pub author_name: String,
    pub author_url: Option<String>,
    pub character_file: String,
    pub user_file: Option<String>,
    pub opening_file: Option<String>,
}

/// Why container metadata is refused, checked in this order: name,
/// version, author name, author URL, then each named Markdown file.
pub open spec fn metadata_problem(metadata: CharacterMetadata) -> Option<Seq<char>> {
    if all_ws(metadata.name@) || metadata.name@.len() > 120 {
        Some("character name must contain between 1 and 120 characters"@)
    } else if semver_error(metadata.version@) is Some {
        Some("character version is not SemVer: "@ + semver_error(metadata.version@).unwrap())
    } else if all_ws(metadata.author_name@) || metadata.author_name@.len() > 200 {
        Some("character author name must contain between 1 and 200 characters"@)
    } else if metadata.author_url is Some && url_error(metadata.author_url.unwrap()@) is Some {
        Some("character author URL is invalid: "@ + url_error(metadata.author_url.unwrap()@).unwrap())
    } else if !safe_asset_path(metadata.character_file@) {
        Some("unsafe Markdown asset path: "@ + metadata.character_file@)
    } else if metadata.user_file is Some && !safe_asset_path(metadata.user_file.unwrap()@) {
        Some("unsafe Markdown asset path: "@ + metadata.user_file.unwrap()@)
    } else if metadata.opening_file is Some && !safe_asset_path(metadata.opening_file.unwrap()@) {
        Some("unsafe Markdown asset path: "@ + metadata.opening_file.unwrap()@)
    } else {
        None
    }
}

fn portable_invalid(message: String) -> (error: PortableError)
    ensures
        error == PortableError::InvalidData(message),
{
    PortableError::InvalidData(message)
}

/// Checks the metadata of a character read from a MOC container.
pub fn validate_character_metadata(metadata: &CharacterMetadata) -> (result: Result<(), PortableError>)
    ensures
        match metadata_problem(*metadata) {
            None => result is Ok,
            Some(message) => result matches Err(PortableError::InvalidData(m)) && m@ == message,
        },
{
    if is_blank(metadata.name.as_str()) || char_count(metadata.name.as_str()) > 120 {
        return Err(
            portable_invalid(String::from_str("character name must contain between 1 and 120 characters")),
        );
    }
    match parse_semver(metadata.version.as_str()) {
        Ok(()) => {},
        Err(error) => {
            let mut message = String::from_str("character version is not SemVer: ");
            push_str(&mut message, error.as_str());
            return Err(portable_invalid(message));
        },
    }
    if is_blank(metadata.author_name.as_str()) || char_count(metadata.author_name.as_str()) > 200 {
        return Err(
            portable_invalid(
                String::from_str("character author name must contain between 1 and 200 characters"),
            ),
        );
    }
    match &metadata.author_url {
        Some(url) => match parse_url(url.as_str()) {
            Ok(()) => {},
            Err(error) => {
                let mut message = String::from_str("character author URL is invalid: ");
                push_str(&mut message, error.as_str());
                return Err(portable_invalid(message));
            },
        },
        None => {},
    }
    match validate_asset_path(metadata.character_file.as_str()) {
        Ok(_) => {},
        Err(error) => {
            return Err(error);
        },
    }
    match &metadata.user_file {
        Some(file) => match validate_asset_path(file.as_str()) {
            Ok(_) => {},
            Err(error) => {
                return Err(error);
            },
        },
        None => {},
    }
    match &metadata.opening_file {
        Some(file) => match validate_asset_path(file.as_str()) {
            Ok(_) => Ok(()),
            Err(error) => Err(error),
        },
        None => Ok(()),
    }
}

} // verus!
