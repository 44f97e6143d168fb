//! Slash-separated paths as the host platform reads them: their pieces,
//! file name and extension, and whether they stay inside a directory.

use vstd::prelude::*;

use crate::text::{push_char, push_chars, chars_of};

verus! {

/// The pieces between slashes, in order (empty pieces included).
pub open spec fn pieces(s: Seq<char>) -> Seq<Seq<char>>
    decreases s.len(),
{
    if s.len() == 0 {
        seq![Seq::empty()]
    } else {
        let rest = pieces(s.drop_last());
        if s.last() == '/' {
            rest.push(Seq::empty())
        } else {
            rest.update(rest.len() - 1, rest.last().push(s.last()))
        }
    }
}

pub open spec fn is_skipped_piece(piece: Seq<char>) -> bool {
    piece.len() == 0 || piece == seq!['.']
}

pub open spec fn is_parent_piece(piece: Seq<char>) -> bool {
    piece == seq!['.', '.']
}

/// The last piece that names something, skipping empty and `.` pieces.
pub open spec fn last_named_piece(parts: Seq<Seq<char>>) -> Option<Seq<char>>
    decreases parts.len(),
{
    if parts.len() == 0 {
        None
    } else if is_skipped_piece(parts.last()) {
        last_named_piece(parts.drop_last())
    } else {
        Some(parts.last())
    }
}

/// The final component's name, unless the path ends at a root, a current
/// or a parent directory.
pub open spec fn file_name(path: Seq<char>) -> Option<Seq<char>> {
    match last_named_piece(pieces(path)) {
        Some(piece) => if is_parent_piece(piece) {
            None
        } else {
            Some(piece)
        },
        None => None,
    }
}

/// What follows the last dot of a name, unless the name has no dot or only
/// a leading one.
pub open spec fn name_extension(name: Seq<char>) -> Option<Seq<char>> {
    if exists|i: int| 0 < i < name.len() && name[i] == '.' {
        let i = choose|i: int|
            0 < i < name.len() && name[i] == '.' && forall|j: int| i < j < name.len() ==> name[j] != '.';
        Some(name.subrange(i + 1, name.len() as int))
    } else {
        None
    }
}

pub open spec fn path_extension(path: Seq<char>) -> Option<Seq<char>> {
    match file_name(path) {
        Some(name) => name_extension(name),
        None => None,
    }
}

/// The path starts at the root.
pub open spec fn is_absolute(path: Seq<char>) -> bool {
    path.len() > 0 && path[0] == '/'
}

/// Every component is a plain name: not absolute, no leading `.`, no `..`.
pub open spec fn only_plain_components(path: Seq<char>) -> bool {
    let parts = pieces(path);
    &&& !is_absolute(path)
    &&& parts[0] != seq!['.']
    &&& forall|i: int| 0 <= i < parts.len() ==> !is_parent_piece(#[trigger] parts[i])
}

proof fn lemma_pieces_nonempty(s: Seq<char>)
    ensures
        pieces(s).len() >= 1,
    decreases s.len(),
{
    if s.len() > 0 {
        lemma_pieces_nonempty(s.drop_last());
    }
}

/// Splits a path into its pieces.
pub fn split_pieces(path: &str) -> (parts: Vec<Vec<char>>)
    ensures
        parts@.len() == pieces(path@).len(),
        forall|i: int| 0 <= i < parts@.len() ==> (#[trigger] parts@[i])@ == pieces(path@)[i],
{
    let chars = chars_of(path);
    let mut parts: Vec<Vec<char>> = Vec::new();
    let mut current: Vec<char> = Vec::new();
    let mut i: usize = 0;
    while i < chars.len()
        invariant
            chars@ == path@,
            i <= chars@.len(),
            parts@.len() + 1 == pieces(chars@.subrange(0, i as int)).len(),
            forall|k: int| 0 <= k < parts@.len() ==> (#[trigger] parts@[k])@ == pieces(
                chars@.subrange(0, i as int),
            )[k],
            current@ == pieces(chars@.subrange(0, i as int)).last(),
        decreases chars@.len() - i,
    {
        let ghost prefix = chars@.subrange(0, i as int);
        assert(chars@.subrange(0, i + 1).drop_last() =~= prefix);
        assert(chars@.subrange(0, i + 1).last() == chars@[i as int]);
        proof {
            lemma_pieces_nonempty(prefix);
        }
        let c = chars[i];
        if c == '/' {
            let ghost before = parts@;
            let finished = current;
            parts.push(finished);
            current = Vec::new();
            proof {
                assert forall|k: int| 0 <= k < parts@.len() implies (#[trigger] parts@[k])@ == pieces(
                    chars@.subrange(0, i + 1),
                )[k] by {
                    if k < before.len() {
                        assert(parts@[k] == before[k]);
                    }
                }
                assert(current@ =~= Seq::<char>::empty());
            }
        } else {
            current.push(c);
        }
        i += 1;
    }
    assert(chars@.subrange(0, i as int) =~= path@);
    let ghost before = parts@;
    parts.push(current);
    proof {
        assert forall|k: int| 0 <= k < parts@.len() implies (#[trigger] parts@[k])@ == pieces(path@)[k] by {
            if k < before.len() {
                assert(parts@[k] == before[k]);
            }
        }
    }
    parts
}

fn skipped(piece: &Vec<char>) -> (skip: bool)
    ensures
        skip == is_skipped_piece(piece@),
{
    if piece.len() == 0 {
        return true;
    }
    let single_dot = piece.len() == 1 && piece[0] == '.';
    assert(single_dot == (piece@ == seq!['.'])) by {
        if piece@ == seq!['.'] {
            assert(piece@[0] == '.');
        }
        if single_dot {
            assert(piece@ =~= seq!['.']);
        }
    }
    single_dot
}

fn parent(piece: &Vec<char>) -> (is_parent: bool)
    ensures
        is_parent == is_parent_piece(piece@),
{
    let two_dots = piece.len() == 2 && piece[0] == '.' && piece[1] == '.';
    assert(two_dots == (piece@ == seq!['.', '.'])) by {
        if piece@ == seq!['.', '.'] {
            assert(piece@[0] == '.' && piece@[1] == '.');
        }
        if two_dots {
            assert(piece@ =~= seq!['.', '.']);
        }
    }
    two_dots
}

/// The final component's name, as `Path::file_name` gives it.
pub fn path_file_name(path: &str) -> (name: Option<Vec<char>>)
    ensures
        match file_name(path@) {
            Some(n) => name matches Some(v) && v@ == n,
            None => name is None,
        },
{
    let parts = split_pieces(path);
    let ghost all = pieces(path@);
    let mut k = parts.len();
    assert(all.subrange(0, k as int) =~= all);
    while k > 0 && skipped(&parts[k - 1])
        invariant
            k <= parts@.len(),
            parts@.len() == all.len(),
            all == pieces(path@),
            forall|i: int| 0 <= i < parts@.len() ==> (#[trigger] parts@[i])@ == all[i],
            last_named_piece(all) == last_named_piece(all.subrange(0, k as int)),
        decreases k,
    {
        assert(all.subrange(0, k as int).drop_last() =~= all.subrange(0, k - 1));
        k -= 1;
    }
    if k == 0 {
        assert(all.subrange(0, 0) =~= Seq::<Seq<char>>::empty());
        return None;
    }
    assert(all.subrange(0, k as int).last() == all[k - 1]);
    let piece = &parts[k - 1];
    if parent(piece) {
        return None;
    }
    Some(piece.clone())
}

/// What follows the last dot of a name, as `Path::extension` gives it.
pub fn extension_of_name(name: &Vec<char>) -> (extension: Option<Vec<char>>)
    ensures
        match name_extension(name@) {
            Some(e) => extension matches Some(v) && v@ == e,
            None => extension is None,
        },
{
    let mut i = name.len();
    while i > 1 && name[i - 1] != '.'
        invariant
            i <= name@.len(),
            forall|j: int| i <= j < name@.len() ==> name@[j] != '.',
        decreases i,
    {
        i -= 1;
    }
    if i <= 1 {
        assert(!exists|j: int| 0 < j < name@.len() && name@[j] == '.');
        return None;
    }
    let dot = i - 1;
    proof {
        let c = choose|c: int|
            0 < c < name@.len() && name@[c] == '.' && forall|j: int| c < j < name@.len() ==> name@[j] != '.';
        assert(0 < dot < name@.len() && name@[dot as int] == '.');
        if c < dot {
            assert(name@[dot as int] != '.');
        }
        if c > dot {
            assert(name@[c] != '.');
        }
    }
    let mut out: Vec<char> = Vec::new();
    let mut k = dot + 1;
    while k < name.len()
        invariant
            dot + 1 <= k <= name@.len(),
            out@ == name@.subrange(dot + 1, k as int),
        decreases name@.len() - k,
    {
        out.push(name[k]);
        k += 1;
        assert(out@ =~= name@.subrange(dot + 1, k as int));
    }
    Some(out)
}

/// The path's extension.
pub fn extension_of(path: &str) -> (extension: Option<Vec<char>>)
    ensures
        match path_extension(path@) {
            Some(e) => extension matches Some(v) && v@ == e,
            None => extension is None,
        },
{
    match path_file_name(path) {
        Some(name) => extension_of_name(&name),
        None => None,
    }
}

/// Whether every component is a plain name.
pub fn has_only_plain_components(path: &str) -> (plain: bool)
    ensures
        plain == only_plain_components(path@),
{
    let parts = split_pieces(path);
    let chars = chars_of(path);
    proof {
        lemma_pieces_nonempty(path@);
    }
    if chars.len() > 0 && chars[0] == '/' {
        return false;
    }
    let first = &parts[0];
    let first_dot = first.len() == 1 && first[0] == '.';
    assert(first_dot == (pieces(path@)[0] == seq!['.'])) by {
        if pieces(path@)[0] == seq!['.'] {
            assert(first@[0] == '.');
        }
        if first_dot {
            assert(first@ =~= seq!['.']);
        }
    }
    if first_dot {
        return false;
    }
    let mut i: usize = 0;
    while i < parts.len()
        invariant
            i <= parts@.len(),
            parts@.len() == pieces(path@).len(),
            forall|k: int| 0 <= k < parts@.len() ==> (#[trigger] parts@[k])@ == pieces(path@)[k],
            forall|k: int| 0 <= k < i ==> !is_parent_piece(#[trigger] pieces(path@)[k]),
        decreases parts@.len() - i,
    {
        if parent(&parts[i]) {
            return false;
        }
        i += 1;
    }
    true
}

} // verus!
