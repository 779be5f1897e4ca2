//! The extension of a path.

use vstd::prelude::*;
use vstd::string::*;

use crate::text::{chars_of, find_last};

verus! {

/// Whether a piece of a path between separators names nothing: an empty piece,
/// from a doubled or a trailing separator, or the piece `.`.
pub open spec fn names_nothing(piece: Seq<char>) -> bool {
    piece.len() == 0 || piece == seq!['.']
}

/// The last piece of a path, after the last separator.
pub open spec fn last_piece(path: Seq<char>) -> Seq<char> {
    path.skip(crate::text::last_at(path, '/') + 1)
}

/// The final component of a path, if it is a file or directory name. Pieces
/// that name nothing are passed over; a path that ends in `..` has none.
pub open spec fn file_name(path: Seq<char>) -> Option<Seq<char>>
    decreases path.len(),
{
    let slash = crate::text::last_at(path, '/');
    if names_nothing(last_piece(path)) {
        if 0 <= slash < path.len() {
            file_name(path.take(slash))
        } else {
            None
        }
    } else if last_piece(path) == seq!['.', '.'] {
        None
    } else {
        Some(last_piece(path))
    }
}

/// The extension of a path: what stands in its file name after the last `.`. A
/// file name without a `.`, or with none but a leading one, has no extension.
pub open spec fn extension_of(path: Seq<char>) -> Option<Seq<char>> {
    match file_name(path) {
        Some(name) => if crate::text::last_at(name, '.') > 0 {
            Some(name.skip(crate::text::last_at(name, '.') + 1))
        } else {
            None
        },
        None => None,
    }
}

/// The extension of a path.
pub fn extension(path: &str) -> (ext: Option<&str>)
    ensures
        ext is Some <==> extension_of(path@) is Some,
        ext matches Some(e) ==> extension_of(path@) == Some(e@),
{
    let mut rest: &str = path;
    loop
        invariant
            file_name(path@) == file_name(rest@),
        decreases rest@.len(),
    {
        let chars = chars_of(rest);
        let len: usize = chars.len();
        proof {
            crate::text::lemma_last_at(rest@, '/');
        }
        let start: usize = match find_last(&chars, '/') {
            Some(slash) => slash + 1,
            None => 0,
        };
        assert(last_piece(rest@) == rest@.skip(start as int));
        proof {
            let piece = last_piece(rest@);
            if len > start {
                assert(piece[0] == rest@[start as int]);
            }
            if len - start == 1 && piece[0] == '.' {
                assert(piece =~= seq!['.']);
            }
            if len - start == 2 {
                assert(piece[1] == rest@[start + 1]);
                if piece[0] == '.' && piece[1] == '.' {
                    assert(piece =~= seq!['.', '.']);
                }
            }
        }
        if len == start || (len - start == 1 && chars[start] == '.') {
            if start == 0 {
                return None;
            }
            rest = rest.substring_char(0, start - 1);
        } else {
            if len - start == 2 && chars[start] == '.' && chars[start + 1] == '.' {
                return None;
            }
            let name = rest.substring_char(start, len);
            assert(name@ =~= last_piece(rest@));
            let letters = chars_of(name);
            proof {
                crate::text::lemma_last_at(name@, '.');
            }
            match find_last(&letters, '.') {
                Some(dot) => {
                    if dot > 0 {
                        let ext = name.substring_char(dot + 1, letters.len());
                        assert(ext@ =~= name@.skip(dot + 1));
                        return Some(ext);
                    }
                    return None;
                },
                None => {
                    return None;
                },
            }
        }
    }
}

/// A directory before a file name: nothing, or a path that ends in a separator.
pub open spec fn is_directory(prefix: Seq<char>) -> bool {
    prefix.len() == 0 || prefix.last() == '/'
}

/// A name after a directory is the last piece of the path.
proof fn lemma_last_piece(prefix: Seq<char>, name: Seq<char>)
    requires
        is_directory(prefix),
        !name.contains('/'),
    ensures
        last_piece(prefix + name) == name,
        crate::text::last_at(prefix + name, '/') == prefix.len() - 1,
{
    let path = prefix + name;
    assert forall|j: int| prefix.len() <= j < path.len() implies path[j] != '/' by {
        assert(path[j] == name[j - prefix.len()]);
    }
    crate::text::lemma_last_at_is(path, '/', prefix.len() - 1);
    assert(path.skip(prefix.len() as int) =~= name);
}

/// Wherever a path points, its extension is what follows the last dot of its file
/// name, if something precedes that dot.
pub proof fn law_extension_follows_the_last_dot(
    prefix: Seq<char>,
    stem: Seq<char>,
    ext: Seq<char>,
)
    requires
        is_directory(prefix),
        stem.len() > 0,
        !stem.contains('/'),
        !ext.contains('/'),
        !ext.contains('.'),
        stem != seq!['.'] || ext.len() > 0,
    ensures
        extension_of(prefix + stem + seq!['.'] + ext) == Some(ext),
{
    let name = stem + seq!['.'] + ext;
    let dot = stem.len() as int;
    assert(name[dot] == '.');
    assert forall|j: int| 0 <= j < name.len() implies name[j] != '/' by {
        if j < dot {
            assert(name[j] == stem[j]);
        } else if j > dot {
            assert(name[j] == ext[j - dot - 1]);
        }
    }
    assert forall|j: int| dot < j < name.len() implies name[j] != '.' by {
        assert(name[j] == ext[j - dot - 1]);
    }
    assert(prefix + stem + seq!['.'] + ext =~= prefix + name);
    lemma_last_piece(prefix, name);
    crate::text::lemma_last_at_is(name, '.', dot);
    assert(name.skip(dot + 1) =~= ext);
    assert(name.len() >= 2);
    assert(name != seq!['.', '.']) by {
        if name == seq!['.', '.'] {
            assert(name[0] == stem[0]);
            assert(stem =~= seq!['.']);
        }
    }
}

/// A file name without a dot, or with none but a leading one, has no extension, and
/// neither has a path that ends in `..`.
pub proof fn law_no_dot_no_extension(prefix: Seq<char>, name: Seq<char>)
    requires
        is_directory(prefix),
        name.len() > 0,
        !name.contains('/'),
        name == seq!['.', '.'] || name != seq!['.'] && !name.skip(1).contains('.'),
    ensures
        extension_of(prefix + name) is None,
{
    lemma_last_piece(prefix, name);
    if name != seq!['.', '.'] {
        crate::text::lemma_last_at(name, '.');
        let dot = crate::text::last_at(name, '.');
        if dot > 0 {
            assert(name.skip(1)[dot - 1] == '.');
        }
    }
}

/// Separators and lone dots at the end of a path do not matter to its extension.
pub proof fn law_trailing_separators_do_not_matter(path: Seq<char>)
    ensures
        extension_of(path + seq!['/']) == extension_of(path),
        extension_of(path + seq!['/', '.']) == extension_of(path),
        extension_of(Seq::empty()) is None,
        extension_of(seq!['.']) is None,
{
    let none = Seq::<char>::empty();
    let slashed = path + seq!['/'];
    lemma_last_piece(slashed, none);
    assert(slashed + none =~= slashed);
    assert(slashed.take(path.len() as int) =~= path);
    lemma_last_piece(slashed, seq!['.']);
    assert(slashed + seq!['.'] =~= path + seq!['/', '.']);
    assert((path + seq!['/', '.']).take(path.len() as int) =~= path);
    lemma_last_piece(none, none);
    assert(none + none =~= none);
    lemma_last_piece(none, seq!['.']);
    assert(none + seq!['.'] =~= seq!['.']);
}

} // verus!
